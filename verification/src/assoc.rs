//! Association lists keyed by strings: the maps of names that the language uses for call
//! arguments, variable scopes and user functions. Inserting a present key replaces its value
//! in place, as a hash map's `insert` does; a key is looked up at its first occurrence.

use vstd::prelude::*;

verus! {

/// The index of the first entry whose key is `k`, or -1 when no entry has that key.
pub open spec fn key_index<V>(s: Seq<(String, V)>, k: Seq<char>) -> int
    decreases s.len(),
{
    if s.len() == 0 {
        -1
    } else {
        let p = key_index(s.drop_last(), k);
        if p >= 0 {
            p
        } else if s.last().0@ == k {
            s.len() - 1
        } else {
            -1
        }
    }
}

/// The map that an association list stands for: each key to the value of its first entry.
pub open spec fn assoc_map<V>(s: Seq<(String, V)>) -> Map<Seq<char>, V>
    decreases s.len(),
{
    if s.len() == 0 {
        Map::empty()
    } else {
        let m = assoc_map(s.drop_last());
        if m.contains_key(s.last().0@) {
            m
        } else {
            m.insert(s.last().0@, s.last().1)
        }
    }
}

/// The list after inserting `k` with `v`: the first entry with key `k` gets the new value,
/// or the pair is appended when the key is absent.
pub open spec fn assoc_insert_spec<V>(s: Seq<(String, V)>, key: String, v: V) -> Seq<(String, V)> {
    let i = key_index(s, key@);
    if i >= 0 {
        s.update(i, (key, v))
    } else {
        s.push((key, v))
    }
}

/// `key_index` finds the first entry with the key, and only such an entry.
pub proof fn lemma_key_index<V>(s: Seq<(String, V)>, k: Seq<char>)
    ensures
        -1 <= key_index(s, k) < s.len(),
        key_index(s, k) >= 0 ==> s[key_index(s, k)].0@ == k,
        forall|j: int| 0 <= j < s.len() && (key_index(s, k) < 0 || j < key_index(s, k)) ==> #[trigger] s[j].0@ != k,
    decreases s.len(),
{
    if s.len() > 0 {
        lemma_key_index(s.drop_last(), k);
        assert forall|j: int| 0 <= j < s.len() - 1 implies s.drop_last()[j] == #[trigger] s[j] by {}
    }
}

/// Two lists whose keys agree position by position find every key at the same index.
pub proof fn lemma_key_index_same_keys<V>(s1: Seq<(String, V)>, s2: Seq<(String, V)>, k: Seq<char>)
    requires
        s1.len() == s2.len(),
        forall|j: int| 0 <= j < s1.len() ==> #[trigger] s1[j].0@ == s2[j].0@,
    ensures
        key_index(s1, k) == key_index(s2, k),
    decreases s1.len(),
{
    if s1.len() > 0 {
        lemma_key_index_same_keys(s1.drop_last(), s2.drop_last(), k);
        assert(s1.last().0@ == s2[s2.len() - 1].0@);
    }
}

/// The map holds a key exactly when the list has an entry with it, with the first entry's value.
pub proof fn lemma_assoc_map<V>(s: Seq<(String, V)>, k: Seq<char>)
    ensures
        assoc_map(s).contains_key(k) <==> key_index(s, k) >= 0,
        key_index(s, k) >= 0 ==> assoc_map(s)[k] == s[key_index(s, k)].1,
    decreases s.len(),
{
    if s.len() > 0 {
        lemma_assoc_map(s.drop_last(), k);
        lemma_assoc_map(s.drop_last(), s.last().0@);
        lemma_key_index(s.drop_last(), k);
    }
}

/// Inserting into the list inserts into the map it stands for.
pub proof fn lemma_assoc_insert<V>(s: Seq<(String, V)>, key: String, v: V)
    ensures
        assoc_map(assoc_insert_spec(s, key, v)) == assoc_map(s).insert(key@, v),
{
    let t = assoc_insert_spec(s, key, v);
    let i = key_index(s, key@);
    lemma_key_index(s, key@);
    assert forall|k: Seq<char>| #[trigger] assoc_map(t).contains_key(k) == assoc_map(s).insert(key@, v).contains_key(k)
        && (assoc_map(t).contains_key(k) ==> assoc_map(t)[k] == assoc_map(s).insert(key@, v)[k]) by {
        lemma_assoc_map(s, k);
        lemma_assoc_map(t, k);
        lemma_key_index(s, k);
        lemma_key_index(t, k);
        if i >= 0 {
            assert forall|j: int| 0 <= j < s.len() implies #[trigger] s[j].0@ == t[j].0@ by {}
            lemma_key_index_same_keys(s, t, k);
        } else {
            assert(t.drop_last() =~= s);
        }
    }
    assert(assoc_map(t) =~= assoc_map(s).insert(key@, v));
}

/// The position of the first entry whose key is `key`.
pub fn find_key<V>(entries: &Vec<(String, V)>, key: &String) -> (r: Option<usize>)
    ensures
        match r {
            Some(i) => i < entries@.len() && i as int == key_index(entries@, key@),
            None => key_index(entries@, key@) == -1,
        },
{
    proof {
        lemma_key_index(entries@, key@);
    }
    let mut i: usize = 0;
    while i < entries.len()
        invariant
            i <= entries.len(),
            forall|j: int| 0 <= j < i ==> #[trigger] entries@[j].0@ != key@,
            -1 <= key_index(entries@, key@) < entries@.len(),
            key_index(entries@, key@) >= 0 ==> entries@[key_index(entries@, key@)].0@ == key@,
            forall|j: int| 0 <= j < entries@.len() && (key_index(entries@, key@) < 0 || j < key_index(entries@, key@)) ==> #[trigger] entries@[j].0@ != key@,
        decreases entries.len() - i,
    {
        if entries[i].0 == *key {
            return Some(i);
        }
        i += 1;
    }
    None
}

/// Inserts `value` under `key`: replaces the value of an entry with that key, else appends.
pub fn assoc_insert<V>(entries: &mut Vec<(String, V)>, key: String, value: V)
    ensures
        final(entries)@ == assoc_insert_spec(old(entries)@, key, value),
{
    match find_key(entries, &key) {
        Some(i) => {
            entries.set(i, (key, value));
        },
        None => {
            entries.push((key, value));
        },
    }
}

/// The value of the first entry whose key is `key`.
pub fn assoc_get<'a, V>(entries: &'a Vec<(String, V)>, key: &String) -> (r: Option<&'a V>)
    ensures
        match r {
            Some(v) => key_index(entries@, key@) >= 0 && *v == entries@[key_index(entries@, key@)].1,
            None => key_index(entries@, key@) == -1,
        },
{
    match find_key(entries, key) {
        Some(i) => Some(&entries[i].1),
        None => None,
    }
}

} // verus!
