//! A first form of syntax trees that writes HTML tags without user functions.

use vstd::prelude::*;

use crate::state::State;

verus! {

/// A node of a program.
#[derive(Debug)]
pub enum ActionKind {
    /// Final unit of code that represents a constant string.
    ConstString(String),
    /// A function that generates an HTML tag with attributes and an optional body.
    Function { tag_name: String, arguments: Vec<(String, ActionKind)>, body: Option<Box<ActionKind>> },
    /// A tag whose body holds several children, such as a div.
    FunctionSequence { tag_name: String, arguments: Vec<(String, ActionKind)>, body: Vec<ActionKind> },
    /// A variable; this form of tree cannot yet run one.
    GetVariable(String),
}

/// The HTML a node writes; nothing when it holds a variable, which cannot run.
pub open spec fn render(a: ActionKind) -> Option<Seq<char>>
    decreases a, 0int,
{
    match a {
        ActionKind::ConstString(s) => Some(s@),
        ActionKind::Function { tag_name, arguments, body } => match render_attrs(arguments@) {
            None => None,
            Some(t) => {
                let head = "<"@ + tag_name@ + " "@ + t + ">"@;
                match body {
                    None => Some(head + "</"@ + tag_name@ + ">"@),
                    Some(b) => match render(*b) {
                        None => None,
                        Some(bt) => Some(head + bt + "</"@ + tag_name@ + ">"@),
                    },
                }
            },
        },
        ActionKind::FunctionSequence { tag_name, arguments, body } => match render_attrs(arguments@) {
            None => None,
            Some(t) => match render_items(body@) {
                None => None,
                Some(bt) => Some("<"@ + tag_name@ + " "@ + t + ">"@ + bt + "</"@ + tag_name@ + ">"@),
            },
        },
        ActionKind::GetVariable(_) => None,
    }
}

/// Attributes written `name="value"`, one after another.
pub open spec fn render_attrs(s: Seq<(String, ActionKind)>) -> Option<Seq<char>>
    decreases s, 1int,
{
    if s.len() == 0 {
        Some(Seq::empty())
    } else {
        match render_attrs(s.drop_last()) {
            None => None,
            Some(t) => match render(s.last().1) {
                None => None,
                Some(v) => Some(t + s.last().0@ + "=\""@ + v + "\""@),
            },
        }
    }
}

/// Children written one after another.
pub open spec fn render_items(s: Seq<ActionKind>) -> Option<Seq<char>>
    decreases s, 1int,
{
    if s.len() == 0 {
        Some(Seq::empty())
    } else {
        match render_items(s.drop_last()) {
            None => None,
            Some(t) => match render(s.last()) {
                None => None,
                Some(v) => Some(t + v),
            },
        }
    }
}

proof fn lemma_attrs_prefix(s: Seq<(String, ActionKind)>, k: int)
    requires
        0 <= k <= s.len(),
        render_attrs(s) is Some,
    ensures
        render_attrs(s.take(k)) is Some,
    decreases s.len() - k,
{
    if k < s.len() {
        lemma_attrs_prefix(s, k + 1);
        assert(s.take(k + 1).drop_last() =~= s.take(k));
    } else {
        assert(s.take(k) =~= s);
    }
}

proof fn lemma_items_prefix(s: Seq<ActionKind>, k: int)
    requires
        0 <= k <= s.len(),
        render_items(s) is Some,
    ensures
        render_items(s.take(k)) is Some,
    decreases s.len() - k,
{
    if k < s.len() {
        lemma_items_prefix(s, k + 1);
        assert(s.take(k + 1).drop_last() =~= s.take(k));
    } else {
        assert(s.take(k) =~= s);
    }
}

/// Writes the attributes of a tag.
fn generate_attrs(arguments: &Vec<(String, ActionKind)>, state: &mut State) -> (r: String)
    requires
        render_attrs(arguments@) is Some,
    ensures
        render_attrs(arguments@) == Some(r@),
        *final(state) == *old(state),
    decreases arguments@, 0int,
{
    let mut r = String::new();
    let mut i: usize = 0;
    assert(arguments@.take(0) =~= Seq::<(String, ActionKind)>::empty());
    while i < arguments.len()
        invariant
            i <= arguments.len(),
            render_attrs(arguments@) is Some,
            render_attrs(arguments@.take(i as int)) == Some(r@),
            *state == *old(state),
        decreases arguments.len() - i,
    {
        proof {
            lemma_attrs_prefix(arguments@, i + 1);
            assert(arguments@.take(i + 1).drop_last() =~= arguments@.take(i as int));
        }
        let v = arguments[i].1.generate(state);
        r.append(arguments[i].0.as_str());
        r.append("=\"");
        r.append(v.as_str());
        r.append("\"");
        proof {
            assert(arguments@.take(i + 1).last() == arguments@[i as int]);
            assert(Some(r@) =~= render_attrs(arguments@.take(i + 1)));
        }
        i += 1;
    }
    assert(arguments@.take(i as int) =~= arguments@);
    r
}

/// Writes the children of a tag.
fn generate_items(items: &Vec<ActionKind>, state: &mut State) -> (r: String)
    requires
        render_items(items@) is Some,
    ensures
        render_items(items@) == Some(r@),
        *final(state) == *old(state),
    decreases items@, 0int,
{
    let mut r = String::new();
    let mut i: usize = 0;
    assert(items@.take(0) =~= Seq::<ActionKind>::empty());
    while i < items.len()
        invariant
            i <= items.len(),
            render_items(items@) is Some,
            render_items(items@.take(i as int)) == Some(r@),
            *state == *old(state),
        decreases items.len() - i,
    {
        proof {
            lemma_items_prefix(items@, i + 1);
            assert(items@.take(i + 1).drop_last() =~= items@.take(i as int));
        }
        let v = items[i].generate(state);
        r.append(v.as_str());
        proof {
            assert(items@.take(i + 1).last() == items@[i as int]);
            assert(Some(r@) =~= render_items(items@.take(i + 1)));
        }
        i += 1;
    }
    assert(items@.take(i as int) =~= items@);
    r
}

impl ActionKind {
    /// Writes the HTML of the node. The state is passed on to the children and not changed.
    pub fn generate(&self, state: &mut State) -> (r: String)
        requires
            render(*self) is Some,
        ensures
            render(*self) == Some(r@),
            *final(state) == *old(state),
        decreases self, 1int,
    {
        match self {
            ActionKind::ConstString(s) => s.clone(),
            ActionKind::Function { tag_name, arguments, body } => {
                let mut result = String::new();
                result.append("<");
                result.append(tag_name.as_str());
                result.append(" ");
                let a = generate_attrs(arguments, state);
                result.append(a.as_str());
                result.append(">");
                match body {
                    Some(b) => {
                        let t = b.generate(state);
                        result.append(t.as_str());
                    },
                    None => {},
                }
                result.append("</");
                result.append(tag_name.as_str());
                result.append(">");
                proof {
                    assert(Some(result@) =~= render(*self));
                }
                result
            },
            ActionKind::FunctionSequence { tag_name, arguments, body } => {
                let mut result = String::new();
                result.append("<");
                result.append(tag_name.as_str());
                result.append(" ");
                let a = generate_attrs(arguments, state);
                result.append(a.as_str());
                result.append(">");
                let t = generate_items(body, state);
                result.append(t.as_str());
                result.append("</");
                result.append(tag_name.as_str());
                result.append(">");
                proof {
                    assert(Some(result@) =~= render(*self));
                }
                result
            },
            ActionKind::GetVariable(_) => {
                assert(false);
                String::new()
            },
        }
    }
}

} // verus!
