//! The syntax tree of a module, and how it renders as CSS text.
use vstd::prelude::*;
use crate::text::{chars_of, push_char, push_range, push_str, trim_bounds, trim_seq};

verus! {

/// A syntax node of a module, as emitted into the bundle.
#[derive(Debug, PartialEq)]
pub enum Child {
    AtRule { name: Option<String>, rule: Option<String>, children: Vec<Child> },
    Comment { value: Option<String> },
    Property { name: Option<String>, value: Option<String> },
    SelectRule { rule: Option<String>, children: Vec<Child> },
}

/// The mathematical value of a [`Child`].
pub enum Node {
    AtRule { name: Option<Seq<char>>, rule: Option<Seq<char>>, children: Seq<Node> },
    Comment { value: Option<Seq<char>> },
    Property { name: Option<Seq<char>>, value: Option<Seq<char>> },
    SelectRule { rule: Option<Seq<char>>, children: Seq<Node> },
}

pub open spec fn opt_chars(o: Option<String>) -> Option<Seq<char>> {
    match o {
        Some(s) => Some(s@),
        None => None,
    }
}

/// The value of a child.
pub open spec fn node_of(c: Child) -> Node
    decreases c,
{
    match c {
        Child::AtRule { name, rule, children } => Node::AtRule {
            name: opt_chars(name),
            rule: opt_chars(rule),
            children: nodes_of(children@),
        },
        Child::Comment { value } => Node::Comment { value: opt_chars(value) },
        Child::Property { name, value } => Node::Property {
            name: opt_chars(name),
            value: opt_chars(value),
        },
        Child::SelectRule { rule, children } => Node::SelectRule {
            rule: opt_chars(rule),
            children: nodes_of(children@),
        },
    }
}

/// The values of a sequence of children.
pub open spec fn nodes_of(cs: Seq<Child>) -> Seq<Node>
    decreases cs,
{
    if cs.len() == 0 {
        Seq::empty()
    } else {
        nodes_of(cs.drop_last()).push(node_of(cs.last()))
    }
}

/// The CSS text of a node. A selector rule without children renders as
/// nothing; an at-rule or selector rule with children renders its block on
/// one line; a property renders as `name: value; `.
pub open spec fn css_of(n: Node) -> Seq<char>
    decreases n,
{
    match n {
        Node::AtRule { name, rule, children } => match (name, rule) {
            (Some(nm), Some(r)) => if children.len() == 0 {
                seq!['@'] + nm + seq![' '] + trim_seq(r) + seq![';', ' ']
            } else {
                seq!['@'] + nm + seq![' '] + trim_seq(r) + seq![' ', '{', ' '] + css_of_list(
                    children,
                ) + seq!['}', '\n']
            },
            (Some(nm), None) => if children.len() == 0 {
                seq!['@'] + nm + seq![';']
            } else {
                seq!['@'] + nm + seq![' ', '{', ' '] + css_of_list(children) + seq!['}', '\n']
            },
            (None, _) => Seq::empty(),
        },
        Node::SelectRule { rule, children } => if children.len() == 0 {
            Seq::empty()
        } else {
            match rule {
                Some(r) => r + seq![' ', '{', ' '] + css_of_list(children) + seq!['}', '\n'],
                None => Seq::empty(),
            }
        },
        Node::Property { name, value } => match (name, value) {
            (Some(nm), Some(v)) => nm + seq![':', ' '] + v + seq![';', ' '],
            (Some(nm), None) => nm + seq![':', ';', ' '],
            (None, _) => Seq::empty(),
        },
        Node::Comment { value } => match value {
            Some(v) => v,
            None => Seq::empty(),
        },
    }
}

/// The CSS text of a sequence of nodes, one after the other.
pub open spec fn css_of_list(ns: Seq<Node>) -> Seq<char>
    decreases ns,
{
    if ns.len() == 0 {
        Seq::empty()
    } else {
        css_of_list(ns.drop_last()) + css_of(ns.last())
    }
}

/// A selector rule without declarations leaves nothing in the output.
pub proof fn lemma_empty_rule_renders_nothing(rule: Option<Seq<char>>)
    ensures
        css_of(Node::SelectRule { rule, children: Seq::empty() }) == Seq::<char>::empty(),
{
}

pub proof fn lemma_nodes_of_len(cs: Seq<Child>)
    ensures
        nodes_of(cs).len() == cs.len(),
    decreases cs.len(),
{
    if cs.len() > 0 {
        lemma_nodes_of_len(cs.drop_last());
    }
}

/// The value of a sequence of children holds the value of each child at its place.
pub proof fn lemma_nodes_of_index(cs: Seq<Child>, i: int)
    requires
        0 <= i < cs.len(),
    ensures
        nodes_of(cs).len() == cs.len(),
        nodes_of(cs)[i] == node_of(cs[i]),
    decreases cs.len(),
{
    lemma_nodes_of_len(cs);
    if i < cs.len() - 1 {
        lemma_nodes_of_index(cs.drop_last(), i);
    }
}

proof fn lemma_nodes_of_prefix(cs: Seq<Child>, i: int)
    requires
        0 <= i < cs.len(),
    ensures
        nodes_of(cs.subrange(0, i + 1)) == nodes_of(cs.subrange(0, i)).push(node_of(cs[i])),
{
    assert(cs.subrange(0, i + 1).drop_last() =~= cs.subrange(0, i));
}

fn write_str(out: &mut String, t: &str)
    ensures
        final(out)@ == old(out)@ + t@,
{
    push_str(out, t);
}

fn write_trimmed(out: &mut String, t: &String)
    ensures
        final(out)@ == old(out)@ + trim_seq(t@),
{
    let v = chars_of(t.as_str());
    let (a, b) = trim_bounds(v.as_slice(), 0, v.len());
    push_range(out, v.as_slice(), a, b);
}

pub fn write_children(cs: &Vec<Child>, out: &mut String)
    ensures
        final(out)@ == old(out)@ + css_of_list(nodes_of(cs@)),
    decreases cs, 0nat,
{
    let mut i: usize = 0;
    proof {
        assert(cs@.subrange(0, 0) =~= Seq::<Child>::empty());
        assert(nodes_of(cs@.subrange(0, 0)) =~= Seq::<Node>::empty());
    }
    while i < cs.len()
        invariant
            i <= cs@.len(),
            out@ == old(out)@ + css_of_list(nodes_of(cs@.subrange(0, i as int))),
        decreases cs@.len() - i,
    {
        write_child(&cs[i], out);
        proof {
            lemma_nodes_of_prefix(cs@, i as int);
            let ns = nodes_of(cs@.subrange(0, i as int)).push(node_of(cs@[i as int]));
            assert(ns.drop_last() =~= nodes_of(cs@.subrange(0, i as int)));
        }
        i = i + 1;
    }
    proof {
        assert(cs@.subrange(0, cs@.len() as int) =~= cs@);
    }
}

fn write_block(cs: &Vec<Child>, out: &mut String)
    ensures
        final(out)@ == old(out)@ + seq![' ', '{', ' '] + css_of_list(nodes_of(cs@)) + seq!['}', '\n'],
    decreases cs, 1nat,
{
    let ghost start = out@;
    push_char(out, ' ');
    push_char(out, '{');
    push_char(out, ' ');
    write_children(cs, out);
    push_char(out, '}');
    push_char(out, '\n');
    proof {
        assert(out@ =~= start + seq![' ', '{', ' '] + css_of_list(nodes_of(cs@)) + seq!['}', '\n']);
    }
}

/// Appends the CSS text of `c` to `out`.
pub fn write_child(c: &Child, out: &mut String)
    ensures
        final(out)@ == old(out)@ + css_of(node_of(*c)),
    decreases c, 2nat,
{
    let ghost start = out@;
    match c {
        Child::AtRule { name, rule, children } => {
            proof {
                lemma_nodes_of_len(children@);
            }
            match (name, rule) {
                (Some(nm), Some(r)) => {
                    push_char(out, '@');
                    write_str(out, nm.as_str());
                    push_char(out, ' ');
                    write_trimmed(out, r);
                    if children.len() == 0 {
                        push_char(out, ';');
                        push_char(out, ' ');
                        proof {
                            assert(out@ =~= start + css_of(node_of(*c)));
                        }
                    } else {
                        write_block(children, out);
                        proof {
                            assert(out@ =~= start + css_of(node_of(*c)));
                        }
                    }
                },
                (Some(nm), None) => {
                    push_char(out, '@');
                    write_str(out, nm.as_str());
                    if children.len() == 0 {
                        push_char(out, ';');
                        proof {
                            assert(out@ =~= start + css_of(node_of(*c)));
                        }
                    } else {
                        write_block(children, out);
                        proof {
                            assert(out@ =~= start + css_of(node_of(*c)));
                        }
                    }
                },
                (None, _) => {
                    proof {
                        assert(out@ =~= start + css_of(node_of(*c)));
                    }
                },
            }
        },
        Child::SelectRule { rule, children } => {
            proof {
                lemma_nodes_of_len(children@);
            }
            if children.len() == 0 {
                proof {
                    assert(out@ =~= start + css_of(node_of(*c)));
                }
            } else {
                match rule {
                    Some(r) => {
                        write_str(out, r.as_str());
                        write_block(children, out);
                        proof {
                            assert(out@ =~= start + css_of(node_of(*c)));
                        }
                    },
                    None => {
                        proof {
                            assert(out@ =~= start + css_of(node_of(*c)));
                        }
                    },
                }
            }
        },
        Child::Property { name, value } => {
            match (name, value) {
                (Some(nm), Some(v)) => {
                    write_str(out, nm.as_str());
                    push_char(out, ':');
                    push_char(out, ' ');
                    write_str(out, v.as_str());
                    push_char(out, ';');
                    push_char(out, ' ');
                },
                (Some(nm), None) => {
                    write_str(out, nm.as_str());
                    push_char(out, ':');
                    push_char(out, ';');
                    push_char(out, ' ');
                },
                (None, _) => {},
            }
            proof {
                assert(out@ =~= start + css_of(node_of(*c)));
            }
        },
        Child::Comment { value } => {
            match value {
                Some(v) => write_str(out, v.as_str()),
                None => {},
            }
            proof {
                assert(out@ =~= start + css_of(node_of(*c)));
            }
        },
    }
}

impl Child {
    /// The CSS text of this child.
    pub fn to_css(&self) -> (r: String)
        ensures
            r@ == css_of(node_of(*self)),
    {
        let mut out = String::new();
        write_child(self, &mut out);
        proof {
            assert(out@ =~= css_of(node_of(*self)));
        }
        out
    }
}

} // verus!
