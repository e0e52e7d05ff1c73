//! The grammar of a module's source text.
//!
//! ```text
//! stylesheet := (ws | comment | atrule | selectrule)* end
//! atrule     := '@' identifier ws* rule_text ( ';' | '{' block )
//! selectrule := rule_text '{' block
//! block      := (ws | comment | property | atrule | selectrule)* '}'
//! property   := identifier ws* ':' value_text ';'
//! comment    := '/*' ... '*/'
//! ```
//! `rule_text` and `value_text` run up to the first `;`, `{` or `}`, and are
//! kept without surrounding whitespace. The alternatives are tried in the
//! order written. A block that reaches the end of the input is reported as
//! unterminated; any other failure is reported at the start of the item that
//! could not be read.
use vstd::prelude::*;
use crate::ast::{Child, Node, node_of, nodes_of};
use crate::text::{is_ws, is_ws_exec, trimmed, trim_bounds, string_of_range};

verus! {

/// What went wrong while reading a module.
#[derive(Debug, Clone, Copy, PartialEq, Eq, Structural)]
pub enum ErrorKind {
    /// A block was still open at the end of the input.
    UnterminatedBlock,
    /// An item could not be read.
    Unexpected,
}

/// A syntax error at a character offset of the input.
#[derive(Debug, Clone, Copy, PartialEq, Eq, Structural)]
pub struct Error {
    pub kind: ErrorKind,
    pub pos: usize,
}

pub open spec fn unexpected(i: int) -> Error {
    Error { kind: ErrorKind::Unexpected, pos: i as usize }
}

pub open spec fn unterminated(i: int) -> Error {
    Error { kind: ErrorKind::UnterminatedBlock, pos: i as usize }
}

pub open spec fn is_ident_start(c: char) -> bool {
    ('a' <= c && c <= 'z') || ('A' <= c && c <= 'Z') || c == '_' || c == '-'
}

pub open spec fn is_ident_char(c: char) -> bool {
    is_ident_start(c) || ('0' <= c && c <= '9')
}

pub fn is_ident_start_exec(c: char) -> (r: bool)
    ensures
        r == is_ident_start(c),
{
    ('a' <= c && c <= 'z') || ('A' <= c && c <= 'Z') || c == '_' || c == '-'
}

pub fn is_ident_char_exec(c: char) -> (r: bool)
    ensures
        r == is_ident_char(c),
{
    is_ident_start_exec(c) || ('0' <= c && c <= '9')
}

/// The end of the run of identifier characters that starts at `i`.
pub open spec fn ident_rest(s: Seq<char>, i: int) -> int
    decreases s.len() - i,
{
    if 0 <= i < s.len() && is_ident_char(s[i]) {
        ident_rest(s, i + 1)
    } else {
        i
    }
}

/// The end of the identifier that starts at `i`, or `i` when none does.
pub open spec fn ident_end(s: Seq<char>, i: int) -> int {
    if 0 <= i < s.len() && is_ident_start(s[i]) {
        ident_rest(s, i + 1)
    } else {
        i
    }
}

/// The first position at or after `i` that holds no whitespace.
pub open spec fn skip_ws(s: Seq<char>, i: int) -> int
    decreases s.len() - i,
{
    if 0 <= i < s.len() && is_ws(s[i]) {
        skip_ws(s, i + 1)
    } else {
        i
    }
}

/// The first position at or after `i` that holds `a`, `b` or `c`, or the end.
pub open spec fn stop_at(s: Seq<char>, i: int, a: char, b: char, c: char) -> int
    decreases s.len() - i,
{
    if 0 <= i < s.len() && s[i] != a && s[i] != b && s[i] != c {
        stop_at(s, i + 1, a, b, c)
    } else {
        i
    }
}

/// The position just after the first `*/` at or after `i`, or -1.
pub open spec fn comment_close(s: Seq<char>, i: int) -> int
    decreases s.len() - i,
{
    if i < 0 || i + 1 >= s.len() {
        -1
    } else if s[i] == '*' && s[i + 1] == '/' {
        i + 2
    } else {
        comment_close(s, i + 1)
    }
}

pub open spec fn starts_comment(s: Seq<char>, i: int) -> bool {
    0 <= i && i + 1 < s.len() && s[i] == '/' && s[i + 1] == '*'
}

pub open spec fn prop_colon(s: Seq<char>, i: int) -> int {
    skip_ws(s, ident_end(s, i))
}

pub open spec fn prop_value_end(s: Seq<char>, i: int) -> int {
    stop_at(s, prop_colon(s, i) + 1, ';', '{', '}')
}

/// A property starts at `i`.
pub open spec fn is_property(s: Seq<char>, i: int) -> bool {
    &&& ident_end(s, i) > i
    &&& prop_colon(s, i) < s.len()
    &&& s[prop_colon(s, i)] == ':'
    &&& prop_value_end(s, i) < s.len()
    &&& s[prop_value_end(s, i)] == ';'
}

pub open spec fn non_empty(t: Seq<char>) -> Option<Seq<char>> {
    if t.len() == 0 {
        None
    } else {
        Some(t)
    }
}

pub open spec fn with_children(
    make: spec_fn(Seq<Node>) -> Node,
    r: Result<(Seq<Node>, int), Error>,
) -> Result<(Node, int), Error> {
    match r {
        Ok((cs, e)) => Ok((make(cs), e)),
        Err(x) => Err(x),
    }
}

/// Reads the item that starts at `i`; properties are items only inside a block.
pub open spec fn parse_item(s: Seq<char>, i: int, in_block: bool) -> Result<(Node, int), Error>
    decreases s.len() - i, 0nat,
{
    if i < 0 || i >= s.len() {
        Err(unexpected(i))
    } else if starts_comment(s, i) {
        let e = comment_close(s, i + 2);
        if e < 0 {
            Err(unexpected(i))
        } else {
            Ok((Node::Comment { value: Some(s.subrange(i, e)) }, e))
        }
    } else if in_block && is_property(s, i) {
        let colon = prop_colon(s, i);
        let vend = prop_value_end(s, i);
        Ok(
            (
                Node::Property {
                    name: Some(s.subrange(i, ident_end(s, i))),
                    value: Some(trimmed(s, colon + 1, vend)),
                },
                vend + 1,
            ),
        )
    } else if s[i] == '@' {
        let j = ident_end(s, i + 1);
        let k = skip_ws(s, j);
        let r = stop_at(s, k, ';', '{', '}');
        let name = Some(s.subrange(i + 1, j));
        let rule = non_empty(trimmed(s, k, r));
        // `r < i` never holds: it only makes the recursion visibly finite.
        if j == i + 1 || r < i || r >= s.len() || s[r] == '}' {
            Err(unexpected(i))
        } else if s[r] == ';' {
            Ok((Node::AtRule { name, rule, children: Seq::empty() }, r + 1))
        } else {
            with_children(
                |cs: Seq<Node>| Node::AtRule { name, rule, children: cs },
                parse_block(s, r + 1),
            )
        }
    } else {
        let r = stop_at(s, i, '{', ';', '}');
        if r <= i || r >= s.len() || s[r] != '{' {
            Err(unexpected(i))
        } else {
            let rule = Some(trimmed(s, i, r));
            with_children(
                |cs: Seq<Node>| Node::SelectRule { rule, children: cs },
                parse_block(s, r + 1),
            )
        }
    }
}

/// Reads the items of a block that starts at `i`, up to and including its `}`.
pub open spec fn parse_block(s: Seq<char>, i: int) -> Result<(Seq<Node>, int), Error>
    decreases s.len() - i, 1nat,
{
    if i < 0 || i >= s.len() {
        Err(unterminated(s.len() as int))
    } else if is_ws(s[i]) {
        parse_block(s, i + 1)
    } else if s[i] == '}' {
        Ok((Seq::empty(), i + 1))
    } else {
        match parse_item(s, i, true) {
            Err(x) => Err(x),
            // An item always ends after it starts and within the input; the
            // test only makes the recursion visibly finite.
            Ok((n, j)) => if j <= i || j > s.len() {
                Err(unexpected(i))
            } else {
                match parse_block(s, j) {
                    Ok((ns, e)) => Ok((seq![n] + ns, e)),
                    Err(x) => Err(x),
                }
            },
        }
    }
}

/// Reads the top-level items from `i` to the end of the input.
pub open spec fn parse_sheet(s: Seq<char>, i: int) -> Result<Seq<Node>, Error>
    decreases s.len() - i,
{
    if i < 0 || i >= s.len() {
        Ok(Seq::empty())
    } else if is_ws(s[i]) {
        parse_sheet(s, i + 1)
    } else {
        match parse_item(s, i, false) {
            Err(x) => Err(x),
            // An item always ends after it starts and within the input; the
            // test only makes the recursion visibly finite.
            Ok((n, j)) => if j <= i || j > s.len() {
                Err(unexpected(i))
            } else {
                match parse_sheet(s, j) {
                    Ok(ns) => Ok(seq![n] + ns),
                    Err(x) => Err(x),
                }
            },
        }
    }
}

pub open spec fn item_agrees(
    r: Result<(Child, usize), Error>,
    expected: Result<(Node, int), Error>,
) -> bool {
    match (r, expected) {
        (Ok((c, e)), Ok((n, e2))) => node_of(c) == n && e == e2,
        (Err(x), Err(y)) => x == y,
        _ => false,
    }
}

pub open spec fn block_agrees(
    r: Result<(Vec<Child>, usize), Error>,
    expected: Result<(Seq<Node>, int), Error>,
) -> bool {
    match (r, expected) {
        (Ok((cs, e)), Ok((ns, e2))) => nodes_of(cs@) == ns && e == e2,
        (Err(x), Err(y)) => x == y,
        _ => false,
    }
}

pub open spec fn sheet_agrees(
    r: Result<Vec<Child>, Error>,
    expected: Result<Seq<Node>, Error>,
) -> bool {
    match (r, expected) {
        (Ok(cs), Ok(ns)) => nodes_of(cs@) == ns,
        (Err(x), Err(y)) => x == y,
        _ => false,
    }
}

fn ident_end_exec(s: &[char], i: usize) -> (r: usize)
    requires
        i <= s@.len(),
    ensures
        i <= r <= s@.len(),
        r == ident_end(s@, i as int),
{
    if i < s.len() && is_ident_start_exec(s[i]) {
        let mut k = i + 1;
        while k < s.len() && is_ident_char_exec(s[k])
            invariant
                i < k <= s@.len(),
                ident_rest(s@, k as int) == ident_rest(s@, i + 1),
            decreases s@.len() - k,
        {
            k = k + 1;
        }
        k
    } else {
        i
    }
}

fn skip_ws_exec(s: &[char], i: usize) -> (r: usize)
    requires
        i <= s@.len(),
    ensures
        i <= r <= s@.len(),
        r == skip_ws(s@, i as int),
{
    let mut k = i;
    while k < s.len() && is_ws_exec(s[k])
        invariant
            i <= k <= s@.len(),
            skip_ws(s@, k as int) == skip_ws(s@, i as int),
        decreases s@.len() - k,
    {
        k = k + 1;
    }
    k
}

fn stop_at_exec(s: &[char], i: usize, a: char, b: char, c: char) -> (r: usize)
    requires
        i <= s@.len(),
    ensures
        i <= r <= s@.len(),
        r == stop_at(s@, i as int, a, b, c),
{
    let mut k = i;
    while k < s.len() && s[k] != a && s[k] != b && s[k] != c
        invariant
            i <= k <= s@.len(),
            stop_at(s@, k as int, a, b, c) == stop_at(s@, i as int, a, b, c),
        decreases s@.len() - k,
    {
        k = k + 1;
    }
    k
}

fn comment_close_exec(s: &[char], i: usize) -> (r: Option<usize>)
    requires
        i <= s@.len(),
    ensures
        match r {
            Some(e) => e == comment_close(s@, i as int) && i + 2 <= e <= s@.len(),
            None => comment_close(s@, i as int) == -1,
        },
{
    let mut k = i;
    while k < s.len() && k + 1 < s.len()
        invariant
            i <= k <= s@.len(),
            comment_close(s@, k as int) == comment_close(s@, i as int),
        decreases s@.len() - k,
    {
        if s[k] == '*' && s[k + 1] == '/' {
            return Some(k + 2);
        }
        k = k + 1;
    }
    None
}

fn text_of(s: &[char], lo: usize, hi: usize) -> (r: String)
    requires
        lo <= hi <= s@.len(),
    ensures
        r@ == s@.subrange(lo as int, hi as int),
{
    string_of_range(s, lo, hi)
}

fn trimmed_text(s: &[char], lo: usize, hi: usize) -> (r: String)
    requires
        lo <= hi <= s@.len(),
    ensures
        r@ == trimmed(s@, lo as int, hi as int),
{
    let (a, b) = trim_bounds(s, lo, hi);
    string_of_range(s, a, b)
}

fn parse_item_exec(s: &[char], i: usize, in_block: bool) -> (r: Result<(Child, usize), Error>)
    requires
        i < s@.len(),
    ensures
        item_agrees(r, parse_item(s@, i as int, in_block)),
        r is Ok ==> r->Ok_0.1 <= s@.len(),
    decreases s@.len() - i, 0nat,
{
    if i < s.len() && i + 1 < s.len() && s[i] == '/' && s[i + 1] == '*' {
        match comment_close_exec(s, i + 2) {
            None => Err(Error { kind: ErrorKind::Unexpected, pos: i }),
            Some(e) => Ok((Child::Comment { value: Some(text_of(s, i, e)) }, e)),
        }
    } else {
        if in_block {
            let j = ident_end_exec(s, i);
            let colon = skip_ws_exec(s, j);
            if j > i && colon < s.len() && s[colon] == ':' {
                let vend = stop_at_exec(s, colon + 1, ';', '{', '}');
                if vend < s.len() && s[vend] == ';' {
                    let name = text_of(s, i, j);
                    let value = trimmed_text(s, colon + 1, vend);
                    return Ok((Child::Property { name: Some(name), value: Some(value) }, vend + 1));
                }
            }
        }
        if s[i] == '@' {
            let j = ident_end_exec(s, i + 1);
            let k = skip_ws_exec(s, j);
            let r = stop_at_exec(s, k, ';', '{', '}');
            if j == i + 1 || r >= s.len() || s[r] == '}' {
                return Err(Error { kind: ErrorKind::Unexpected, pos: i });
            }
            let name = text_of(s, i + 1, j);
            let (a, b) = trim_bounds(s, k, r);
            let rule = if a < b {
                Some(string_of_range(s, a, b))
            } else {
                None
            };
            if s[r] == ';' {
                Ok((Child::AtRule { name: Some(name), rule, children: Vec::new() }, r + 1))
            } else {
                match parse_block_exec(s, r + 1) {
                    Ok((children, e)) => Ok((Child::AtRule { name: Some(name), rule, children }, e)),
                    Err(x) => Err(x),
                }
            }
        } else {
            let r = stop_at_exec(s, i, '{', ';', '}');
            if r <= i || r >= s.len() || s[r] != '{' {
                return Err(Error { kind: ErrorKind::Unexpected, pos: i });
            }
            let rule = trimmed_text(s, i, r);
            match parse_block_exec(s, r + 1) {
                Ok((children, e)) => Ok((Child::SelectRule { rule: Some(rule), children }, e)),
                Err(x) => Err(x),
            }
        }
    }
}

fn parse_block_exec(s: &[char], i0: usize) -> (r: Result<(Vec<Child>, usize), Error>)
    requires
        i0 <= s@.len(),
    ensures
        block_agrees(r, parse_block(s@, i0 as int)),
        r is Ok ==> r->Ok_0.1 <= s@.len(),
    decreases s@.len() - i0, 1nat,
{
    let mut acc: Vec<Child> = Vec::new();
    let mut i = i0;
    loop
        invariant
            i0 <= i <= s@.len(),
            parse_block(s@, i0 as int) == match parse_block(s@, i as int) {
                Ok((ns, e)) => Ok((nodes_of(acc@) + ns, e)),
                Err(x) => Err(x),
            },
        decreases s@.len() - i,
    {
        if i >= s.len() {
            return Err(Error { kind: ErrorKind::UnterminatedBlock, pos: s.len() });
        } else if is_ws_exec(s[i]) {
            i = i + 1;
        } else if s[i] == '}' {
            proof {
                assert(nodes_of(acc@) + Seq::<Node>::empty() =~= nodes_of(acc@));
            }
            return Ok((acc, i + 1));
        } else {
            match parse_item_exec(s, i, true) {
                Err(x) => {
                    return Err(x);
                },
                Ok((c, j)) => {
                    if j <= i {
                        return Err(Error { kind: ErrorKind::Unexpected, pos: i });
                    }
                    let ghost old_acc = acc@;
                    let ghost n = node_of(c);
                    acc.push(c);
                    proof {
                        assert(acc@.drop_last() =~= old_acc);
                        assert forall|ns: Seq<Node>|
                            #![auto]
                            nodes_of(old_acc) + (seq![n] + ns) =~= nodes_of(acc@) + ns by {}
                    }
                    i = j;
                },
            }
        }
    }
}

/// Reads the items of a module's source text.
pub fn parse_sheet_exec(s: &[char]) -> (r: Result<Vec<Child>, Error>)
    ensures
        sheet_agrees(r, parse_sheet(s@, 0)),
{
    let mut acc: Vec<Child> = Vec::new();
    let mut i: usize = 0;
    loop
        invariant
            i <= s@.len(),
            parse_sheet(s@, 0) == match parse_sheet(s@, i as int) {
                Ok(ns) => Ok(nodes_of(acc@) + ns),
                Err(x) => Err(x),
            },
        decreases s@.len() - i,
    {
        if i >= s.len() {
            proof {
                assert(nodes_of(acc@) + Seq::<Node>::empty() =~= nodes_of(acc@));
            }
            return Ok(acc);
        } else if is_ws_exec(s[i]) {
            i = i + 1;
        } else {
            match parse_item_exec(s, i, false) {
                Err(x) => {
                    return Err(x);
                },
                Ok((c, j)) => {
                    if j <= i {
                        return Err(Error { kind: ErrorKind::Unexpected, pos: i });
                    }
                    let ghost old_acc = acc@;
                    let ghost n = node_of(c);
                    acc.push(c);
                    proof {
                        assert(acc@.drop_last() =~= old_acc);
                        assert forall|ns: Seq<Node>|
                            #![auto]
                            nodes_of(old_acc) + (seq![n] + ns) =~= nodes_of(acc@) + ns by {}
                    }
                    i = j;
                },
            }
        }
    }
}


/// Reads the items of a module's source text.
pub fn stylesheet(input: &str) -> (r: Result<Vec<Child>, Error>)
    ensures
        sheet_agrees(r, parse_sheet(input@, 0)),
{
    let v = crate::text::chars_of(input);
    parse_sheet_exec(v.as_slice())
}

} // verus!
