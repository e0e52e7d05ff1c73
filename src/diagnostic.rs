//! Rendering of syntax errors: the line and column of the error, the source
//! line, and a marker under it.
use vstd::prelude::*;
use crate::names::{decimal, push_decimal};
use crate::syntax::{ErrorKind, Error};
use crate::text::{chars_of, push_char, push_range, push_str};

verus! {

/// The start of the line that holds position `i`.
pub open spec fn line_start(s: Seq<char>, i: int) -> int
    decreases i,
{
    if i <= 0 {
        0
    } else if s[i - 1] == '\n' {
        i
    } else {
        line_start(s, i - 1)
    }
}

/// The number of line breaks in `s[..i]`.
pub open spec fn breaks_before(s: Seq<char>, i: int) -> nat
    decreases i,
{
    if i <= 0 {
        0
    } else {
        breaks_before(s, i - 1) + if s[i - 1] == '\n' { 1nat } else { 0nat }
    }
}

/// The end of the line that holds position `i`.
pub open spec fn line_end(s: Seq<char>, i: int) -> int
    decreases s.len() - i,
{
    if i < 0 || i >= s.len() || s[i] == '\n' {
        i
    } else {
        line_end(s, i + 1)
    }
}

/// The 1-based line of position `i`.
pub open spec fn line_of(s: Seq<char>, i: int) -> nat {
    breaks_before(s, i) + 1
}

/// The 1-based column of position `i`.
pub open spec fn column_of(s: Seq<char>, i: int) -> nat {
    (i - line_start(s, i) + 1) as nat
}

pub open spec fn spaces(n: nat) -> Seq<char> {
    Seq::new(n, |k: int| ' ')
}

pub open spec fn kind_message(k: ErrorKind) -> Seq<char> {
    match k {
        ErrorKind::UnterminatedBlock => "Unterminated ruleset"@,
        ErrorKind::Unexpected => "Unexpected error"@,
    }
}

/// The report of `e` for the source text `s`:
/// ```text
///  {line} ┊ {source line}
///     {pad}│
///     {pad}╰ {message} at {line}:{column}
/// ```
/// where `pad` is as many spaces as the column, and at least as many as the
/// digits of the line number.
pub open spec fn diagnostic(s: Seq<char>, e: Error) -> Seq<char> {
    let line = decimal(line_of(s, e.pos as int));
    let col = column_of(s, e.pos as int);
    let width = if line.len() > col { line.len() } else { col };
    let text = s.subrange(line_start(s, e.pos as int), line_end(s, e.pos as int));
    " "@ + line + " ┊ "@ + text + "\n    "@ + spaces(width) + "│\n    "@ + spaces(width) + "╰ "@
        + kind_message(e.kind) + " at "@ + line + ":"@ + decimal(col)
}

fn push_spaces(out: &mut String, n: usize)
    ensures
        final(out)@ == old(out)@ + spaces(n as nat),
{
    let mut i: usize = 0;
    while i < n
        invariant
            i <= n,
            out@ == old(out)@ + spaces(i as nat),
        decreases n - i,
    {
        push_char(out, ' ');
        i = i + 1;
        proof {
            assert(out@ =~= old(out)@ + spaces(i as nat));
        }
    }
}

fn decimal_len(n: u64) -> (r: usize)
    ensures
        r == decimal(n as nat).len(),
{
    let mut s = String::new();
    push_decimal(&mut s, n);
    let v = chars_of(s.as_str());
    proof {
        assert(s@ =~= decimal(n as nat));
    }
    v.len()
}

/// The line and column, both 1-based, of position `pos` of `s`.
pub fn line_col(s: &[char], pos: usize) -> (r: (usize, usize))
    requires
        pos <= s@.len(),
        s@.len() < usize::MAX,
    ensures
        r.0 == line_of(s@, pos as int),
        r.1 == column_of(s@, pos as int),
{
    let mut line: usize = 1;
    let mut start: usize = 0;
    let mut i: usize = 0;
    while i < pos
        invariant
            i <= pos <= s@.len(),
            s@.len() < usize::MAX,
            line == breaks_before(s@, i as int) + 1,
            line <= i + 1,
            start == line_start(s@, i as int),
            start <= i,
        decreases pos - i,
    {
        if s[i] == '\n' {
            line = line + 1;
            start = i + 1;
        }
        i = i + 1;
    }
    (line, pos - start + 1)
}

/// Renders the report of the syntax error `e` in the source text `input`, as
/// `diagnostic` says.
pub fn render_diagnostic(input: &str, e: &Error) -> (r: String)
    requires
        e.pos <= input@.len(),
        input@.len() < usize::MAX,
    ensures
        r@ == diagnostic(input@, *e),
{
    let sv = chars_of(input);
    let s = sv.as_slice();
    let (line, col) = line_col(s, e.pos);
    let mut start = e.pos;
    while start > 0 && s[start - 1] != '\n'
        invariant
            start <= e.pos <= s@.len(),
            line_start(s@, start as int) == line_start(s@, e.pos as int),
        decreases start,
    {
        start = start - 1;
    }
    let mut end = e.pos;
    while end < s.len() && s[end] != '\n'
        invariant
            e.pos <= end <= s@.len(),
            line_end(s@, end as int) == line_end(s@, e.pos as int),
        decreases s@.len() - end,
    {
        end = end + 1;
    }
    let digits = decimal_len(line as u64);
    let width: usize = if digits > col { digits } else { col };
    assert(line_start(s@, start as int) == start);
    assert(line_end(s@, end as int) == end);
    let mut out = String::new();
    push_str(&mut out, " ");
    push_decimal(&mut out, line as u64);
    push_str(&mut out, " ┊ ");
    push_range(&mut out, s, start, end);
    push_str(&mut out, "\n    ");
    push_spaces(&mut out, width);
    push_str(&mut out, "│\n    ");
    push_spaces(&mut out, width);
    push_str(&mut out, "╰ ");
    match e.kind {
        ErrorKind::UnterminatedBlock => push_str(&mut out, "Unterminated ruleset"),
        ErrorKind::Unexpected => push_str(&mut out, "Unexpected error"),
    }
    push_str(&mut out, " at ");
    push_decimal(&mut out, line as u64);
    push_str(&mut out, ":");
    push_decimal(&mut out, col as u64);
    proof {
        assert(out@ =~= diagnostic(input@, *e));
    }
    out
}

} // verus!
