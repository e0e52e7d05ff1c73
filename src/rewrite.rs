//! Rewriting of the identifiers that stand inside selectors and `animation`
//! values. Only tokens that the scan below recognises as local names are
//! replaced; all other text is copied as it stands.
use vstd::prelude::*;
use crate::names::{NameState, Failure, assign, add_name, table_of};
use crate::syntax::{is_ident_start, is_ident_char, ident_end, is_ident_start_exec, is_ident_char_exec, non_empty};
use crate::text::{chars_of, trim_seq, trim_bounds, string_of_range};

verus! {

/// What a rewrite scan gives: the text produced and the new name state.
pub type Rewritten = Result<(Seq<char>, NameState), Failure>;

/// `piece` followed by what `r` produced.
pub open spec fn emit(piece: Seq<char>, r: Rewritten) -> Rewritten {
    match r {
        Ok((rest, st)) => Ok((piece + rest, st)),
        Err(x) => Err(x),
    }
}

/// The position just after the first `q` at or after `i`, or the end.
pub open spec fn close_after(t: Seq<char>, i: int, q: char) -> int
    decreases t.len() - i,
{
    if i < 0 || i >= t.len() {
        t.len() as int
    } else if t[i] == q {
        i + 1
    } else {
        close_after(t, i + 1, q)
    }
}

pub open spec fn is_digit(c: char) -> bool {
    '0' <= c && c <= '9'
}

/// A class token `.name` starts at `i`.
pub open spec fn class_at(t: Seq<char>, i: int) -> bool {
    0 <= i && i + 1 < t.len() && t[i] == '.' && is_ident_start(t[i + 1])
}

/// The end of the selector token that starts at `i`.
pub open spec fn sel_token_end(t: Seq<char>, i: int) -> int {
    if class_at(t, i) {
        ident_end(t, i + 1)
    } else if t[i] == '"' || t[i] == '\'' {
        close_after(t, i + 1, t[i])
    } else if t[i] == '[' {
        close_after(t, i + 1, ']')
    } else {
        i + 1
    }
}

/// Rewrites `t[i..]` as selector text: each class token `.name` becomes
/// `.` and the global name of `name`; quoted strings, attribute selectors
/// and all other characters are copied.
pub open spec fn sel_from(prefix: Seq<char>, t: Seq<char>, i: int, st: NameState) -> Rewritten
    decreases t.len() - i,
{
    if i < 0 || i >= t.len() {
        Ok((Seq::empty(), st))
    } else {
        let e = sel_token_end(t, i);
        if e <= i || e > t.len() {
            // A token always ends after it starts and within the text; this
            // branch only makes the recursion visibly finite.
            Ok((Seq::empty(), st))
        } else if class_at(t, i) {
            match assign(prefix, t.subrange(i + 1, e), st) {
                Err(x) => Err(x),
                Ok((g, st2)) => emit(seq!['.'] + g, sel_from(prefix, t, e, st2)),
            }
        } else {
            emit(t.subrange(i, e), sel_from(prefix, t, e, st))
        }
    }
}

/// Identifiers of the `animation` shorthand that name no keyframes.
pub open spec fn is_animation_keyword(w: Seq<char>) -> bool {
    w == "none"@ || w == "linear"@ || w == "ease"@ || w == "ease-in"@ || w == "ease-out"@
        || w == "ease-in-out"@ || w == "step-start"@ || w == "step-end"@ || w == "infinite"@
        || w == "normal"@ || w == "reverse"@ || w == "alternate"@ || w == "alternate-reverse"@
        || w == "forwards"@ || w == "backwards"@ || w == "both"@ || w == "running"@
        || w == "paused"@ || w == "initial"@ || w == "inherit"@ || w == "unset"@
        || w == "revert"@
}

/// A number (with its unit, if any) starts at `i`.
pub open spec fn number_at(t: Seq<char>, i: int) -> bool {
    0 <= i < t.len() && (is_digit(t[i]) || ((t[i] == '.' || t[i] == '-' || t[i] == '+') && i + 1
        < t.len() && is_digit(t[i + 1])))
}

/// The end of the run of number characters that starts at `i`.
pub open spec fn number_rest(t: Seq<char>, i: int) -> int
    decreases t.len() - i,
{
    if 0 <= i < t.len() && (is_ident_char(t[i]) || t[i] == '.' || t[i] == '%') {
        number_rest(t, i + 1)
    } else {
        i
    }
}

/// An identifier that starts at `i` is followed by `(`: it names a function.
pub open spec fn call_at(t: Seq<char>, i: int) -> bool {
    ident_end(t, i) < t.len() && t[ident_end(t, i)] == '('
}

/// The end of the `animation` value token that starts at `i`.
pub open spec fn anim_token_end(t: Seq<char>, i: int) -> int {
    if number_at(t, i) {
        number_rest(t, i + 1)
    } else if is_ident_start(t[i]) {
        if call_at(t, i) {
            close_after(t, ident_end(t, i) + 1, ')')
        } else {
            ident_end(t, i)
        }
    } else if t[i] == '"' || t[i] == '\'' {
        close_after(t, i + 1, t[i])
    } else {
        i + 1
    }
}

/// The token at `i` is an identifier that names keyframes.
pub open spec fn anim_name_at(t: Seq<char>, i: int) -> bool {
    !number_at(t, i) && is_ident_start(t[i]) && !call_at(t, i) && !is_animation_keyword(
        t.subrange(i, ident_end(t, i)),
    )
}

/// Rewrites `t[i..]` as an `animation` value: each identifier that is no
/// keyword of the shorthand and calls no function becomes its global name;
/// numbers, durations, keywords, function calls, strings and all other
/// characters are copied.
pub open spec fn anim_from(prefix: Seq<char>, t: Seq<char>, i: int, st: NameState) -> Rewritten
    decreases t.len() - i,
{
    if i < 0 || i >= t.len() {
        Ok((Seq::empty(), st))
    } else {
        let e = anim_token_end(t, i);
        if e <= i || e > t.len() {
            // A token always ends after it starts and within the text; this
            // branch only makes the recursion visibly finite.
            Ok((Seq::empty(), st))
        } else if anim_name_at(t, i) {
            match assign(prefix, t.subrange(i, e), st) {
                Err(x) => Err(x),
                Ok((g, st2)) => emit(g, anim_from(prefix, t, e, st2)),
            }
        } else {
            emit(t.subrange(i, e), anim_from(prefix, t, e, st))
        }
    }
}

/// The rewritten text without surrounding whitespace, or `None` when nothing is left.
pub open spec fn finish(r: Rewritten) -> Result<(Option<Seq<char>>, NameState), Failure> {
    match r {
        Ok((out, st)) => Ok((non_empty(trim_seq(out)), st)),
        Err(x) => Err(x),
    }
}

pub open spec fn rewrite_selector(prefix: Seq<char>, t: Seq<char>, st: NameState) -> Result<
    (Option<Seq<char>>, NameState),
    Failure,
> {
    finish(sel_from(prefix, t, 0, st))
}

pub open spec fn rewrite_animation(prefix: Seq<char>, t: Seq<char>, st: NameState) -> Result<
    (Option<Seq<char>>, NameState),
    Failure,
> {
    finish(anim_from(prefix, t, 0, st))
}

pub open spec fn opt_agrees(o: Option<String>, e: Option<Seq<char>>) -> bool {
    match (o, e) {
        (Some(s), Some(x)) => s@ == x,
        (None, None) => true,
        _ => false,
    }
}

/// The exec result agrees with `expected`, where the name state lives in
/// `names` and `count`.
pub open spec fn rewrite_agrees(
    r: Result<Option<String>, Failure>,
    names: Seq<(String, String)>,
    count: u64,
    expected: Result<(Option<Seq<char>>, NameState), Failure>,
) -> bool {
    match (r, expected) {
        (Ok(o), Ok((e, st))) => opt_agrees(o, e) && table_of(names) == st.names && count
            == st.count,
        (Err(x), Err(y)) => x == y,
        _ => false,
    }
}

proof fn lemma_emit_assoc(a: Seq<char>, b: Seq<char>, r: Rewritten)
    ensures
        emit(a, emit(b, r)) == emit(a + b, r),
{
    match r {
        Ok((rest, st)) => {
            assert(a + (b + rest) =~= (a + b) + rest);
        },
        Err(_) => {},
    }
}

fn close_after_exec(t: &[char], i: usize, q: char) -> (r: usize)
    requires
        i <= t@.len(),
    ensures
        i <= r <= t@.len(),
        r == close_after(t@, i as int, q),
{
    let mut k = i;
    while k < t.len()
        invariant
            i <= k <= t@.len(),
            close_after(t@, k as int, q) == close_after(t@, i as int, q),
        decreases t@.len() - k,
    {
        if t[k] == q {
            return k + 1;
        }
        k = k + 1;
    }
    k
}

fn ident_end_at(t: &[char], i: usize) -> (r: usize)
    requires
        i <= t@.len(),
    ensures
        i <= r <= t@.len(),
        r == ident_end(t@, i as int),
        i < t@.len() && is_ident_start(t@[i as int]) ==> r > i,
{
    if i < t.len() && is_ident_start_exec(t[i]) {
        let mut k = i + 1;
        while k < t.len() && is_ident_char_exec(t[k])
            invariant
                i < k <= t@.len(),
                crate::syntax::ident_rest(t@, k as int) == crate::syntax::ident_rest(t@, i + 1),
            decreases t@.len() - k,
        {
            k = k + 1;
        }
        k
    } else {
        i
    }
}

fn push_range_vec(out: &mut Vec<char>, t: &[char], lo: usize, hi: usize)
    requires
        lo <= hi <= t@.len(),
    ensures
        final(out)@ == old(out)@ + t@.subrange(lo as int, hi as int),
{
    let mut k = lo;
    while k < hi
        invariant
            lo <= k <= hi <= t@.len(),
            out@ == old(out)@ + t@.subrange(lo as int, k as int),
        decreases hi - k,
    {
        out.push(t[k]);
        proof {
            assert(t@.subrange(lo as int, k + 1) =~= t@.subrange(lo as int, k as int).push(t@[k as int]));
        }
        k = k + 1;
    }
}

fn push_text(out: &mut Vec<char>, s: &String)
    ensures
        final(out)@ == old(out)@ + s@,
{
    let v = chars_of(s.as_str());
    push_range_vec(out, v.as_slice(), 0, v.len());
    proof {
        assert(v@.subrange(0, v@.len() as int) =~= v@);
    }
}

fn finish_exec(out: &Vec<char>) -> (r: Option<String>)
    ensures
        opt_agrees(r, non_empty(trim_seq(out@))),
{
    let (a, b) = trim_bounds(out.as_slice(), 0, out.len());
    if a < b {
        Some(string_of_range(out.as_slice(), a, b))
    } else {
        None
    }
}

fn sel_token_end_exec(t: &[char], i: usize) -> (r: usize)
    requires
        i < t@.len(),
    ensures
        i < r <= t@.len(),
        r == sel_token_end(t@, i as int),
{
    if t.len() - i > 1 && t[i] == '.' && is_ident_start_exec(t[i + 1]) {
        ident_end_at(t, i + 1)
    } else if t[i] == '"' || t[i] == '\'' {
        close_after_exec(t, i + 1, t[i])
    } else if t[i] == '[' {
        close_after_exec(t, i + 1, ']')
    } else {
        i + 1
    }
}

/// Rewrites the class names of a selector, as `rewrite_selector` says.
pub fn replace_selector_names(
    prefix: &str,
    text: &str,
    names: &mut Vec<(String, String)>,
    count: &mut u64,
) -> (r: Result<Option<String>, Failure>)
    ensures
        rewrite_agrees(
            r,
            final(names)@,
            *final(count),
            rewrite_selector(prefix@, text@, NameState { names: table_of(old(names)@), count: *old(count) as nat }),
        ),
{
    let tv = chars_of(text);
    let t = tv.as_slice();
    let mut out: Vec<char> = Vec::new();
    let mut i: usize = 0;
    let ghost st0 = NameState { names: table_of(names@), count: *count as nat };
    proof {
        assert(Seq::<char>::empty() + Seq::<char>::empty() =~= Seq::<char>::empty());
        match sel_from(prefix@, t@, 0, st0) {
            Ok((rest, st)) => { assert(Seq::<char>::empty() + rest =~= rest); },
            Err(_) => {},
        }
    }
    while i < t.len()
        invariant
            i <= t@.len(),
            t@ == text@,
            st0 == (NameState { names: table_of(old(names)@), count: *old(count) as nat }),
            sel_from(prefix@, t@, 0, st0) == emit(
                out@,
                sel_from(prefix@, t@, i as int, NameState { names: table_of(names@), count: *count as nat }),
            ),
        decreases t@.len() - i,
    {
        let ghost st = NameState { names: table_of(names@), count: *count as nat };
        let e = sel_token_end_exec(t, i);
        if i + 1 < t.len() && t[i] == '.' && is_ident_start_exec(t[i + 1]) {
            let local = string_of_range(t, i + 1, e);
            match add_name(prefix, local.as_str(), names, count) {
                Err(x) => {
                    assert(sel_from(prefix@, t@, i as int, st) == Rewritten::Err(x));
                    return Err(x);
                },
                Ok(g) => {
                    let ghost before = out@;
                    out.push('.');
                    push_text(&mut out, &g);
                    proof {
                        assert(out@ =~= before + (seq!['.'] + g@));
                        let st2 = NameState { names: table_of(names@), count: *count as nat };
                        lemma_emit_assoc(before, seq!['.'] + g@, sel_from(prefix@, t@, e as int, st2));
                    }
                },
            }
        } else {
            let ghost before = out@;
            push_range_vec(&mut out, t, i, e);
            proof {
                lemma_emit_assoc(before, t@.subrange(i as int, e as int), sel_from(prefix@, t@, e as int, st));
            }
        }
        i = e;
    }
    proof {
        assert(out@ + Seq::<char>::empty() =~= out@);
    }
    Ok(finish_exec(&out))
}

fn is_animation_keyword_exec(w: &str) -> (r: bool)
    ensures
        r == is_animation_keyword(w@),
{
    crate::names::same_text(w, "none") || crate::names::same_text(w, "linear")
        || crate::names::same_text(w, "ease") || crate::names::same_text(w, "ease-in")
        || crate::names::same_text(w, "ease-out") || crate::names::same_text(w, "ease-in-out")
        || crate::names::same_text(w, "step-start") || crate::names::same_text(w, "step-end")
        || crate::names::same_text(w, "infinite") || crate::names::same_text(w, "normal")
        || crate::names::same_text(w, "reverse") || crate::names::same_text(w, "alternate")
        || crate::names::same_text(w, "alternate-reverse") || crate::names::same_text(
        w,
        "forwards",
    ) || crate::names::same_text(w, "backwards") || crate::names::same_text(w, "both")
        || crate::names::same_text(w, "running") || crate::names::same_text(w, "paused")
        || crate::names::same_text(w, "initial") || crate::names::same_text(w, "inherit")
        || crate::names::same_text(w, "unset") || crate::names::same_text(w, "revert")
}

fn is_digit_exec(c: char) -> (r: bool)
    ensures
        r == is_digit(c),
{
    '0' <= c && c <= '9'
}

fn number_at_exec(t: &[char], i: usize) -> (r: bool)
    requires
        i < t@.len(),
    ensures
        r == number_at(t@, i as int),
{
    is_digit_exec(t[i]) || ((t[i] == '.' || t[i] == '-' || t[i] == '+') && i + 1 < t.len()
        && is_digit_exec(t[i + 1]))
}

fn number_rest_exec(t: &[char], i: usize) -> (r: usize)
    requires
        i <= t@.len(),
    ensures
        i <= r <= t@.len(),
        r == number_rest(t@, i as int),
{
    let mut k = i;
    while k < t.len() && (is_ident_char_exec(t[k]) || t[k] == '.' || t[k] == '%')
        invariant
            i <= k <= t@.len(),
            number_rest(t@, k as int) == number_rest(t@, i as int),
        decreases t@.len() - k,
    {
        k = k + 1;
    }
    k
}

/// Rewrites the keyframes names of an `animation` value, as
/// `rewrite_animation` says.
pub fn replace_animation_names(
    prefix: &str,
    text: &str,
    names: &mut Vec<(String, String)>,
    count: &mut u64,
) -> (r: Result<Option<String>, Failure>)
    ensures
        rewrite_agrees(
            r,
            final(names)@,
            *final(count),
            rewrite_animation(prefix@, text@, NameState { names: table_of(old(names)@), count: *old(count) as nat }),
        ),
{
    let tv = chars_of(text);
    let t = tv.as_slice();
    let mut out: Vec<char> = Vec::new();
    let mut i: usize = 0;
    let ghost st0 = NameState { names: table_of(names@), count: *count as nat };
    proof {
        match anim_from(prefix@, t@, 0, st0) {
            Ok((rest, st)) => { assert(Seq::<char>::empty() + rest =~= rest); },
            Err(_) => {},
        }
    }
    while i < t.len()
        invariant
            i <= t@.len(),
            t@ == text@,
            st0 == (NameState { names: table_of(old(names)@), count: *old(count) as nat }),
            anim_from(prefix@, t@, 0, st0) == emit(
                out@,
                anim_from(prefix@, t@, i as int, NameState { names: table_of(names@), count: *count as nat }),
            ),
        decreases t@.len() - i,
    {
        let ghost st = NameState { names: table_of(names@), count: *count as nat };
        let mut e: usize = i + 1;
        let mut rename = false;
        if number_at_exec(t, i) {
            e = number_rest_exec(t, i + 1);
        } else if is_ident_start_exec(t[i]) {
            let j = ident_end_at(t, i);
            if j < t.len() && t[j] == '(' {
                e = close_after_exec(t, j + 1, ')');
            } else {
                e = j;
                let word = string_of_range(t, i, j);
                rename = !is_animation_keyword_exec(word.as_str());
            }
        } else if t[i] == '"' || t[i] == '\'' {
            e = close_after_exec(t, i + 1, t[i]);
        }
        assert(e == anim_token_end(t@, i as int));
        assert(rename == anim_name_at(t@, i as int));
        if rename {
            let local = string_of_range(t, i, e);
            match add_name(prefix, local.as_str(), names, count) {
                Err(x) => {
                    assert(anim_from(prefix@, t@, i as int, st) == Rewritten::Err(x));
                    return Err(x);
                },
                Ok(g) => {
                    let ghost before = out@;
                    push_text(&mut out, &g);
                    proof {
                        let st2 = NameState { names: table_of(names@), count: *count as nat };
                        lemma_emit_assoc(before, g@, anim_from(prefix@, t@, e as int, st2));
                    }
                },
            }
        } else {
            let ghost before = out@;
            push_range_vec(&mut out, t, i, e);
            proof {
                lemma_emit_assoc(before, t@.subrange(i as int, e as int), anim_from(prefix@, t@, e as int, st));
            }
        }
        i = e;
    }
    proof {
        assert(out@ + Seq::<char>::empty() =~= out@);
    }
    Ok(finish_exec(&out))
}


/// Rewriting a selector keeps the local names of the table unique.
pub proof fn lemma_sel_keeps_keys_unique(prefix: Seq<char>, t: Seq<char>, i: int, st: NameState)
    requires
        crate::names::keys_unique(st.names),
    ensures
        sel_from(prefix, t, i, st) is Ok ==> crate::names::keys_unique(sel_from(prefix, t, i, st)->Ok_0.1.names),
    decreases t.len() - i,
{
    if 0 <= i < t.len() {
        let e = sel_token_end(t, i);
        if e > i && e <= t.len() {
            if class_at(t, i) {
                if let Ok((g, st2)) = assign(prefix, t.subrange(i + 1, e), st) {
                    crate::names::lemma_assign_keeps_keys_unique(prefix, t.subrange(i + 1, e), st);
                    lemma_sel_keeps_keys_unique(prefix, t, e, st2);
                }
            } else {
                lemma_sel_keeps_keys_unique(prefix, t, e, st);
            }
        }
    }
}

/// Rewriting an `animation` value keeps the local names of the table unique.
pub proof fn lemma_anim_keeps_keys_unique(prefix: Seq<char>, t: Seq<char>, i: int, st: NameState)
    requires
        crate::names::keys_unique(st.names),
    ensures
        anim_from(prefix, t, i, st) is Ok ==> crate::names::keys_unique(anim_from(prefix, t, i, st)->Ok_0.1.names),
    decreases t.len() - i,
{
    if 0 <= i < t.len() {
        let e = anim_token_end(t, i);
        if e > i && e <= t.len() {
            if anim_name_at(t, i) {
                if let Ok((g, st2)) = assign(prefix, t.subrange(i, e), st) {
                    crate::names::lemma_assign_keeps_keys_unique(prefix, t.subrange(i, e), st);
                    lemma_anim_keeps_keys_unique(prefix, t, e, st2);
                }
            } else {
                lemma_anim_keeps_keys_unique(prefix, t, e, st);
            }
        }
    }
}

} // verus!
