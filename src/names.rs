//! Global names: how a local identifier of a module is given its global name.
use vstd::prelude::*;
use crate::text::{chars_of, push_char, push_str};
use vstd::string::StringExecFns;

verus! {

/// A name table: pairs of local name and global name, in order of assignment.
pub type NameTable = Seq<(Seq<char>, Seq<char>)>;

/// The name table held in a vector of string pairs.
pub open spec fn table_of(v: Seq<(String, String)>) -> NameTable {
    v.map_values(|p: (String, String)| (p.0@, p.1@))
}

/// The global name that `t` holds for `local`: the first entry for it.
pub open spec fn lookup(t: NameTable, local: Seq<char>) -> Option<Seq<char>>
    decreases t.len(),
{
    if t.len() == 0 {
        None
    } else if t[0].0 == local {
        Some(t[0].1)
    } else {
        lookup(t.subrange(1, t.len() as int), local)
    }
}

/// Each local name occurs at most once in `t`.
pub open spec fn keys_unique(t: NameTable) -> bool {
    forall|i: int, j: int| 0 <= i < j < t.len() ==> t[i].0 != t[j].0
}

/// State of the name assignment: the table of the module being built and the
/// counter shared by all modules of a compilation.
pub struct NameState {
    pub names: NameTable,
    pub count: nat,
}

/// Why a compilation stopped without a result.
#[derive(Debug, Clone, Copy, PartialEq, Eq, Structural)]
pub enum Failure {
    /// The source text of a module could not be read as CSS.
    Syntax(crate::syntax::Error),
    /// No source text was given for a module.
    Missing,
    /// A module imports itself, directly or through other modules.
    Cycle,
    /// The module's path names no file.
    NoFileStem,
    /// The shared counter of names has reached its largest value.
    CounterOverflow,
    /// The module's file lies outside the workspace directory.
    OutsideWorkspace,
}

pub open spec fn digit(d: nat) -> char {
    if d == 0 { '0' }
    else if d == 1 { '1' }
    else if d == 2 { '2' }
    else if d == 3 { '3' }
    else if d == 4 { '4' }
    else if d == 5 { '5' }
    else if d == 6 { '6' }
    else if d == 7 { '7' }
    else if d == 8 { '8' }
    else { '9' }
}

/// The decimal digits of `n`.
pub open spec fn decimal(n: nat) -> Seq<char>
    decreases n,
{
    if n < 10 {
        seq![digit(n)]
    } else {
        decimal(n / 10).push(digit(n % 10))
    }
}

/// The global name `{prefix}__{local}__{ordinal}`.
pub open spec fn global_name(prefix: Seq<char>, local: Seq<char>, ordinal: nat) -> Seq<char> {
    prefix + "__"@ + local + "__"@ + decimal(ordinal)
}

/// Assigns a global name to `local`: the one the table already holds, or a
/// new one made from the counter. Either way the counter goes up by one.
pub open spec fn assign(prefix: Seq<char>, local: Seq<char>, st: NameState) -> Result<
    (Seq<char>, NameState),
    Failure,
> {
    if st.count >= u64::MAX {
        Err(Failure::CounterOverflow)
    } else {
        match lookup(st.names, local) {
            Some(g) => Ok((g, NameState { names: st.names, count: st.count + 1 })),
            None => {
                let g = global_name(prefix, local, st.count);
                Ok((g, NameState { names: st.names.push((local, g)), count: st.count + 1 }))
            },
        }
    }
}

fn digit_exec(d: u64) -> (c: char)
    requires
        d < 10,
    ensures
        c == digit(d as nat),
{
    if d == 0 { '0' }
    else if d == 1 { '1' }
    else if d == 2 { '2' }
    else if d == 3 { '3' }
    else if d == 4 { '4' }
    else if d == 5 { '5' }
    else if d == 6 { '6' }
    else if d == 7 { '7' }
    else if d == 8 { '8' }
    else { '9' }
}

/// Appends the decimal digits of `n` to `out`.
pub fn push_decimal(out: &mut String, n: u64)
    ensures
        final(out)@ == old(out)@ + decimal(n as nat),
    decreases n,
{
    if n >= 10 {
        push_decimal(out, n / 10);
        push_char(out, digit_exec(n % 10));
        proof {
            assert(out@ =~= old(out)@ + decimal(n as nat));
        }
    } else {
        push_char(out, digit_exec(n));
        proof {
            assert(out@ =~= old(out)@ + decimal(n as nat));
        }
    }
}

/// Whether the characters of `s` are those of `w`.
pub fn same_text(s: &str, w: &str) -> (r: bool)
    ensures
        r == (s@ == w@),
{
    let a = chars_of(s);
    let b = chars_of(w);
    if a.len() != b.len() {
        return false;
    }
    let mut i: usize = 0;
    while i < a.len()
        invariant
            a@ == s@,
            b@ == w@,
            a@.len() == b@.len(),
            i <= a@.len(),
            forall|k: int| 0 <= k < i ==> a@[k] == b@[k],
        decreases a@.len() - i,
    {
        if a[i] != b[i] {
            return false;
        }
        i = i + 1;
    }
    proof {
        assert(a@ =~= b@);
    }
    true
}

/// The global name that `names` holds for `local`.
pub fn lookup_exec(names: &Vec<(String, String)>, local: &str) -> (r: Option<String>)
    ensures
        match (r, lookup(table_of(names@), local@)) {
            (Some(g), Some(h)) => g@ == h,
            (None, None) => true,
            _ => false,
        },
{
    let mut i: usize = 0;
    assert(table_of(names@).subrange(0, names@.len() as int) =~= table_of(names@));
    while i < names.len()
        invariant
            i <= names@.len(),
            lookup(table_of(names@), local@) == lookup(
                table_of(names@).subrange(i as int, names@.len() as int),
                local@,
            ),
        decreases names@.len() - i,
    {
        let ghost t = table_of(names@).subrange(i as int, names@.len() as int);
        assert(t[0] == (names@[i as int].0@, names@[i as int].1@));
        if same_text(names[i].0.as_str(), local) {
            return Some(names[i].1.clone());
        }
        assert(t.subrange(1, t.len() as int) =~= table_of(names@).subrange(
            i + 1,
            names@.len() as int,
        ));
        i = i + 1;
    }
    None
}

/// Gives `local` its global name in the module whose name prefix is
/// `prefix`: the name already in `names`, or else a new one, numbered with
/// the counter, that is added to `names`. The counter goes up by one in both
/// cases.
pub fn add_name(prefix: &str, local: &str, names: &mut Vec<(String, String)>, count: &mut u64) -> (r:
    Result<String, Failure>)
    ensures
        match (r, assign(prefix@, local@, NameState { names: table_of(old(names)@), count: *old(count) as nat })) {
            (Ok(g), Ok((h, st))) => g@ == h && table_of(final(names)@) == st.names && *final(count) == st.count,
            (Err(x), Err(y)) => x == y,
            _ => false,
        },
{
    if *count == u64::MAX {
        return Err(Failure::CounterOverflow);
    }
    let found = lookup_exec(names, local);
    let g = match found {
        Some(g) => g,
        None => {
            let mut g = String::new();
            push_str(&mut g, prefix);
            push_str(&mut g, "__");
            push_str(&mut g, local);
            push_str(&mut g, "__");
            push_decimal(&mut g, *count);
            let ghost old_names = names@;
            names.push((String::from_str(local), g.clone()));
            proof {
                assert(table_of(names@) =~= table_of(old_names).push((local@, g@)));
            }
            g
        },
    };
    *count = *count + 1;
    Ok(g)
}


/// Looking up in a table with one more entry at its end.
pub proof fn lemma_lookup_push(t: NameTable, p: (Seq<char>, Seq<char>), k: Seq<char>)
    ensures
        lookup(t.push(p), k) == if lookup(t, k) is Some {
            lookup(t, k)
        } else if p.0 == k {
            Some(p.1)
        } else {
            None
        },
    decreases t.len(),
{
    let tp = t.push(p);
    if t.len() == 0 {
        assert(tp[0] == p);
        assert(tp.subrange(1, tp.len() as int) =~= Seq::<(Seq<char>, Seq<char>)>::empty());
        assert(lookup(Seq::<(Seq<char>, Seq<char>)>::empty(), k) is None);
    } else {
        assert(tp[0] == t[0]);
        let rest = t.subrange(1, t.len() as int);
        assert(tp.subrange(1, tp.len() as int) =~= rest.push(p));
        lemma_lookup_push(rest, p, k);
    }
}

/// Within one module a local name keeps the global name it was first given:
/// once `assign` has given `local` the name `g`, the table maps `local` to
/// `g`, the names of other locals are unchanged, the counter has gone up by
/// one, and assigning `local` again gives `g` once more.
pub proof fn lemma_assign_keeps_name(prefix: Seq<char>, local: Seq<char>, st: NameState)
    requires
        assign(prefix, local, st) is Ok,
    ensures
        ({
            let (g, st2) = assign(prefix, local, st)->Ok_0;
            &&& lookup(st2.names, local) == Some(g)
            &&& st2.count == st.count + 1
            &&& forall|other: Seq<char>| other != local ==> #[trigger] lookup(st2.names, other) == lookup(st.names, other)
            &&& assign(prefix, local, st2) is Ok ==> assign(prefix, local, st2)->Ok_0.0 == g
        }),
{
    let (g, st2) = assign(prefix, local, st)->Ok_0;
    if lookup(st.names, local) is None {
        lemma_lookup_push(st.names, (local, g), local);
        assert forall|other: Seq<char>| other != local implies #[trigger] lookup(st2.names, other) == lookup(st.names, other) by {
            lemma_lookup_push(st.names, (local, g), other);
        }
    }
}


/// A table without an entry for `k` has no pair whose local name is `k`.
pub proof fn lemma_lookup_none(t: NameTable, k: Seq<char>)
    requires
        lookup(t, k) is None,
    ensures
        forall|i: int| 0 <= i < t.len() ==> t[i].0 != k,
    decreases t.len(),
{
    if t.len() > 0 {
        let rest = t.subrange(1, t.len() as int);
        lemma_lookup_none(rest, k);
        assert forall|i: int| 0 <= i < t.len() implies t[i].0 != k by {
            if i > 0 {
                assert(t[i] == rest[i - 1]);
            }
        }
    }
}

/// Adding a pair for a local name the table lacks keeps its local names unique.
pub proof fn lemma_push_new_key(t: NameTable, p: (Seq<char>, Seq<char>))
    requires
        keys_unique(t),
        lookup(t, p.0) is None,
    ensures
        keys_unique(t.push(p)),
{
    lemma_lookup_none(t, p.0);
    let tp = t.push(p);
    assert forall|i: int, j: int| 0 <= i < j < tp.len() implies tp[i].0 != tp[j].0 by {
        if j == t.len() {
            assert(tp[i] == t[i]);
        } else {
            assert(tp[i] == t[i] && tp[j] == t[j]);
        }
    }
}

/// `assign` keeps the local names of the table unique.
pub proof fn lemma_assign_keeps_keys_unique(prefix: Seq<char>, local: Seq<char>, st: NameState)
    requires
        keys_unique(st.names),
        assign(prefix, local, st) is Ok,
    ensures
        keys_unique(assign(prefix, local, st)->Ok_0.1.names),
{
    if lookup(st.names, local) is None {
        lemma_push_new_key(st.names, (local, global_name(prefix, local, st.count)));
    }
}

} // verus!
