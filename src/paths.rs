//! Posix-style path arithmetic on plain strings.
use vstd::prelude::*;
use crate::text::{chars_of, string_of_range, push_range};

verus! {

/// The directory part of `p`: everything up to and including its last `/`,
/// or nothing when `p` holds no `/`.
pub open spec fn dir_prefix(p: Seq<char>) -> Seq<char>
    decreases p.len(),
{
    if p.len() == 0 || p.last() == '/' {
        p
    } else {
        dir_prefix(p.drop_last())
    }
}

/// `r` begins with a `../` segment.
pub open spec fn starts_with_up(r: Seq<char>) -> bool {
    r.len() >= 3 && r[0] == '.' && r[1] == '.' && r[2] == '/'
}

/// The directory one level above the directory `d`.
pub open spec fn up_one(d: Seq<char>) -> Seq<char> {
    let d1 = dir_prefix(d);
    if d1.len() > 0 {
        dir_prefix(d1.drop_last())
    } else {
        Seq::empty()
    }
}

/// Joins the relative path `r` onto the directory `d`, consuming each
/// leading `../` of `r` by going one level up from `d`.
pub open spec fn join_rel(d: Seq<char>, r: Seq<char>) -> Seq<char>
    decreases r.len(),
{
    if starts_with_up(r) {
        join_rel(up_one(d), r.subrange(3, r.len() as int))
    } else {
        d + r
    }
}

/// The path of `rhs` seen from the file `lhs`.
pub open spec fn join_paths_spec(lhs: Seq<char>, rhs: Seq<char>) -> Seq<char> {
    join_rel(dir_prefix(lhs), rhs)
}

/// `p` with every backslash turned into a forward slash.
pub open spec fn slashes_forward(p: Seq<char>) -> Seq<char> {
    p.map_values(|c: char| if c == '\\' { '/' } else { c })
}

/// `p` in posix style, given the separator convention of the host that wrote it.
pub open spec fn host_to_posix(p: Seq<char>, is_windows_host: bool) -> Seq<char> {
    if is_windows_host {
        slashes_forward(p)
    } else {
        p
    }
}

/// The module key for a lookup issued from `source_path` for `css_module_path`.
pub open spec fn module_key_spec(
    source_path: Seq<char>,
    css_module_path: Seq<char>,
    is_windows_host: bool,
) -> Seq<char> {
    join_paths_spec(host_to_posix(source_path, is_windows_host), css_module_path)
}

proof fn lemma_dir_prefix_of_dir(p: Seq<char>)
    requires
        p.len() == 0 || p.last() == '/',
    ensures
        dir_prefix(p) == p,
{
}

/// The length of `dir_prefix(v[..e])`.
pub fn dir_end(v: &[char], e: usize) -> (k: usize)
    requires
        e <= v@.len(),
    ensures
        k <= e,
        v@.subrange(0, k as int) == dir_prefix(v@.subrange(0, e as int)),
{
    let mut k = e;
    while k > 0 && v[k - 1] != '/'
        invariant
            k <= e <= v@.len(),
            dir_prefix(v@.subrange(0, k as int)) == dir_prefix(v@.subrange(0, e as int)),
        decreases k,
    {
        proof {
            assert(v@.subrange(0, k as int).drop_last() =~= v@.subrange(0, k - 1));
        }
        k = k - 1;
    }
    proof {
        lemma_dir_prefix_of_dir(v@.subrange(0, k as int));
    }
    k
}

fn starts_with_up_at(r: &[char], start: usize) -> (b: bool)
    requires
        start <= r@.len(),
    ensures
        b == starts_with_up(r@.subrange(start as int, r@.len() as int)),
        b ==> start + 3 <= r@.len() <= usize::MAX,
{
    r.len() - start >= 3 && r[start] == '.' && r[start + 1] == '.' && r[start + 2] == '/'
}

/// Joins two posix-style paths: `rhs` is taken relative to the directory of
/// `lhs`. Only `../` segments at the start of `rhs` are normalized, each one
/// removing a directory from the end of that directory; `.` segments and `..`
/// segments elsewhere are kept as written, and backslashes are no separators.
pub fn join_paths(lhs: &str, rhs: &str) -> (r: String)
    ensures
        r@ == join_paths_spec(lhs@, rhs@),
{
    let l = chars_of(lhs);
    let rv = chars_of(rhs);
    join_chars(l.as_slice(), rv.as_slice())
}

pub fn join_chars(l: &[char], rv: &[char]) -> (r: String)
    ensures
        r@ == join_paths_spec(l@, rv@),
{
    let mut end = dir_end(l, l.len());
    let mut start: usize = 0;
    proof {
        assert(l@.subrange(0, l@.len() as int) =~= l@);
        assert(rv@.subrange(0, rv@.len() as int) =~= rv@);
    }
    while starts_with_up_at(rv, start)
        invariant
            end <= l@.len(),
            start <= rv@.len(),
            join_paths_spec(l@, rv@) == join_rel(
                l@.subrange(0, end as int),
                rv@.subrange(start as int, rv@.len() as int),
            ),
        decreases rv@.len() - start,
    {
        let ghost d = l@.subrange(0, end as int);
        let ghost rest = rv@.subrange(start as int, rv@.len() as int);
        assert(rest.len() == rv@.len() - start);
        let e1 = dir_end(l, end);
        proof {
            assert(l@.subrange(0, end as int).subrange(0, e1 as int) =~= l@.subrange(0, e1 as int));
        }
        if e1 > 0 {
            end = dir_end(l, e1 - 1);
            proof {
                assert(l@.subrange(0, e1 as int).drop_last() =~= l@.subrange(0, e1 - 1));
            }
        } else {
            end = 0;
            proof {
                assert(l@.subrange(0, 0) =~= Seq::<char>::empty());
            }
        }
        proof {
            assert(rest.subrange(3, rest.len() as int) =~= rv@.subrange(start + 3, rv@.len() as int));
        }
        start = start + 3;
    }
    let mut out = string_of_range(l, 0, end);
    push_range(&mut out, rv, start, rv.len());
    out
}

/// Turns a path written in the host's style into posix style: backslashes
/// become forward slashes on a host that separates with backslashes, and
/// nothing changes elsewhere.
pub fn host_path_to_posix(p: &[char], is_windows_host: bool) -> (r: Vec<char>)
    ensures
        r@ == host_to_posix(p@, is_windows_host),
{
    let mut out: Vec<char> = Vec::new();
    let mut i: usize = 0;
    while i < p.len()
        invariant
            i <= p@.len(),
            out@ == host_to_posix(p@.subrange(0, i as int), is_windows_host),
        decreases p@.len() - i,
    {
        let c = p[i];
        if is_windows_host && c == '\\' {
            out.push('/');
        } else {
            out.push(c);
        }
        proof {
            assert(p@.subrange(0, i + 1) =~= p@.subrange(0, i as int).push(c));
            assert(host_to_posix(p@.subrange(0, i + 1), is_windows_host) =~= host_to_posix(
                p@.subrange(0, i as int),
                is_windows_host,
            ).push(if is_windows_host && c == '\\' { '/' } else { c }));
        }
        i = i + 1;
    }
    proof {
        assert(p@.subrange(0, p@.len() as int) =~= p@);
    }
    out
}

/// Resolves the module key of a CSS module requested from a source file.
///
/// `source_path` names the requesting source file in the host's style;
/// `css_module_path` is posix style and relative to that file.
pub fn resolve_module_file_path(
    source_path: &str,
    css_module_path: &str,
    is_windows_host: bool,
) -> (r: String)
    ensures
        r@ == module_key_spec(source_path@, css_module_path@, is_windows_host),
{
    let src = chars_of(source_path);
    let posix = host_path_to_posix(src.as_slice(), is_windows_host);
    let rel = chars_of(css_module_path);
    join_chars(posix.as_slice(), rel.as_slice())
}


/// Going up from the top leaves nothing to strip: `../` segments beyond the
/// directories of the base are dropped, and the rest of the path is kept.
pub proof fn lemma_excess_up_is_dropped(r: Seq<char>)
    ensures
        join_rel(Seq::empty(), seq!['.', '.', '/'] + r) == join_rel(Seq::empty(), r),
{
    let up = seq!['.', '.', '/'] + r;
    assert(up.subrange(3, up.len() as int) =~= r);
    assert(dir_prefix(Seq::<char>::empty()) == Seq::<char>::empty());
    assert(up_one(Seq::empty()) == Seq::<char>::empty());
}

} // verus!
