//! The runtime side: tables from module keys to name mappings, queried with
//! the path of the requesting source file.
use vstd::prelude::*;
use crate::names::{NameTable, table_of, same_text};
use crate::paths::{module_key_spec, resolve_module_file_path};
use crate::text::push_str;
use vstd::string::StringExecFns;

verus! {

/// The last entry of `t` for `k`: entries added later replace earlier ones.
pub open spec fn lookup_last(t: NameTable, k: Seq<char>) -> Option<Seq<char>>
    decreases t.len(),
{
    if t.len() == 0 {
        None
    } else if t.last().0 == k {
        Some(t.last().1)
    } else {
        lookup_last(t.drop_last(), k)
    }
}

/// Why a runtime lookup failed.
#[derive(Debug, PartialEq)]
pub enum LookupError {
    /// No mapping was added for the module key.
    ModuleNotFound { css_module_path: String },
    /// The module's mapping has no entry for the local name.
    NameNotFound { name: String, css_module_path: String },
}

/// The mathematical value of a [`LookupError`].
pub enum LookupFailure {
    ModuleNotFound { css_module_path: Seq<char> },
    NameNotFound { name: Seq<char>, css_module_path: Seq<char> },
}

pub open spec fn failure_of(e: LookupError) -> LookupFailure {
    match e {
        LookupError::ModuleNotFound { css_module_path } => LookupFailure::ModuleNotFound {
            css_module_path: css_module_path@,
        },
        LookupError::NameNotFound { name, css_module_path } => LookupFailure::NameNotFound {
            name: name@,
            css_module_path: css_module_path@,
        },
    }
}

/// `s` between double quotes.
pub open spec fn quoted(s: Seq<char>) -> Seq<char> {
    seq!['"'] + s + seq!['"']
}

/// The message that reports a failed lookup; it names what was missing.
pub open spec fn message_of(f: LookupFailure) -> Seq<char> {
    match f {
        LookupFailure::ModuleNotFound { css_module_path } => "CSS module was not found: "@ + quoted(
            css_module_path,
        ),
        LookupFailure::NameNotFound { name, css_module_path } => "Name "@ + quoted(name)
            + " was not found in "@ + quoted(css_module_path),
    }
}

fn push_quoted(out: &mut String, s: &str)
    ensures
        final(out)@ == old(out)@ + quoted(s@),
{
    push_str(out, "\"");
    push_str(out, s);
    push_str(out, "\"");
    proof {
        reveal_strlit("\"");
        assert(final(out)@ =~= old(out)@ + quoted(s@));
    }
}

impl LookupError {
    /// The message that reports this failure.
    pub fn message(&self) -> (r: String)
        ensures
            r@ == message_of(failure_of(*self)),
    {
        let mut out = String::new();
        match self {
            LookupError::ModuleNotFound { css_module_path } => {
                push_str(&mut out, "CSS module was not found: ");
                push_quoted(&mut out, css_module_path.as_str());
            },
            LookupError::NameNotFound { name, css_module_path } => {
                push_str(&mut out, "Name ");
                push_quoted(&mut out, name.as_str());
                push_str(&mut out, " was not found in ");
                push_quoted(&mut out, css_module_path.as_str());
            },
        }
        proof {
            assert(out@ =~= message_of(failure_of(*self)));
        }
        out
    }
}

/// Mapping of local names to global names for one CSS module.
#[derive(Debug)]
pub struct Mapping {
    names: Vec<(String, String)>,
    css_module_path: String,
}

/// The mathematical value of a [`Mapping`].
pub struct MappingModel {
    pub path: Seq<char>,
    pub names: NameTable,
}

impl Mapping {
    pub closed spec fn model(&self) -> MappingModel {
        MappingModel { path: self.css_module_path@, names: table_of(self.names@) }
    }

    /// The module key this mapping was added under.
    pub fn css_module_path(&self) -> (r: &str)
        ensures
            r@ == self.model().path,
    {
        self.css_module_path.as_str()
    }

    /// The global name of `local_name` in this module.
    pub fn index(&self, local_name: &str) -> (r: Result<String, LookupError>)
        ensures
            match lookup_last(self.model().names, local_name@) {
                Some(g) => r is Ok && r->Ok_0@ == g,
                None => r is Err && failure_of(r->Err_0) == (LookupFailure::NameNotFound {
                    name: local_name@,
                    css_module_path: self.model().path,
                }),
            },
    {
        let mut i = self.names.len();
        let ghost t = table_of(self.names@);
        proof {
            assert(t.subrange(0, t.len() as int) =~= t);
        }
        while i > 0
            invariant
                i <= self.names@.len(),
                t == table_of(self.names@),
                lookup_last(t, local_name@) == lookup_last(t.subrange(0, i as int), local_name@),
            decreases i,
        {
            let ghost pre = t.subrange(0, i as int);
            assert(pre.last() == (self.names@[i - 1].0@, self.names@[i - 1].1@));
            if same_text(self.names[i - 1].0.as_str(), local_name) {
                return Ok(self.names[i - 1].1.clone());
            }
            assert(pre.drop_last() =~= t.subrange(0, i - 1));
            i = i - 1;
        }
        Err(
            LookupError::NameNotFound {
                name: String::from_str(local_name),
                css_module_path: self.css_module_path.clone(),
            },
        )
    }
}

/// The mappings of all CSS modules of a program, and whether the host that
/// built the program separates paths with backslashes.
#[derive(Debug)]
pub struct Mappings {
    map: Vec<Mapping>,
    is_windows_host: bool,
}

/// The mathematical value of [`Mappings`].
pub struct MappingsModel {
    pub modules: Seq<MappingModel>,
    pub is_windows_host: bool,
}

/// The mapping last added for the module key `key`.
pub open spec fn find_mapping(ms: Seq<MappingModel>, key: Seq<char>) -> Option<MappingModel>
    decreases ms.len(),
{
    if ms.len() == 0 {
        None
    } else if ms.last().path == key {
        Some(ms.last())
    } else {
        find_mapping(ms.drop_last(), key)
    }
}

impl Mappings {
    pub closed spec fn model(&self) -> MappingsModel {
        MappingsModel {
            modules: self.map@.map_values(|m: Mapping| m.model()),
            is_windows_host: self.is_windows_host,
        }
    }

    /// Mappings with no module, for a host that separates paths with `/`.
    pub fn new() -> (r: Mappings)
        ensures
            r.model().modules.len() == 0,
            !r.model().is_windows_host,
    {
        Mappings { map: Vec::new(), is_windows_host: false }
    }

    /// Records whether the host that built the program separates paths with backslashes.
    pub fn is_windows_host(self, val: bool) -> (r: Mappings)
        ensures
            r.model().modules == self.model().modules,
            r.model().is_windows_host == val,
    {
        Mappings { map: self.map, is_windows_host: val }
    }

    /// Adds the mapping of the module with key `css_module_path`; it replaces
    /// any mapping added before under the same key. Among `names`, a later
    /// pair for a local name replaces an earlier one.
    pub fn add_mapping(self, css_module_path: &str, names: &[(&str, &str)]) -> (r: Mappings)
        ensures
            r.model().is_windows_host == self.model().is_windows_host,
            r.model().modules == self.model().modules.push(
                MappingModel {
                    path: css_module_path@,
                    names: names@.map_values(|p: (&str, &str)| (p.0@, p.1@)),
                },
            ),
    {
        let mut table: Vec<(String, String)> = Vec::new();
        let mut i: usize = 0;
        while i < names.len()
            invariant
                i <= names@.len(),
                table@.len() == i,
                table_of(table@) == names@.subrange(0, i as int).map_values(
                    |p: (&str, &str)| (p.0@, p.1@),
                ),
            decreases names@.len() - i,
        {
            let sa = String::from_str(names[i].0);
            let sb = String::from_str(names[i].1);
            let ghost before = table@;
            let ghost pair = (sa, sb);
            table.push((sa, sb));
            proof {
                let rhs = names@.subrange(0, i + 1).map_values(|p: (&str, &str)| (p.0@, p.1@));
                assert forall|k: int| 0 <= k < rhs.len() implies table_of(table@)[k] == rhs[k] by {
                    assert(table@[k] == before.push(pair)[k]);
                    if k < i {
                        assert(table_of(table@)[k] == table_of(before)[k]);
                    }
                }
                assert(table_of(table@) =~= rhs);
            }
            i = i + 1;
        }
        proof {
            assert(names@.subrange(0, names@.len() as int) =~= names@);
        }
        let m = Mapping { names: table, css_module_path: String::from_str(css_module_path) };
        let mut map = self.map;
        let ghost before = map@;
        map.push(m);
        proof {
            assert(map@.map_values(|m: Mapping| m.model()) =~= before.map_values(
                |m: Mapping| m.model(),
            ).push(m.model()));
        }
        Mappings { map, is_windows_host: self.is_windows_host }
    }

    /// The mapping of the CSS module `css_module_path`, requested from the
    /// source file `source_path` (in the host's style; the module path is
    /// posix style and relative to that file).
    pub fn get(&self, source_path: &str, css_module_path: &str) -> (r: Result<&Mapping, LookupError>)
        ensures
            match find_mapping(
                self.model().modules,
                module_key_spec(source_path@, css_module_path@, self.model().is_windows_host),
            ) {
                Some(m) => r is Ok && r->Ok_0.model() == m,
                None => r is Err && failure_of(r->Err_0) == (LookupFailure::ModuleNotFound {
                    css_module_path: css_module_path@,
                }),
            },
    {
        let key = resolve_module_file_path(source_path, css_module_path, self.is_windows_host);
        let ghost ms = self.model().modules;
        let mut i = self.map.len();
        proof {
            assert(ms.subrange(0, ms.len() as int) =~= ms);
        }
        while i > 0
            invariant
                i <= self.map@.len(),
                ms == self.model().modules,
                key@ == module_key_spec(source_path@, css_module_path@, self.model().is_windows_host),
                find_mapping(ms, key@) == find_mapping(ms.subrange(0, i as int), key@),
            decreases i,
        {
            let ghost pre = ms.subrange(0, i as int);
            assert(pre.last() == self.map@[i - 1].model());
            if same_text(self.map[i - 1].css_module_path.as_str(), key.as_str()) {
                assert(find_mapping(pre, key@) == Some(pre.last()));
                return Ok(&self.map[i - 1]);
            }
            assert(pre.drop_last() =~= ms.subrange(0, i - 1));
            i = i - 1;
        }
        Err(LookupError::ModuleNotFound { css_module_path: String::from_str(css_module_path) })
    }
}

impl Default for Mappings {
    fn default() -> (r: Mappings)
        ensures
            r.model().modules.len() == 0,
            !r.model().is_windows_host,
    {
        Mappings::new()
    }
}


/// The report of a failed lookup names what was missing: the module path,
/// or the local name and the module path.
pub proof fn lemma_message_names_key(f: LookupFailure)
    ensures
        match f {
            LookupFailure::ModuleNotFound { css_module_path } => message_of(f).subrange(
                27,
                27 + css_module_path.len() as int,
            ) == css_module_path,
            LookupFailure::NameNotFound { name, css_module_path } => message_of(f).subrange(
                6,
                6 + name.len() as int,
            ) == name && message_of(f).subrange(
                6 + name.len() as int + 20,
                6 + name.len() as int + 20 + css_module_path.len() as int,
            ) == css_module_path,
        },
{
    reveal_strlit("CSS module was not found: ");
    reveal_strlit("Name ");
    reveal_strlit(" was not found in ");
    match f {
        LookupFailure::ModuleNotFound { css_module_path } => {
            assert(message_of(f).subrange(27, 27 + css_module_path.len() as int) =~= css_module_path);
        },
        LookupFailure::NameNotFound { name, css_module_path } => {
            assert(message_of(f).subrange(6, 6 + name.len() as int) =~= name);
            assert(message_of(f).subrange(
                6 + name.len() as int + 20,
                6 + name.len() as int + 20 + css_module_path.len() as int,
            ) =~= css_module_path);
        },
    }
}

} // verus!
