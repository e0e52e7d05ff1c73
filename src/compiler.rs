//! The compiler: builds every input module, then gives the CSS bundle and the
//! name mappings that the runtime side is set up with.
use vstd::prelude::*;
use crate::module::{Stylesheet, SheetModel, ModuleModel, Fail, CompileError, err_agrees, add_module_spec, bundle_of, sheet_model, module_model};
use crate::names::{Failure, NameTable, table_of, same_text};
use crate::paths::{host_to_posix, host_path_to_posix};
use crate::text::{chars_of, string_of_range};
use vstd::string::StringExecFns;

verus! {

/// The module key of the file `p` relative to the directory `d`, when `p`
/// lies inside `d`.
pub open spec fn relative_key(p: Seq<char>, d: Seq<char>) -> Option<Seq<char>> {
    if d.len() <= p.len() && p.subrange(0, d.len() as int) == d {
        let rest = p.subrange(d.len() as int, p.len() as int);
        if d.len() == 0 || d.last() == '/' || rest.len() == 0 {
            Some(rest)
        } else if rest[0] == '/' {
            Some(rest.subrange(1, rest.len() as int))
        } else {
            None
        }
    } else {
        None
    }
}

/// The module key of the module file `path` in the workspace `workspace_dir`,
/// both written in the host's style. Keys are always posix style.
pub open spec fn module_key_of(path: Seq<char>, workspace_dir: Seq<char>, is_windows_host: bool) -> Option<
    Seq<char>,
> {
    relative_key(host_to_posix(path, is_windows_host), host_to_posix(workspace_dir, is_windows_host))
}

/// Why a compilation failed, and the input module it was adding.
pub type InputFail = (Fail, Seq<char>);

/// The stylesheet after adding the input modules `inputs[i..]` in order.
pub open spec fn sheet_after(src: NameTable, inputs: Seq<Seq<char>>, i: int, st: SheetModel) -> Result<
    SheetModel,
    InputFail,
>
    decreases inputs.len() - i,
{
    if i < 0 || i >= inputs.len() {
        Ok(st)
    } else {
        match add_module_spec(src, st, inputs[i]) {
            Err(e) => Err((e, inputs[i])),
            Ok(st2) => sheet_after(src, inputs, i + 1, st2),
        }
    }
}

/// One entry of the mapping artifact: a module key and the module's names.
pub type EntryModel = (Seq<char>, NameTable);

/// The mapping entries of `mods[i..]`.
pub open spec fn entries_from(mods: Seq<ModuleModel>, i: int, workspace_dir: Seq<char>, is_windows_host: bool) -> Result<
    Seq<EntryModel>,
    InputFail,
>
    decreases mods.len() - i,
{
    if i < 0 || i >= mods.len() {
        Ok(Seq::empty())
    } else {
        match module_key_of(mods[i].path, workspace_dir, is_windows_host) {
            None => Err(((Failure::OutsideWorkspace, mods[i].path), mods[i].path)),
            Some(key) => match entries_from(mods, i + 1, workspace_dir, is_windows_host) {
                Err(e) => Err(e),
                Ok(rest) => Ok(seq![(key, mods[i].names)] + rest),
            },
        }
    }
}

/// What a compilation gives: the CSS bundle and the mapping entries.
pub open spec fn compile_spec(
    src: NameTable,
    inputs: Seq<Seq<char>>,
    workspace_dir: Seq<char>,
    is_windows_host: bool,
) -> Result<(Seq<char>, Seq<EntryModel>), InputFail> {
    match sheet_after(src, inputs, 0, SheetModel { modules: Seq::empty(), count: 0 }) {
        Err(e) => Err(e),
        Ok(st) => match entries_from(st.modules, 0, workspace_dir, is_windows_host) {
            Err(e) => Err(e),
            Ok(entries) => Ok((bundle_of(st.modules), entries)),
        },
    }
}

/// The mapping of one module: its key and its names.
#[derive(Debug, PartialEq)]
pub struct ModuleMapping {
    pub key: String,
    pub names: Vec<(String, String)>,
}

pub open spec fn entry_of(m: ModuleMapping) -> EntryModel {
    (m.key@, table_of(m.names@))
}

/// Why a compilation failed: the error, and the input module that was being
/// added when it came (for an error of an imported module, the module that
/// imports it, directly or not).
#[derive(Debug, PartialEq)]
pub struct BuildError {
    pub input: String,
    pub error: CompileError,
}

pub open spec fn build_err_agrees(e: BuildError, f: InputFail) -> bool {
    err_agrees(e.error, f.0) && e.input@ == f.1
}

/// The artifacts of a compilation.
#[derive(Debug, PartialEq)]
pub struct CompileOutput {
    /// The CSS text of all modules.
    pub bundle: String,
    /// One mapping per module, in the order of the bundle.
    pub mappings: Vec<ModuleMapping>,
    /// Whether the building host separates paths with backslashes.
    pub is_windows_host: bool,
}

/// CSS modules compiler.
#[derive(Debug)]
pub struct Compiler {
    input_modules: Vec<String>,
}

impl Compiler {
    /// The input module paths, each once, in the order they were added.
    pub closed spec fn inputs(&self) -> Seq<Seq<char>> {
        self.input_modules@.map_values(|s: String| s@)
    }

    /// A compiler with no input modules.
    pub fn new() -> (r: Compiler)
        ensures
            r.inputs().len() == 0,
    {
        Compiler { input_modules: Vec::new() }
    }

    /// Adds the CSS module at `path` to compile, unless it was added before.
    pub fn add_module(&mut self, path: &str)
        ensures
            final(self).inputs() == if old(self).inputs().contains(path@) {
                old(self).inputs()
            } else {
                old(self).inputs().push(path@)
            },
    {
        let mut i: usize = 0;
        while i < self.input_modules.len()
            invariant
                i <= self.input_modules@.len(),
                forall|k: int| 0 <= k < i ==> self.inputs()[k] != path@,
            decreases self.input_modules@.len() - i,
        {
            if same_text(self.input_modules[i].as_str(), path) {
                proof {
                    assert(self.inputs()[i as int] == path@);
                }
                return;
            }
            i = i + 1;
        }
        let ghost before = self.input_modules@;
        proof {
            assert(!self.inputs().contains(path@));
        }
        self.input_modules.push(String::from_str(path));
        proof {
            assert(self.input_modules@.map_values(|s: String| s@) =~= before.map_values(
                |s: String| s@,
            ).push(path@));
        }
    }

    /// Builds every input module, with the modules it imports, taking source
    /// texts from `sources` (pairs of path and text), and gives the CSS
    /// bundle and each module's mapping under its key relative to
    /// `workspace_dir`.
    pub fn compile(
        &self,
        sources: &Vec<(String, String)>,
        workspace_dir: &str,
        is_windows_host: bool,
    ) -> (r: Result<CompileOutput, BuildError>)
        ensures
            match (r, compile_spec(table_of(sources@), self.inputs(), workspace_dir@, is_windows_host)) {
                (Ok(out), Ok((bundle, entries))) => {
                    &&& out.bundle@ == bundle
                    &&& out.mappings@.map_values(|m: ModuleMapping| entry_of(m)) == entries
                    &&& out.is_windows_host == is_windows_host
                },
                (Err(x), Err(f)) => build_err_agrees(x, f),
                _ => false,
            },
    {
        let mut sheet = Stylesheet::new();
        let ghost src = table_of(sources@);
        let ghost inputs = self.inputs();
        proof {
            assert(sheet_model(sheet).modules =~= Seq::<ModuleModel>::empty());
            assert(sheet_model(sheet) == (SheetModel { modules: Seq::empty(), count: 0 }));
        }
        let mut i: usize = 0;
        while i < self.input_modules.len()
            invariant
                i <= self.input_modules@.len(),
                src == table_of(sources@),
                inputs == self.inputs(),
                sheet_after(src, inputs, 0, SheetModel { modules: Seq::empty(), count: 0 })
                    == sheet_after(src, inputs, i as int, sheet_model(sheet)),
            decreases self.input_modules@.len() - i,
        {
            assert(inputs[i as int] == self.input_modules@[i as int]@);
            match sheet.add_module(sources, self.input_modules[i].as_str()) {
                Err(e) => {
                    return Err(BuildError { input: self.input_modules[i].clone(), error: e });
                },
                Ok(()) => {},
            }
            i = i + 1;
        }
        assert(sheet_after(src, inputs, 0, SheetModel { modules: Seq::empty(), count: 0 })
            == Result::<SheetModel, InputFail>::Ok(sheet_model(sheet)));
        let bundle = sheet.to_css();
        let ws = chars_of(workspace_dir);
        let ws_posix = host_path_to_posix(ws.as_slice(), is_windows_host);
        let mut mappings: Vec<ModuleMapping> = Vec::new();
        let ghost mods = sheet_model(sheet).modules;
        let mut k: usize = 0;
        proof {
            match entries_from(mods, 0, workspace_dir@, is_windows_host) {
                Ok(rest) => {
                    assert(Seq::<EntryModel>::empty() + rest =~= rest);
                },
                Err(_) => {},
            }
            assert(mappings@.map_values(|m: ModuleMapping| entry_of(m)) =~= Seq::<EntryModel>::empty());
        }
        while k < sheet.modules.len()
            invariant
                k <= sheet.modules@.len(),
                mods == sheet_model(sheet).modules,
                src == table_of(sources@),
                inputs == self.inputs(),
                sheet_after(src, inputs, 0, SheetModel { modules: Seq::empty(), count: 0 })
                    == Result::<SheetModel, InputFail>::Ok(sheet_model(sheet)),
                bundle@ == bundle_of(mods),
                ws_posix@ == host_to_posix(workspace_dir@, is_windows_host),
                entries_from(mods, 0, workspace_dir@, is_windows_host) == match entries_from(
                    mods,
                    k as int,
                    workspace_dir@,
                    is_windows_host,
                ) {
                    Ok(rest) => Ok(mappings@.map_values(|m: ModuleMapping| entry_of(m)) + rest),
                    Err(e) => Err(e),
                },
            decreases sheet.modules@.len() - k,
        {
            let m = &sheet.modules[k];
            assert(mods[k as int] == module_model(sheet.modules@[k as int]));
            let pv = chars_of(m.file_path.as_str());
            let p_posix = host_path_to_posix(pv.as_slice(), is_windows_host);
            match relative_key_exec(p_posix.as_slice(), ws_posix.as_slice()) {
                None => {
                    return Err(
                        BuildError {
                            input: m.file_path.clone(),
                            error: CompileError { failure: Failure::OutsideWorkspace, path: m.file_path.clone() },
                        },
                    );
                },
                Some(key) => {
                    let ghost before = mappings@;
                    let names = clone_names(&m.names);
                    let ghost e = (key@, table_of(names@));
                    mappings.push(ModuleMapping { key, names });
                    proof {
                        assert(mappings@.map_values(|m: ModuleMapping| entry_of(m)) =~= before.map_values(
                            |m: ModuleMapping| entry_of(m),
                        ).push(e));
                        match entries_from(mods, k + 1, workspace_dir@, is_windows_host) {
                            Ok(rest) => {
                                assert(before.map_values(|m: ModuleMapping| entry_of(m)) + (seq![e] + rest)
                                    =~= before.map_values(|m: ModuleMapping| entry_of(m)).push(e) + rest);
                            },
                            Err(_) => {},
                        }
                    }
                },
            }
            k = k + 1;
        }
        proof {
            assert(mappings@.map_values(|m: ModuleMapping| entry_of(m)) + Seq::<EntryModel>::empty()
                =~= mappings@.map_values(|m: ModuleMapping| entry_of(m)));
        }
        Ok(CompileOutput { bundle, mappings, is_windows_host })
    }
}

fn clone_names(v: &Vec<(String, String)>) -> (r: Vec<(String, String)>)
    ensures
        table_of(r@) == table_of(v@),
{
    let mut out: Vec<(String, String)> = Vec::new();
    let mut i: usize = 0;
    while i < v.len()
        invariant
            i <= v@.len(),
            out@.len() == i,
            forall|k: int| 0 <= k < i ==> out@[k].0@ == v@[k].0@ && out@[k].1@ == v@[k].1@,
        decreases v@.len() - i,
    {
        out.push((v[i].0.clone(), v[i].1.clone()));
        i = i + 1;
    }
    proof {
        assert(table_of(out@) =~= table_of(v@));
    }
    out
}

/// The key of the file `p` relative to the directory `d`, as `relative_key` says.
fn relative_key_exec(p: &[char], d: &[char]) -> (r: Option<String>)
    ensures
        match (r, relative_key(p@, d@)) {
            (Some(s), Some(x)) => s@ == x,
            (None, None) => true,
            _ => false,
        },
{
    if d.len() > p.len() {
        return None;
    }
    let mut i: usize = 0;
    while i < d.len()
        invariant
            i <= d@.len() <= p@.len(),
            forall|k: int| 0 <= k < i ==> p@[k] == d@[k],
        decreases d@.len() - i,
    {
        if p[i] != d[i] {
            proof {
                assert(p@.subrange(0, d@.len() as int)[i as int] != d@[i as int]);
            }
            return None;
        }
        i = i + 1;
    }
    proof {
        assert(p@.subrange(0, d@.len() as int) =~= d@);
    }
    let n = d.len();
    if n == 0 || d[n - 1] == '/' || n == p.len() {
        Some(string_of_range(p, n, p.len()))
    } else if p[n] == '/' {
        proof {
            let rest = p@.subrange(n as int, p@.len() as int);
            assert(rest.subrange(1, rest.len() as int) =~= p@.subrange(n + 1, p@.len() as int));
        }
        Some(string_of_range(p, n + 1, p.len()))
    } else {
        None
    }
}


/// A compilation is a function of what it is given: two compilations of the
/// same input modules, from the same sources, in the same workspace and for
/// the same host, give the same bundle and the same mappings.
pub proof fn lemma_compile_deterministic(
    src: NameTable,
    inputs: Seq<Seq<char>>,
    workspace_dir: Seq<char>,
    is_windows_host: bool,
    first: CompileOutput,
    second: CompileOutput,
)
    requires
        compile_spec(src, inputs, workspace_dir, is_windows_host) is Ok,
        first.bundle@ == compile_spec(src, inputs, workspace_dir, is_windows_host)->Ok_0.0,
        second.bundle@ == compile_spec(src, inputs, workspace_dir, is_windows_host)->Ok_0.0,
        first.mappings@.map_values(|m: ModuleMapping| entry_of(m)) == compile_spec(
            src,
            inputs,
            workspace_dir,
            is_windows_host,
        )->Ok_0.1,
        second.mappings@.map_values(|m: ModuleMapping| entry_of(m)) == compile_spec(
            src,
            inputs,
            workspace_dir,
            is_windows_host,
        )->Ok_0.1,
    ensures
        first.bundle@ == second.bundle@,
        first.mappings@.map_values(|m: ModuleMapping| entry_of(m)) == second.mappings@.map_values(
            |m: ModuleMapping| entry_of(m),
        ),
{
}

proof fn lemma_sheet_after_unique(src: NameTable, inputs: Seq<Seq<char>>, i: int, st: SheetModel)
    requires
        crate::module::well_formed(st.modules),
    ensures
        sheet_after(src, inputs, i, st) is Ok ==> crate::module::well_formed(
            sheet_after(src, inputs, i, st)->Ok_0.modules,
        ),
    decreases inputs.len() - i,
{
    if 0 <= i < inputs.len() {
        crate::module::lemma_add_module_keeps_paths_unique(src, st, inputs[i]);
        if let Ok(st2) = add_module_spec(src, st, inputs[i]) {
            lemma_sheet_after_unique(src, inputs, i + 1, st2);
        }
    }
}

/// Each module of a compilation is built once, however many input modules
/// import it: the modules behind the bundle have distinct paths.
pub proof fn lemma_compile_builds_each_module_once(src: NameTable, inputs: Seq<Seq<char>>)
    ensures
        sheet_after(src, inputs, 0, SheetModel { modules: Seq::empty(), count: 0 }) is Ok
            ==> crate::module::well_formed(
            sheet_after(src, inputs, 0, SheetModel { modules: Seq::empty(), count: 0 })->Ok_0.modules,
        ),
{
    lemma_sheet_after_unique(src, inputs, 0, SheetModel { modules: Seq::empty(), count: 0 });
}

} // verus!
