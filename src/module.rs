//! Modules, the stylesheet that owns them, and the transform that renames a
//! module's local names and resolves its imports.
use vstd::prelude::*;
use crate::ast::{Child, Node, node_of, nodes_of};
use crate::names::{Failure, NameTable, NameState, table_of, lookup, lookup_exec, assign, add_name, same_text};
use crate::paths::{dir_prefix, dir_end};
use crate::rewrite::{rewrite_selector, rewrite_animation, replace_selector_names, replace_animation_names};
use crate::syntax::{parse_sheet, parse_sheet_exec};
use crate::text::{chars_of, string_of_range, push_range};
use vstd::string::StringExecFns;

verus! {

/// The file name of `p`: what follows its last `/`.
pub open spec fn file_name(p: Seq<char>) -> Seq<char> {
    p.subrange(dir_prefix(p).len() as int, p.len() as int)
}

/// The position of the last `.` in `n[..i]`, or -1.
pub open spec fn last_dot(n: Seq<char>, i: int) -> int
    decreases i,
{
    if i <= 0 {
        -1
    } else if n[i - 1] == '.' {
        i - 1
    } else {
        last_dot(n, i - 1)
    }
}

/// The file name of `p` without its extension. A name that holds no `.`
/// but at its start is its own stem.
pub open spec fn stem_of(p: Seq<char>) -> Seq<char> {
    let n = file_name(p);
    let d = last_dot(n, n.len() as int);
    if d <= 0 {
        n
    } else {
        n.subrange(0, d)
    }
}

pub open spec fn is_quote(c: char) -> bool {
    c == '"' || c == '\''
}

pub open spec fn unquote_lo(s: Seq<char>, lo: int, hi: int) -> int
    decreases hi - lo,
{
    if lo < hi && is_quote(s[lo]) {
        unquote_lo(s, lo + 1, hi)
    } else {
        lo
    }
}

pub open spec fn unquote_hi(s: Seq<char>, lo: int, hi: int) -> int
    decreases hi - lo,
{
    if lo < hi && is_quote(s[hi - 1]) {
        unquote_hi(s, lo, hi - 1)
    } else {
        hi
    }
}

/// `s` without the quote characters at its two ends.
pub open spec fn unquoted(s: Seq<char>) -> Seq<char> {
    let a = unquote_lo(s, 0, s.len() as int);
    s.subrange(a, unquote_hi(s, a, s.len() as int))
}

/// The path that an import of `rel` names, seen from the directory `dir`.
pub open spec fn import_target(dir: Seq<char>, rel: Seq<char>) -> Seq<char> {
    if rel.len() > 0 && rel[0] == '/' {
        rel
    } else {
        dir + rel
    }
}

/// `names` with each entry of `imported` added whose local name it lacks;
/// entries already in `names` win.
pub open spec fn merge(names: NameTable, imported: NameTable) -> NameTable
    decreases imported.len(),
{
    if imported.len() == 0 {
        names
    } else {
        let next = if lookup(names, imported[0].0) is Some {
            names
        } else {
            names.push(imported[0])
        };
        merge(next, imported.subrange(1, imported.len() as int))
    }
}

fn file_name_start(p: &[char]) -> (r: usize)
    ensures
        r <= p@.len(),
        r == dir_prefix(p@).len(),
{
    let r = dir_end(p, p.len());
    proof {
        assert(p@.subrange(0, p@.len() as int) =~= p@);
    }
    r
}

/// The stem of the file that `path` names.
pub fn file_stem(path: &str) -> (r: String)
    ensures
        r@ == stem_of(path@),
{
    let pv = chars_of(path);
    let p = pv.as_slice();
    let start = file_name_start(p);
    let ghost n = file_name(p@);
    let mut i = p.len();
    while i > start && p[i - 1] != '.'
        invariant
            start <= i <= p@.len(),
            n == p@.subrange(start as int, p@.len() as int),
            last_dot(n, i - start) == last_dot(n, n.len() as int),
        decreases i,
    {
        i = i - 1;
    }
    if i - start <= 1 {
        string_of_range(p, start, p.len())
    } else {
        proof {
            assert(p@.subrange(start as int, i - 1) =~= n.subrange(0, i - 1 - start));
        }
        string_of_range(p, start, i - 1)
    }
}

fn is_quote_exec(c: char) -> (r: bool)
    ensures
        r == is_quote(c),
{
    c == '"' || c == '\''
}

/// The path that `@import` with the argument `rule` names, seen from the
/// directory `dir`.
pub fn import_path(dir: &str, rule: &str) -> (r: String)
    ensures
        r@ == import_target(dir@, unquoted(rule@)),
{
    let sv = chars_of(rule);
    let s = sv.as_slice();
    let mut a: usize = 0;
    while a < s.len() && is_quote_exec(s[a])
        invariant
            a <= s@.len(),
            unquote_lo(s@, a as int, s@.len() as int) == unquote_lo(s@, 0, s@.len() as int),
        decreases s@.len() - a,
    {
        a = a + 1;
    }
    let mut b = s.len();
    while b > a && is_quote_exec(s[b - 1])
        invariant
            a <= b <= s@.len(),
            unquote_hi(s@, a as int, b as int) == unquote_hi(s@, a as int, s@.len() as int),
        decreases b,
    {
        b = b - 1;
    }
    if a < b && s[a] == '/' {
        string_of_range(s, a, b)
    } else {
        let dv = chars_of(dir);
        let mut out = string_of_range(dv.as_slice(), 0, dv.len());
        push_range(&mut out, s, a, b);
        proof {
            assert(dv@.subrange(0, dv@.len() as int) =~= dir@);
        }
        out
    }
}

/// Adds to `names` each entry of `imported` whose local name it lacks.
pub fn merge_names(names: &mut Vec<(String, String)>, imported: &Vec<(String, String)>)
    ensures
        table_of(final(names)@) == merge(table_of(old(names)@), table_of(imported@)),
{
    let mut i: usize = 0;
    proof {
        assert(table_of(imported@).subrange(0, imported@.len() as int) =~= table_of(imported@));
    }
    while i < imported.len()
        invariant
            i <= imported@.len(),
            merge(table_of(old(names)@), table_of(imported@)) == merge(
                table_of(names@),
                table_of(imported@).subrange(i as int, imported@.len() as int),
            ),
        decreases imported@.len() - i,
    {
        let ghost rest = table_of(imported@).subrange(i as int, imported@.len() as int);
        assert(rest[0] == (imported@[i as int].0@, imported@[i as int].1@));
        assert(rest.subrange(1, rest.len() as int) =~= table_of(imported@).subrange(
            i + 1,
            imported@.len() as int,
        ));
        let found = lookup_exec(names, imported[i].0.as_str());
        if found.is_none() {
            let ghost before = names@;
            names.push((imported[i].0.clone(), imported[i].1.clone()));
            proof {
                assert(table_of(names@) =~= table_of(before).push(rest[0]));
            }
        }
        i = i + 1;
    }
    proof {
        assert(table_of(imported@).subrange(imported@.len() as int, imported@.len() as int)
            =~= Seq::<(Seq<char>, Seq<char>)>::empty());
    }
}


/// One source CSS file after the transform: its syntax nodes, in source
/// order, and the names it exposes with their global names.
#[derive(Debug, PartialEq)]
pub struct Module {
    pub children: Vec<Child>,
    pub names: Vec<(String, String)>,
    pub file_path: String,
}

/// The mathematical value of a [`Module`].
pub struct ModuleModel {
    pub path: Seq<char>,
    pub children: Seq<Node>,
    pub names: NameTable,
}

pub open spec fn module_model(m: Module) -> ModuleModel {
    ModuleModel { path: m.file_path@, children: nodes_of(m.children@), names: table_of(m.names@) }
}

/// All modules of one compilation, in the order they were completed, and the
/// counter of names they share.
#[derive(Debug, PartialEq)]
pub struct Stylesheet {
    pub modules: Vec<Module>,
    pub names_count: u64,
}

/// The mathematical value of a [`Stylesheet`].
pub struct SheetModel {
    pub modules: Seq<ModuleModel>,
    pub count: nat,
}

pub open spec fn sheet_model(s: Stylesheet) -> SheetModel {
    SheetModel { modules: s.modules@.map_values(|m: Module| module_model(m)), count: s.names_count as nat }
}

/// Why a module could not be built, and the path of the module concerned.
#[derive(Debug, PartialEq)]
pub struct CompileError {
    pub failure: Failure,
    pub path: String,
}

pub type Fail = (Failure, Seq<char>);

pub open spec fn err_agrees(e: CompileError, f: Fail) -> bool {
    e.failure == f.0 && e.path@ == f.1
}

/// The first module of `mods` at or after `i` whose path is `path`.
pub open spec fn find_module_from(mods: Seq<ModuleModel>, path: Seq<char>, i: int) -> Option<int>
    decreases mods.len() - i,
{
    if i < 0 || i >= mods.len() {
        None
    } else if mods[i].path == path {
        Some(i)
    } else {
        find_module_from(mods, path, i + 1)
    }
}

pub open spec fn find_module(mods: Seq<ModuleModel>, path: Seq<char>) -> Option<int> {
    find_module_from(mods, path, 0)
}

/// What the transform of a module knows of it: the prefix of its global
/// names, its directory and its path.
pub struct Ctx {
    pub prefix: Seq<char>,
    pub dir: Seq<char>,
    pub path: Seq<char>,
}

/// The state of a transform: the names of the module being built and the stylesheet.
pub struct TState {
    pub names: NameTable,
    pub sheet: SheetModel,
}

pub open spec fn ns_of(t: TState) -> NameState {
    NameState { names: t.names, count: t.sheet.count }
}

pub open spec fn with_ns(t: TState, ns: NameState) -> TState {
    TState { names: ns.names, sheet: SheetModel { modules: t.sheet.modules, count: ns.count } }
}

pub open spec fn is_animation_prop(name: Option<Seq<char>>) -> bool {
    name == Some("animation"@) || name == Some("animation-name"@)
}

pub open spec fn with_block(
    make: spec_fn(Seq<Node>) -> Node,
    r: Result<(Seq<Node>, TState), Fail>,
) -> Result<(Option<Node>, TState), Fail> {
    match r {
        Ok((cs, t)) => Ok((Some(make(cs)), t)),
        Err(e) => Err(e),
    }
}

pub open spec fn opt_seq(o: Option<Node>) -> Seq<Node> {
    match o {
        Some(n) => seq![n],
        None => Seq::empty(),
    }
}

/// Resolves the module at `path`, which the stylesheet does not hold yet:
/// reads its source from `src`, builds it and adds it to the stylesheet.
/// `stack` holds the modules whose imports are being resolved.
pub open spec fn resolve(
    src: NameTable,
    st: SheetModel,
    path: Seq<char>,
    stack: Seq<Seq<char>>,
    budget: nat,
) -> Result<SheetModel, Fail>
    decreases 3 * budget + 2,
{
    if stack.contains(path) {
        Err((Failure::Cycle, path))
    } else {
        match lookup(src, path) {
            None => Err((Failure::Missing, path)),
            Some(text) => match build(src, st, path, text, stack, budget) {
                Err(e) => Err(e),
                Ok((m, st2)) => Ok(SheetModel { modules: st2.modules.push(m), count: st2.count }),
            },
        }
    }
}

/// Builds the module at `path` from its source text: parses it, then renames
/// its local names and resolves its imports, in source order.
pub open spec fn build(
    src: NameTable,
    st: SheetModel,
    path: Seq<char>,
    text: Seq<char>,
    stack: Seq<Seq<char>>,
    budget: nat,
) -> Result<(ModuleModel, SheetModel), Fail>
    decreases 3 * budget + 1,
{
    match parse_sheet(text, 0) {
        Err(e) => Err((Failure::Syntax(e), path)),
        Ok(nodes) => {
            let stem = stem_of(path);
            if stem.len() == 0 {
                Err((Failure::NoFileStem, path))
            } else {
                let ctx = Ctx { prefix: stem, dir: dir_prefix(path), path };
                let t = TState { names: Seq::empty(), sheet: st };
                match xf_from(src, ctx, nodes, 0, t, stack.push(path), budget) {
                    Err(e) => Err(e),
                    Ok((children, t2)) => Ok(
                        (ModuleModel { path, children, names: t2.names }, t2.sheet),
                    ),
                }
            }
        },
    }
}

/// Transforms the nodes `ns[i..]`, dropping those that leave nothing behind.
pub open spec fn xf_from(
    src: NameTable,
    ctx: Ctx,
    ns: Seq<Node>,
    i: int,
    t: TState,
    stack: Seq<Seq<char>>,
    budget: nat,
) -> Result<(Seq<Node>, TState), Fail>
    decreases 3 * budget, ns, ns.len() - i,
{
    if i < 0 || i >= ns.len() {
        Ok((Seq::empty(), t))
    } else {
        match xf_node(src, ctx, ns[i], t, stack, budget) {
            Err(e) => Err(e),
            Ok((o, t2)) => match xf_from(src, ctx, ns, i + 1, t2, stack, budget) {
                Err(e) => Err(e),
                Ok((rest, t3)) => Ok((opt_seq(o) + rest, t3)),
            },
        }
    }
}

/// Transforms one node. Selectors, `animation` values and the names of
/// `@keyframes` are rewritten; an `@import` is resolved, its names merged
/// into the module's, and leaves no node; everything else is kept.
pub open spec fn xf_node(
    src: NameTable,
    ctx: Ctx,
    n: Node,
    t: TState,
    stack: Seq<Seq<char>>,
    budget: nat,
) -> Result<(Option<Node>, TState), Fail>
    decreases 3 * budget, n, 0int,
{
    match n {
        Node::Comment { .. } => Ok((Some(n), t)),
        Node::Property { name, value } => if is_animation_prop(name) && value is Some {
            match rewrite_animation(ctx.prefix, value->0, ns_of(t)) {
                Err(f) => Err((f, ctx.path)),
                Ok((v2, ns2)) => Ok((Some(Node::Property { name, value: v2 }), with_ns(t, ns2))),
            }
        } else {
            Ok((Some(n), t))
        },
        Node::SelectRule { rule, children } => match rule {
            Some(r) => match rewrite_selector(ctx.prefix, r, ns_of(t)) {
                Err(f) => Err((f, ctx.path)),
                Ok((r2, ns2)) => with_block(
                    |cs: Seq<Node>| Node::SelectRule { rule: r2, children: cs },
                    xf_from(src, ctx, children, 0, with_ns(t, ns2), stack, budget),
                ),
            },
            None => with_block(
                |cs: Seq<Node>| Node::SelectRule { rule: None, children: cs },
                xf_from(src, ctx, children, 0, t, stack, budget),
            ),
        },
        Node::AtRule { name, rule, children } => if name == Some("keyframes"@) && rule is Some {
            match assign(ctx.prefix, rule->0, ns_of(t)) {
                Err(f) => Err((f, ctx.path)),
                Ok((g, ns2)) => with_block(
                    |cs: Seq<Node>| Node::AtRule { name, rule: Some(g), children: cs },
                    xf_from(src, ctx, children, 0, with_ns(t, ns2), stack, budget),
                ),
            }
        } else if name == Some("import"@) && rule is Some {
            let target = import_target(ctx.dir, unquoted(rule->0));
            match find_module(t.sheet.modules, target) {
                Some(k) => Ok(
                    (
                        None,
                        TState { names: merge(t.names, t.sheet.modules[k].names), sheet: t.sheet },
                    ),
                ),
                None => if budget == 0 {
                    Err((Failure::Cycle, target))
                } else {
                    match resolve(src, t.sheet, target, stack, (budget - 1) as nat) {
                        Err(e) => Err(e),
                        Ok(sheet2) => Ok(
                            (
                                None,
                                TState {
                                    names: merge(t.names, sheet2.modules.last().names),
                                    sheet: sheet2,
                                },
                            ),
                        ),
                    }
                },
            }
        } else {
            with_block(
                |cs: Seq<Node>| Node::AtRule { name, rule, children: cs },
                xf_from(src, ctx, children, 0, t, stack, budget),
            )
        },
    }
}


/// What the transform of a module knows of it; see [`Ctx`].
pub struct ParserContext {
    pub prefix: String,
    pub dir: String,
    pub path: String,
}

pub open spec fn ctx_of(s: ParserContext) -> Ctx {
    Ctx { prefix: s.prefix@, dir: s.dir@, path: s.path@ }
}

pub open spec fn stack_model(v: Seq<String>) -> Seq<Seq<char>> {
    v.map_values(|s: String| s@)
}

pub open spec fn tstate(names: Seq<(String, String)>, sheet: Stylesheet) -> TState {
    TState { names: table_of(names), sheet: sheet_model(sheet) }
}

pub open spec fn opt_node_agrees(o: Option<Child>, e: Option<Node>) -> bool {
    match (o, e) {
        (Some(c), Some(n)) => node_of(c) == n,
        (None, None) => true,
        _ => false,
    }
}

/// The nesting of imports allowed for a compilation over `n` sources. A
/// deeper chain has to pass some module twice.
pub open spec fn import_budget(n: nat) -> nat {
    if n < usize::MAX {
        n + 1
    } else {
        n
    }
}

fn import_budget_exec(n: usize) -> (r: usize)
    ensures
        r == import_budget(n as nat),
{
    if n < usize::MAX {
        n + 1
    } else {
        n
    }
}

fn clone_opt(o: &Option<String>) -> (r: Option<String>)
    ensures
        crate::ast::opt_chars(r) == crate::ast::opt_chars(*o),
{
    match o {
        Some(s) => Some(s.clone()),
        None => None,
    }
}

fn is_word_opt(o: &Option<String>, w: &str) -> (r: bool)
    ensures
        r == (crate::ast::opt_chars(*o) == Some(w@)),
{
    match o {
        Some(s) => same_text(s.as_str(), w),
        None => false,
    }
}

/// The directory part of `path`.
pub fn dir_of(path: &str) -> (r: String)
    ensures
        r@ == dir_prefix(path@),
{
    let pv = chars_of(path);
    let k = dir_end(pv.as_slice(), pv.len());
    proof {
        assert(pv@.subrange(0, pv@.len() as int) =~= pv@);
    }
    string_of_range(pv.as_slice(), 0, k)
}

fn stack_contains(stack: &Vec<String>, path: &String) -> (r: bool)
    ensures
        r == stack_model(stack@).contains(path@),
{
    let mut i: usize = 0;
    while i < stack.len()
        invariant
            i <= stack@.len(),
            forall|k: int| 0 <= k < i ==> stack@[k]@ != path@,
        decreases stack@.len() - i,
    {
        if same_text(stack[i].as_str(), path.as_str()) {
            proof {
                assert(stack_model(stack@)[i as int] == path@);
            }
            return true;
        }
        i = i + 1;
    }
    proof {
        if stack_model(stack@).contains(path@) {
            let k = choose|k: int| 0 <= k < stack_model(stack@).len() && stack_model(stack@)[k] == path@;
            assert(stack@[k]@ == path@);
        }
    }
    false
}

/// The index of the module of `sheet` whose path is `path`.
pub fn find_module_exec(sheet: &Stylesheet, path: &str) -> (r: Option<usize>)
    ensures
        match (r, find_module(sheet_model(*sheet).modules, path@)) {
            (Some(k), Some(j)) => k == j && k < sheet.modules@.len(),
            (None, None) => true,
            _ => false,
        },
{
    let ghost mods = sheet_model(*sheet).modules;
    let mut i: usize = 0;
    while i < sheet.modules.len()
        invariant
            i <= sheet.modules@.len(),
            mods == sheet_model(*sheet).modules,
            find_module_from(mods, path@, i as int) == find_module(mods, path@),
        decreases sheet.modules@.len() - i,
    {
        assert(mods[i as int] == module_model(sheet.modules@[i as int]));
        if same_text(sheet.modules[i].file_path.as_str(), path) {
            return Some(i);
        }
        i = i + 1;
    }
    None
}

fn fail(failure: Failure, path: &String) -> (e: CompileError)
    ensures
        err_agrees(e, (failure, path@)),
{
    CompileError { failure, path: path.clone() }
}

fn xf_node_exec(
    src: &Vec<(String, String)>,
    ctx: &ParserContext,
    c: &Child,
    names: &mut Vec<(String, String)>,
    sheet: &mut Stylesheet,
    stack: &mut Vec<String>,
    budget: usize,
) -> (r: Result<Option<Child>, CompileError>)
    ensures
        stack_model(final(stack)@) == stack_model(old(stack)@),
        match (
            r,
            xf_node(
                table_of(src@),
                ctx_of(*ctx),
                node_of(*c),
                tstate(old(names)@, *old(sheet)),
                stack_model(old(stack)@),
                budget as nat,
            ),
        ) {
            (Ok(o), Ok((e, t))) => opt_node_agrees(o, e) && tstate(final(names)@, *final(sheet)) == t,
            (Err(x), Err(f)) => err_agrees(x, f),
            _ => false,
        },
    decreases 3 * budget, c, 0int,
{
    match c {
        Child::Comment { value } => Ok(Some(Child::Comment { value: clone_opt(value) })),
        Child::Property { name, value } => {
            let anim = is_word_opt(name, "animation") || is_word_opt(name, "animation-name");
            match value {
                Some(v) => {
                    if anim {
                        match replace_animation_names(
                            ctx.prefix.as_str(),
                            v.as_str(),
                            names,
                            &mut sheet.names_count,
                        ) {
                            Err(f) => Err(fail(f, &ctx.path)),
                            Ok(v2) => Ok(Some(Child::Property { name: clone_opt(name), value: v2 })),
                        }
                    } else {
                        Ok(Some(Child::Property { name: clone_opt(name), value: Some(v.clone()) }))
                    }
                },
                None => Ok(Some(Child::Property { name: clone_opt(name), value: None })),
            }
        },
        Child::SelectRule { rule, children } => {
            let mut new_rule: Option<String> = None;
            match rule {
                Some(r) => {
                    match replace_selector_names(
                        ctx.prefix.as_str(),
                        r.as_str(),
                        names,
                        &mut sheet.names_count,
                    ) {
                        Err(f) => {
                            return Err(fail(f, &ctx.path));
                        },
                        Ok(r2) => {
                            new_rule = r2;
                        },
                    }
                },
                None => {},
            }
            match xf_from_exec(src, ctx, children, names, sheet, stack, budget) {
                Err(e) => Err(e),
                Ok(cs) => Ok(Some(Child::SelectRule { rule: new_rule, children: cs })),
            }
        },
        Child::AtRule { name, rule, children } => {
            let is_keyframes = is_word_opt(name, "keyframes");
            let is_import = is_word_opt(name, "import");
            match rule {
                Some(r) => {
                    if is_keyframes {
                        match add_name(ctx.prefix.as_str(), r.as_str(), names, &mut sheet.names_count) {
                            Err(f) => Err(fail(f, &ctx.path)),
                            Ok(g) => match xf_from_exec(src, ctx, children, names, sheet, stack, budget) {
                                Err(e) => Err(e),
                                Ok(cs) => Ok(
                                    Some(Child::AtRule { name: clone_opt(name), rule: Some(g), children: cs }),
                                ),
                            },
                        }
                    } else if is_import {
                        let target = import_path(ctx.dir.as_str(), r.as_str());
                        match find_module_exec(sheet, target.as_str()) {
                            Some(k) => {
                                merge_names(names, &sheet.modules[k].names);
                                Ok(None)
                            },
                            None => {
                                if budget == 0 {
                                    Err(fail(Failure::Cycle, &target))
                                } else {
                                    match resolve_exec(src, sheet, &target, stack, budget - 1) {
                                        Err(e) => Err(e),
                                        Ok(()) => {
                                            let k = sheet.modules.len() - 1;
                                            merge_names(names, &sheet.modules[k].names);
                                            Ok(None)
                                        },
                                    }
                                }
                            },
                        }
                    } else {
                        match xf_from_exec(src, ctx, children, names, sheet, stack, budget) {
                            Err(e) => Err(e),
                            Ok(cs) => Ok(
                                Some(Child::AtRule { name: clone_opt(name), rule: Some(r.clone()), children: cs }),
                            ),
                        }
                    }
                },
                None => match xf_from_exec(src, ctx, children, names, sheet, stack, budget) {
                    Err(e) => Err(e),
                    Ok(cs) => Ok(Some(Child::AtRule { name: clone_opt(name), rule: None, children: cs })),
                },
            }
        },
    }
}

fn xf_from_exec(
    src: &Vec<(String, String)>,
    ctx: &ParserContext,
    cs: &Vec<Child>,
    names: &mut Vec<(String, String)>,
    sheet: &mut Stylesheet,
    stack: &mut Vec<String>,
    budget: usize,
) -> (r: Result<Vec<Child>, CompileError>)
    ensures
        stack_model(final(stack)@) == stack_model(old(stack)@),
        match (
            r,
            xf_from(
                table_of(src@),
                ctx_of(*ctx),
                nodes_of(cs@),
                0,
                tstate(old(names)@, *old(sheet)),
                stack_model(old(stack)@),
                budget as nat,
            ),
        ) {
            (Ok(v), Ok((ns, t))) => nodes_of(v@) == ns && tstate(final(names)@, *final(sheet)) == t,
            (Err(x), Err(f)) => err_agrees(x, f),
            _ => false,
        },
    decreases 3 * budget, cs, 0int,
{
    let ghost ns = nodes_of(cs@);
    let ghost g_src = table_of(src@);
    let ghost g_ctx = ctx_of(*ctx);
    let ghost g_stack = stack_model(stack@);
    let ghost t0 = tstate(names@, *sheet);
    let mut acc: Vec<Child> = Vec::new();
    let mut i: usize = 0;
    proof {
        crate::ast::lemma_nodes_of_len(cs@);
        match xf_from(g_src, g_ctx, ns, 0, t0, g_stack, budget as nat) {
            Ok((rest, t)) => {
                assert(nodes_of(acc@) + rest =~= rest);
            },
            Err(_) => {},
        }
    }
    while i < cs.len()
        invariant
            i <= cs@.len(),
            ns == nodes_of(cs@),
            ns.len() == cs@.len(),
            g_src == table_of(src@),
            g_ctx == ctx_of(*ctx),
            stack_model(stack@) == g_stack,
            g_stack == stack_model(old(stack)@),
            t0 == tstate(old(names)@, *old(sheet)),
            xf_from(g_src, g_ctx, ns, 0, t0, g_stack, budget as nat) == match xf_from(
                g_src,
                g_ctx,
                ns,
                i as int,
                tstate(names@, *sheet),
                g_stack,
                budget as nat,
            ) {
                Ok((rest, t)) => Ok((nodes_of(acc@) + rest, t)),
                Err(e) => Err(e),
            },
        decreases cs@.len() - i,
    {
        let ghost t = tstate(names@, *sheet);
        proof {
            crate::ast::lemma_nodes_of_index(cs@, i as int);
        }
        match xf_node_exec(src, ctx, &cs[i], names, sheet, stack, budget) {
            Err(e) => {
                return Err(e);
            },
            Ok(o) => {
                let ghost old_acc = acc@;
                match o {
                    Some(c) => {
                        acc.push(c);
                        proof {
                            assert(acc@.drop_last() =~= old_acc);
                        }
                    },
                    None => {},
                }
                proof {
                    let t2 = tstate(names@, *sheet);
                    match xf_from(g_src, g_ctx, ns, i + 1, t2, g_stack, budget as nat) {
                        Ok((rest, t3)) => {
                            match xf_node(g_src, g_ctx, ns[i as int], t, g_stack, budget as nat) {
                                Ok((e, _)) => {
                                    assert(nodes_of(old_acc) + (opt_seq(e) + rest) =~= nodes_of(acc@) + rest);
                                },
                                Err(_) => {},
                            }
                        },
                        Err(_) => {},
                    }
                }
            },
        }
        i = i + 1;
    }
    proof {
        assert(nodes_of(acc@) + Seq::<Node>::empty() =~= nodes_of(acc@));
    }
    Ok(acc)
}

fn build_exec(
    src: &Vec<(String, String)>,
    sheet: &mut Stylesheet,
    path: &String,
    text: &String,
    stack: &mut Vec<String>,
    budget: usize,
) -> (r: Result<Module, CompileError>)
    ensures
        stack_model(final(stack)@) == stack_model(old(stack)@),
        match (
            r,
            build(table_of(src@), sheet_model(*old(sheet)), path@, text@, stack_model(old(stack)@), budget as nat),
        ) {
            (Ok(m), Ok((mm, st))) => module_model(m) == mm && sheet_model(*final(sheet)) == st,
            (Err(x), Err(f)) => err_agrees(x, f),
            _ => false,
        },
    decreases 3 * budget + 1,
{
    let tv = chars_of(text.as_str());
    match parse_sheet_exec(tv.as_slice()) {
        Err(e) => Err(fail(Failure::Syntax(e), path)),
        Ok(nodes) => {
            let stem = file_stem(path.as_str());
            let stem_chars = chars_of(stem.as_str());
            if stem_chars.len() == 0 {
                return Err(fail(Failure::NoFileStem, path));
            }
            let ctx = ParserContext { prefix: stem, dir: dir_of(path.as_str()), path: path.clone() };
            let mut names: Vec<(String, String)> = Vec::new();
            let ghost before = stack@;
            stack.push(path.clone());
            proof {
                assert(stack_model(stack@) =~= stack_model(before).push(path@));
                assert(table_of(names@) =~= Seq::<(Seq<char>, Seq<char>)>::empty());
            }
            let r = xf_from_exec(src, &ctx, &nodes, &mut names, sheet, stack, budget);
            let ghost mid = stack@;
            stack.pop();
            proof {
                assert(stack@ =~= mid.drop_last());
                assert(stack_model(mid).len() == stack_model(before).len() + 1);
                assert forall|k: int| 0 <= k < stack@.len() implies stack_model(stack@)[k] == stack_model(before)[k] by {
                    assert(stack_model(mid)[k] == stack_model(before).push(path@)[k]);
                }
                assert(stack_model(stack@) =~= stack_model(before));
            }
            match r {
                Err(e) => Err(e),
                Ok(children) => Ok(Module { children, names, file_path: path.clone() }),
            }
        },
    }
}

fn resolve_exec(
    src: &Vec<(String, String)>,
    sheet: &mut Stylesheet,
    path: &String,
    stack: &mut Vec<String>,
    budget: usize,
) -> (r: Result<(), CompileError>)
    ensures
        stack_model(final(stack)@) == stack_model(old(stack)@),
        match (
            r,
            resolve(table_of(src@), sheet_model(*old(sheet)), path@, stack_model(old(stack)@), budget as nat),
        ) {
            (Ok(()), Ok(st)) => sheet_model(*final(sheet)) == st,
            (Err(x), Err(f)) => err_agrees(x, f),
            _ => false,
        },
    decreases 3 * budget + 2,
{
    if stack_contains(stack, path) {
        return Err(fail(Failure::Cycle, path));
    }
    match lookup_exec(src, path.as_str()) {
        None => Err(fail(Failure::Missing, path)),
        Some(text) => match build_exec(src, sheet, path, &text, stack, budget) {
            Err(e) => Err(e),
            Ok(m) => {
                let ghost before = sheet.modules@;
                sheet.modules.push(m);
                proof {
                    assert(sheet_model(*sheet).modules =~= before.map_values(|m: Module| module_model(m)).push(module_model(m)));
                }
                Ok(())
            },
        },
    }
}


/// What adding the module at `path` to the stylesheet `st` gives: the
/// stylesheet itself when it holds that module already, else the stylesheet
/// that resolving it yields.
pub open spec fn add_module_spec(src: NameTable, st: SheetModel, path: Seq<char>) -> Result<
    SheetModel,
    Fail,
> {
    if find_module(st.modules, path) is Some {
        Ok(st)
    } else {
        resolve(src, st, path, Seq::empty(), import_budget(src.len()))
    }
}

/// The CSS bundle of a sequence of modules: their texts one after the other.
pub open spec fn bundle_of(mods: Seq<ModuleModel>) -> Seq<char>
    decreases mods.len(),
{
    if mods.len() == 0 {
        Seq::empty()
    } else {
        bundle_of(mods.drop_last()) + crate::ast::css_of_list(mods.last().children)
    }
}

/// The path under which a module built from inline text is registered.
pub const INLINE_MODULE_PATH: &'static str = "ast.css";

impl Module {
    /// Builds the module at `file_path` from the source text `input`, taking
    /// the text of the modules it imports from `sources` (pairs of path and
    /// text). Imported modules are added to `stylesheet`; this one is not.
    pub fn new(
        stylesheet: &mut Stylesheet,
        sources: &Vec<(String, String)>,
        file_path: &str,
        input: &str,
    ) -> (r: Result<Module, CompileError>)
        ensures
            match (
                r,
                build(
                    table_of(sources@),
                    sheet_model(*old(stylesheet)),
                    file_path@,
                    input@,
                    Seq::empty(),
                    import_budget(sources@.len()),
                ),
            ) {
                (Ok(m), Ok((mm, st))) => module_model(m) == mm && sheet_model(*final(stylesheet)) == st,
                (Err(x), Err(f)) => err_agrees(x, f),
                _ => false,
            },
    {
        let mut stack: Vec<String> = Vec::new();
        let path = String::from_str(file_path);
        let text = String::from_str(input);
        let budget = import_budget_exec(sources.len());
        proof {
            assert(stack_model(stack@) =~= Seq::<Seq<char>>::empty());
        }
        build_exec(sources, stylesheet, &path, &text, &mut stack, budget)
    }

    /// The CSS text of this module: the texts of its children in order.
    pub fn to_css(&self) -> (r: String)
        ensures
            r@ == crate::ast::css_of_list(nodes_of(self.children@)),
    {
        let mut out = String::new();
        crate::ast::write_children(&self.children, &mut out);
        proof {
            assert(out@ =~= crate::ast::css_of_list(nodes_of(self.children@)));
        }
        out
    }
}

impl Stylesheet {
    /// A stylesheet with no modules and the counter at zero.
    pub fn new() -> (r: Stylesheet)
        ensures
            sheet_model(r).modules.len() == 0,
            well_formed(sheet_model(r).modules),
            sheet_model(r).count == 0,
    {
        Stylesheet { modules: Vec::new(), names_count: 0 }
    }

    /// Adds the module at `path`, with the modules it imports, unless
    /// the stylesheet holds it already. Source texts are taken from `sources`.
    pub fn add_module(&mut self, sources: &Vec<(String, String)>, path: &str) -> (r: Result<
        (),
        CompileError,
    >)
        ensures
            match (r, add_module_spec(table_of(sources@), sheet_model(*old(self)), path@)) {
                (Ok(()), Ok(st)) => sheet_model(*final(self)) == st,
                (Err(x), Err(f)) => err_agrees(x, f),
                _ => false,
            },
            r is Ok && well_formed(sheet_model(*old(self)).modules) ==> well_formed(
                sheet_model(*final(self)).modules,
            ),
    {
        proof {
            if well_formed(sheet_model(*self).modules) {
                lemma_add_module_keeps_paths_unique(table_of(sources@), sheet_model(*self), path@);
            }
        }
        if find_module_exec(self, path).is_some() {
            return Ok(());
        }
        let mut stack: Vec<String> = Vec::new();
        let path = String::from_str(path);
        let budget = import_budget_exec(sources.len());
        proof {
            assert(stack_model(stack@) =~= Seq::<Seq<char>>::empty());
        }
        resolve_exec(sources, self, &path, &mut stack, budget)
    }

    /// Builds a module from the text `input` under [`INLINE_MODULE_PATH`], with
    /// no other sources, and adds it unless a module is registered there
    /// already. Returns the module registered under that path.
    pub fn add_test_module(&mut self, input: &str) -> (r: Result<&Module, CompileError>)
        ensures
            match (
                r,
                build(
                    Seq::empty(),
                    sheet_model(*old(self)),
                    INLINE_MODULE_PATH@,
                    input@,
                    Seq::empty(),
                    import_budget(0),
                ),
            ) {
                (Ok(m), Ok((mm, st))) => {
                    &&& find_module(st.modules, INLINE_MODULE_PATH@) is None ==> (
                        module_model(*m) == mm
                        && sheet_model(*final(self)) == (SheetModel { modules: st.modules.push(mm), count: st.count }))
                    &&& find_module(st.modules, INLINE_MODULE_PATH@) is Some ==> (
                        sheet_model(*final(self)) == st
                        && module_model(*m) == st.modules[find_module(st.modules, INLINE_MODULE_PATH@)->0])
                },
                (Err(x), Err(f)) => err_agrees(x, f),
                _ => false,
            },
            r is Ok && well_formed(sheet_model(*old(self)).modules) ==> well_formed(
                sheet_model(*final(self)).modules,
            ),
    {
        let sources: Vec<(String, String)> = Vec::new();
        proof {
            if well_formed(sheet_model(*self).modules) {
                lemma_build_unique(
                    Seq::empty(),
                    sheet_model(*self),
                    INLINE_MODULE_PATH@,
                    input@,
                    Seq::empty(),
                    import_budget(0),
                );
            }
        }
        proof {
            assert(table_of(sources@) =~= Seq::<(Seq<char>, Seq<char>)>::empty());
        }
        let m = Module::new(self, &sources, INLINE_MODULE_PATH, input)?;
        match find_module_exec(self, INLINE_MODULE_PATH) {
            Some(k) => Ok(&self.modules[k]),
            None => {
                let ghost before = self.modules@;
                let ghost mm = module_model(m);
                self.modules.push(m);
                proof {
                    assert(sheet_model(*self).modules =~= before.map_values(|m: Module| module_model(m)).push(mm));
                    lemma_find_none(before.map_values(|m: Module| module_model(m)), INLINE_MODULE_PATH@, 0);
                }
                let k = self.modules.len() - 1;
                Ok(&self.modules[k])
            },
        }
    }

    /// The CSS bundle: the text of every module, in the order they were added.
    pub fn to_css(&self) -> (r: String)
        ensures
            r@ == bundle_of(sheet_model(*self).modules),
    {
        let mut out = String::new();
        let mut i: usize = 0;
        let ghost mods = sheet_model(*self).modules;
        proof {
            assert(mods.subrange(0, 0) =~= Seq::<ModuleModel>::empty());
        }
        while i < self.modules.len()
            invariant
                i <= self.modules@.len(),
                mods == sheet_model(*self).modules,
                out@ == bundle_of(mods.subrange(0, i as int)),
            decreases self.modules@.len() - i,
        {
            crate::ast::write_children(&self.modules[i].children, &mut out);
            proof {
                assert(mods.subrange(0, i + 1).drop_last() =~= mods.subrange(0, i as int));
            }
            i = i + 1;
        }
        proof {
            assert(mods.subrange(0, mods.len() as int) =~= mods);
        }
        out
    }
}

impl Default for Stylesheet {
    fn default() -> (r: Stylesheet)
        ensures
            sheet_model(r).modules.len() == 0,
            sheet_model(r).count == 0,
    {
        Stylesheet::new()
    }
}


/// Importing is additive, and what the importer holds already wins: after a
/// merge, a local name has the importer's global name if the importer had
/// one, and else the imported module's.
pub proof fn lemma_merge_lookup(names: NameTable, imported: NameTable, k: Seq<char>)
    ensures
        lookup(merge(names, imported), k) == if lookup(names, k) is Some {
            lookup(names, k)
        } else {
            lookup(imported, k)
        },
    decreases imported.len(),
{
    if imported.len() > 0 {
        let p = imported[0];
        let rest = imported.subrange(1, imported.len() as int);
        let next = if lookup(names, p.0) is Some {
            names
        } else {
            names.push(p)
        };
        lemma_merge_lookup(next, rest, k);
        crate::names::lemma_lookup_push(names, p, k);
    }
}

/// No two modules of `mods` have the same path.
pub open spec fn paths_unique(mods: Seq<ModuleModel>) -> bool {
    forall|i: int, j: int| 0 <= i < j < mods.len() ==> mods[i].path != mods[j].path
}

/// A stylesheet is well formed when its modules have distinct paths and each
/// module's name table holds each local name once.
pub open spec fn well_formed(mods: Seq<ModuleModel>) -> bool {
    paths_unique(mods) && tables_unique(mods)
}

/// Each module's name table holds each local name once.
pub open spec fn tables_unique(mods: Seq<ModuleModel>) -> bool {
    forall|i: int| 0 <= i < mods.len() ==> crate::names::keys_unique(#[trigger] mods[i].names)
}

/// Merging keeps the local names of the importer's table unique.
pub proof fn lemma_merge_keys_unique(names: NameTable, imported: NameTable)
    requires
        crate::names::keys_unique(names),
    ensures
        crate::names::keys_unique(merge(names, imported)),
    decreases imported.len(),
{
    if imported.len() > 0 {
        let p = imported[0];
        let rest = imported.subrange(1, imported.len() as int);
        if lookup(names, p.0) is None {
            crate::names::lemma_push_new_key(names, p);
            lemma_merge_keys_unique(names.push(p), rest);
        } else {
            lemma_merge_keys_unique(names, rest);
        }
    }
}

proof fn lemma_grows_tables(a: Seq<ModuleModel>, b: Seq<ModuleModel>, stack: Seq<Seq<char>>)
    requires
        grows(a, b, stack),
        tables_unique(b),
    ensures
        tables_unique(a),
{
    assert forall|i: int| 0 <= i < a.len() implies crate::names::keys_unique(#[trigger] a[i].names) by {
        assert(b.subrange(0, a.len() as int)[i] == b[i]);
    }
}

/// `b` is `a` with modules added at the end, none of them on `stack`.
pub open spec fn grows(a: Seq<ModuleModel>, b: Seq<ModuleModel>, stack: Seq<Seq<char>>) -> bool {
    &&& a.len() <= b.len()
    &&& b.subrange(0, a.len() as int) == a
    &&& forall|j: int| a.len() <= j < b.len() ==> !stack.contains(#[trigger] b[j].path)
}

proof fn lemma_grows_trans(a: Seq<ModuleModel>, b: Seq<ModuleModel>, c: Seq<ModuleModel>, stack: Seq<Seq<char>>)
    requires
        grows(a, b, stack),
        grows(b, c, stack),
    ensures
        grows(a, c, stack),
{
    assert(c.subrange(0, a.len() as int) =~= b.subrange(0, a.len() as int)) by {
        assert forall|j: int| 0 <= j < a.len() implies c[j] == b[j] by {
            assert(c.subrange(0, b.len() as int)[j] == c[j]);
        }
    }
    assert forall|j: int| a.len() <= j < c.len() implies !stack.contains(#[trigger] c[j].path) by {
        if j < b.len() {
            assert(c.subrange(0, b.len() as int)[j] == c[j]);
        }
    }
}

proof fn lemma_find_none(mods: Seq<ModuleModel>, path: Seq<char>, i: int)
    requires
        0 <= i,
        find_module_from(mods, path, i) is None,
    ensures
        forall|j: int| i <= j < mods.len() ==> mods[j].path != path,
    decreases mods.len() - i,
{
    if i < mods.len() {
        lemma_find_none(mods, path, i + 1);
    }
}

proof fn lemma_find_some(mods: Seq<ModuleModel>, path: Seq<char>, i: int)
    requires
        0 <= i,
        find_module_from(mods, path, i) is Some,
    ensures
        i <= find_module_from(mods, path, i)->0 < mods.len(),
    decreases mods.len() - i,
{
    if i < mods.len() && mods[i].path != path {
        lemma_find_some(mods, path, i + 1);
    }
}

proof fn lemma_resolve_unique(
    src: NameTable,
    st: SheetModel,
    path: Seq<char>,
    stack: Seq<Seq<char>>,
    budget: nat,
)
    requires
        paths_unique(st.modules),
        tables_unique(st.modules),
        forall|j: int| 0 <= j < st.modules.len() ==> st.modules[j].path != path,
    ensures
        resolve(src, st, path, stack, budget) is Ok ==> {
            let st2 = resolve(src, st, path, stack, budget)->Ok_0;
            paths_unique(st2.modules) && tables_unique(st2.modules) && grows(st.modules, st2.modules, stack)
        },
    decreases 3 * budget + 2,
{
    if !stack.contains(path) {
        if let Some(text) = lookup(src, path) {
            lemma_build_unique(src, st, path, text, stack, budget);
            if let Ok((m, st2)) = build(src, st, path, text, stack, budget) {
                let mods = st2.modules.push(m);
                assert(mods.subrange(0, st2.modules.len() as int) =~= st2.modules);
                assert forall|j: int| 0 <= j < st2.modules.len() implies st2.modules[j].path != path by {
                    if j < st.modules.len() {
                        assert(st2.modules.subrange(0, st.modules.len() as int)[j] == st2.modules[j]);
                    } else {
                        assert(!stack.push(path).contains(st2.modules[j].path));
                        assert(stack.push(path)[stack.len() as int] == path);
                    }
                }
                assert forall|j: int| st2.modules.len() <= j < mods.len() implies !stack.contains(#[trigger] mods[j].path) by {}
                assert forall|j: int| st.modules.len() <= j < st2.modules.len() implies !stack.contains(#[trigger] st2.modules[j].path) by {
                    if stack.contains(st2.modules[j].path) {
                        let k = choose|k: int| 0 <= k < stack.len() && stack[k] == st2.modules[j].path;
                        assert(stack.push(path)[k] == stack[k]);
                    }
                }
                assert(grows(st.modules, st2.modules, stack));
                assert(grows(st2.modules, mods, stack));
                assert forall|i: int| 0 <= i < mods.len() implies crate::names::keys_unique(#[trigger] mods[i].names) by {
                    if i < st2.modules.len() {
                        assert(mods[i] == st2.modules[i]);
                    }
                }
                lemma_grows_trans(st.modules, st2.modules, mods, stack);
            }
        }
    }
}

proof fn lemma_build_unique(
    src: NameTable,
    st: SheetModel,
    path: Seq<char>,
    text: Seq<char>,
    stack: Seq<Seq<char>>,
    budget: nat,
)
    requires
        paths_unique(st.modules),
        tables_unique(st.modules),
    ensures
        build(src, st, path, text, stack, budget) is Ok ==> {
            let (m, st2) = build(src, st, path, text, stack, budget)->Ok_0;
            &&& m.path == path
            &&& crate::names::keys_unique(m.names)
            &&& paths_unique(st2.modules)
            &&& tables_unique(st2.modules)
            &&& grows(st.modules, st2.modules, stack.push(path))
        },
    decreases 3 * budget + 1,
{
    if let Ok(nodes) = parse_sheet(text, 0) {
        let stem = stem_of(path);
        if stem.len() != 0 {
            let ctx = Ctx { prefix: stem, dir: dir_prefix(path), path };
            let t = TState { names: Seq::empty(), sheet: st };
            lemma_xf_from_unique(src, ctx, nodes, 0, t, stack.push(path), budget);
        }
    }
}

proof fn lemma_xf_from_unique(
    src: NameTable,
    ctx: Ctx,
    ns: Seq<Node>,
    i: int,
    t: TState,
    stack: Seq<Seq<char>>,
    budget: nat,
)
    requires
        paths_unique(t.sheet.modules),
        tables_unique(t.sheet.modules),
        crate::names::keys_unique(t.names),
    ensures
        xf_from(src, ctx, ns, i, t, stack, budget) is Ok ==> {
            let t2 = xf_from(src, ctx, ns, i, t, stack, budget)->Ok_0.1;
            &&& paths_unique(t2.sheet.modules)
            &&& tables_unique(t2.sheet.modules)
            &&& crate::names::keys_unique(t2.names)
            &&& grows(t.sheet.modules, t2.sheet.modules, stack)
        },
    decreases 3 * budget, ns, ns.len() - i,
{
    if 0 <= i < ns.len() {
        lemma_xf_node_unique(src, ctx, ns[i], t, stack, budget);
        if let Ok((o, t2)) = xf_node(src, ctx, ns[i], t, stack, budget) {
            lemma_xf_from_unique(src, ctx, ns, i + 1, t2, stack, budget);
            if let Ok((rest, t3)) = xf_from(src, ctx, ns, i + 1, t2, stack, budget) {
                lemma_grows_trans(t.sheet.modules, t2.sheet.modules, t3.sheet.modules, stack);
            }
        }
    } else {
        assert(t.sheet.modules.subrange(0, t.sheet.modules.len() as int) =~= t.sheet.modules);
    }
}

proof fn lemma_xf_node_unique(
    src: NameTable,
    ctx: Ctx,
    n: Node,
    t: TState,
    stack: Seq<Seq<char>>,
    budget: nat,
)
    requires
        paths_unique(t.sheet.modules),
        tables_unique(t.sheet.modules),
        crate::names::keys_unique(t.names),
    ensures
        xf_node(src, ctx, n, t, stack, budget) is Ok ==> {
            let t2 = xf_node(src, ctx, n, t, stack, budget)->Ok_0.1;
            &&& paths_unique(t2.sheet.modules)
            &&& tables_unique(t2.sheet.modules)
            &&& crate::names::keys_unique(t2.names)
            &&& grows(t.sheet.modules, t2.sheet.modules, stack)
        },
    decreases 3 * budget, n, 0int,
{
    assert(t.sheet.modules.subrange(0, t.sheet.modules.len() as int) =~= t.sheet.modules);
    match n {
        Node::Comment { .. } => {},
        Node::Property { name, value } => {
            if is_animation_prop(name) && value is Some {
                crate::rewrite::lemma_anim_keeps_keys_unique(ctx.prefix, value->0, 0, ns_of(t));
            }
        },
        Node::SelectRule { rule, children } => match rule {
            Some(r) => {
                crate::rewrite::lemma_sel_keeps_keys_unique(ctx.prefix, r, 0, ns_of(t));
                if let Ok((r2, ns2)) = rewrite_selector(ctx.prefix, r, ns_of(t)) {
                    lemma_xf_from_unique(src, ctx, children, 0, with_ns(t, ns2), stack, budget);
                }
            },
            None => {
                lemma_xf_from_unique(src, ctx, children, 0, t, stack, budget);
            },
        },
        Node::AtRule { name, rule, children } => {
            if name == Some("keyframes"@) && rule is Some {
                if let Ok((g, ns2)) = assign(ctx.prefix, rule->0, ns_of(t)) {
                    crate::names::lemma_assign_keeps_keys_unique(ctx.prefix, rule->0, ns_of(t));
                    lemma_xf_from_unique(src, ctx, children, 0, with_ns(t, ns2), stack, budget);
                }
            } else if name == Some("import"@) && rule is Some {
                let target = import_target(ctx.dir, unquoted(rule->0));
                match find_module(t.sheet.modules, target) {
                    Some(k) => {
                        lemma_find_some(t.sheet.modules, target, 0);
                        lemma_merge_keys_unique(t.names, t.sheet.modules[k].names);
                    },
                    None => {
                        if budget > 0 {
                            lemma_find_none(t.sheet.modules, target, 0);
                            lemma_resolve_unique(src, t.sheet, target, stack, (budget - 1) as nat);
                            if let Ok(sheet2) = resolve(src, t.sheet, target, stack, (budget - 1) as nat) {
                                assert(crate::names::keys_unique(sheet2.modules[sheet2.modules.len() - 1].names));
                                lemma_merge_keys_unique(t.names, sheet2.modules.last().names);
                            }
                        }
                    },
                }
            } else {
                lemma_xf_from_unique(src, ctx, children, 0, t, stack, budget);
            }
        },
    }
}

/// A stylesheet holds each module once: adding a module, with every module
/// it imports however often, keeps the paths of its modules unique, so the
/// bundle holds each module's CSS once; and each module's name table keeps
/// each local name once.
pub proof fn lemma_add_module_keeps_paths_unique(src: NameTable, st: SheetModel, path: Seq<char>)
    requires
        paths_unique(st.modules),
        tables_unique(st.modules),
    ensures
        add_module_spec(src, st, path) is Ok ==> paths_unique(add_module_spec(src, st, path)->Ok_0.modules)
            && tables_unique(add_module_spec(src, st, path)->Ok_0.modules),
{
    if find_module(st.modules, path) is None {
        lemma_find_none(st.modules, path, 0);
        lemma_resolve_unique(src, st, path, Seq::empty(), import_budget(src.len()));
    }
}

} // verus!
