use css_mod::diagnostic::render_diagnostic;
use css_mod::module::file_stem;
use css_mod::names::Failure;
use css_mod::syntax::{ErrorKind, Error};
use css_mod::{Compiler, Mappings, ModuleMapping, Stylesheet};

fn s(v: &str) -> String {
    v.to_string()
}

fn sources() -> Vec<(String, String)> {
    vec![
        (s("/ws/src/a.css"), s("@import \"b.css\"; .a { color: red; }")),
        (s("/ws/src/b.css"), s(".b { x: y; } .a { z: w; }")),
        (s("/ws/src/c.css"), s("@import 'b.css'; .c {}")),
    ]
}

#[test]
fn imported_module_is_emitted_once_and_its_names_are_merged() {
    let mut compiler = Compiler::new();
    compiler.add_module("/ws/src/a.css");
    compiler.add_module("/ws/src/c.css");
    compiler.add_module("/ws/src/a.css");
    let out = compiler.compile(&sources(), "/ws", false).unwrap();
    assert_eq!(
        out.bundle,
        ".b__b__0 { x: y; }\n.b__a__1 { z: w; }\n.b__a__1 { color: red; }\n"
    );
    assert_eq!(
        out.mappings,
        vec![
            ModuleMapping {
                key: s("src/b.css"),
                names: vec![(s("b"), s("b__b__0")), (s("a"), s("b__a__1"))],
            },
            ModuleMapping {
                key: s("src/a.css"),
                names: vec![(s("b"), s("b__b__0")), (s("a"), s("b__a__1"))],
            },
            ModuleMapping {
                key: s("src/c.css"),
                names: vec![(s("b"), s("b__b__0")), (s("a"), s("b__a__1")), (s("c"), s("c__c__3"))],
            },
        ]
    );
    assert!(!out.is_windows_host);
}

#[test]
fn compiling_twice_gives_the_same_output() {
    let mut compiler = Compiler::new();
    compiler.add_module("/ws/src/c.css");
    compiler.add_module("/ws/src/a.css");
    let first = compiler.compile(&sources(), "/ws", false).unwrap();
    let second = compiler.compile(&sources(), "/ws", false).unwrap();
    assert_eq!(first, second);
}

#[test]
fn import_cycle_is_an_error() {
    let src = vec![
        (s("/ws/x.css"), s("@import \"y.css\"; .x {}")),
        (s("/ws/y.css"), s("@import \"x.css\";")),
    ];
    let mut sheet = Stylesheet::new();
    let err = sheet.add_module(&src, "/ws/x.css").unwrap_err();
    assert_eq!(err.failure, Failure::Cycle);
    assert_eq!(err.path, "/ws/x.css");
}

#[test]
fn missing_import_is_an_error() {
    let src = vec![(s("/ws/x.css"), s("@import \"nope.css\";"))];
    let mut sheet = Stylesheet::new();
    let err = sheet.add_module(&src, "/ws/x.css").unwrap_err();
    assert_eq!(err.failure, Failure::Missing);
    assert_eq!(err.path, "/ws/nope.css");
}

#[test]
fn module_outside_workspace_is_an_error() {
    let mut compiler = Compiler::new();
    compiler.add_module("/ws/src/b.css");
    let err = compiler.compile(&sources(), "/other", false).unwrap_err();
    assert_eq!(err.error.failure, Failure::OutsideWorkspace);
    assert_eq!(err.input, "/ws/src/b.css");
}

#[test]
fn windows_paths_give_posix_keys() {
    let src = vec![(s("C:\\ws\\src\\b.css"), s(".b {}"))];
    let mut compiler = Compiler::new();
    compiler.add_module("C:\\ws\\src\\b.css");
    let out = compiler.compile(&src, "C:\\ws", true).unwrap();
    assert_eq!(out.mappings[0].key, "src/b.css");
    assert!(out.is_windows_host);
}

#[test]
fn adding_a_module_twice_keeps_one_copy() {
    let mut sheet = Stylesheet::new();
    sheet.add_module(&sources(), "/ws/src/b.css").unwrap();
    sheet.add_module(&sources(), "/ws/src/b.css").unwrap();
    assert_eq!(sheet.modules.len(), 1);
    assert_eq!(sheet.names_count, 2);
    assert_eq!(sheet.to_css(), ".b__b__0 { x: y; }\n.b__a__1 { z: w; }\n");
}

#[test]
fn file_stems() {
    assert_eq!(file_stem("/a/b/app.module.css"), "app.module");
    assert_eq!(file_stem("/a/.hidden"), ".hidden");
    assert_eq!(file_stem("plain"), "plain");
}

#[test]
fn diagnostic_points_at_the_error() {
    let text = "a {\n  b {";
    let mut sheet = Stylesheet::new();
    let src = vec![(s("t.css"), s(text))];
    let err = sheet.add_module(&src, "t.css").unwrap_err();
    let e = match err.failure {
        Failure::Syntax(e) => e,
        other => panic!("unexpected failure {:?}", other),
    };
    assert_eq!(e, Error { kind: ErrorKind::UnterminatedBlock, pos: 9 });
    assert_eq!(
        render_diagnostic(text, &e),
        " 2 ┊   b {\n          │\n          ╰ Unterminated ruleset at 2:6"
    );
}

#[test]
fn lookups_find_modules_and_names() {
    let mappings = Mappings::default()
        .is_windows_host(false)
        .add_mapping("src/a.css", &[("a", "a__a__0"), ("b", "a__b__1")])
        .add_mapping("src/b.css", &[("x", "b__x__2")]);
    let mapping = mappings.get("src/app.rs", "a.css").unwrap();
    assert_eq!(mapping.index("b").unwrap(), "a__b__1");
    assert_eq!(mapping.css_module_path(), "src/a.css");
    let err = mapping.index("zz").unwrap_err();
    assert_eq!(err.message(), "Name \"zz\" was not found in \"src/a.css\"");
    let err = mappings.get("src/app.rs", "missing.css").unwrap_err();
    assert_eq!(err.message(), "CSS module was not found: \"missing.css\"");
}

#[test]
fn later_mapping_replaces_earlier_one() {
    let mappings = Mappings::default()
        .add_mapping("a.css", &[("a", "old"), ("a", "first")])
        .add_mapping("a.css", &[("a", "new")]);
    assert_eq!(mappings.get("main.rs", "a.css").unwrap().index("a").unwrap(), "new");
    let m2 = Mappings::default().add_mapping("a.css", &[("a", "old"), ("a", "first")]);
    assert_eq!(m2.get("main.rs", "a.css").unwrap().index("a").unwrap(), "first");
}

#[test]
fn windows_host_lookup_uses_posix_keys() {
    let mappings = Mappings::default()
        .is_windows_host(true)
        .add_mapping("src/ui/a.css", &[("a", "a__a__0")]);
    let mapping = mappings.get("src\\ui\\app.rs", "a.css").unwrap();
    assert_eq!(mapping.index("a").unwrap(), "a__a__0");
}

#[test]
fn failure_in_an_import_names_the_input_module() {
    let src = vec![
        (s("/ws/a.css"), s("@import \"b.css\"; .a {}")),
        (s("/ws/b.css"), s("@import \"c.css\";")),
    ];
    let mut compiler = Compiler::new();
    compiler.add_module("/ws/a.css");
    let err = compiler.compile(&src, "/ws", false).unwrap_err();
    assert_eq!(err.input, "/ws/a.css");
    assert_eq!(err.error.failure, Failure::Missing);
    assert_eq!(err.error.path, "/ws/c.css");
}

#[test]
fn exhausted_counter_is_an_error() {
    let mut sheet = Stylesheet { modules: Vec::new(), names_count: u64::MAX };
    let err = sheet.add_test_module(".a {}").unwrap_err();
    assert_eq!(err.failure, Failure::CounterOverflow);
    assert_eq!(err.path, "ast.css");
}

#[test]
fn path_without_file_name_is_an_error() {
    let src = vec![(s("/ws/"), s(".a {}"))];
    let mut sheet = Stylesheet::new();
    let err = sheet.add_module(&src, "/ws/").unwrap_err();
    assert_eq!(err.failure, Failure::NoFileStem);
}

#[test]
fn syntax_error_in_import_names_the_imported_file() {
    let src = vec![
        (s("/ws/a.css"), s("@import \"b.css\"; .a {}")),
        (s("/ws/b.css"), s(".b {")),
    ];
    let mut sheet = Stylesheet::new();
    let err = sheet.add_module(&src, "/ws/a.css").unwrap_err();
    assert_eq!(err.failure, Failure::Syntax(Error { kind: ErrorKind::UnterminatedBlock, pos: 4 }));
    assert_eq!(err.path, "/ws/b.css");
}

#[test]
fn diagnostic_for_unexpected_input() {
    let text = "p {color;}";
    let e = Error { kind: ErrorKind::Unexpected, pos: 3 };
    assert_eq!(
        render_diagnostic(text, &e),
        " 1 ┊ p {color;}\n        │\n        ╰ Unexpected error at 1:4"
    );
}
