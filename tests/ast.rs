use css_mod::ast::Child;
use css_mod::module::{Module, Stylesheet};
use css_mod::syntax::ErrorKind;
use css_mod::names::Failure;

fn s(v: &str) -> String {
    v.to_string()
}

#[test]
fn parses_empty_stylesheet() {
    assert_eq!(
        Stylesheet::default(),
        Stylesheet {
            names_count: 0,
            modules: Vec::new(),
        }
    )
}

#[test]
fn parses_empty_select_rule() {
    assert_eq!(
        Stylesheet::default().add_test_module(".foobar {}").unwrap(),
        &Module {
            children: vec![Child::SelectRule {
                children: Vec::new(),
                rule: Some(".ast__foobar__0".into()),
            }],
            names: vec![(s("foobar"), s("ast__foobar__0"))],
            file_path: s("ast.css"),
        }
    )
}

#[test]
fn parses_select_rule_with_property() {
    assert_eq!(
        Stylesheet::default()
            .add_test_module(".foobar { color: red; }")
            .unwrap(),
        &Module {
            children: vec![Child::SelectRule {
                rule: Some(".ast__foobar__0".into()),
                children: vec![Child::Property {
                    name: Some("color".into()),
                    value: Some("red".into())
                }],
            }],
            names: vec![(s("foobar"), s("ast__foobar__0"))],
            file_path: s("ast.css"),
        }
    )
}

#[test]
fn parses_empty_at_rule() {
    assert_eq!(
        Stylesheet::default()
            .add_test_module("@keyframes foobar;")
            .unwrap(),
        &Module {
            children: vec![Child::AtRule {
                name: Some("keyframes".into()),
                children: Vec::new(),
                rule: Some("ast__foobar__0".into()),
            }],
            names: vec![(s("foobar"), s("ast__foobar__0"))],
            file_path: s("ast.css"),
        }
    )
}

#[test]
fn format_empty_module() {
    let mut stylesheet = Stylesheet::default();
    let module = stylesheet.add_test_module("").unwrap();

    assert_eq!(module.to_css(), String::new());
}

#[test]
fn format_select_rule() {
    let mut stylesheet = Stylesheet::default();
    let module = stylesheet
        .add_test_module("p.foobar  {  color :  #fff ;  }")
        .unwrap();

    assert_eq!(&module.to_css(), "p.ast__foobar__0 { color: #fff; }\n");
}

#[test]
fn format_at_rule() {
    let mut stylesheet = Stylesheet::default();
    let module = stylesheet
        .add_test_module("@keyframes animation {0% { top: 0;} 100% {top: 100px;}}")
        .unwrap();

    assert_eq!(
        &module.to_css(),
        "@keyframes ast__animation__0 { 0% { top: 0; }\n100% { top: 100px; }\n}\n"
    );
}

#[test]
fn error_is_unclosed_block() {
    assert!(Stylesheet::default().add_test_module("p {").is_err());
}

#[test]
fn error_is_property_without_value() {
    assert!(Stylesheet::default().add_test_module("p {color;}").is_err());
}

#[test]
fn round_trip_renames_class() {
    let mut stylesheet = Stylesheet::default();
    let module = stylesheet.add_test_module(".foo { color: red; }").unwrap();
    assert_eq!(module.to_css(), ".ast__foo__0 { color: red; }\n");
}

#[test]
fn ordinals_count_every_occurrence() {
    let mut stylesheet = Stylesheet::default();
    let module = stylesheet.add_test_module(".a{} .a{} .b{}").unwrap();
    assert_eq!(
        module.names,
        vec![(s("a"), s("ast__a__0")), (s("b"), s("ast__b__2"))]
    );
    assert_eq!(
        module.children[1],
        Child::SelectRule { rule: Some(s(".ast__a__0")), children: Vec::new() }
    );
    assert_eq!(stylesheet.names_count, 3);
}

#[test]
fn empty_rule_renders_nothing() {
    let mut stylesheet = Stylesheet::default();
    let module = stylesheet.add_test_module("p {}").unwrap();
    assert_eq!(module.to_css(), "");
}

#[test]
fn unterminated_block_is_reported_as_such() {
    let err = Stylesheet::default().add_test_module("p {").unwrap_err();
    match err.failure {
        Failure::Syntax(e) => {
            assert_eq!(e.kind, ErrorKind::UnterminatedBlock);
            assert_eq!(e.pos, 3);
        }
        other => panic!("unexpected failure {:?}", other),
    }
    let err = Stylesheet::default().add_test_module("p {color;}").unwrap_err();
    match err.failure {
        Failure::Syntax(e) => assert_eq!(e.kind, ErrorKind::Unexpected),
        other => panic!("unexpected failure {:?}", other),
    }
}

#[test]
fn keyframes_and_animation_share_the_global_name() {
    let mut stylesheet = Stylesheet::default();
    let module = stylesheet
        .add_test_module("@keyframes spin { to { top: 0; } } .x { animation: spin 1s ease-in; }")
        .unwrap();
    assert_eq!(
        module.to_css(),
        "@keyframes ast__spin__0 { to { top: 0; }\n}\n.ast__x__1 { animation: ast__spin__0 1s ease-in; }\n"
    );
}

#[test]
fn animation_name_property_is_rewritten() {
    let mut stylesheet = Stylesheet::default();
    let module = stylesheet
        .add_test_module(".x { animation-name: fade; color: fade; }")
        .unwrap();
    assert_eq!(
        module.to_css(),
        ".ast__x__0 { animation-name: ast__fade__1; color: fade; }\n"
    );
}

#[test]
fn comments_and_media_rules_are_kept() {
    let mut stylesheet = Stylesheet::default();
    let module = stylesheet
        .add_test_module("/* top */ @media screen { .a:hover > .b[data-x=\".c\"] { x: y; } } @charset \"utf-8\";")
        .unwrap();
    assert_eq!(
        module.to_css(),
        "/* top */@media screen { .ast__a__0:hover > .ast__b__1[data-x=\".c\"] { x: y; }\n}\n@charset \"utf-8\"; "
    );
}

#[test]
fn property_without_value_renders_bare_name() {
    let child = Child::Property { name: Some(s("color")), value: None };
    assert_eq!(child.to_css(), "color:; ");
    let at = Child::AtRule { name: Some(s("page")), rule: None, children: Vec::new() };
    assert_eq!(at.to_css(), "@page;");
}

#[test]
fn stray_closing_brace_is_an_error() {
    assert!(Stylesheet::default().add_test_module("}").is_err());
    assert!(Stylesheet::default().add_test_module("/* open").is_err());
}

#[test]
fn raw_parse_keeps_text_as_written() {
    let nodes = css_mod::syntax::stylesheet("@import \"b.css\";\n/* c */ .x > p { color : red ; @media print { a {} } }").unwrap();
    assert_eq!(
        nodes,
        vec![
            Child::AtRule { name: Some(s("import")), rule: Some(s("\"b.css\"")), children: Vec::new() },
            Child::Comment { value: Some(s("/* c */")) },
            Child::SelectRule {
                rule: Some(s(".x > p")),
                children: vec![
                    Child::Property { name: Some(s("color")), value: Some(s("red")) },
                    Child::AtRule {
                        name: Some(s("media")),
                        rule: Some(s("print")),
                        children: vec![Child::SelectRule { rule: Some(s("a")), children: Vec::new() }],
                    },
                ],
            },
        ]
    );
}
