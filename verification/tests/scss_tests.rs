use jenpack::ast::{serialize_nodes_as_css_like, Node};
use jenpack::compile::{compile_source, import_specifiers, join_path, SourceSet};
use jenpack::parser::{parse_scss, split_decl, split_selectors, ErrorKind};
use jenpack::scan::{import_candidates, partialize};
use jenpack::value::{read_ident, Vars};

#[test]
fn test_parse_single_declaration_block() {
    let ast = parse_scss("a { color: red; }").unwrap();
    assert_eq!(ast.nodes.len(), 1);
    match &ast.nodes[0] {
        Node::Rule { selectors, body } => {
            assert_eq!(selectors.len(), 1);
            assert_eq!(selectors[0], "a");
            assert_eq!(body.len(), 1);
            match &body[0] {
                Node::Decl { prop, value } => {
                    assert_eq!(prop, "color");
                    assert_eq!(value, "red");
                }
                _ => panic!("expected a declaration"),
            }
        }
        _ => panic!("expected a rule"),
    }
}

#[test]
fn test_declarations_round_trip_in_order() {
    let ast = parse_scss("color:red;margin:0;padding:1px;").unwrap();
    let mut pairs = Vec::new();
    for node in &ast.nodes {
        match node {
            Node::Decl { prop, value } => pairs.push((prop.clone(), value.clone())),
            _ => panic!("expected only declarations"),
        }
    }
    assert_eq!(
        pairs,
        vec![
            ("color".to_string(), "red".to_string()),
            ("margin".to_string(), "0".to_string()),
            ("padding".to_string(), "1px".to_string()),
        ]
    );
    let rendered = serialize_nodes_as_css_like(&ast.nodes);
    assert_eq!(rendered, "color:red;margin:0;padding:1px;");
}

#[test]
fn test_variable_substitution() {
    let mut vars = Vars::new();
    vars.set("color", "#fff");
    assert_eq!(vars.resolve_value("color: $color;"), "color: #fff;");
    assert_eq!(vars.resolve_value("color: $missing;"), "color: $missing;");
}

#[test]
fn test_vars_last_write_wins() {
    let mut vars = Vars::new();
    vars.set("x", "1");
    vars.set("x", "2");
    assert_eq!(vars.get("x").unwrap(), "2");
    assert!(vars.get("y").is_none());
}

#[test]
fn test_read_ident_run() {
    let (name, next) = read_ident("abc-d_1 rest", 0);
    assert_eq!(name, "abc-d_1");
    assert_eq!(next, 7);
}

#[test]
fn test_nesting_structure() {
    let ast = parse_scss(".a { .b { color: red; } }").unwrap();
    assert_eq!(ast.nodes.len(), 1);
    match &ast.nodes[0] {
        Node::Rule { selectors, body } => {
            assert_eq!(selectors, &vec![".a".to_string()]);
            assert_eq!(body.len(), 1);
            match &body[0] {
                Node::Rule { selectors, body } => {
                    assert_eq!(selectors, &vec![".b".to_string()]);
                    assert_eq!(body.len(), 1);
                    match &body[0] {
                        Node::Decl { prop, value } => {
                            assert_eq!(prop, "color");
                            assert_eq!(value, "red");
                        }
                        _ => panic!("expected a declaration"),
                    }
                }
                _ => panic!("expected a nested rule"),
            }
        }
        _ => panic!("expected a rule"),
    }
}

#[test]
fn test_import_candidates_bare_specifier() {
    assert_eq!(
        import_candidates("foo/bar"),
        vec![
            "foo/bar.scss".to_string(),
            "foo/_bar.scss".to_string(),
            "foo/bar/index.scss".to_string(),
            "foo/bar/_index.scss".to_string(),
        ]
    );
}

#[test]
fn test_import_candidates_with_extension() {
    assert_eq!(import_candidates("x.css"), vec!["x.css".to_string(), "_x.css".to_string()]);
}

#[test]
fn test_import_candidates_normalizes_separators() {
    assert_eq!(
        import_candidates("foo\\bar.scss"),
        vec!["foo/bar.scss".to_string(), "foo/_bar.scss".to_string()]
    );
}

#[test]
fn test_partialize_forms() {
    assert_eq!(partialize("foo/bar.scss"), "foo/_bar.scss");
    assert_eq!(partialize("bar.scss"), "_bar.scss");
}

#[test]
fn test_malformed_declaration_fails_with_fragment() {
    let err = parse_scss("color red;").unwrap_err();
    assert_eq!(err.kind, ErrorKind::Syntax);
    assert!(err.message().contains("color red"));
}

#[test]
fn test_selector_splitting() {
    let ast = parse_scss(".a, .b { }").unwrap();
    match &ast.nodes[0] {
        Node::Rule { selectors, body } => {
            assert_eq!(selectors, &vec![".a".to_string(), ".b".to_string()]);
            assert!(body.is_empty());
        }
        _ => panic!("expected a rule"),
    }
}

#[test]
fn test_split_selectors_drops_empty_pieces() {
    assert_eq!(split_selectors(" .a , , .b "), vec![".a".to_string(), ".b".to_string()]);
}

#[test]
fn test_split_decl_first_top_level_colon() {
    assert_eq!(
        split_decl("background: url(a;b):x"),
        Some(("background".to_string(), "url(a;b):x".to_string()))
    );
    assert_eq!(split_decl("no colon here"), None);
    assert_eq!(split_decl(": empty prop"), None);
}

#[test]
fn test_comments_transparent_to_statement_boundaries() {
    let ast = parse_scss("color: red; /* x */ margin: 0;").unwrap();
    assert_eq!(ast.nodes.len(), 2);
    match (&ast.nodes[0], &ast.nodes[1]) {
        (Node::Decl { prop: p1, value: v1 }, Node::Decl { prop: p2, value: v2 }) => {
            assert_eq!((p1.as_str(), v1.as_str()), ("color", "red"));
            assert_eq!((p2.as_str(), v2.as_str()), ("margin", "0"));
        }
        _ => panic!("expected two declarations"),
    }
}

#[test]
fn test_unterminated_block_comment_fails() {
    let err = parse_scss("color: red; /* trailing").unwrap_err();
    assert_eq!(err.kind, ErrorKind::Syntax);
    assert!(err.message().contains("unterminated block comment"));
    assert!(err.message().contains("/* trailing"));
    assert!(parse_scss("/*x").is_err());
}

#[test]
fn test_empty_selector_list_fails() {
    let err = parse_scss(",{}").unwrap_err();
    assert_eq!(err.kind, ErrorKind::Syntax);
    assert_eq!(err.message(), "invalid selector: ,");
}

#[test]
fn test_line_comments_skipped() {
    let ast = parse_scss("// note\ncolor: red;\n").unwrap();
    assert_eq!(ast.nodes.len(), 1);
}

#[test]
fn test_quoted_semicolon_survives() {
    let ast = parse_scss("content: \"a;b\";").unwrap();
    assert_eq!(ast.nodes.len(), 1);
    match &ast.nodes[0] {
        Node::Decl { prop, value } => {
            assert_eq!(prop, "content");
            assert_eq!(value, "\"a;b\"");
        }
        _ => panic!("expected a declaration"),
    }
}

#[test]
fn test_parenthesized_semicolon_survives() {
    let ast = parse_scss("background: url(http://x;y);").unwrap();
    match &ast.nodes[0] {
        Node::Decl { prop, value } => {
            assert_eq!(prop, "background");
            assert_eq!(value, "url(http://x;y)");
        }
        _ => panic!("expected a declaration"),
    }
}

#[test]
fn test_at_rule_without_block() {
    let ast = parse_scss("@charset \"utf-8\";").unwrap();
    match &ast.nodes[0] {
        Node::RawAt { text } => assert_eq!(text, "@charset \"utf-8\""),
        _ => panic!("expected an at-rule"),
    }
}

#[test]
fn test_at_rule_with_block_is_rerendered() {
    let ast = parse_scss("@media screen { a { color: red; } }").unwrap();
    match &ast.nodes[0] {
        Node::RawAt { text } => {
            assert_eq!(text, "@media screen {a{color:red;}}");
        }
        _ => panic!("expected an at-rule"),
    }
}

#[test]
fn test_variable_declaration_node() {
    let ast = parse_scss("$primary: #333;").unwrap();
    match &ast.nodes[0] {
        Node::VarDecl { name, value } => {
            assert_eq!(name, "primary");
            assert_eq!(value, "#333");
        }
        _ => panic!("expected a variable declaration"),
    }
}

#[test]
fn test_end_to_end_scenario() {
    let src = "$primary: #333;\n.card {\n  color: $primary;\n  .title { font-weight: bold; }\n}\n";
    let ast = parse_scss(src).unwrap();
    assert_eq!(ast.nodes.len(), 2);
    match &ast.nodes[0] {
        Node::VarDecl { name, value } => {
            assert_eq!(name, "primary");
            assert_eq!(value, "#333");
        }
        _ => panic!("expected a variable declaration first"),
    }
    match &ast.nodes[1] {
        Node::Rule { selectors, body } => {
            assert_eq!(selectors, &vec![".card".to_string()]);
            assert_eq!(body.len(), 2);
            match &body[0] {
                Node::Decl { prop, value } => {
                    assert_eq!(prop, "color");
                    assert_eq!(value, "$primary");
                }
                _ => panic!("expected a declaration"),
            }
            match &body[1] {
                Node::Rule { selectors, body } => {
                    assert_eq!(selectors, &vec![".title".to_string()]);
                    match &body[0] {
                        Node::Decl { prop, value } => {
                            assert_eq!(prop, "font-weight");
                            assert_eq!(value, "bold");
                        }
                        _ => panic!("expected a declaration"),
                    }
                }
                _ => panic!("expected a nested rule"),
            }
        }
        _ => panic!("expected a rule"),
    }
    let mut vars = Vars::new();
    vars.set("primary", "#333");
    assert_eq!(vars.resolve_value("$primary"), "#333");
}

#[test]
fn test_compile_resolves_variables_and_flattens() {
    let mut files = SourceSet::new();
    files.add(
        "main.scss",
        "$primary: #333;\n.card {\n  color: $primary;\n  .title { font-weight: bold; }\n}\n",
    );
    let dirs: Vec<String> = Vec::new();
    let css = compile_source(&files, "main.scss", &dirs).unwrap();
    assert_eq!(css, ".card{color:#333;}.card .title{font-weight:bold;}");
}

#[test]
fn test_compile_expands_imports_in_order() {
    let mut files = SourceSet::new();
    files.add("main.scss", "@import 'colors';\nbody { color: $fg; }\n");
    files.add("_colors.scss", "$fg: #111;\n");
    // the entry file's own directory is probed implicitly
    let dirs: Vec<String> = Vec::new();
    let css = compile_source(&files, "main.scss", &dirs).unwrap();
    assert_eq!(css, "body{color:#111;}");
}

#[test]
fn test_compile_skips_cyclic_imports() {
    let mut files = SourceSet::new();
    files.add("a.scss", "@import 'b';\n.a { color: red; }\n");
    files.add("b.scss", "@import 'a';\n.b { color: blue; }\n");
    let dirs: Vec<String> = Vec::new();
    let css = compile_source(&files, "a.scss", &dirs).unwrap();
    assert_eq!(css, ".b{color:blue;}.a{color:red;}");
}

#[test]
fn test_compile_missing_import_is_import_error() {
    let mut files = SourceSet::new();
    files.add("main.scss", "@import 'nowhere';\n");
    let dirs: Vec<String> = Vec::new();
    let err = compile_source(&files, "main.scss", &dirs).unwrap_err();
    assert_eq!(err.kind, ErrorKind::Import);
    // the failure comes back wrapped with the entry file's path
    assert!(err.message().starts_with("main.scss: "));
    assert!(err.message().contains("nowhere"));
}

#[test]
fn test_compile_missing_entry_is_io_error() {
    let files = SourceSet::new();
    let dirs: Vec<String> = Vec::new();
    let err = compile_source(&files, "main.scss", &dirs).unwrap_err();
    assert_eq!(err.kind, ErrorKind::Io);
}

#[test]
fn test_import_specifiers_extraction() {
    assert_eq!(
        import_specifiers("@import 'a', \"b/c\""),
        vec!["a".to_string(), "b/c".to_string()]
    );
    assert!(import_specifiers("@import unquoted").is_empty());
}

#[test]
fn test_join_path_forms() {
    assert_eq!(join_path("", "a.scss"), "a.scss");
    assert_eq!(join_path("dir", "a.scss"), "dir/a.scss");
    assert_eq!(join_path("dir/", "a.scss"), "dir/a.scss");
}

#[test]
fn test_serialize_drops_variable_declarations() {
    let ast = parse_scss("$x: 1;a{b:c;}").unwrap();
    assert_eq!(serialize_nodes_as_css_like(&ast.nodes), "a{b:c;}");
}

#[test]
fn test_unclosed_block_fails_at_eof() {
    let err = parse_scss("a { color: red;").unwrap_err();
    assert_eq!(err.kind, ErrorKind::Syntax);
    assert!(err.message().contains("expected '}'"));
}

#[test]
fn test_expected_char_error_names_the_text() {
    let err = parse_scss("$a: 1").unwrap_err();
    assert_eq!(err.kind, ErrorKind::Syntax);
    assert_eq!(err.message(), "expected ';' near: ");
    let err2 = parse_scss("$ : 1;").unwrap_err();
    assert!(err2.message().contains("expected identifier near: "));
}
