use jenpack::cli::Command;
use jenpack::config::JenPackConfig;
use jenpack::files::{
    compute_hash, get_extension, is_css_file, is_html_file, is_js_ts_file, is_sass_file,
    is_ts_file, normalize_path,
};
use jenpack::html::HtmlProcessor;
use jenpack::minify::Minifier;
use jenpack::watch::{rebuild_decision, should_rebuild, FileWatcher, WatchEventKind, Watcher};

#[test]
fn test_minify_js() {
    let code = r#"
            function hello() {
                // comment
                console.log("hello");
            }
        "#;
    let result = Minifier::minify_js(code).unwrap();
    assert!(!result.contains("//"));
    assert!(result.len() < code.len());
}

#[test]
fn test_minify_css() {
    let css = r#"
            /* comment */
            .class {
                color: red;
                margin: 10px;
            }
        "#;
    let result = Minifier::minify_css(css).unwrap();
    assert!(!result.contains("/*"));
    assert!(result.len() < css.len());
}

#[test]
fn test_minify_css_exact() {
    let css = "/* c */ .a {\n  color: red;\n}";
    assert_eq!(Minifier::minify_css(css).unwrap(), ".a{color:red}");
}

#[test]
fn test_minify_js_exact() {
    let code = "function f() {\n  // say hi\n  return  1 + 2;\n}";
    assert_eq!(Minifier::minify_js(code).unwrap(), "function f(){return 1+2;}");
}

#[test]
fn test_minify_html_collapses_between_tags() {
    let html = "<div>\n    <p>a</p>\n</div>  <!-- gone -->";
    assert_eq!(Minifier::minify_html(html).unwrap(), "<div><p>a</p></div>");
}

#[test]
fn test_get_extension_lowercases() {
    assert_eq!(get_extension("a/b/style.SCSS"), Some("scss".to_string()));
    assert_eq!(get_extension("archive.tar.gz"), Some("gz".to_string()));
    assert_eq!(get_extension("a/.hidden"), None);
    assert_eq!(get_extension("noext"), None);
}

#[test]
fn test_file_classifiers() {
    assert!(is_js_ts_file("src/app.ts"));
    assert!(is_js_ts_file("src/app.JSX"));
    assert!(!is_js_ts_file("src/app.css"));
    assert!(is_html_file("index.html"));
    assert!(is_html_file("index.htm"));
    assert!(is_sass_file("a.scss"));
    assert!(is_sass_file("a.sass"));
    assert!(!is_sass_file("a.css"));
    assert!(is_css_file("a.css"));
    assert!(is_ts_file("a.ts"));
    assert!(is_ts_file("a.tsx"));
    assert!(!is_ts_file("a.js"));
}

#[test]
fn test_normalize_path_separators() {
    assert_eq!(normalize_path("a\\b\\c.ts"), "a/b/c.ts");
    assert_eq!(normalize_path("a/b"), "a/b");
}

#[test]
fn test_compute_hash_known_values() {
    assert_eq!(compute_hash(""), "e3b0c442");
    assert_eq!(compute_hash("abc"), "ba7816bf");
}

#[test]
fn test_config_defaults() {
    let c = JenPackConfig::default();
    assert_eq!(c.entry, vec!["src/index.ts".to_string()]);
    assert_eq!(c.outdir, "dist");
    assert!(!c.minify);
    assert!(c.sourcemap);
    assert!(!c.watch);
    assert!(!c.verbose);
    assert!(c.externals.is_empty());
    assert!(c.aliases.is_empty());
}

#[test]
fn test_config_alias_resolution() {
    let mut c = JenPackConfig::default();
    c.aliases.push(("@app".to_string(), "src/app".to_string()));
    assert_eq!(c.resolve_alias("@app"), "src/app");
    assert_eq!(c.resolve_alias("other"), "other");
}

#[test]
fn test_config_externals_prefix_match() {
    let mut c = JenPackConfig::default();
    c.externals.push("react".to_string());
    assert!(c.is_external("react"));
    assert!(c.is_external("react-dom"));
    assert!(!c.is_external("preact"));
}

#[test]
fn test_module_candidates_order() {
    let c = JenPackConfig::default();
    assert_eq!(
        c.module_candidates("lib/util"),
        vec![
            "lib/util".to_string(),
            "lib/util.ts".to_string(),
            "lib/util.tsx".to_string(),
            "lib/util.js".to_string(),
            "lib/util.jsx".to_string(),
            "lib/util.json".to_string(),
            "lib/util/index.ts".to_string(),
            "lib/util/index.tsx".to_string(),
            "lib/util/index.js".to_string(),
            "lib/util/index.jsx".to_string(),
        ]
    );
}

#[test]
fn test_inline_assets_into_existing_tags() {
    let html = "<html><head></head><body><p>x</p></body></html>";
    let scripts = vec!["console.log(1);".to_string()];
    let styles = vec!["body{color:red;}".to_string()];
    let out = HtmlProcessor::inline_assets(html, &scripts, &styles).unwrap();
    assert_eq!(
        out,
        "<html><head><style>body{color:red;}</style></head><body><p>x</p><script>console.log(1);</script></body></html>"
    );
}

#[test]
fn test_inline_assets_without_tags() {
    let html = "<p>x</p>";
    let scripts = vec!["a();".to_string(), "b();".to_string()];
    let styles = vec!["s1".to_string(), "s2".to_string()];
    let out = HtmlProcessor::inline_assets(html, &scripts, &styles).unwrap();
    assert_eq!(
        out,
        "<head><style>s1\ns2</style></head><p>x</p><script>a();\nb();</script></body>"
    );
}

#[test]
fn test_inline_assets_empty_lists_leave_page() {
    let html = "<p>x</p>";
    let none: Vec<String> = Vec::new();
    assert_eq!(HtmlProcessor::inline_assets(html, &none, &none).unwrap(), "<p>x</p>");
}

#[test]
fn test_html_processor_minify() {
    assert_eq!(HtmlProcessor::minify("<a>  <b>  </b>  </a>").unwrap(), "<a><b></b></a>");
}

#[test]
fn test_watch_decisions() {
    assert!(should_rebuild(WatchEventKind::Create));
    assert!(should_rebuild(WatchEventKind::Modify));
    assert!(should_rebuild(WatchEventKind::Remove));
    assert!(!should_rebuild(WatchEventKind::Access));
    assert!(!should_rebuild(WatchEventKind::Error));
    assert!(!should_rebuild(WatchEventKind::Other));
    assert!(rebuild_decision(WatchEventKind::Modify, 600, 500));
    assert!(!rebuild_decision(WatchEventKind::Modify, 400, 500));
    assert!(!rebuild_decision(WatchEventKind::Access, 600, 500));
}

#[test]
fn test_watcher_construction() {
    let w = FileWatcher::new(JenPackConfig::default()).unwrap();
    assert_eq!(w.config.outdir, "dist");
    let w2 = Watcher::new(JenPackConfig::default()).unwrap();
    assert_eq!(w2.config.outdir, "dist");
}

#[test]
fn test_command_into_config() {
    let cmd = Command::Build { entry: None, outdir: None, minify: true, sourcemap: false };
    let c = cmd.into_config(true);
    assert_eq!(c.entry, vec!["src/index.ts".to_string()]);
    assert_eq!(c.outdir, "dist");
    assert!(c.minify);
    assert!(!c.sourcemap);
    assert!(!c.watch);
    assert!(c.verbose);
    let cmd2 = Command::Watch {
        entry: Some(vec!["main.ts".to_string()]),
        outdir: Some("out".to_string()),
        minify: false,
        sourcemap: true,
    };
    let c2 = cmd2.into_config(false);
    assert_eq!(c2.entry, vec!["main.ts".to_string()]);
    assert_eq!(c2.outdir, "out");
    assert!(c2.watch);
}

#[test]
fn test_minify_css_keeps_multiline_comment() {
    // the CSS comment pass works line by line: a comment spanning a
    // newline is not removed, only collapsed
    assert_eq!(Minifier::minify_css("/*a\nb*/x{y:z;}").unwrap(), "/*a b*/x{y:z}");
}

#[test]
fn test_minify_js_removes_multiline_comment() {
    // the JavaScript block-comment stripper rescans and spans newlines
    assert_eq!(Minifier::minify_js("/*a\nb*/x").unwrap(), "x");
}
