use oxichrome::metadata::ExtensionMetadata;
use oxichrome::source::{parse_meta_items, parse_source_str, ArgValue, AttrInfo, MetaItem, MetadataVisitor};

/// An attribute `#[a::b(list)]`.
fn attr(path: &[&str], list: Option<&str>) -> AttrInfo {
    AttrInfo {
        path: path.iter().map(|s| s.to_string()).collect(),
        list_tokens: list.map(|l| l.parse::<proc_macro2::TokenStream>().unwrap()),
    }
}

/// `#[oxichrome::name]` without arguments.
fn marker(name: &str) -> AttrInfo {
    attr(&["oxichrome", name], None)
}

fn extension_attr(list: &str) -> AttrInfo {
    attr(&["oxichrome", "extension"], Some(list))
}

fn content_script_attr(list: &str) -> AttrInfo {
    attr(&["oxichrome", "content_script"], Some(list))
}

fn on_attr(list: &str) -> AttrInfo {
    attr(&["oxichrome", "on"], Some(list))
}

fn read(structs: Vec<Vec<AttrInfo>>, fns: Vec<(&str, Vec<AttrInfo>)>) -> ExtensionMetadata {
    let mut visitor = MetadataVisitor::new();
    for attrs in &structs {
        visitor.visit_item_struct(attrs);
    }
    for (name, attrs) in &fns {
        visitor.visit_item_fn(name, attrs);
    }
    visitor.metadata
}

#[test]
fn test_parse_extension_from_attributes() {
    let metadata = read(
        vec![vec![extension_attr(
            r#"name = "Test Extension", version = "1.0.0", permissions = ["storage", "tabs"]"#,
        )]],
        vec![
            ("start", vec![marker("background")]),
            ("handle_install", vec![on_attr("runtime::on_installed")]),
            ("Popup", vec![marker("popup")]),
            ("Options", vec![marker("options_page")]),
        ],
    );
    assert_eq!(metadata.name.as_deref(), Some("Test Extension"));
    assert_eq!(metadata.version.as_deref(), Some("1.0.0"));
    assert_eq!(metadata.permissions, vec!["storage", "tabs"]);
    assert_eq!(metadata.background_functions, vec!["start"]);
    assert_eq!(metadata.event_handlers.len(), 1);
    assert_eq!(metadata.event_handlers[0].namespace, "runtime");
    assert_eq!(metadata.event_handlers[0].event_name, "on_installed");
    assert!(metadata.has_popup);
    assert!(metadata.has_options_page);
    assert!(metadata.content_scripts.is_empty());
}

#[test]
fn test_parse_content_script_from_attributes() {
    let metadata = read(
        vec![vec![extension_attr(r#"name = "Test", version = "1.0.0""#)]],
        vec![
            ("inject", vec![content_script_attr(r#"matches = ["<all_urls>"]"#)]),
            (
                "inject_specific",
                vec![content_script_attr(r#"matches = ["https://example.com/*", "https://test.com/*"]"#)],
            ),
        ],
    );
    assert_eq!(metadata.content_scripts.len(), 2);
    assert_eq!(metadata.content_scripts[0].fn_name, "inject");
    assert_eq!(metadata.content_scripts[0].matches, vec!["<all_urls>"]);
    assert_eq!(metadata.content_scripts[1].fn_name, "inject_specific");
    assert_eq!(metadata.content_scripts[1].matches, vec!["https://example.com/*", "https://test.com/*"]);
}

#[test]
fn test_parse_content_script_with_options_from_attributes() {
    let metadata = read(
        vec![vec![extension_attr(r#"name = "Test", version = "1.0.0""#)]],
        vec![(
            "inject",
            vec![content_script_attr(
                r#"matches = ["<all_urls>"], run_at = DocumentStart, all_frames = true, css = ["styles.css", "theme.css"]"#,
            )],
        )],
    );
    assert_eq!(metadata.content_scripts.len(), 1);
    let cs = &metadata.content_scripts[0];
    assert_eq!(cs.fn_name, "inject");
    assert_eq!(cs.matches, vec!["<all_urls>"]);
    assert_eq!(cs.run_at.as_deref(), Some("document_start"));
    assert_eq!(cs.all_frames, Some(true));
    assert_eq!(cs.css, vec!["styles.css", "theme.css"]);
}

#[test]
fn source_reads_description_and_extra_manifest() {
    let metadata = read(
        vec![vec![extension_attr(
            r#"name = "N", version = "1", description = "D", extra_manifest = "{\"a\": 1}""#,
        )]],
        vec![],
    );
    assert_eq!(metadata.description.as_deref(), Some("D"));
    assert_eq!(metadata.extra_manifest.as_deref(), Some("{\"a\": 1}"));
}

#[test]
fn source_ignores_other_attributes_and_paths() {
    let metadata = read(
        vec![vec![attr(&["derive"], Some("Debug")), attr(&["extension"], Some(r#"name = "not ours""#))]],
        vec![
            ("a", vec![attr(&["background"], None)]),
            ("b", vec![attr(&["other", "popup"], None)]),
            ("no_matches", vec![content_script_attr(r#"css = ["a.css"]"#)]),
            ("bad_event", vec![on_attr("runtime")]),
            ("no_list", vec![marker("on")]),
        ],
    );
    assert!(metadata.name.is_none());
    assert!(metadata.background_functions.is_empty());
    assert!(!metadata.has_popup);
    assert!(metadata.content_scripts.is_empty());
    assert!(metadata.event_handlers.is_empty());
}

#[test]
fn source_unknown_run_at_is_none_and_skips_non_strings() {
    let metadata = read(
        vec![vec![extension_attr(r#"name = "N", version = "1", permissions = ["a", 3, "b"]"#)]],
        vec![
            (
                "f",
                vec![content_script_attr(r#"matches = ["<all_urls>"], run_at = DocumentEnd, run_at = Later"#)],
            ),
            ("g", vec![content_script_attr(r#"matches = ["<all_urls>"], run_at = DocumentIdle"#)]),
        ],
    );
    assert_eq!(metadata.permissions, vec!["a", "b"]);
    assert_eq!(metadata.content_scripts[0].run_at, None);
    assert_eq!(metadata.content_scripts[1].run_at.as_deref(), Some("document_idle"));
}

#[test]
fn source_later_arguments_override_earlier_ones() {
    let metadata = read(
        vec![
            vec![extension_attr(r#"name = "A", permissions = ["x"]"#)],
            vec![extension_attr(r#"name = "B", permissions = ["y"]"#)],
        ],
        vec![],
    );
    assert_eq!(metadata.name.as_deref(), Some("B"));
    assert_eq!(metadata.permissions, vec!["x", "y"]);
}

#[test]
fn source_arguments_that_are_no_meta_list_are_ignored() {
    let metadata = read(
        vec![vec![extension_attr(r#"name = "N" version = "1""#)]],
        vec![("f", vec![content_script_attr(r#"matches = ["<all_urls>"] css"#)])],
    );
    assert!(metadata.name.is_none());
    assert!(metadata.content_scripts.is_empty());
}

#[test]
fn meta_items_read_from_tokens() {
    let ts: proc_macro2::TokenStream =
        r#"name = "x", flag = true, list = ["a", 1, "b"], mode = Start, path::key = "y", other, f(1), n = 1 + 2"#
            .parse()
            .unwrap();
    let items = parse_meta_items(&ts).unwrap();
    assert_eq!(items.len(), 8);
    assert!(matches!(&items[0], MetaItem::NameValue(Some(k), ArgValue::Str(v)) if k == "name" && v == "x"));
    assert!(matches!(&items[1], MetaItem::NameValue(Some(k), ArgValue::Bool(true)) if k == "flag"));
    match &items[2] {
        MetaItem::NameValue(Some(k), ArgValue::Array(elems)) => {
            assert_eq!(k, "list");
            assert_eq!(elems, &vec![Some("a".to_string()), None, Some("b".to_string())]);
        }
        other => panic!("unexpected {:?}", other),
    }
    assert!(matches!(&items[3], MetaItem::NameValue(Some(k), ArgValue::Path(Some(p))) if k == "mode" && p == "Start"));
    assert!(matches!(&items[4], MetaItem::NameValue(None, ArgValue::Str(v)) if v == "y"));
    assert!(matches!(&items[5], MetaItem::Other));
    assert!(matches!(&items[6], MetaItem::Other));
    assert!(matches!(&items[7], MetaItem::NameValue(Some(k), ArgValue::Other) if k == "n"));
    let bad: proc_macro2::TokenStream = "a = ".parse().unwrap();
    assert!(parse_meta_items(&bad).is_none());
}

#[test]
fn event_args_read_from_list_tokens() {
    let v = MetadataVisitor::new();
    let ok = on_attr("tabs::on_updated");
    assert_eq!(v.parse_event_args(&ok), Some(("tabs".to_string(), "on_updated".to_string())));
    assert_eq!(v.parse_event_args(&on_attr("tabs::on_updated::more")), None);
    assert_eq!(v.parse_event_args(&on_attr("fn::x")), None);
    assert_eq!(v.parse_event_args(&marker("on")), None);
}

#[test]
fn oxichrome_attr_needs_both_segments() {
    assert!(MetadataVisitor::is_oxichrome_attr(&marker("popup"), "popup"));
    assert!(!MetadataVisitor::is_oxichrome_attr(&marker("popup"), "background"));
    assert!(!MetadataVisitor::is_oxichrome_attr(&attr(&["popup"], None), "popup"));
    assert!(!MetadataVisitor::is_oxichrome_attr(&attr(&["oxichrome", "popup", "x"], None), "popup"));
}

#[test]
fn visitor_starts_empty() {
    let v = MetadataVisitor::new();
    assert!(v.metadata.name.is_none());
    assert!(v.metadata.permissions.is_empty());
    assert!(!v.metadata.has_popup);
}

#[test]
fn test_parse_extension() {
    let source = r#"
        use oxichrome::prelude::*;

        #[oxichrome::extension(
            name = "Test Extension",
            version = "1.0.0",
            permissions = ["storage", "tabs"]
        )]
        struct MyExt;

        #[oxichrome::background]
        async fn start() {}

        #[oxichrome::on(runtime::on_installed)]
        async fn handle_install(details: JsValue) {}

        #[oxichrome::popup]
        fn Popup() -> impl IntoView {}

        #[oxichrome::options_page]
        fn Options() -> impl IntoView {}
    "#;

    let metadata = parse_source_str(source).unwrap();
    assert_eq!(metadata.name.as_deref(), Some("Test Extension"));
    assert_eq!(metadata.version.as_deref(), Some("1.0.0"));
    assert_eq!(metadata.permissions, vec!["storage", "tabs"]);
    assert_eq!(metadata.background_functions, vec!["start"]);
    assert_eq!(metadata.event_handlers.len(), 1);
    assert_eq!(metadata.event_handlers[0].namespace, "runtime");
    assert_eq!(metadata.event_handlers[0].event_name, "on_installed");
    assert!(metadata.has_popup);
    assert!(metadata.has_options_page);
    assert!(metadata.content_scripts.is_empty());
}

#[test]
fn test_parse_content_script() {
    let source = r#"
        #[oxichrome::extension(
            name = "Test",
            version = "1.0.0"
        )]
        struct MyExt;

        #[oxichrome::content_script(matches = ["<all_urls>"])]
        async fn inject() {}

        #[oxichrome::content_script(matches = ["https://example.com/*", "https://test.com/*"])]
        async fn inject_specific() {}
    "#;

    let metadata = parse_source_str(source).unwrap();
    assert_eq!(metadata.content_scripts.len(), 2);
    assert_eq!(metadata.content_scripts[0].fn_name, "inject");
    assert_eq!(metadata.content_scripts[0].matches, vec!["<all_urls>"]);
    assert_eq!(metadata.content_scripts[1].fn_name, "inject_specific");
    assert_eq!(metadata.content_scripts[1].matches, vec!["https://example.com/*", "https://test.com/*"]);
}

#[test]
fn test_parse_content_script_with_options() {
    let source = r#"
        #[oxichrome::extension(
            name = "Test",
            version = "1.0.0"
        )]
        struct MyExt;

        #[oxichrome::content_script(
            matches = ["<all_urls>"],
            run_at = DocumentStart,
            all_frames = true,
            css = ["styles.css", "theme.css"]
        )]
        async fn inject() {}
    "#;

    let metadata = parse_source_str(source).unwrap();
    assert_eq!(metadata.content_scripts.len(), 1);
    let cs = &metadata.content_scripts[0];
    assert_eq!(cs.fn_name, "inject");
    assert_eq!(cs.matches, vec!["<all_urls>"]);
    assert_eq!(cs.run_at.as_deref(), Some("document_start"));
    assert_eq!(cs.all_frames, Some(true));
    assert_eq!(cs.css, vec!["styles.css", "theme.css"]);
}

#[test]
fn source_text_nested_items_in_order() {
    let source = r#"
        mod inner {
            #[oxichrome::background]
            fn first() {
                #[oxichrome::background]
                fn nested() {}
            }
        }
        #[oxichrome::background]
        fn second() {}
        impl X {
            #[oxichrome::background]
            fn method(&self) {}
        }
    "#;
    let metadata = parse_source_str(source).unwrap();
    assert_eq!(metadata.background_functions, vec!["first", "nested", "second"]);
}

#[test]
fn source_text_that_is_no_rust_is_an_error() {
    assert!(parse_source_str("fn (").is_err());
    let empty = parse_source_str("").unwrap();
    assert!(empty.name.is_none());
}
