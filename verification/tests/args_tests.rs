use oxichrome::args::{ArgsError, ContentScriptArgs, EventArgs, ExtensionArgs};
use proc_macro2::{Delimiter, Group, TokenStream, TokenTree};

fn tokens(s: &str) -> proc_macro2::TokenStream {
    s.parse().unwrap()
}

#[test]
fn parse_extension_args() {
    let args = ExtensionArgs::parse(tokens(
        r#"name = "Test Extension", version = "1.0.0", permissions = ["storage", "tabs"]"#,
    ))
    .unwrap();
    assert_eq!(args.name, "Test Extension");
    assert_eq!(args.version, "1.0.0");
    assert_eq!(args.permissions.len(), 2);
}

#[test]
fn parse_event_args() {
    let args = EventArgs::parse(tokens("runtime::on_installed")).unwrap();
    assert_eq!(args.namespace, "runtime");
    assert_eq!(args.event_name, "on_installed");
}

#[test]
fn parse_content_script_args() {
    let args = ContentScriptArgs::parse(tokens(r#"matches = ["<all_urls>"]"#)).unwrap();
    assert_eq!(args.matches.len(), 1);
    assert_eq!(args.matches[0], "<all_urls>");
}

#[test]
fn parse_content_script_args_multiple() {
    let args = ContentScriptArgs::parse(tokens(
        r#"matches = ["https://example.com/*", "https://test.com/*"]"#,
    ))
    .unwrap();
    assert_eq!(args.matches.len(), 2);
    assert_eq!(args.matches[0], "https://example.com/*");
    assert_eq!(args.matches[1], "https://test.com/*");
}

#[test]
fn parse_content_script_args_wildcard_scheme() {
    let args = ContentScriptArgs::parse(tokens(r#"matches = ["*://*.youtube.com/*"]"#)).unwrap();
    assert_eq!(args.matches[0], "*://*.youtube.com/*");
}

#[test]
fn parse_content_script_args_invalid_pattern() {
    let err = ContentScriptArgs::parse(tokens(r#"matches = ["youtube.com/*"]"#)).unwrap_err();
    assert!(err.message().contains("must start with a scheme"));
}

#[test]
fn parse_content_script_args_with_run_at() {
    let args = ContentScriptArgs::parse(tokens(
        r#"matches = ["<all_urls>"],
           run_at = DocumentStart"#,
    ))
    .unwrap();
    assert_eq!(args.run_at.unwrap(), "DocumentStart");
}

#[test]
fn parse_content_script_args_with_all_frames() {
    let args = ContentScriptArgs::parse(tokens(
        r#"matches = ["<all_urls>"],
           all_frames = true"#,
    ))
    .unwrap();
    assert_eq!(args.all_frames, Some(true));
}

#[test]
fn parse_content_script_args_with_css() {
    let args = ContentScriptArgs::parse(tokens(
        r#"matches = ["<all_urls>"],
           css = ["styles.css", "theme.css"]"#,
    ))
    .unwrap();
    assert_eq!(args.css.len(), 2);
    assert_eq!(args.css[0], "styles.css");
    assert_eq!(args.css[1], "theme.css");
}

#[test]
fn parse_content_script_args_all_options() {
    let args = ContentScriptArgs::parse(tokens(
        r#"matches = ["<all_urls>"],
           run_at = DocumentStart,
           all_frames = true,
           css = ["styles.css"]"#,
    ))
    .unwrap();
    assert_eq!(args.matches.len(), 1);
    assert_eq!(args.run_at.unwrap(), "DocumentStart");
    assert_eq!(args.all_frames, Some(true));
    assert_eq!(args.css.len(), 1);
}

#[test]
fn extension_args_optional_fields_and_trailing_comma() {
    let args = ExtensionArgs::parse(tokens(
        r#"name = "N", version = "2", description = "d", extra_manifest = "{}", permissions = ["a",], permissions = ["b"],"#,
    ))
    .unwrap();
    assert_eq!(args.description.as_deref(), Some("d"));
    assert_eq!(args.extra_manifest.as_deref(), Some("{}"));
    assert_eq!(args.permissions, vec!["a".to_string(), "b".to_string()]);
}

#[test]
fn extension_args_string_escapes_are_decoded() {
    let args = ExtensionArgs::parse(tokens(r#"name = "a\"b\n", version = r"raw\n""#)).unwrap();
    assert_eq!(args.name, "a\"b\n");
    assert_eq!(args.version, "raw\\n");
}

#[test]
fn extension_args_missing_name() {
    let err = ExtensionArgs::parse(tokens(r#"version = "1.0.0""#)).unwrap_err();
    assert!(matches!(err, ArgsError::MissingArgument(ref a) if a == "name"));
    assert_eq!(err.message(), "missing required argument `name`");
}

#[test]
fn extension_args_missing_version() {
    let err = ExtensionArgs::parse(tokens(r#"name = "x""#)).unwrap_err();
    assert_eq!(err.message(), "missing required argument `version`");
}

#[test]
fn extension_args_unknown_argument() {
    let err = ExtensionArgs::parse(tokens(r#"name = "x", colour = "red""#)).unwrap_err();
    assert_eq!(err.message(), "unknown argument `colour`");
}

#[test]
fn extension_args_syntax_errors() {
    let e = ExtensionArgs::parse(tokens(r#"name "x""#)).unwrap_err();
    assert_eq!(e.message(), "expected `=`");
    let e = ExtensionArgs::parse(tokens(r#"name = x"#)).unwrap_err();
    assert_eq!(e.message(), "expected string literal");
    let e = ExtensionArgs::parse(tokens(r#"name = "x" version = "y""#)).unwrap_err();
    assert_eq!(e.message(), "expected `,`");
    let e = ExtensionArgs::parse(tokens(r#"permissions = ("a")"#)).unwrap_err();
    assert_eq!(e.message(), "expected square brackets");
    let e = ExtensionArgs::parse(tokens(r#"permissions = ["a" "b"]"#)).unwrap_err();
    assert_eq!(e.message(), "expected `,`");
    let e = ExtensionArgs::parse(tokens(r#""name" = "x""#)).unwrap_err();
    assert_eq!(e.message(), "expected identifier");
    let e = ExtensionArgs::parse(tokens(r#"fn = "x""#)).unwrap_err();
    assert_eq!(e.message(), "expected identifier, found keyword `fn`");
}

#[test]
fn event_args_errors() {
    assert_eq!(EventArgs::parse(tokens("runtime:on_installed")).unwrap_err().message(), "expected `::`");
    assert_eq!(EventArgs::parse(tokens("runtime::on_installed extra")).unwrap_err().message(), "unexpected token");
    assert_eq!(
        EventArgs::parse(tokens("runtime::")).unwrap_err().message(),
        "unexpected end of input, expected identifier"
    );
}

#[test]
fn content_script_args_errors() {
    let e = ContentScriptArgs::parse(tokens(r#"css = ["a.css"]"#)).unwrap_err();
    assert_eq!(e.message(), "missing required argument `matches`");
    let e = ContentScriptArgs::parse(tokens(r#"matches = ["<all_urls>"], all_frames = yes"#)).unwrap_err();
    assert_eq!(e.message(), "expected boolean literal");
    let e = ContentScriptArgs::parse(tokens(r#"matches = ["https://a/*", "ftp://b", "b.com"]"#)).unwrap_err();
    assert_eq!(
        e.message(),
        "invalid match pattern `b.com`: must start with a scheme (e.g. `https://`, `*://`, `http://`) or be `<all_urls>`"
    );
    let e = ContentScriptArgs::parse(tokens(r#"matches = ["<all_urls>"], world = MAIN"#)).unwrap_err();
    assert_eq!(e.message(), "unknown argument `world`");
}

#[test]
fn content_script_args_accepts_every_scheme() {
    for p in ["http://a/*", "https://a/*", "*://a/*", "file:///a", "ftp://a/*", "<all_urls>"] {
        let src = format!("matches = [\"{}\"]", p);
        assert!(ContentScriptArgs::parse(tokens(&src)).is_ok(), "{}", p);
    }
}

#[test]
fn invisible_groups_are_read_through() {
    let value: TokenStream = r#""Wrapped""#.parse().unwrap();
    let mut ts: TokenStream = "name =".parse().unwrap();
    ts.extend([TokenTree::Group(Group::new(Delimiter::None, value))]);
    let rest: TokenStream = r#", version = "1""#.parse().unwrap();
    ts.extend(rest);
    let args = ExtensionArgs::parse(ts).unwrap();
    assert_eq!(args.name, "Wrapped");
    assert_eq!(args.version, "1");
}

#[test]
fn nested_groups_inside_lists_are_refused() {
    let e = ExtensionArgs::parse(tokens(r#"name = "x", version = "1", permissions = [["a"]]"#)).unwrap_err();
    assert_eq!(e.message(), "expected string literal");
    let e = ExtensionArgs::parse(tokens(r#"name = "x", version = "1", permissions = [[[["a"]]]]"#)).unwrap_err();
    assert_eq!(e.message(), "expected string literal");
}

#[test]
fn non_string_literals_are_not_strings() {
    let e = ExtensionArgs::parse(tokens(r#"name = b"x", version = "1""#)).unwrap_err();
    assert_eq!(e.message(), "expected string literal");
    let e = ExtensionArgs::parse(tokens(r#"name = 3, version = "1""#)).unwrap_err();
    assert_eq!(e.message(), "expected string literal");
}

#[test]
fn errors_at_the_end_of_the_input() {
    let e = ExtensionArgs::parse(tokens("name =")).unwrap_err();
    assert_eq!(e.message(), "unexpected end of input, expected string literal");
    let e = ExtensionArgs::parse(tokens("name")).unwrap_err();
    assert_eq!(e.message(), "expected `=`");
    let e = ExtensionArgs::parse(tokens(r#"name = "x", version = "1", permissions ="#)).unwrap_err();
    assert_eq!(e.message(), "unexpected end of input, expected square brackets");
    let e = ContentScriptArgs::parse(tokens(r#"matches = ["<all_urls>"], all_frames ="#)).unwrap_err();
    assert_eq!(e.message(), "unexpected end of input, expected boolean literal");
    let e = ContentScriptArgs::parse(tokens(r#"matches = ["<all_urls>"], run_at ="#)).unwrap_err();
    assert_eq!(e.message(), "unexpected end of input, expected identifier");
    let e = EventArgs::parse(tokens("")).unwrap_err();
    assert_eq!(e.message(), "unexpected end of input, expected identifier");
    assert!(matches!(e, ArgsError::ExpectedIdent(true)));
}

#[test]
fn absent_content_script_keys_stay_unset() {
    let args = ContentScriptArgs::parse(tokens(r#"matches = ["<all_urls>"]"#)).unwrap();
    assert_eq!(args.run_at, None);
    assert_eq!(args.all_frames, None);
    assert!(args.css.is_empty());
}
