use oxichrome::cli::{
    browser_dir_name, build_profile, cargo_build_args, contains_text, extract_crate_name,
    parse_browser_target, wasm_bindgen_install_args, wasm_bindgen_output_name, wasm_file_name,
    wasm_name_of, wasm_target_installed,
};
use oxichrome::metadata::Browser;

#[test]
fn test_extract_crate_name_basic() {
    let content = r#"
        [package]
        name = "my-extension"
        version = "0.1.0"
    "#;
    assert_eq!(extract_crate_name(content), Some("my-extension".into()));
}

#[test]
fn test_extract_crate_name_single_quotes() {
    let content = r#"
        [package]
        name = 'weird-name_with-dashes'
    "#;
    assert_eq!(extract_crate_name(content), Some("weird-name_with-dashes".into()));
}

#[test]
fn test_extract_crate_name_not_found() {
    let content = r#"[package] version = "0.1.0""#;
    assert_eq!(extract_crate_name(content), None);
}

#[test]
fn test_extract_crate_name_ignores_other_sections() {
    let content = r#"
        [dependencies]
        anyhow = "1"

        [package]
        name = "test-crate"
    "#;
    assert_eq!(extract_crate_name(content), Some("test-crate".into()));
}

#[test]
fn test_extract_crate_name_does_not_pick_wrong_section() {
    let content = r#"
        [dependencies]
        name-anyhow = "1"

        [package]
        name = "test-crate"
    "#;
    assert_eq!(extract_crate_name(content), Some("test-crate".into()));
}

#[test]
fn extract_crate_name_needs_a_string() {
    assert_eq!(extract_crate_name("[package]\nname = 3\n"), None);
    assert_eq!(extract_crate_name("package = \"x\"\n"), None);
}

#[test]
fn browser_targets() {
    assert_eq!(parse_browser_target("chromium"), Ok(Browser::Chromium));
    assert_eq!(parse_browser_target("chrome"), Ok(Browser::Chromium));
    assert_eq!(parse_browser_target("firefox"), Ok(Browser::Firefox));
    assert_eq!(
        parse_browser_target("safari"),
        Err("unknown target browser: safari (expected \"chromium\" or \"firefox\")".to_string())
    );
}

#[test]
fn build_output_names() {
    assert_eq!(wasm_name_of("my-cool-ext"), "my_cool_ext");
    assert_eq!(build_profile(true), "release");
    assert_eq!(build_profile(false), "debug");
    assert_eq!(cargo_build_args(false), vec!["build", "--lib", "--target", "wasm32-unknown-unknown"]);
    assert_eq!(cargo_build_args(true), vec!["build", "--lib", "--target", "wasm32-unknown-unknown", "--release"]);
    assert_eq!(browser_dir_name(Browser::Chromium), "chromium");
    assert_eq!(browser_dir_name(Browser::Firefox), "firefox");
    assert_eq!(wasm_file_name("ext"), "ext.wasm");
    assert_eq!(wasm_bindgen_output_name("ext"), "ext_bg.wasm");
}

#[test]
fn text_containment() {
    assert!(contains_text("wasm-bindgen 0.2.93", "0.2.93"));
    assert!(!contains_text("wasm-bindgen 0.2.92", "0.2.93"));
    assert!(contains_text("abc", ""));
    assert!(!contains_text("ab", "abc"));
    assert!(contains_text("aab", "ab"));
}

#[test]
fn wasm_target_detection() {
    assert!(wasm_target_installed("x86_64-unknown-linux-gnu\nwasm32-unknown-unknown\n"));
    assert!(!wasm_target_installed("x86_64-unknown-linux-gnu\nwasm32-wasi\n"));
}

#[test]
fn wasm_bindgen_install_decisions() {
    assert_eq!(wasm_bindgen_install_args(Some("wasm-bindgen 0.2.93\n"), Some("0.2.93")), None);
    assert_eq!(wasm_bindgen_install_args(Some("wasm-bindgen 0.2.92\n"), None), None);
    assert_eq!(
        wasm_bindgen_install_args(Some("wasm-bindgen 0.2.92\n"), Some("0.2.93")),
        Some(vec!["install".to_string(), "wasm-bindgen-cli".to_string(), "--version=0.2.93".to_string()])
    );
    assert_eq!(
        wasm_bindgen_install_args(None, None),
        Some(vec!["install".to_string(), "wasm-bindgen-cli".to_string()])
    );
    assert_eq!(
        wasm_bindgen_install_args(None, Some("0.2.100")),
        Some(vec!["install".to_string(), "wasm-bindgen-cli".to_string(), "--version=0.2.100".to_string()])
    );
}
