use oxichrome::cli::{target_directory_of, TargetDirError};
use oxichrome::lockfile::wasm_bindgen_version;

const LOCK: &str = r#"# This file is automatically @generated by Cargo.
version = 3

[[package]]
name = "wasm-bindgen-backend"
version = "0.2.90"

[[package]]
name = "wasm-bindgen"
version = "0.2.93"
source = "registry+https://github.com/rust-lang/crates.io-index"

[[package]]
name = "zzz"
version = "9.9.9"
"#;

#[test]
fn lock_version_of_wasm_bindgen() {
    assert_eq!(wasm_bindgen_version(LOCK), Some("0.2.93".to_string()));
}

#[test]
fn lock_without_wasm_bindgen() {
    let lock = "[[package]]\nname = \"serde\"\nversion = \"1.0.0\"\n";
    assert_eq!(wasm_bindgen_version(lock), None);
    assert_eq!(wasm_bindgen_version(""), None);
}

#[test]
fn lock_with_crlf_and_indentation() {
    let lock = "[[package]]\r\n  name = \"wasm-bindgen\"  \r\n\tversion = \"0.2.100\"\r\n";
    assert_eq!(wasm_bindgen_version(lock), Some("0.2.100".to_string()));
}

#[test]
fn lock_version_line_without_quotes_gives_none() {
    let lock = "[[package]]\nname = \"wasm-bindgen\"\nversion = 0.2.93\nversion = \"0.2.94\"\n";
    assert_eq!(wasm_bindgen_version(lock), None);
}

#[test]
fn lock_version_of_another_package_is_not_taken() {
    let lock = "[[package]]\nname = \"wasm-bindgen\"\n[[package]]\nname = \"other\"\nversion = \"1.2.3\"\n";
    assert_eq!(wasm_bindgen_version(lock), None);
}

#[test]
fn lock_version_without_final_newline() {
    let lock = "[[package]]\nname = \"wasm-bindgen\"\nversion = \"0.2.93\"";
    assert_eq!(wasm_bindgen_version(lock), Some("0.2.93".to_string()));
}

#[test]
fn target_directory_found() {
    let out = r#"{"packages": [], "target_directory": "/work/target", "version": 1}"#;
    assert_eq!(target_directory_of(out), Ok("/work/target".to_string()));
}

#[test]
fn target_directory_errors() {
    assert_eq!(target_directory_of("not json"), Err(TargetDirError::Unparsable));
    assert_eq!(target_directory_of(r#"{"packages": []}"#), Err(TargetDirError::Missing));
    assert_eq!(target_directory_of(r#"{"target_directory": 3}"#), Err(TargetDirError::Missing));
    assert_eq!(target_directory_of("[1, 2]"), Err(TargetDirError::Missing));
    assert_eq!(TargetDirError::Unparsable.message(), "failed to parse cargo metadata output");
    assert_eq!(TargetDirError::Missing.message(), "cargo metadata missing target_directory");
}
