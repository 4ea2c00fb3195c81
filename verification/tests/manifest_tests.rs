use oxichrome::manifest::{apply_extra_manifest, gecko_id_of, generate_manifest, manifest_value, ManifestError};
use oxichrome::metadata::{Browser, ContentScript, ExtensionMetadata};

fn test_metadata() -> ExtensionMetadata {
    ExtensionMetadata {
        name: Some("Test Extension".to_string()),
        version: Some("1.0.0".to_string()),
        description: Some("A test extension".to_string()),
        permissions: vec!["storage".to_string(), "tabs".to_string()],
        extra_manifest: None,
        background_functions: vec!["start".to_string()],
        event_handlers: vec![],
        has_popup: true,
        has_options_page: true,
        content_scripts: vec![],
    }
}

fn minimal(extra: Option<&str>) -> ExtensionMetadata {
    ExtensionMetadata {
        name: Some("Test".to_string()),
        version: Some("1.0.0".to_string()),
        description: None,
        permissions: vec![],
        extra_manifest: extra.map(|s| s.to_string()),
        background_functions: vec![],
        event_handlers: vec![],
        has_popup: false,
        has_options_page: false,
        content_scripts: vec![],
    }
}

fn parse(json: &str) -> serde_json::Value {
    serde_json::from_str(json).unwrap()
}

#[test]
fn test_generate_manifest_chromium() {
    let metadata = test_metadata();
    let json = generate_manifest(&metadata, Browser::Chromium).unwrap();
    let parsed = parse(&json);

    assert_eq!(parsed["manifest_version"], 3);
    assert_eq!(parsed["name"], "Test Extension");
    assert_eq!(parsed["version"], "1.0.0");
    assert_eq!(parsed["permissions"][0], "storage");
    assert_eq!(parsed["background"]["service_worker"], "background.js");
    assert_eq!(parsed["action"]["default_popup"], "popup.html");
    assert_eq!(parsed["options_ui"]["page"], "options.html");
    assert!(parsed.get("browser_specific_settings").is_none());
}

#[test]
fn test_generate_manifest_with_content_scripts() {
    let mut metadata = minimal(None);
    metadata.content_scripts = vec![ContentScript {
        fn_name: "inject".to_string(),
        matches: vec!["<all_urls>".to_string()],
        run_at: None,
        all_frames: None,
        css: vec![],
    }];
    let json = generate_manifest(&metadata, Browser::Chromium).unwrap();
    let parsed = parse(&json);

    assert_eq!(parsed["content_scripts"][0]["matches"][0], "<all_urls>");
    assert_eq!(parsed["content_scripts"][0]["js"][0], "content_script_inject.js");
    assert!(parsed["content_scripts"][0].get("run_at").is_none());
    assert!(parsed["content_scripts"][0].get("all_frames").is_none());
    assert!(parsed["content_scripts"][0].get("css").is_none());
}

#[test]
fn test_generate_manifest_content_scripts_with_options() {
    let mut metadata = minimal(None);
    metadata.content_scripts = vec![ContentScript {
        fn_name: "inject".to_string(),
        matches: vec!["<all_urls>".to_string()],
        run_at: Some("document_start".to_string()),
        all_frames: Some(true),
        css: vec!["styles.css".to_string()],
    }];
    let json = generate_manifest(&metadata, Browser::Chromium).unwrap();
    let parsed = parse(&json);

    assert_eq!(parsed["content_scripts"][0]["run_at"], "document_start");
    assert_eq!(parsed["content_scripts"][0]["all_frames"], true);
    assert_eq!(parsed["content_scripts"][0]["css"][0], "styles.css");
}

#[test]
fn test_generate_manifest_firefox() {
    let metadata = test_metadata();
    let json = generate_manifest(&metadata, Browser::Firefox).unwrap();
    let parsed = parse(&json);

    assert_eq!(parsed["manifest_version"], 3);
    assert_eq!(parsed["background"]["scripts"][0], "background.js");
    assert_eq!(parsed["background"]["type"], "module");
    assert!(parsed["background"].get("service_worker").is_none());
    assert_eq!(
        parsed["content_security_policy"]["extension_pages"],
        "script-src 'self' 'wasm-unsafe-eval'; object-src 'self'"
    );
    assert_eq!(
        parsed["browser_specific_settings"]["gecko"]["id"],
        "test-extension@oxichrome.dev"
    );
}

#[test]
fn test_generate_manifest_with_extra_manifest() {
    let mut metadata = minimal(Some(
        r#"{
                "action": {
                    "default_icon": "icons/icon16.png"
                },
                "icons": {
                    "16": "icons/icon16.png",
                    "48": "icons/icon48.png"
                }
            }"#,
    ));
    metadata.background_functions = vec!["start".to_string()];
    metadata.has_popup = true;
    let json = generate_manifest(&metadata, Browser::Chromium).unwrap();
    let parsed = parse(&json);

    assert_eq!(parsed["manifest_version"], 3);
    assert_eq!(parsed["background"]["service_worker"], "background.js");
    assert_eq!(parsed["action"]["default_popup"], "popup.html");
    assert_eq!(parsed["action"]["default_icon"], "icons/icon16.png");
    assert_eq!(parsed["icons"]["16"], "icons/icon16.png");
    assert_eq!(parsed["icons"]["48"], "icons/icon48.png");
}

#[test]
fn test_generate_manifest_extra_manifest_overrides() {
    let mut metadata = minimal(Some(r#"{"description": "overridden"}"#));
    metadata.description = Some("original".to_string());
    metadata.background_functions = vec!["start".to_string()];
    let json = generate_manifest(&metadata, Browser::Chromium).unwrap();
    let parsed = parse(&json);

    assert_eq!(parsed["description"], "overridden");
}

#[test]
fn manifest_key_order_is_fixed() {
    let json = generate_manifest(&test_metadata(), Browser::Firefox).unwrap();
    let parsed = parse(&json);
    let keys: Vec<&String> = parsed.as_object().unwrap().keys().collect();
    assert_eq!(
        keys,
        vec![
            "manifest_version",
            "name",
            "version",
            "description",
            "permissions",
            "action",
            "background",
            "content_security_policy",
            "options_ui",
            "web_accessible_resources",
            "browser_specific_settings",
        ]
    );
}

#[test]
fn manifest_omits_empty_optional_entries() {
    let json = generate_manifest(&minimal(None), Browser::Chromium).unwrap();
    let parsed = parse(&json);
    let keys: Vec<&String> = parsed.as_object().unwrap().keys().collect();
    assert_eq!(
        keys,
        vec![
            "manifest_version",
            "name",
            "version",
            "background",
            "content_security_policy",
            "web_accessible_resources",
        ]
    );
    assert_eq!(parsed["web_accessible_resources"][0]["resources"][0], "wasm/*");
    assert_eq!(parsed["web_accessible_resources"][0]["matches"][0], "<all_urls>");
    assert_eq!(parsed["background"]["type"], "module");
}

#[test]
fn manifest_new_extra_keys_go_last_in_order() {
    let metadata = minimal(Some(r#"{"zeta": 1, "name": "Renamed", "alpha": [1, 2]}"#));
    let json = generate_manifest(&metadata, Browser::Chromium).unwrap();
    let parsed = parse(&json);
    let keys: Vec<&String> = parsed.as_object().unwrap().keys().collect();
    assert_eq!(keys[1], "name");
    assert_eq!(parsed["name"], "Renamed");
    assert_eq!(keys[keys.len() - 2], "zeta");
    assert_eq!(keys[keys.len() - 1], "alpha");
    assert_eq!(parsed["alpha"][1], 2);
}

#[test]
fn manifest_extra_array_replaces_array() {
    let mut metadata = minimal(Some(r#"{"permissions": ["tabs"]}"#));
    metadata.permissions = vec!["storage".to_string(), "alarms".to_string()];
    let json = generate_manifest(&metadata, Browser::Chromium).unwrap();
    let parsed = parse(&json);
    assert_eq!(parsed["permissions"], serde_json::Value::from(vec!["tabs"]));
}

#[test]
fn manifest_extra_that_is_no_object_is_ignored() {
    let with = generate_manifest(&minimal(Some("[1, 2, 3]")), Browser::Chromium).unwrap();
    let without = generate_manifest(&minimal(None), Browser::Chromium).unwrap();
    assert_eq!(with, without);
}

#[test]
fn manifest_missing_name_is_an_error() {
    let mut metadata = minimal(None);
    metadata.name = None;
    let err = generate_manifest(&metadata, Browser::Chromium).unwrap_err();
    assert!(matches!(err, ManifestError::MissingName));
    assert_eq!(err.message(), "extension name is required");
}

#[test]
fn manifest_missing_version_is_an_error() {
    let mut metadata = minimal(None);
    metadata.version = None;
    let err = generate_manifest(&metadata, Browser::Firefox).unwrap_err();
    assert!(matches!(err, ManifestError::MissingVersion));
    assert_eq!(err.message(), "extension version is required");
}

#[test]
fn manifest_invalid_extra_is_an_error() {
    let err = generate_manifest(&minimal(Some("{not json")), Browser::Chromium).unwrap_err();
    assert!(matches!(err, ManifestError::InvalidExtraManifest(_)));
    assert!(err.message().starts_with("extra_manifest is not valid JSON: "));
}

#[test]
fn manifest_is_pretty_printed() {
    let json = generate_manifest(&minimal(None), Browser::Chromium).unwrap();
    assert!(json.starts_with("{\n  \"manifest_version\": 3,\n  \"name\": \"Test\","));
}

#[test]
fn gecko_id_lowercases_and_dashes() {
    assert_eq!(gecko_id_of("My Cool Ext"), "my-cool-ext@oxichrome.dev");
    assert_eq!(gecko_id_of("ABC"), "abc@oxichrome.dev");
}

#[test]
fn extra_json_applied_in_two_passes() {
    let mut manifest = parse(r#"{"name": "N", "action": {"default_popup": "popup.html"}, "version": "1"}"#);
    apply_extra_manifest(
        &mut manifest,
        &parse(r#"{"icons": {"16": "a.png"}, "action": {"default_icon": "i.png"}, "name": "M"}"#),
    );
    let keys: Vec<&String> = manifest.as_object().unwrap().keys().collect();
    assert_eq!(keys, vec!["name", "action", "version", "icons"]);
    assert_eq!(manifest["name"], "M");
    assert_eq!(manifest["action"]["default_popup"], "popup.html");
    assert_eq!(manifest["action"]["default_icon"], "i.png");
    assert_eq!(manifest["icons"]["16"], "a.png");
}

#[test]
fn extra_json_that_is_no_object_changes_nothing() {
    let original = parse(r#"{"name": "N"}"#);
    let mut manifest = original.clone();
    apply_extra_manifest(&mut manifest, &parse("[1, 2]"));
    assert_eq!(manifest, original);
    let mut scalar = parse("7");
    apply_extra_manifest(&mut scalar, &parse(r#"{"a": 1}"#));
    assert_eq!(scalar, parse("7"));
}

#[test]
fn manifest_value_for_firefox_replaces_background_in_place() {
    let m = minimal(None);
    let name = "My Ext".to_string();
    let version = "2".to_string();
    let chromium = manifest_value(&m, &name, &version, Browser::Chromium);
    let firefox = manifest_value(&m, &name, &version, Browser::Firefox);
    let ck: Vec<&String> = chromium.as_object().unwrap().keys().collect();
    let fk: Vec<&String> = firefox.as_object().unwrap().keys().collect();
    assert_eq!(fk[..ck.len()], ck[..]);
    assert_eq!(fk.last().unwrap().as_str(), "browser_specific_settings");
    assert_eq!(firefox["browser_specific_settings"]["gecko"]["id"], "my-ext@oxichrome.dev");
    assert_eq!(firefox["background"]["scripts"][0], "background.js");
    assert_eq!(chromium["background"]["service_worker"], "background.js");
}
