use oxichrome::json::merge_json;
use oxichrome::names::{
    bridge_fn_name, check_async, content_script_js_name, content_script_wrapper_name, css_asset_path,
    extension_marker, param_binding, register_fn_name, AsyncAttribute, ParamKind,
};
use oxichrome::metadata::RunAt;

fn v(s: &str) -> serde_json::Value {
    serde_json::from_str(s).unwrap()
}

#[test]
fn merge_objects_override_and_extend() {
    let mut base = v(r#"{"a": 1, "b": {"x": 1, "y": 2}, "c": [1, 2]}"#);
    merge_json(&mut base, v(r#"{"b": {"y": 3, "z": 4}, "c": [9], "d": true}"#));
    assert_eq!(base, v(r#"{"a": 1, "b": {"x": 1, "y": 3, "z": 4}, "c": [9], "d": true}"#));
    let keys: Vec<&String> = base.as_object().unwrap().keys().collect();
    assert_eq!(keys, vec!["a", "b", "c", "d"]);
    let inner: Vec<&String> = base["b"].as_object().unwrap().keys().collect();
    assert_eq!(inner, vec!["x", "y", "z"]);
}

#[test]
fn merge_non_object_replaces() {
    let mut base = v(r#"{"a": 1}"#);
    merge_json(&mut base, v("[1, 2]"));
    assert_eq!(base, v("[1, 2]"));
    let mut base = v("3");
    merge_json(&mut base, v(r#"{"a": 1}"#));
    assert_eq!(base, v(r#"{"a": 1}"#));
}

#[test]
fn merge_with_itself_is_identity() {
    let original = v(r#"{"a": {"b": [1, {"c": null}]}, "d": "e"}"#);
    let mut base = original.clone();
    merge_json(&mut base, original.clone());
    assert_eq!(base, original);
}

#[test]
fn merge_with_empty_object_is_identity() {
    let original = v(r#"{"a": 1, "b": {"c": 2}}"#);
    let mut base = original.clone();
    merge_json(&mut base, v("{}"));
    assert_eq!(base, original);
}

#[test]
fn generated_names() {
    assert_eq!(content_script_js_name("inject"), "content_script_inject.js");
    assert_eq!(content_script_wrapper_name("inject"), "__oxichrome_cs_inject");
    assert_eq!(register_fn_name("handle_install"), "__oxichrome_register_handle_install");
    assert_eq!(bridge_fn_name("runtime", "on_installed"), "chrome_runtime_on_installed_add_listener");
    assert_eq!(css_asset_path("styles.css"), "static/styles.css");
    assert_eq!(extension_marker("My Ext", "1.0.0"), "__OXICHROME__My Ext__1.0.0__");
    assert_eq!(param_binding(&ParamKind::Named("details".to_string())), "details");
    assert_eq!(param_binding(&ParamKind::Pattern), "_arg");
    assert_eq!(param_binding(&ParamKind::Receiver), "self_");
}

#[test]
fn async_required() {
    assert_eq!(check_async(AsyncAttribute::On, true), Ok(()));
    assert_eq!(
        check_async(AsyncAttribute::On, false),
        Err("#[oxichrome::on(...)] function must be async".to_string())
    );
    assert_eq!(
        check_async(AsyncAttribute::ContentScript, false),
        Err("#[oxichrome::content_script] function must be async".to_string())
    );
}

#[test]
fn run_at_identifiers() {
    assert_eq!(RunAt::from_ident("DocumentStart"), Some(RunAt::DocumentStart));
    assert_eq!(RunAt::from_ident("DocumentEnd"), Some(RunAt::DocumentEnd));
    assert_eq!(RunAt::from_ident("DocumentIdle"), Some(RunAt::DocumentIdle));
    assert_eq!(RunAt::from_ident("Later"), None);
    assert_eq!(RunAt::DocumentStart.manifest_text(), "document_start");
    assert_eq!(RunAt::DocumentEnd.manifest_text(), "document_end");
    assert_eq!(RunAt::DocumentIdle.manifest_text(), "document_idle");
}

#[test]
fn merge_appends_new_keys_in_order() {
    let mut base = v(r#"{"m": 1, "a": 2}"#);
    merge_json(&mut base, v(r#"{"z": 1, "a": 5, "b": 2, "c": 3}"#));
    let keys: Vec<&String> = base.as_object().unwrap().keys().collect();
    assert_eq!(keys, vec!["m", "a", "z", "b", "c"]);
    assert_eq!(base["a"], 5);
    assert_eq!(base["z"], 1);
}

#[test]
fn merge_twice_equals_merge_once() {
    let extra = v(r#"{"a": {"b": 1, "c": [1]}, "d": "x"}"#);
    let mut once = v(r#"{"a": {"b": 0, "z": 2}, "e": null}"#);
    merge_json(&mut once, extra.clone());
    let mut twice = once.clone();
    merge_json(&mut twice, extra);
    assert_eq!(once, twice);
}
