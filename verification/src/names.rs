//! Names of generated files and generated items.
use crate::text::{concat2, concat3, string_of};
use vstd::prelude::*;

verus! {

/// The script file that loads a content script's function.
pub open spec fn content_script_js_name_spec(fn_name: Seq<char>) -> Seq<char> {
    "content_script_"@ + fn_name + ".js"@
}

/// `content_script_{fn_name}.js`: the script file generated for a content
/// script, and the name listed for it in the extension manifest.
pub fn content_script_js_name(fn_name: &str) -> (r: String)
    ensures
        r@ == content_script_js_name_spec(fn_name@),
{
    concat3("content_script_", fn_name, ".js")
}

/// `__oxichrome_cs_{fn_name}`: the exported function that starts a content script.
pub fn content_script_wrapper_name(fn_name: &str) -> (r: String)
    ensures
        r@ == "__oxichrome_cs_"@ + fn_name@,
{
    concat2("__oxichrome_cs_", fn_name)
}

/// `__oxichrome_register_{fn_name}`: the exported function that registers an
/// event handler.
pub fn register_fn_name(fn_name: &str) -> (r: String)
    ensures
        r@ == "__oxichrome_register_"@ + fn_name@,
{
    concat2("__oxichrome_register_", fn_name)
}

/// `chrome_{namespace}_{event_name}_add_listener`: the bridge function that
/// adds a listener to a browser event, e.g. `chrome_runtime_on_installed_add_listener`.
pub fn bridge_fn_name(namespace: &str, event_name: &str) -> (r: String)
    ensures
        r@ == "chrome_"@ + namespace@ + "_"@ + event_name@ + "_add_listener"@,
{
    let mut r = concat3("chrome_", namespace, "_");
    r.append(event_name);
    r.append("_add_listener");
    r
}

/// `static/{file}`: where a content script's stylesheet is looked up.
pub fn css_asset_path(file: &str) -> (r: String)
    ensures
        r@ == "static/"@ + file@,
{
    concat2("static/", file)
}

/// `__OXICHROME__{name}__{version}__`: the marker left in an extension's binary.
pub fn extension_marker(name: &str, version: &str) -> (r: String)
    ensures
        r@ == "__OXICHROME__"@ + name@ + "__"@ + version@ + "__"@,
{
    let mut r = concat3("__OXICHROME__", name, "__");
    r.append(version);
    r.append("__");
    r
}

/// A parameter of an event handler, by what its name is read from.
#[derive(Debug)]
pub enum ParamKind {
    /// `name: Type`.
    Named(String),
    /// A typed parameter whose pattern is no plain identifier.
    Pattern,
    /// `self`, `&self`, `&mut self`.
    Receiver,
}

/// The name an event handler's parameter is given in the generated code.
pub open spec fn param_binding_spec(p: ParamKind) -> Seq<char> {
    match p {
        ParamKind::Named(n) => n@,
        ParamKind::Pattern => "_arg"@,
        ParamKind::Receiver => "self_"@,
    }
}

/// The name an event handler's parameter is given in the generated code.
pub fn param_binding(p: &ParamKind) -> (r: String)
    ensures
        r@ == param_binding_spec(*p),
{
    match p {
        ParamKind::Named(n) => n.clone(),
        ParamKind::Pattern => string_of("_arg"),
        ParamKind::Receiver => string_of("self_"),
    }
}

/// The attribute macros that take only `async` functions.
#[derive(Debug, Clone, Copy, PartialEq, Eq, Structural)]
pub enum AsyncAttribute {
    ContentScript,
    On,
}

/// The message when such a function is not `async`.
pub open spec fn must_be_async_message(a: AsyncAttribute) -> Seq<char> {
    match a {
        AsyncAttribute::ContentScript => "#[oxichrome::content_script] function must be async"@,
        AsyncAttribute::On => "#[oxichrome::on(...)] function must be async"@,
    }
}

/// Checks that a function under such an attribute is `async`.
pub fn check_async(a: AsyncAttribute, is_async: bool) -> (r: Result<(), String>)
    ensures
        is_async ==> r is Ok,
        !is_async ==> r is Err && r->Err_0@ == must_be_async_message(a),
{
    if is_async {
        Ok(())
    } else {
        match a {
            AsyncAttribute::ContentScript => Err(string_of("#[oxichrome::content_script] function must be async")),
            AsyncAttribute::On => Err(string_of("#[oxichrome::on(...)] function must be async")),
        }
    }
}

} // verus!
