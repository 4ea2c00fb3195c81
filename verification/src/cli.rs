//! Decisions of the `cargo oxichrome build` command: the target browser, the
//! names of build outputs, and what it reads from `Cargo.toml`.
use crate::json::{json_as_str, json_get, json_of_text, json_parse, lookup, Json};
use crate::metadata::{opt_text_of, Browser};
use crate::text::{chars_of, concat2, replace_char, replace_char_spec, str_eq, string_of};
use vstd::prelude::*;

verus! {

/// `toml::Value`.
#[verifier::external_type_specification]
#[verifier::external_body]
pub struct ExTomlValue(toml::Value);

/// Model of a TOML value, by what the build reads: strings, tables, and
/// anything else.
pub enum Toml {
    Str(Seq<char>),
    Table(Map<Seq<char>, Toml>),
    Other,
}

/// What a `toml::Value` holds.
pub uninterp spec fn toml_model(v: toml::Value) -> Toml;

/// The document that `toml::from_str` reads from a text, or `None` where the
/// text is not TOML.
pub uninterp spec fn toml_of_text(text: Seq<char>) -> Option<Toml>;

/// `toml::from_str::<toml::Value>`, its error dropped.
#[verifier::external_body]
fn toml_parse(text: &str) -> (r: Option<toml::Value>)
    ensures
        match toml_of_text(text@) {
            Some(t) => r is Some && toml_model(r->Some_0) == t,
            None => r is None,
        },
{
    toml::from_str::<toml::Value>(text).ok()
}

/// `toml::Value::get` with a string index, cloned: the value under a key of
/// a table; `None` for a missing key or a value that is no table.
#[verifier::external_body]
fn toml_get(v: &toml::Value, key: &str) -> (r: Option<toml::Value>)
    ensures
        match toml_model(*v) {
            Toml::Table(m) => if m.contains_key(key@) {
                r is Some && toml_model(r->Some_0) == m[key@]
            } else {
                r is None
            },
            _ => r is None,
        },
{
    v.get(key).cloned()
}

/// `toml::Value::as_str`, copied into a `String`.
#[verifier::external_body]
fn toml_as_str(v: &toml::Value) -> (r: Option<String>)
    ensures
        match toml_model(*v) {
            Toml::Str(s) => r is Some && r->Some_0@ == s,
            _ => r is None,
        },
{
    v.as_str().map(|s| s.to_string())
}

/// The value under `key` of a table.
pub open spec fn toml_lookup(t: Option<Toml>, key: Seq<char>) -> Option<Toml> {
    match t {
        Some(Toml::Table(m)) => if m.contains_key(key) {
            Some(m[key])
        } else {
            None
        },
        _ => None,
    }
}

/// `package.name` of a `Cargo.toml` text, when it is a string.
pub open spec fn crate_name_spec(content: Seq<char>) -> Option<Seq<char>> {
    match toml_lookup(toml_lookup(toml_of_text(content), "package"@), "name"@) {
        Some(Toml::Str(s)) => Some(s),
        _ => None,
    }
}

/// The crate's name: `name` in the `[package]` section of `Cargo.toml`;
/// `None` when the text is no TOML or has no such string.
pub fn extract_crate_name(content: &str) -> (r: Option<String>)
    ensures
        opt_text_of(r) == crate_name_spec(content@),
{
    let doc = match toml_parse(content) {
        Some(d) => d,
        None => return None,
    };
    let package = match toml_get(&doc, "package") {
        Some(p) => p,
        None => return None,
    };
    let name = match toml_get(&package, "name") {
        Some(n) => n,
        None => return None,
    };
    toml_as_str(&name)
}

/// The browser that a `--target` value names.
pub open spec fn browser_of_target(t: Seq<char>) -> Option<Browser> {
    if t == "chromium"@ || t == "chrome"@ {
        Some(Browser::Chromium)
    } else if t == "firefox"@ {
        Some(Browser::Firefox)
    } else {
        None
    }
}

/// The browser of `--target`: `chromium` or `chrome`, or `firefox`; any
/// other value is an error with its message.
pub fn parse_browser_target(target: &str) -> (r: Result<Browser, String>)
    ensures
        match browser_of_target(target@) {
            Some(b) => r == Ok::<Browser, String>(b),
            None => r is Err && r->Err_0@ == "unknown target browser: "@ + target@
                + " (expected \"chromium\" or \"firefox\")"@,
        },
{
    if str_eq(target, "chromium") || str_eq(target, "chrome") {
        Ok(Browser::Chromium)
    } else if str_eq(target, "firefox") {
        Ok(Browser::Firefox)
    } else {
        let mut m = string_of("unknown target browser: ");
        m.append(target);
        m.append(" (expected \"chromium\" or \"firefox\")");
        Err(m)
    }
}

/// The name of the crate's WebAssembly module: dashes become underscores.
pub fn wasm_name_of(crate_name: &str) -> (r: String)
    ensures
        r@ == replace_char_spec(crate_name@, '-', '_'),
{
    replace_char(crate_name, '-', '_')
}

/// The Cargo profile of a build.
pub fn build_profile(release: bool) -> (r: String)
    ensures
        r@ == (if release { "release"@ } else { "debug"@ }),
{
    if release {
        string_of("release")
    } else {
        string_of("debug")
    }
}

/// The arguments of `cargo` that build the crate for WebAssembly.
pub fn cargo_build_args(release: bool) -> (r: Vec<String>)
    ensures
        r@.map_values(|s: String| s@) == seq!["build"@, "--lib"@, "--target"@, "wasm32-unknown-unknown"@] + (
        if release {
            seq!["--release"@]
        } else {
            Seq::empty()
        }),
{
    let mut v: Vec<String> = Vec::new();
    v.push(string_of("build"));
    v.push(string_of("--lib"));
    v.push(string_of("--target"));
    v.push(string_of("wasm32-unknown-unknown"));
    if release {
        v.push(string_of("--release"));
    }
    let ghost expected = seq!["build"@, "--lib"@, "--target"@, "wasm32-unknown-unknown"@] + (if release {
        seq!["--release"@]
    } else {
        Seq::<Seq<char>>::empty()
    });
    assert(v@.map_values(|s: String| s@) =~= expected);
    v
}

/// The directory under `dist/` of a browser's build.
pub fn browser_dir_name(b: Browser) -> (r: String)
    ensures
        r@ == match b {
            Browser::Chromium => "chromium"@,
            Browser::Firefox => "firefox"@,
        },
{
    match b {
        Browser::Chromium => string_of("chromium"),
        Browser::Firefox => string_of("firefox"),
    }
}

/// `{wasm_name}.wasm`: the module that `cargo` builds.
pub fn wasm_file_name(wasm_name: &str) -> (r: String)
    ensures
        r@ == wasm_name@ + ".wasm"@,
{
    concat2(wasm_name, ".wasm")
}

/// `{wasm_name}_bg.wasm`: the module that `wasm-bindgen` writes.
pub fn wasm_bindgen_output_name(wasm_name: &str) -> (r: String)
    ensures
        r@ == wasm_name@ + "_bg.wasm"@,
{
    concat2(wasm_name, "_bg.wasm")
}

/// Why the target directory was not found in the output of `cargo metadata`.
#[derive(Debug, PartialEq, Eq, Structural)]
pub enum TargetDirError {
    /// The output is not JSON.
    Unparsable,
    /// The output has no string `target_directory`.
    Missing,
}

impl TargetDirError {
    /// The error's message.
    pub fn message(&self) -> (r: String)
        ensures
            r@ == match self {
                TargetDirError::Unparsable => "failed to parse cargo metadata output"@,
                TargetDirError::Missing => "cargo metadata missing target_directory"@,
            },
    {
        match self {
            TargetDirError::Unparsable => string_of("failed to parse cargo metadata output"),
            TargetDirError::Missing => string_of("cargo metadata missing target_directory"),
        }
    }
}

/// The string `target_directory` of a JSON value, if it has one.
pub open spec fn target_directory_spec(j: Json) -> Option<Seq<char>> {
    match j {
        Json::Object(es) => match lookup(es, "target_directory"@) {
            Some(Json::Str(s)) => Some(s),
            _ => None,
        },
        _ => None,
    }
}

/// The target directory that the output of `cargo metadata` names.
pub fn target_directory_of(metadata_output: &str) -> (r: Result<String, TargetDirError>)
    ensures
        match json_of_text(metadata_output@) {
            None => r == Err::<String, TargetDirError>(TargetDirError::Unparsable),
            Some(j) => match target_directory_spec(j) {
                Some(d) => r is Ok && r->Ok_0@ == d,
                None => r == Err::<String, TargetDirError>(TargetDirError::Missing),
            },
        },
{
    let parsed = match json_parse(metadata_output) {
        Ok(v) => v,
        Err(_) => return Err(TargetDirError::Unparsable),
    };
    let dir = match json_get(&parsed, "target_directory") {
        Some(d) => d,
        None => return Err(TargetDirError::Missing),
    };
    match json_as_str(&dir) {
        Some(s) => Ok(s),
        None => Err(TargetDirError::Missing),
    }
}

/// `needle` occurs in `hay`.
pub open spec fn contains_spec(hay: Seq<char>, needle: Seq<char>) -> bool {
    exists|i: int| 0 <= i && i + needle.len() <= hay.len() && #[trigger] hay.subrange(i, i + needle.len()) == needle
}

/// Whether `needle` matches `hay` at `i`.
fn matches_at(hay: &Vec<char>, needle: &Vec<char>, i: usize) -> (r: bool)
    requires
        i + needle@.len() <= hay@.len(),
    ensures
        r == (hay@.subrange(i as int, i + needle@.len()) == needle@),
{
    let n = needle.len();
    let mut j: usize = 0;
    while j < n
        invariant
            n == needle@.len(),
            i + n <= hay.len(),
            hay.len() == hay@.len(),
            j <= n,
            forall|x: int| 0 <= x < j ==> hay@[i + x] == needle@[x],
        decreases n - j,
    {
        if hay[i + j] != needle[j] {
            assert(hay@.subrange(i as int, i + n)[j as int] != needle@[j as int]);
            return false;
        }
        j = j + 1;
    }
    assert(hay@.subrange(i as int, i + n) =~= needle@);
    true
}

/// Whether `needle` occurs in `hay`, as `str::contains` tells.
pub fn contains_text(hay: &str, needle: &str) -> (r: bool)
    ensures
        r == contains_spec(hay@, needle@),
{
    let h = chars_of(hay);
    let n = chars_of(needle);
    if n.len() > h.len() {
        return false;
    }
    if n.len() == 0 {
        assert(hay@.subrange(0, 0int + needle@.len()) =~= needle@);
        return true;
    }
    let last = h.len() - n.len();
    let mut i: usize = 0;
    while i <= last
        invariant
            h@ == hay@,
            n@ == needle@,
            n@.len() >= 1,
            last + n@.len() == h@.len(),
            h.len() == h@.len(),
            i <= last + 1,
            forall|x: int| 0 <= x < i ==> #[trigger] h@.subrange(x, x + n@.len()) != n@,
        decreases last + 1 - i,
    {
        if matches_at(&h, &n, i) {
            return true;
        }
        i = i + 1;
    }
    false
}

/// Whether the output of `rustup target list --installed` lists the
/// WebAssembly target.
pub fn wasm_target_installed(installed: &str) -> (r: bool)
    ensures
        r == contains_spec(installed@, "wasm32-unknown-unknown"@),
{
    contains_text(installed, "wasm32-unknown-unknown")
}

/// Whether `wasm-bindgen-cli` is to be installed: when no `wasm-bindgen`
/// runs, or when a version is wanted and the one that runs does not report it.
pub open spec fn needs_wasm_bindgen_install(version_output: Option<Seq<char>>, desired: Option<Seq<char>>) -> bool {
    match version_output {
        None => true,
        Some(out) => match desired {
            None => false,
            Some(d) => !contains_spec(out, d),
        },
    }
}

/// The arguments of `cargo` that install `wasm-bindgen-cli`, at the wanted
/// version when there is one.
pub open spec fn wasm_bindgen_install_args_spec(desired: Option<Seq<char>>) -> Seq<Seq<char>> {
    seq!["install"@, "wasm-bindgen-cli"@] + match desired {
        Some(d) => seq!["--version="@ + d],
        None => Seq::empty(),
    }
}

/// What to do about `wasm-bindgen-cli`, given what `wasm-bindgen --version`
/// printed (`None` when it did not run) and the version the lock file pins:
/// `None` when the one installed will do, else the arguments of `cargo` that
/// install it.
pub fn wasm_bindgen_install_args(version_output: Option<&str>, desired: Option<&str>) -> (r: Option<Vec<String>>)
    ensures
        match version_output {
            None => needs_wasm_bindgen_install(None, opt_str_text(desired)),
            Some(o) => needs_wasm_bindgen_install(Some(o@), opt_str_text(desired)),
        } <==> r is Some,
        r matches Some(args) ==> args@.map_values(|s: String| s@) == wasm_bindgen_install_args_spec(opt_str_text(desired)),
{
    let needed = match version_output {
        None => true,
        Some(out) => match desired {
            None => false,
            Some(d) => !contains_text(out, d),
        },
    };
    if !needed {
        return None;
    }
    let mut args: Vec<String> = Vec::new();
    args.push(string_of("install"));
    args.push(string_of("wasm-bindgen-cli"));
    match desired {
        Some(d) => args.push(concat2("--version=", d)),
        None => {},
    }
    assert(args@.map_values(|s: String| s@) =~= wasm_bindgen_install_args_spec(opt_str_text(desired)));
    Some(args)
}

/// The text of an optional string slice.
pub open spec fn opt_str_text(o: Option<&str>) -> Option<Seq<char>> {
    match o {
        Some(s) => Some(s@),
        None => None,
    }
}

} // verus!
