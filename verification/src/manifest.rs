//! Generation of the extension manifest from extension metadata.
use crate::json::{
    decimal_text, json_array, json_bool, json_entries, json_error_text, json_get, json_insert,
    json_is_object, json_object, json_of_text, json_parse, json_render_pretty, json_string, pretty_json_text, json_u64, key_index,
    lemma_key_index, lemma_key_index_first, lemma_key_index_same_keys, lemma_lookup_upsert, lookup, distinct_keys, merge, merge_entries, merge_json, upsert, Json, json_model,
};
use crate::metadata::{Browser, ContentScript, ExtensionMetadata};
use crate::names::{content_script_js_name, content_script_js_name_spec};
use crate::text::{lowercase_text, replace_char, replace_char_spec, string_of, to_lowercase};
use vstd::prelude::*;

verus! {

broadcast use vstd::string::group_string_axioms;

/// Why no manifest was generated.
#[derive(Debug)]
pub enum ManifestError {
    /// The metadata has no name.
    MissingName,
    /// The metadata has no version.
    MissingVersion,
    /// The extra manifest text is not JSON; the parser's message.
    InvalidExtraManifest(String),
    /// Rendering the manifest failed; the serializer's message. `serde_json`
    /// renders every JSON value, so no manifest meets this.
    Render(String),
}

impl ManifestError {
    /// The error's message.
    pub fn message(&self) -> (r: String)
        ensures
            match self {
                ManifestError::MissingName => r@ == "extension name is required"@,
                ManifestError::MissingVersion => r@ == "extension version is required"@,
                ManifestError::InvalidExtraManifest(e) => r@ == "extra_manifest is not valid JSON: "@ + e@,
                ManifestError::Render(e) => r@ == e@,
            },
    {
        match self {
            ManifestError::MissingName => String::from_str("extension name is required"),
            ManifestError::MissingVersion => String::from_str("extension version is required"),
            ManifestError::InvalidExtraManifest(e) => {
                let mut r = String::from_str("extra_manifest is not valid JSON: ");
                r.append(e.as_str());
                r
            },
            ManifestError::Render(e) => e.clone(),
        }
    }
}

// ---------------------------------------------------------------------------
// The manifest, as a JSON model.

/// A JSON array of strings.
pub open spec fn strings_model(v: Seq<String>) -> Json {
    Json::Array(v.map_values(|s: String| Json::Str(s@)))
}

/// The `content_scripts` entry of one content script.
pub open spec fn content_script_json(cs: ContentScript) -> Json {
    Json::Object(
        seq![
            ("matches"@, strings_model(cs.matches@)),
            ("js"@, Json::Array(seq![Json::Str(content_script_js_name_spec(cs.fn_name@))])),
        ] + (match cs.run_at {
            Some(r) => seq![("run_at"@, Json::Str(r@))],
            None => Seq::empty(),
        }) + (match cs.all_frames {
            Some(b) => seq![("all_frames"@, Json::Bool(b))],
            None => Seq::empty(),
        }) + (if cs.css@.len() == 0 {
            Seq::empty()
        } else {
            seq![("css"@, strings_model(cs.css@))]
        }),
    )
}

/// The background service worker of a Chromium manifest.
pub open spec fn chromium_background() -> Json {
    Json::Object(seq![("service_worker"@, Json::Str("background.js"@)), ("type"@, Json::Str("module"@))])
}

/// The background scripts of a Firefox manifest.
pub open spec fn firefox_background() -> Json {
    Json::Object(
        seq![("scripts"@, Json::Array(seq![Json::Str("background.js"@)])), ("type"@, Json::Str("module"@))],
    )
}

/// The content security policy of the extension pages.
pub open spec fn csp_json() -> Json {
    Json::Object(seq![("extension_pages"@, Json::Str("script-src 'self' 'wasm-unsafe-eval'; object-src 'self'"@))])
}

/// The popup action.
pub open spec fn action_json() -> Json {
    Json::Object(seq![("default_popup"@, Json::Str("popup.html"@))])
}

/// The options page.
pub open spec fn options_ui_json() -> Json {
    Json::Object(seq![("page"@, Json::Str("options.html"@)), ("open_in_tab"@, Json::Bool(true))])
}

/// The resources that web pages may load.
pub open spec fn web_accessible_resources_json() -> Json {
    Json::Array(
        seq![
            Json::Object(
                seq![
                    ("resources"@, Json::Array(seq![Json::Str("wasm/*"@)])),
                    ("matches"@, Json::Array(seq![Json::Str("<all_urls>"@)])),
                ],
            ),
        ],
    )
}

/// The Gecko add-on id: the lowercase name with spaces as dashes, at `oxichrome.dev`.
pub open spec fn gecko_id(name: Seq<char>) -> Seq<char> {
    replace_char_spec(lowercase_text(name), ' ', '-') + "@oxichrome.dev"@
}

/// Firefox's `browser_specific_settings`.
pub open spec fn browser_settings_json(name: Seq<char>) -> Json {
    Json::Object(seq![("gecko"@, Json::Object(seq![("id"@, Json::Str(gecko_id(name)))]))])
}

/// The manifest's entries for every browser, in order; optional entries are
/// left out when they are absent or empty.
pub open spec fn standard_entries(m: ExtensionMetadata, name: Seq<char>, version: Seq<char>) -> Seq<(Seq<char>, Json)> {
    seq![
        ("manifest_version"@, Json::Number(decimal_text(3))),
        ("name"@, Json::Str(name)),
        ("version"@, Json::Str(version)),
    ] + (match m.description {
        Some(d) => seq![("description"@, Json::Str(d@))],
        None => Seq::empty(),
    }) + (if m.permissions@.len() == 0 {
        Seq::empty()
    } else {
        seq![("permissions"@, strings_model(m.permissions@))]
    }) + (if m.has_popup {
        seq![("action"@, action_json())]
    } else {
        Seq::empty()
    }) + seq![("background"@, chromium_background()), ("content_security_policy"@, csp_json())] + (
    if m.has_options_page {
        seq![("options_ui"@, options_ui_json())]
    } else {
        Seq::empty()
    }) + (if m.content_scripts@.len() == 0 {
        Seq::empty()
    } else {
        seq![("content_scripts"@, Json::Array(m.content_scripts@.map_values(|cs: ContentScript| content_script_json(cs))))]
    }) + seq![("web_accessible_resources"@, web_accessible_resources_json())]
}

/// The manifest for a browser: Firefox replaces the background in place and
/// adds its settings last.
pub open spec fn manifest_json(m: ExtensionMetadata, name: Seq<char>, version: Seq<char>, browser: Browser) -> Json {
    let es = standard_entries(m, name, version);
    match browser {
        Browser::Chromium => Json::Object(es),
        Browser::Firefox => Json::Object(
            upsert(upsert(es, "background"@, firefox_background()), "browser_specific_settings"@, browser_settings_json(name)),
        ),
    }
}

/// First pass over extra entries: a key the manifest has is merged into
/// its value in place; other keys are skipped.
pub open spec fn merge_existing_keys(bs: Seq<(Seq<char>, Json)>, es: Seq<(Seq<char>, Json)>) -> Seq<(Seq<char>, Json)>
    decreases es.len(),
{
    if es.len() == 0 {
        bs
    } else {
        let rest = es.subrange(1, es.len() as int);
        match key_index(bs, es[0].0) {
            Some(i) => merge_existing_keys(upsert(bs, es[0].0, merge(bs[i].1, es[0].1)), rest),
            None => merge_existing_keys(bs, rest),
        }
    }
}

/// Second pass over extra entries: a key the manifest lacks is added last.
pub open spec fn add_new_keys(bs: Seq<(Seq<char>, Json)>, es: Seq<(Seq<char>, Json)>) -> Seq<(Seq<char>, Json)>
    decreases es.len(),
{
    if es.len() == 0 {
        bs
    } else {
        let rest = es.subrange(1, es.len() as int);
        match key_index(bs, es[0].0) {
            Some(_) => add_new_keys(bs, rest),
            None => add_new_keys(bs.push(es[0]), rest),
        }
    }
}

/// The manifest with the extra JSON applied: when both are objects, the
/// extra keys the manifest has are merged first, then the new keys are
/// added at the end; an extra value that is no object changes nothing.
pub open spec fn with_extra(j: Json, extra: Json) -> Json {
    match j {
        Json::Object(bs) => match extra {
            Json::Object(es) => Json::Object(add_new_keys(merge_existing_keys(bs, es), es)),
            _ => j,
        },
        _ => j,
    }
}

/// The manifest generated for metadata that has a name and a version, with
/// its extra JSON, when that is JSON.
pub open spec fn generated_manifest(m: ExtensionMetadata, browser: Browser) -> Json {
    let base = manifest_json(m, m.name->Some_0@, m.version->Some_0@, browser);
    match m.extra_manifest {
        Some(t) => match json_of_text(t@) {
            Some(x) => with_extra(base, x),
            None => base,
        },
        None => base,
    }
}

// ---------------------------------------------------------------------------
// Laws of applying extra JSON.

/// The first pass keeps the keys of the manifest, in place.
proof fn lemma_merge_existing_keeps_keys(bs: Seq<(Seq<char>, Json)>, es: Seq<(Seq<char>, Json)>)
    ensures
        merge_existing_keys(bs, es).len() == bs.len(),
        forall|j: int| 0 <= j < bs.len() ==> (#[trigger] merge_existing_keys(bs, es)[j]).0 == bs[j].0,
    decreases es.len(),
{
    if es.len() > 0 {
        let rest = es.subrange(1, es.len() as int);
        lemma_key_index(bs, es[0].0);
        match key_index(bs, es[0].0) {
            Some(i) => {
                let bs1 = upsert(bs, es[0].0, merge(bs[i].1, es[0].1));
                lemma_merge_existing_keeps_keys(bs1, rest);
                assert forall|j: int| 0 <= j < bs.len() implies (#[trigger] merge_existing_keys(bs, es)[j]).0
                    == bs[j].0 by {
                    assert(bs1[j].0 == bs[j].0);
                }
            },
            None => {
                lemma_merge_existing_keeps_keys(bs, rest);
            },
        }
    }
}

/// A last entry whose key the first pass never meets stays last.
proof fn lemma_merge_existing_push(bs: Seq<(Seq<char>, Json)>, e: (Seq<char>, Json), es: Seq<(Seq<char>, Json)>)
    requires
        forall|j: int| 0 <= j < es.len() ==> (#[trigger] es[j]).0 != e.0,
    ensures
        merge_existing_keys(bs.push(e), es) == merge_existing_keys(bs, es).push(e),
    decreases es.len(),
{
    if es.len() > 0 {
        let k = es[0].0;
        let rest = es.subrange(1, es.len() as int);
        assert forall|j: int| 0 <= j < rest.len() implies (#[trigger] rest[j]).0 != e.0 by {
            assert(rest[j] == es[j + 1]);
        }
        lemma_key_index(bs, k);
        lemma_key_index(bs.push(e), k);
        match key_index(bs, k) {
            Some(i) => {
                lemma_key_index_first(bs.push(e), k, i);
                let m = merge(bs[i].1, es[0].1);
                assert(upsert(bs.push(e), k, m) =~= upsert(bs, k, m).push(e));
                lemma_merge_existing_push(upsert(bs, k, m), e, rest);
            },
            None => {
                assert(key_index(bs.push(e), k) is None);
                lemma_merge_existing_push(bs, e, rest);
            },
        }
    }
}

/// Law: applying extra JSON in two passes (merge the keys the manifest has,
/// then add the new ones at the end) gives the recursive merge of
/// `merge_json`, for extra entries with distinct keys.
pub proof fn lemma_two_passes_merge(bs: Seq<(Seq<char>, Json)>, es: Seq<(Seq<char>, Json)>)
    requires
        distinct_keys(es),
    ensures
        add_new_keys(merge_existing_keys(bs, es), es) == merge_entries(bs, es),
    decreases es.len(),
{
    if es.len() > 0 {
        let k0 = es[0].0;
        let v0 = es[0].1;
        let rest = es.subrange(1, es.len() as int);
        assert(distinct_keys(rest)) by {
            assert forall|i: int, j: int| 0 <= i < j < rest.len() implies rest[i].0 != rest[j].0 by {
                assert(rest[i] == es[i + 1] && rest[j] == es[j + 1]);
            }
        }
        lemma_key_index(bs, k0);
        match key_index(bs, k0) {
            Some(i) => {
                let bs1 = upsert(bs, k0, merge(bs[i].1, v0));
                lemma_two_passes_merge(bs1, rest);
                let x = merge_existing_keys(bs1, rest);
                lemma_merge_existing_keeps_keys(bs1, rest);
                assert(bs1[i].0 == k0);
                assert(x[i].0 == k0);
                lemma_key_index(x, k0);
            },
            None => {
                let x = merge_existing_keys(bs, rest);
                lemma_merge_existing_keeps_keys(bs, rest);
                lemma_key_index_same_keys(x, bs, k0);
                assert forall|j: int| 0 <= j < rest.len() implies (#[trigger] rest[j]).0 != es[0].0 by {
                    assert(rest[j] == es[j + 1]);
                }
                lemma_merge_existing_push(bs, es[0], rest);
                lemma_two_passes_merge(bs.push(es[0]), rest);
                assert(upsert(bs, k0, v0) == bs.push(es[0]));
            },
        }
    }
}

/// Law: applying an extra JSON object to a manifest is `merge_json` of the
/// two, when the keys of the extra object are distinct (as those of every
/// `serde_json` object are).
pub proof fn lemma_with_extra_is_merge(j: Json, extra: Json)
    requires
        j is Object,
        extra is Object,
        distinct_keys(extra->Object_0),
    ensures
        with_extra(j, extra) == merge(j, extra),
{
    lemma_two_passes_merge(j->Object_0, extra->Object_0);
}

// ---------------------------------------------------------------------------
// Building the manifest.

/// The literal keys of the manifest, told apart.
proof fn lemma_key_literals()
    ensures
        "matches"@.len() == 7,
        "js"@.len() == 2,
        "run_at"@.len() == 6,
        "all_frames"@.len() == 10,
        "css"@.len() == 3,
        "manifest_version"@.len() == 16,
        "name"@.len() == 4,
        "version"@.len() == 7,
        "description"@.len() == 11,
        "description"@[0] == 'd',
        "permissions"@.len() == 11,
        "permissions"@[0] == 'p',
        "action"@.len() == 6,
        "background"@.len() == 10,
        "background"@[0] == 'b',
        "content_security_policy"@.len() == 23,
        "options_ui"@.len() == 10,
        "options_ui"@[0] == 'o',
        "content_scripts"@.len() == 15,
        "web_accessible_resources"@.len() == 24,
        "browser_specific_settings"@.len() == 25,
        "service_worker"@.len() == 14,
        "type"@.len() == 4,
        "scripts"@.len() == 7,
        "extension_pages"@.len() == 15,
        "default_popup"@.len() == 13,
        "page"@.len() == 4,
        "open_in_tab"@.len() == 11,
        "resources"@.len() == 9,
        "gecko"@.len() == 5,
        "id"@.len() == 2,
{
    reveal_strlit("matches");
    reveal_strlit("js");
    reveal_strlit("run_at");
    reveal_strlit("all_frames");
    reveal_strlit("css");
    reveal_strlit("manifest_version");
    reveal_strlit("name");
    reveal_strlit("version");
    reveal_strlit("description");
    reveal_strlit("permissions");
    reveal_strlit("action");
    reveal_strlit("background");
    reveal_strlit("content_security_policy");
    reveal_strlit("options_ui");
    reveal_strlit("content_scripts");
    reveal_strlit("web_accessible_resources");
    reveal_strlit("browser_specific_settings");
    reveal_strlit("service_worker");
    reveal_strlit("type");
    reveal_strlit("scripts");
    reveal_strlit("extension_pages");
    reveal_strlit("default_popup");
    reveal_strlit("page");
    reveal_strlit("open_in_tab");
    reveal_strlit("resources");
    reveal_strlit("gecko");
    reveal_strlit("id");
}

/// No entry of `es` has the key `k`.
pub open spec fn lacks_key(es: Seq<(Seq<char>, Json)>, k: Seq<char>) -> bool {
    forall|j: int| 0 <= j < es.len() ==> (#[trigger] es[j]).0 != k
}

/// An entry that follows entries without its key is what a lookup finds.
proof fn lemma_lookup_after(a: Seq<(Seq<char>, Json)>, k: Seq<char>, v: Json, b: Seq<(Seq<char>, Json)>)
    requires
        lacks_key(a, k),
    ensures
        lookup(a + seq![(k, v)] + b, k) == Some(v),
{
    let es = a + seq![(k, v)] + b;
    assert(es[a.len() as int] == (k, v));
    assert forall|j: int| 0 <= j < a.len() implies es[j].0 != k by {
        assert(es[j] == a[j]);
    }
    lemma_key_index_first(es, k, a.len() as int);
}

/// The entry of a content script: `matches` holds all its patterns in
/// order, `js` its script file, `run_at` and `all_frames` what it sets and
/// nothing where it sets nothing, and `css` its stylesheets in order, absent
/// where it has none.
pub proof fn lemma_content_script_entry(cs: ContentScript)
    ensures
        content_script_json(cs) is Object,
        ({
            let ent = content_script_json(cs)->Object_0;
            &&& lookup(ent, "js"@) == Some(Json::Array(seq![Json::Str("content_script_"@ + cs.fn_name@ + ".js"@)]))
            &&& match lookup(ent, "matches"@) {
                Some(Json::Array(xs)) => xs.len() == cs.matches@.len() && forall|j: int|
                    0 <= j < xs.len() ==> #[trigger] xs[j] == Json::Str(cs.matches@[j]@),
                _ => false,
            }
            &&& lookup(ent, "run_at"@) == match cs.run_at {
                Some(r) => Some(Json::Str(r@)),
                None => None,
            }
            &&& lookup(ent, "all_frames"@) == match cs.all_frames {
                Some(b) => Some(Json::Bool(b)),
                None => None,
            }
            &&& if cs.css@.len() == 0 {
                lookup(ent, "css"@) is None
            } else {
                match lookup(ent, "css"@) {
                    Some(Json::Array(xs)) => xs.len() == cs.css@.len() && forall|j: int|
                        0 <= j < xs.len() ==> #[trigger] xs[j] == Json::Str(cs.css@[j]@),
                    _ => false,
                }
            }
        }),
{
    lemma_key_literals();
    let ent = content_script_json(cs)->Object_0;
    let mv = strings_model(cs.matches@);
    let jv = Json::Array(seq![Json::Str(content_script_js_name_spec(cs.fn_name@))]);
    let p0 = seq![("matches"@, mv), ("js"@, jv)];
    let p1 = match cs.run_at {
        Some(r) => seq![("run_at"@, Json::Str(r@))],
        None => Seq::<(Seq<char>, Json)>::empty(),
    };
    let p2 = match cs.all_frames {
        Some(b) => seq![("all_frames"@, Json::Bool(b))],
        None => Seq::<(Seq<char>, Json)>::empty(),
    };
    let p3 = if cs.css@.len() == 0 {
        Seq::<(Seq<char>, Json)>::empty()
    } else {
        seq![("css"@, strings_model(cs.css@))]
    };
    assert(ent =~= p0 + p1 + p2 + p3);
    assert(ent =~= Seq::<(Seq<char>, Json)>::empty() + seq![("matches"@, mv)] + ent.subrange(1, ent.len() as int));
    lemma_lookup_after(Seq::empty(), "matches"@, mv, ent.subrange(1, ent.len() as int));
    assert(ent =~= seq![("matches"@, mv)] + seq![("js"@, jv)] + ent.subrange(2, ent.len() as int));
    lemma_lookup_after(seq![("matches"@, mv)], "js"@, jv, ent.subrange(2, ent.len() as int));
    assert(lacks_key(p0, "run_at"@) && lacks_key(p0, "all_frames"@) && lacks_key(p0, "css"@));
    match cs.run_at {
        Some(r) => {
            assert(ent =~= p0 + seq![("run_at"@, Json::Str(r@))] + (p2 + p3));
            lemma_lookup_after(p0, "run_at"@, Json::Str(r@), p2 + p3);
        },
        None => {
            assert(lacks_key(ent, "run_at"@));
            lemma_key_index(ent, "run_at"@);
        },
    }
    assert(lacks_key(p0 + p1, "all_frames"@) && lacks_key(p0 + p1, "css"@));
    match cs.all_frames {
        Some(b) => {
            assert(ent =~= (p0 + p1) + seq![("all_frames"@, Json::Bool(b))] + p3);
            lemma_lookup_after(p0 + p1, "all_frames"@, Json::Bool(b), p3);
        },
        None => {
            assert(lacks_key(ent, "all_frames"@));
            lemma_key_index(ent, "all_frames"@);
        },
    }
    assert(lacks_key(p0 + p1 + p2, "css"@));
    if cs.css@.len() == 0 {
        assert(lacks_key(ent, "css"@));
        lemma_key_index(ent, "css"@);
    } else {
        assert(ent =~= (p0 + p1 + p2) + seq![("css"@, strings_model(cs.css@))] + Seq::empty());
        lemma_lookup_after(p0 + p1 + p2, "css"@, strings_model(cs.css@), Seq::empty());
    }
}

/// Law: a manifest lists, under `content_scripts`, one entry per content
/// script of the metadata, in order; entry `i` loads
/// `content_script_{fn_name}.js` on exactly the match patterns of script
/// `i`, all of them, in order. Without content scripts the key is absent.
/// Both hold for every browser, and with no extra JSON for the generated
/// manifest too.
pub proof fn lemma_manifest_content_scripts(m: ExtensionMetadata, name: Seq<char>, version: Seq<char>, browser: Browser)
    ensures
        manifest_json(m, name, version, browser) is Object,
        m.content_scripts@.len() == 0 ==> lookup(manifest_json(m, name, version, browser)->Object_0, "content_scripts"@)
            is None,
        m.content_scripts@.len() > 0 ==> match lookup(manifest_json(m, name, version, browser)->Object_0, "content_scripts"@) {
            Some(Json::Array(a)) => {
                &&& a.len() == m.content_scripts@.len()
                &&& forall|i: int| 0 <= i < a.len() ==> {
                    let cs = m.content_scripts@[i];
                    &&& (#[trigger] a[i]) is Object
                    &&& lookup(a[i]->Object_0, "js"@) == Some(
                        Json::Array(seq![Json::Str("content_script_"@ + cs.fn_name@ + ".js"@)]),
                    )
                    &&& match lookup(a[i]->Object_0, "matches"@) {
                        Some(Json::Array(ms)) => ms.len() == cs.matches@.len() && forall|j: int|
                            0 <= j < ms.len() ==> #[trigger] ms[j] == Json::Str(cs.matches@[j]@),
                        _ => false,
                    }
                    &&& lookup(a[i]->Object_0, "run_at"@) == match cs.run_at {
                        Some(r) => Some(Json::Str(r@)),
                        None => None,
                    }
                    &&& lookup(a[i]->Object_0, "all_frames"@) == match cs.all_frames {
                        Some(b) => Some(Json::Bool(b)),
                        None => None,
                    }
                }
            },
            _ => false,
        },
        m.name is Some && m.version is Some && m.extra_manifest is None ==> generated_manifest(m, browser)
            == manifest_json(m, m.name->Some_0@, m.version->Some_0@, browser),
{
    lemma_key_literals();
    let k = "content_scripts"@;
    let p0 = seq![
        ("manifest_version"@, Json::Number(decimal_text(3))),
        ("name"@, Json::Str(name)),
        ("version"@, Json::Str(version)),
    ];
    let p1 = match m.description {
        Some(d) => seq![("description"@, Json::Str(d@))],
        None => Seq::<(Seq<char>, Json)>::empty(),
    };
    let p2 = if m.permissions@.len() == 0 {
        Seq::<(Seq<char>, Json)>::empty()
    } else {
        seq![("permissions"@, strings_model(m.permissions@))]
    };
    let p3 = if m.has_popup {
        seq![("action"@, action_json())]
    } else {
        Seq::<(Seq<char>, Json)>::empty()
    };
    let p4 = seq![("background"@, chromium_background()), ("content_security_policy"@, csp_json())];
    let p5 = if m.has_options_page {
        seq![("options_ui"@, options_ui_json())]
    } else {
        Seq::<(Seq<char>, Json)>::empty()
    };
    let pre = p0 + p1 + p2 + p3 + p4 + p5;
    assert(lacks_key(pre, k)) by {
        assert forall|j: int| 0 <= j < pre.len() implies (#[trigger] pre[j]).0 != k by {
            assert(pre[j].0.len() != 15);
        }
    }
    let war = seq![("web_accessible_resources"@, web_accessible_resources_json())];
    let es = standard_entries(m, name, version);
    let ms = m.content_scripts@.map_values(|cs: ContentScript| content_script_json(cs));
    let cs_part = if m.content_scripts@.len() == 0 {
        Seq::<(Seq<char>, Json)>::empty()
    } else {
        seq![(k, Json::Array(ms))]
    };
    assert(es =~= pre + cs_part + war);
    let found = lookup(es, k);
    if m.content_scripts@.len() == 0 {
        assert(lacks_key(es, k)) by {
            assert forall|j: int| 0 <= j < es.len() implies (#[trigger] es[j]).0 != k by {
                if j < pre.len() {
                    assert(es[j] == pre[j]);
                } else {
                    assert(es[j] == war[j - pre.len()]);
                }
            }
        }
        lemma_key_index(es, k);
    } else {
        lemma_lookup_after(pre, k, Json::Array(ms), war);
        assert(found == Some(Json::Array(ms)));
        assert forall|i: int| 0 <= i < ms.len() implies (#[trigger] ms[i]) == content_script_json(
            m.content_scripts@[i],
        ) by {}
        assert forall|i: int| 0 <= i < ms.len() implies #[trigger] ms[i] is Object by {
            lemma_content_script_entry(m.content_scripts@[i]);
        }
        assert forall|i: int| 0 <= i < ms.len() implies {
            let cs = m.content_scripts@[i];
            &&& lookup((#[trigger] ms[i])->Object_0, "js"@) == Some(
                Json::Array(seq![Json::Str("content_script_"@ + cs.fn_name@ + ".js"@)]),
            )
            &&& match lookup(ms[i]->Object_0, "matches"@) {
                Some(Json::Array(xs)) => xs.len() == cs.matches@.len() && forall|j: int|
                    0 <= j < xs.len() ==> #[trigger] xs[j] == Json::Str(cs.matches@[j]@),
                _ => false,
            }
            &&& lookup(ms[i]->Object_0, "run_at"@) == match cs.run_at {
                Some(r) => Some(Json::Str(r@)),
                None => None,
            }
            &&& lookup(ms[i]->Object_0, "all_frames"@) == match cs.all_frames {
                Some(b) => Some(Json::Bool(b)),
                None => None,
            }
        } by {
            lemma_content_script_entry(m.content_scripts@[i]);
        }
    }
    match browser {
        Browser::Chromium => {},
        Browser::Firefox => {
            let es1 = upsert(es, "background"@, firefox_background());
            lemma_lookup_upsert(es, "background"@, firefox_background(), k);
            lemma_lookup_upsert(es1, "browser_specific_settings"@, browser_settings_json(name), k);
        },
    }
}

/// The fields a manifest's entries carry for the metadata.
pub open spec fn manifest_fields_hold(es: Seq<(Seq<char>, Json)>, m: ExtensionMetadata, name: Seq<char>, version: Seq<char>) -> bool {
    &&& lookup(es, "name"@) == Some(Json::Str(name))
    &&& lookup(es, "version"@) == Some(Json::Str(version))
    &&& lookup(es, "description"@) == match m.description {
        Some(d) => Some(Json::Str(d@)),
        None => None,
    }
    &&& if m.permissions@.len() == 0 {
        lookup(es, "permissions"@) is None
    } else {
        match lookup(es, "permissions"@) {
            Some(Json::Array(xs)) => xs.len() == m.permissions@.len() && forall|j: int|
                0 <= j < xs.len() ==> #[trigger] xs[j] == Json::Str(m.permissions@[j]@),
            _ => false,
        }
    }
    &&& (lookup(es, "action"@) is Some <==> m.has_popup)
    &&& (lookup(es, "options_ui"@) is Some <==> m.has_options_page)
}

/// The entries up to the content scripts, and the rest.
spec fn entries_head(m: ExtensionMetadata, name: Seq<char>, version: Seq<char>) -> Seq<(Seq<char>, Json)> {
    seq![
        ("manifest_version"@, Json::Number(decimal_text(3))),
        ("name"@, Json::Str(name)),
        ("version"@, Json::Str(version)),
    ]
}

spec fn entries_tail(m: ExtensionMetadata) -> Seq<(Seq<char>, Json)> {
    (if m.content_scripts@.len() == 0 {
        Seq::empty()
    } else {
        seq![("content_scripts"@, Json::Array(m.content_scripts@.map_values(|cs: ContentScript| content_script_json(cs))))]
    }) + seq![("web_accessible_resources"@, web_accessible_resources_json())]
}

spec fn opt_desc(m: ExtensionMetadata) -> Seq<(Seq<char>, Json)> {
    match m.description {
        Some(d) => seq![("description"@, Json::Str(d@))],
        None => Seq::empty(),
    }
}

spec fn opt_perms(m: ExtensionMetadata) -> Seq<(Seq<char>, Json)> {
    if m.permissions@.len() == 0 {
        Seq::empty()
    } else {
        seq![("permissions"@, strings_model(m.permissions@))]
    }
}

spec fn opt_action(m: ExtensionMetadata) -> Seq<(Seq<char>, Json)> {
    if m.has_popup {
        seq![("action"@, action_json())]
    } else {
        Seq::empty()
    }
}

spec fn opt_options(m: ExtensionMetadata) -> Seq<(Seq<char>, Json)> {
    if m.has_options_page {
        seq![("options_ui"@, options_ui_json())]
    } else {
        Seq::empty()
    }
}

spec fn fixed_mid() -> Seq<(Seq<char>, Json)> {
    seq![("background"@, chromium_background()), ("content_security_policy"@, csp_json())]
}

proof fn lemma_entries_split(m: ExtensionMetadata, name: Seq<char>, version: Seq<char>)
    ensures
        standard_entries(m, name, version) == entries_head(m, name, version) + opt_desc(m) + opt_perms(m) + opt_action(m)
            + fixed_mid() + opt_options(m) + entries_tail(m),
{
    assert(standard_entries(m, name, version) =~= entries_head(m, name, version) + opt_desc(m) + opt_perms(m)
        + opt_action(m) + fixed_mid() + opt_options(m) + entries_tail(m));
}

/// A key that neither `a` nor `b` has: no lookup finds it in `a + b`.
proof fn lemma_lookup_absent(a: Seq<(Seq<char>, Json)>, b: Seq<(Seq<char>, Json)>, k: Seq<char>)
    requires
        lacks_key(a, k),
        lacks_key(b, k),
    ensures
        lookup(a + b, k) is None,
{
    let es = a + b;
    assert(lacks_key(es, k)) by {
        assert forall|j: int| 0 <= j < es.len() implies (#[trigger] es[j]).0 != k by {
            if j < a.len() {
                assert(es[j] == a[j]);
            } else {
                assert(es[j] == b[j - a.len()]);
            }
        }
    }
    lemma_key_index(es, k);
}

/// Where a key stands in an optional piece between two parts without it.
proof fn lemma_lookup_optional(a: Seq<(Seq<char>, Json)>, p: Seq<(Seq<char>, Json)>, b: Seq<(Seq<char>, Json)>, k: Seq<char>)
    requires
        lacks_key(a, k),
        lacks_key(b, k),
        p.len() == 0 || (p.len() == 1 && p[0].0 == k),
    ensures
        lookup(a + p + b, k) == if p.len() == 0 { None } else { Some(p[0].1) },
{
    if p.len() == 0 {
        assert(a + p + b =~= a + b);
        lemma_lookup_absent(a, b, k);
    } else {
        assert(p =~= seq![(k, p[0].1)]);
        lemma_lookup_after(a, k, p[0].1, b);
    }
}

proof fn lemma_std_name_version(m: ExtensionMetadata, name: Seq<char>, version: Seq<char>)
    ensures
        lookup(standard_entries(m, name, version), "name"@) == Some(Json::Str(name)),
        lookup(standard_entries(m, name, version), "version"@) == Some(Json::Str(version)),
{
    lemma_key_literals();
    let es = standard_entries(m, name, version);
    let q0 = seq![("manifest_version"@, Json::Number(decimal_text(3)))];
    let rest = es.subrange(3, es.len() as int);
    assert(es =~= q0 + seq![("name"@, Json::Str(name))] + es.subrange(2, es.len() as int));
    lemma_lookup_after(q0, "name"@, Json::Str(name), es.subrange(2, es.len() as int));
    let q1 = seq![("manifest_version"@, Json::Number(decimal_text(3))), ("name"@, Json::Str(name))];
    assert(es =~= q1 + seq![("version"@, Json::Str(version))] + rest);
    lemma_lookup_after(q1, "version"@, Json::Str(version), rest);
}

proof fn lemma_std_description_permissions(m: ExtensionMetadata, name: Seq<char>, version: Seq<char>)
    ensures
        lookup(standard_entries(m, name, version), "description"@) == match m.description {
            Some(d) => Some(Json::Str(d@)),
            None => None,
        },
        lookup(standard_entries(m, name, version), "permissions"@) == if m.permissions@.len() == 0 {
            None
        } else {
            Some(strings_model(m.permissions@))
        },
{
    lemma_key_literals();
    lemma_entries_split(m, name, version);
    let h = entries_head(m, name, version);
    let t = opt_action(m) + fixed_mid() + opt_options(m) + entries_tail(m);
    assert(lacks_key(t, "description"@) && lacks_key(t, "permissions"@)) by {
        assert forall|j: int| 0 <= j < t.len() implies (#[trigger] t[j]).0 != "description"@ && t[j].0 != "permissions"@ by {
            assert(t[j].0.len() != 11);
        }
    }
    assert(lacks_key(h, "description"@) && lacks_key(h, "permissions"@));
    assert(lacks_key(opt_perms(m), "description"@) && lacks_key(opt_desc(m), "permissions"@));
    assert(standard_entries(m, name, version) =~= h + opt_desc(m) + (opt_perms(m) + t));
    assert(lacks_key(opt_perms(m) + t, "description"@)) by {
        let u = opt_perms(m) + t;
        assert forall|j: int| 0 <= j < u.len() implies (#[trigger] u[j]).0 != "description"@ by {
            if j >= opt_perms(m).len() {
                assert(u[j] == t[j - opt_perms(m).len()]);
            }
        }
    }
    lemma_lookup_optional(h, opt_desc(m), opt_perms(m) + t, "description"@);
    assert(standard_entries(m, name, version) =~= (h + opt_desc(m)) + opt_perms(m) + t);
    assert(lacks_key(h + opt_desc(m), "permissions"@)) by {
        let u = h + opt_desc(m);
        assert forall|j: int| 0 <= j < u.len() implies (#[trigger] u[j]).0 != "permissions"@ by {
            if j < h.len() {
                assert(u[j] == h[j]);
            } else {
                assert(u[j] == opt_desc(m)[j - h.len()]);
            }
        }
    }
    lemma_lookup_optional(h + opt_desc(m), opt_perms(m), t, "permissions"@);
}

proof fn lemma_std_action_options(m: ExtensionMetadata, name: Seq<char>, version: Seq<char>)
    ensures
        lookup(standard_entries(m, name, version), "action"@) is Some <==> m.has_popup,
        lookup(standard_entries(m, name, version), "options_ui"@) is Some <==> m.has_options_page,
{
    lemma_key_literals();
    lemma_entries_split(m, name, version);
    let a = entries_head(m, name, version) + opt_desc(m) + opt_perms(m);
    let t = fixed_mid() + opt_options(m) + entries_tail(m);
    assert(lacks_key(a, "action"@) && lacks_key(a, "options_ui"@)) by {
        assert forall|j: int| 0 <= j < a.len() implies (#[trigger] a[j]).0 != "action"@ && a[j].0 != "options_ui"@ by {
            assert(a[j].0.len() != 6 && a[j].0.len() != 10);
        }
    }
    assert(lacks_key(t, "action"@)) by {
        assert forall|j: int| 0 <= j < t.len() implies (#[trigger] t[j]).0 != "action"@ by {
            assert(t[j].0.len() != 6);
        }
    }
    assert(standard_entries(m, name, version) =~= a + opt_action(m) + t);
    lemma_lookup_optional(a, opt_action(m), t, "action"@);
    let a2 = a + opt_action(m) + fixed_mid();
    assert(lacks_key(a2, "options_ui"@)) by {
        assert forall|j: int| 0 <= j < a2.len() implies (#[trigger] a2[j]).0 != "options_ui"@ by {
            if j < a.len() {
                assert(a2[j] == a[j]);
            } else {
                assert(a2[j].0.len() != 10 || a2[j].0[0] == 'b');
            }
        }
    }
    assert(lacks_key(entries_tail(m), "options_ui"@)) by {
        let u = entries_tail(m);
        assert forall|j: int| 0 <= j < u.len() implies (#[trigger] u[j]).0 != "options_ui"@ by {
            assert(u[j].0.len() != 10);
        }
    }
    assert(standard_entries(m, name, version) =~= a2 + opt_options(m) + entries_tail(m));
    lemma_lookup_optional(a2, opt_options(m), entries_tail(m), "options_ui"@);
}

/// Law: a manifest carries the extension's name and version, its
/// description where it has one (none otherwise), all its permissions in
/// order (none where it has none), a popup action exactly when it has a
/// popup and an options page exactly when it has one, for every browser.
pub proof fn lemma_manifest_fields(m: ExtensionMetadata, name: Seq<char>, version: Seq<char>, browser: Browser)
    ensures
        manifest_json(m, name, version, browser) is Object,
        manifest_fields_hold(manifest_json(m, name, version, browser)->Object_0, m, name, version),
{
    lemma_key_literals();
    lemma_std_name_version(m, name, version);
    lemma_std_description_permissions(m, name, version);
    lemma_std_action_options(m, name, version);
    let es = standard_entries(m, name, version);
    match browser {
        Browser::Chromium => {},
        Browser::Firefox => {
            let es1 = upsert(es, "background"@, firefox_background());
            let bss = browser_settings_json(name);
            lemma_lookup_upsert(es, "background"@, firefox_background(), "name"@);
            lemma_lookup_upsert(es1, "browser_specific_settings"@, bss, "name"@);
            lemma_lookup_upsert(es, "background"@, firefox_background(), "version"@);
            lemma_lookup_upsert(es1, "browser_specific_settings"@, bss, "version"@);
            lemma_lookup_upsert(es, "background"@, firefox_background(), "description"@);
            lemma_lookup_upsert(es1, "browser_specific_settings"@, bss, "description"@);
            lemma_lookup_upsert(es, "background"@, firefox_background(), "permissions"@);
            lemma_lookup_upsert(es1, "browser_specific_settings"@, bss, "permissions"@);
            lemma_lookup_upsert(es, "background"@, firefox_background(), "action"@);
            lemma_lookup_upsert(es1, "browser_specific_settings"@, bss, "action"@);
            lemma_lookup_upsert(es, "background"@, firefox_background(), "options_ui"@);
            lemma_lookup_upsert(es1, "browser_specific_settings"@, bss, "options_ui"@);
        },
    }
}

/// Adds an entry under a key the object does not have yet.
fn add_entry(obj: &mut serde_json::Value, key: &str, val: serde_json::Value)
    requires
        json_model(*old(obj)) is Object,
        key_index(json_model(*old(obj))->Object_0, key@) is None,
    ensures
        json_model(*final(obj)) == Json::Object(json_model(*old(obj))->Object_0.push((key@, json_model(val)))),
{
    json_insert(obj, string_of(key), val);
}

/// A JSON array holding the given strings.
fn strings_value(v: &Vec<String>) -> (r: serde_json::Value)
    ensures
        json_model(r) == strings_model(v@),
{
    let mut items: Vec<serde_json::Value> = Vec::new();
    let mut i: usize = 0;
    while i < v.len()
        invariant
            i <= v@.len(),
            items@.len() == i,
            forall|j: int| 0 <= j < i ==> json_model(#[trigger] items@[j]) == Json::Str(v@[j]@),
        decreases v.len() - i,
    {
        items.push(json_string(v[i].clone()));
        i = i + 1;
    }
    assert(items@.map_values(|x: serde_json::Value| json_model(x)) =~= v@.map_values(|s: String| Json::Str(s@)));
    json_array(items)
}

/// A JSON array holding one value.
fn single_array(v: serde_json::Value) -> (r: serde_json::Value)
    ensures
        json_model(r) == Json::Array(seq![json_model(v)]),
{
    let ghost m = json_model(v);
    let mut items: Vec<serde_json::Value> = Vec::new();
    items.push(v);
    assert(items@.map_values(|x: serde_json::Value| json_model(x)) =~= seq![m]);
    json_array(items)
}

/// A JSON array holding one string.
fn single_string_array(s: String) -> (r: serde_json::Value)
    ensures
        json_model(r) == Json::Array(seq![Json::Str(s@)]),
{
    single_array(json_string(s))
}

/// A JSON string holding a literal.
fn str_value(s: &str) -> (r: serde_json::Value)
    ensures
        json_model(r) == Json::Str(s@),
{
    json_string(string_of(s))
}

/// An object with one entry.
fn object1(k: &str, v: serde_json::Value) -> (r: serde_json::Value)
    ensures
        json_model(r) == Json::Object(seq![(k@, json_model(v))]),
{
    let mut obj = json_object();
    proof { lemma_key_index(Seq::empty(), k@); }
    add_entry(&mut obj, k, v);
    assert(json_model(obj)->Object_0 =~= seq![(k@, json_model(v))]);
    obj
}

/// An object with two entries under distinct keys.
fn object2(k1: &str, v1: serde_json::Value, k2: &str, v2: serde_json::Value) -> (r: serde_json::Value)
    requires
        k1@ != k2@,
    ensures
        json_model(r) == Json::Object(seq![(k1@, json_model(v1)), (k2@, json_model(v2))]),
{
    let mut obj = object1(k1, v1);
    proof { lemma_key_index(json_model(obj)->Object_0, k2@); }
    add_entry(&mut obj, k2, v2);
    assert(json_model(obj)->Object_0 =~= seq![(k1@, json_model(v1)), (k2@, json_model(v2))]);
    obj
}

/// The `content_scripts` entry of one content script.
fn content_script_value(cs: &ContentScript) -> (r: serde_json::Value)
    ensures
        json_model(r) == content_script_json(*cs),
{
    let mut obj = json_object();
    add_entry(&mut obj, "matches", strings_value(&cs.matches));
    let ghost es1 = json_model(obj)->Object_0;
    proof { lemma_key_literals(); }
    proof { lemma_key_index(es1, "js"@); }
    add_entry(&mut obj, "js", single_string_array(content_script_js_name(cs.fn_name.as_str())));
    let ghost es2 = json_model(obj)->Object_0;
    match &cs.run_at {
        Some(r) => {
            proof { lemma_key_index(es2, "run_at"@); }
            add_entry(&mut obj, "run_at", json_string(r.clone()));
        },
        None => {},
    }
    let ghost es3 = json_model(obj)->Object_0;
    match cs.all_frames {
        Some(b) => {
            proof { lemma_key_index(es3, "all_frames"@); }
            add_entry(&mut obj, "all_frames", json_bool(b));
        },
        None => {},
    }
    let ghost es4 = json_model(obj)->Object_0;
    if cs.css.len() > 0 {
        proof { lemma_key_index(es4, "css"@); }
        add_entry(&mut obj, "css", strings_value(&cs.css));
    }
    assert(json_model(obj)->Object_0 =~= content_script_json(*cs)->Object_0);
    obj
}

fn chromium_background_value() -> (r: serde_json::Value)
    ensures
        json_model(r) == chromium_background(),
{
    proof { lemma_key_literals(); }
    object2("service_worker", str_value("background.js"), "type", str_value("module"))
}

fn firefox_background_value() -> (r: serde_json::Value)
    ensures
        json_model(r) == firefox_background(),
{
    proof { lemma_key_literals(); }
    object2("scripts", single_string_array(string_of("background.js")), "type", str_value("module"))
}

fn web_accessible_resources_value() -> (r: serde_json::Value)
    ensures
        json_model(r) == web_accessible_resources_json(),
{
    proof { lemma_key_literals(); }
    single_array(
        object2(
            "resources",
            single_string_array(string_of("wasm/*")),
            "matches",
            single_string_array(string_of("<all_urls>")),
        ),
    )
}

/// The Gecko add-on id of an extension name.
pub fn gecko_id_of(name: &str) -> (r: String)
    ensures
        r@ == gecko_id(name@),
{
    let lower = to_lowercase(name);
    let mut r = replace_char(lower.as_str(), ' ', '-');
    r.append("@oxichrome.dev");
    r
}

/// The entries every manifest has, in order.
#[verifier::rlimit(60)]
#[verifier::spinoff_prover]
fn standard_manifest(m: &ExtensionMetadata, name: &String, version: &String) -> (r: serde_json::Value)
    ensures
        json_model(r) == Json::Object(standard_entries(*m, name@, version@)),
{
    proof { lemma_key_literals(); }
    let mut obj = json_object();
    proof { lemma_key_index(Seq::empty(), "manifest_version"@); }
    add_entry(&mut obj, "manifest_version", json_u64(3));
    proof { lemma_key_index(json_model(obj)->Object_0, "name"@); }
    add_entry(&mut obj, "name", json_string(name.clone()));
    proof { lemma_key_index(json_model(obj)->Object_0, "version"@); }
    add_entry(&mut obj, "version", json_string(version.clone()));
    let ghost a0 = json_model(obj)->Object_0;
    assert(a0 =~= seq![
        ("manifest_version"@, Json::Number(decimal_text(3))),
        ("name"@, Json::Str(name@)),
        ("version"@, Json::Str(version@)),
    ]);
    match &m.description {
        Some(d) => {
            proof { lemma_key_index(json_model(obj)->Object_0, "description"@); }
            add_entry(&mut obj, "description", json_string(d.clone()));
        },
        None => {},
    }
    let ghost a1 = a0 + (match &m.description {
        Some(d) => seq![("description"@, Json::Str(d@))],
        None => Seq::<(Seq<char>, Json)>::empty(),
    });
    assert(json_model(obj)->Object_0 =~= a1);
    if m.permissions.len() > 0 {
        proof { lemma_key_index(json_model(obj)->Object_0, "permissions"@); }
        add_entry(&mut obj, "permissions", strings_value(&m.permissions));
    }
    let ghost a2 = a1 + (if m.permissions@.len() == 0 {
        Seq::<(Seq<char>, Json)>::empty()
    } else {
        seq![("permissions"@, strings_model(m.permissions@))]
    });
    assert(json_model(obj)->Object_0 =~= a2);
    if m.has_popup {
        proof { lemma_key_index(json_model(obj)->Object_0, "action"@); }
        add_entry(&mut obj, "action", object1("default_popup", str_value("popup.html")));
    }
    let ghost a3 = a2 + (if m.has_popup {
        seq![("action"@, action_json())]
    } else {
        Seq::<(Seq<char>, Json)>::empty()
    });
    assert(json_model(obj)->Object_0 =~= a3);
    proof { lemma_key_index(json_model(obj)->Object_0, "background"@); }
    add_entry(&mut obj, "background", chromium_background_value());
    proof { lemma_key_index(json_model(obj)->Object_0, "content_security_policy"@); }
    add_entry(
        &mut obj,
        "content_security_policy",
        object1("extension_pages", str_value("script-src 'self' 'wasm-unsafe-eval'; object-src 'self'")),
    );
    let ghost a4 = a3 + seq![("background"@, chromium_background()), ("content_security_policy"@, csp_json())];
    assert(json_model(obj)->Object_0 =~= a4);
    if m.has_options_page {
        proof { lemma_key_index(json_model(obj)->Object_0, "options_ui"@); }
        add_entry(&mut obj, "options_ui", object2("page", str_value("options.html"), "open_in_tab", json_bool(true)));
    }
    let ghost a5 = a4 + (if m.has_options_page {
        seq![("options_ui"@, options_ui_json())]
    } else {
        Seq::<(Seq<char>, Json)>::empty()
    });
    assert(json_model(obj)->Object_0 =~= a5);
    if m.content_scripts.len() > 0 {
        let mut items: Vec<serde_json::Value> = Vec::new();
        let mut i: usize = 0;
        while i < m.content_scripts.len()
            invariant
                i <= m.content_scripts@.len(),
                items@.len() == i,
                forall|j: int| 0 <= j < i ==> json_model(#[trigger] items@[j]) == content_script_json(m.content_scripts@[j]),
            decreases m.content_scripts.len() - i,
        {
            items.push(content_script_value(&m.content_scripts[i]));
            i = i + 1;
        }
        assert(items@.map_values(|x: serde_json::Value| json_model(x)) =~= m.content_scripts@.map_values(
            |cs: ContentScript| content_script_json(cs),
        ));
        proof { lemma_key_index(json_model(obj)->Object_0, "content_scripts"@); }
        add_entry(&mut obj, "content_scripts", json_array(items));
    }
    let ghost a6 = a5 + (if m.content_scripts@.len() == 0 {
        Seq::<(Seq<char>, Json)>::empty()
    } else {
        seq![("content_scripts"@, Json::Array(m.content_scripts@.map_values(|cs: ContentScript| content_script_json(cs))))]
    });
    assert(json_model(obj)->Object_0 =~= a6);
    proof { lemma_key_index(json_model(obj)->Object_0, "web_accessible_resources"@); }
    add_entry(&mut obj, "web_accessible_resources", web_accessible_resources_value());
    assert(json_model(obj)->Object_0 =~= standard_entries(*m, name@, version@));
    obj
}

/// First pass of applying extra JSON: merges the extra keys that the
/// manifest has into their values, in place.
fn merge_existing_pass(value: &mut serde_json::Value, extra: &serde_json::Value)
    requires
        json_model(*old(value)) is Object,
        json_model(*extra) is Object,
    ensures
        json_model(*final(value)) == Json::Object(
            merge_existing_keys(json_model(*old(value))->Object_0, json_model(*extra)->Object_0),
        ),
{
    let ghost bs0 = json_model(*value)->Object_0;
    let ghost es = json_model(*extra)->Object_0;
    let mut entries = match json_entries(extra) {
        Some(e) => e,
        None => Vec::new(),
    };
    let ghost n = es.len();
    let n_exec = entries.len();
    assert(es.subrange(0, n as int) =~= es);
    let mut i: usize = 0;
    while entries.len() > 0
        invariant
            json_model(*value) is Object,
            i + entries@.len() == n,
            n == es.len(),
            n == n_exec,
            forall|j: int| 0 <= j < entries@.len() ==>
                (#[trigger] entries@[j]).0@ == es[i + j].0 && json_model(entries@[j].1) == es[i + j].1,
            merge_existing_keys(bs0, es) == merge_existing_keys(json_model(*value)->Object_0, es.subrange(i as int, n as int)),
        decreases entries.len(),
    {
        let ghost cur = json_model(*value)->Object_0;
        let ghost rest = es.subrange(i as int, n as int);
        assert(rest[0] == es[i as int]);
        assert(rest.subrange(1, rest.len() as int) =~= es.subrange(i + 1, n as int));
        let (k, v) = entries.remove(0);
        proof {
            lemma_key_index(cur, k@);
        }
        match json_get(value, k.as_str()) {
            Some(existing) => {
                let mut ex = existing;
                merge_json(&mut ex, v);
                json_insert(value, k, ex);
            },
            None => {},
        }
        i = i + 1;
        assert forall|j: int| 0 <= j < entries@.len() implies
            (#[trigger] entries@[j]).0@ == es[i + j].0 && json_model(entries@[j].1) == es[i + j].1 by {}
    }
    assert(es.subrange(n as int, n as int).len() == 0);
}

/// Second pass of applying extra JSON: adds the extra keys that the
/// manifest lacks, last and in order.
fn add_new_pass(value: &mut serde_json::Value, extra: &serde_json::Value)
    requires
        json_model(*old(value)) is Object,
        json_model(*extra) is Object,
    ensures
        json_model(*final(value)) == Json::Object(
            add_new_keys(json_model(*old(value))->Object_0, json_model(*extra)->Object_0),
        ),
{
    let ghost bs0 = json_model(*value)->Object_0;
    let ghost es = json_model(*extra)->Object_0;
    let mut entries = match json_entries(extra) {
        Some(e) => e,
        None => Vec::new(),
    };
    let ghost n = es.len();
    let n_exec = entries.len();
    assert(es.subrange(0, n as int) =~= es);
    let mut i: usize = 0;
    while entries.len() > 0
        invariant
            json_model(*value) is Object,
            i + entries@.len() == n,
            n == es.len(),
            n == n_exec,
            forall|j: int| 0 <= j < entries@.len() ==>
                (#[trigger] entries@[j]).0@ == es[i + j].0 && json_model(entries@[j].1) == es[i + j].1,
            add_new_keys(bs0, es) == add_new_keys(json_model(*value)->Object_0, es.subrange(i as int, n as int)),
        decreases entries.len(),
    {
        let ghost cur = json_model(*value)->Object_0;
        let ghost rest = es.subrange(i as int, n as int);
        assert(rest[0] == es[i as int]);
        assert(rest.subrange(1, rest.len() as int) =~= es.subrange(i + 1, n as int));
        let (k, v) = entries.remove(0);
        proof {
            lemma_key_index(cur, k@);
        }
        match json_get(value, k.as_str()) {
            Some(_) => {},
            None => {
                json_insert(value, k, v);
            },
        }
        i = i + 1;
        assert forall|j: int| 0 <= j < entries@.len() implies
            (#[trigger] entries@[j]).0@ == es[i + j].0 && json_model(entries@[j].1) == es[i + j].1 by {}
    }
    assert(es.subrange(n as int, n as int).len() == 0);
}

/// Applies extra JSON to a manifest: when both are objects, the extra keys
/// that the manifest has are merged into their values in place, then the
/// other extra keys are added at the end, in order; otherwise the manifest
/// stays as it is.
pub fn apply_extra_manifest(manifest: &mut serde_json::Value, extra: &serde_json::Value)
    ensures
        json_model(*final(manifest)) == with_extra(json_model(*old(manifest)), json_model(*extra)),
{
    if json_is_object(manifest) && json_is_object(extra) {
        merge_existing_pass(manifest, extra);
        add_new_pass(manifest, extra);
    }
}

/// The manifest for a browser, before extra JSON is applied.
pub fn manifest_value(m: &ExtensionMetadata, name: &String, version: &String, browser: Browser) -> (r: serde_json::Value)
    ensures
        json_model(r) == manifest_json(*m, name@, version@, browser),
{
    let mut value = standard_manifest(m, name, version);
    match browser {
        Browser::Chromium => {},
        Browser::Firefox => {
            json_insert(&mut value, string_of("background"), firefox_background_value());
            proof { lemma_key_literals(); }
            let settings = object1("gecko", object1("id", json_string(gecko_id_of(name.as_str()))));
            json_insert(&mut value, string_of("browser_specific_settings"), settings);
        },
    }
    value
}

/// Generates the extension manifest for an extension: the manifest for the browser,
/// with the extension's extra JSON applied when it has some, rendered as
/// pretty-printed JSON.
pub fn generate_manifest(metadata: &ExtensionMetadata, browser: Browser) -> (r: Result<String, ManifestError>)
    ensures
        metadata.name is None ==> r == Err::<String, ManifestError>(ManifestError::MissingName),
        metadata.name is Some && metadata.version is None ==> r == Err::<String, ManifestError>(
            ManifestError::MissingVersion,
        ),
        metadata.name is Some && metadata.version is Some && metadata.extra_manifest is Some
            && json_of_text(metadata.extra_manifest->Some_0@) is None ==> (r matches Err(
            ManifestError::InvalidExtraManifest(m),
        ) && m@ == json_error_text(metadata.extra_manifest->Some_0@)),
        metadata.name is Some && metadata.version is Some && (metadata.extra_manifest matches Some(t) ==> json_of_text(
            t@,
        ) is Some) ==> (r matches Ok(s) && s@ == pretty_json_text(generated_manifest(*metadata, browser))),
{
    let name = match &metadata.name {
        Some(n) => n,
        None => return Err(ManifestError::MissingName),
    };
    let version = match &metadata.version {
        Some(v) => v,
        None => return Err(ManifestError::MissingVersion),
    };
    let mut value = manifest_value(metadata, name, version, browser);
    match &metadata.extra_manifest {
        Some(extra) => {
            let extra_value = match json_parse(extra.as_str()) {
                Ok(v) => v,
                Err(e) => return Err(ManifestError::InvalidExtraManifest(e)),
            };
            apply_extra_manifest(&mut value, &extra_value);
        },
        None => {},
    }
    match json_render_pretty(&value) {
        Ok(s) => Ok(s),
        Err(e) => Err(ManifestError::Render(e)),
    }
}

} // verus!
