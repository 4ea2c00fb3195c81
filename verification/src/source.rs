//! Reading extension metadata out of the attributes of a Rust source file.
//! The walk over the syntax tree is `syn`'s; this module decides, item by
//! item, what an attribute declares.
use crate::args::{event_args_spec, EventArgs};
use crate::tokens::{lex_spec, stream_clone, stream_trees, TreeModel};
use crate::metadata::{
    empty_metadata, opt_text_of, run_at_manifest_text, run_at_of_ident, texts_of, ContentScript,
    ContentScriptView, EventHandler, EventHandlerView, ExtensionMetadata, MetadataView, RunAt,
};
use crate::text::str_eq;
use quote::ToTokens;
use syn::parse::Parser;
use syn::punctuated::Punctuated;
use syn::token::Comma;
use syn::{Expr, ExprLit, Lit, Meta};
use vstd::prelude::*;

verus! {

/// A value of an attribute argument, as plain values.
#[derive(Debug)]
pub enum ArgValue {
    /// A string literal, by its value.
    Str(String),
    /// A boolean literal.
    Bool(bool),
    /// An array; the value of each element that is a string literal.
    Array(Vec<Option<String>>),
    /// A path, with its identifier when it is a single one.
    Path(Option<String>),
    Other,
}

/// One argument of an attribute, as `syn::Meta` reads it.
#[derive(Debug)]
pub enum MetaItem {
    /// `key = value`; the key when it is a single identifier.
    NameValue(Option<String>, ArgValue),
    /// A path or a list.
    Other,
}

/// What the metadata reads of one attribute.
#[derive(Debug)]
pub struct AttrInfo {
    /// The identifiers of the attribute's path, such as `oxichrome`, `popup`.
    pub path: Vec<String>,
    /// The tokens of the arguments, when they stand in a delimited list.
    pub list_tokens: Option<proc_macro2::TokenStream>,
}

// ---------------------------------------------------------------------------
// Views.

/// [`ArgValue`] with texts as character sequences.
pub enum ArgValueView {
    Str(Seq<char>),
    Bool(bool),
    Array(Seq<Option<Seq<char>>>),
    Path(Option<Seq<char>>),
    Other,
}

impl View for ArgValue {
    type V = ArgValueView;

    open spec fn view(&self) -> ArgValueView {
        match self {
            ArgValue::Str(s) => ArgValueView::Str(s@),
            ArgValue::Bool(b) => ArgValueView::Bool(*b),
            ArgValue::Array(v) => ArgValueView::Array(v@.map_values(|o: Option<String>| opt_text_of(o))),
            ArgValue::Path(p) => ArgValueView::Path(opt_text_of(*p)),
            ArgValue::Other => ArgValueView::Other,
        }
    }
}

/// [`MetaItem`] with texts as character sequences.
pub enum MetaItemView {
    NameValue(Option<Seq<char>>, ArgValueView),
    Other,
}

impl View for MetaItem {
    type V = MetaItemView;

    open spec fn view(&self) -> MetaItemView {
        match self {
            MetaItem::NameValue(k, v) => MetaItemView::NameValue(opt_text_of(*k), v@),
            MetaItem::Other => MetaItemView::Other,
        }
    }
}

/// [`AttrInfo`] with texts as character sequences.
pub struct AttrView {
    pub path: Seq<Seq<char>>,
    pub list_tokens: Option<Seq<TreeModel>>,
}

impl View for AttrInfo {
    type V = AttrView;

    open spec fn view(&self) -> AttrView {
        AttrView {
            path: texts_of(self.path@),
            list_tokens: match self.list_tokens {
                Some(ts) => Some(stream_trees(ts)),
                None => None,
            },
        }
    }
}

// ---------------------------------------------------------------------------
// Reading the arguments as `syn::Meta`.

/// One comma-separated argument as `syn::Meta` reads it: `key = value`, with
/// the key when it is a single identifier and the value's tokens; or any
/// other form.
pub enum RawMeta {
    NameValue(Option<String>, proc_macro2::TokenStream),
    Other,
}

/// [`RawMeta`] as plain values.
pub enum RawMetaModel {
    NameValue(Option<Seq<char>>, Seq<TreeModel>),
    Other,
}

pub open spec fn raw_meta_model(m: RawMeta) -> RawMetaModel {
    match m {
        RawMeta::NameValue(k, v) => RawMetaModel::NameValue(opt_text_of(k), stream_trees(v)),
        RawMeta::Other => RawMetaModel::Other,
    }
}

/// What `Punctuated::<syn::Meta, Comma>::parse_terminated` reads from
/// tokens; `None` where they do not parse so.
pub uninterp spec fn meta_list_of(trees: Seq<TreeModel>) -> Option<Seq<RawMetaModel>>;

/// An expression, by the kinds the metadata reads: a string or boolean
/// literal, an array with the tokens of each element, a path with its
/// identifier when it is a single one, or anything else.
pub enum ExprKind {
    Str(String),
    Bool(bool),
    Array(Vec<proc_macro2::TokenStream>),
    Path(Option<String>),
    Other,
}

/// [`ExprKind`] as plain values.
pub enum ExprModel {
    Str(Seq<char>),
    Bool(bool),
    Array(Seq<Seq<TreeModel>>),
    Path(Option<Seq<char>>),
    Other,
}

pub open spec fn expr_kind_model(e: ExprKind) -> ExprModel {
    match e {
        ExprKind::Str(s) => ExprModel::Str(s@),
        ExprKind::Bool(b) => ExprModel::Bool(b),
        ExprKind::Array(v) => ExprModel::Array(v@.map_values(|t: proc_macro2::TokenStream| stream_trees(t))),
        ExprKind::Path(p) => ExprModel::Path(opt_text_of(p)),
        ExprKind::Other => ExprModel::Other,
    }
}

/// What `syn::parse2::<syn::Expr>` reads from tokens; `None` where they are
/// no expression.
pub uninterp spec fn expr_of(trees: Seq<TreeModel>) -> Option<ExprModel>;

/// `Punctuated::<syn::Meta, Comma>::parse_terminated`, as `parse_args_with`
/// applies it to an attribute's list tokens; each `Meta` handed out with its
/// key (`Path::get_ident`) and the tokens of its value (`ToTokens`).
#[verifier::external_body]
fn parse_meta_list(ts: &proc_macro2::TokenStream) -> (r: Option<Vec<RawMeta>>)
    ensures
        match r {
            Some(v) => meta_list_of(stream_trees(*ts)) == Some(v@.map_values(|m: RawMeta| raw_meta_model(m))),
            None => meta_list_of(stream_trees(*ts)) is None,
        },
{
    match Punctuated::<Meta, Comma>::parse_terminated.parse2(ts.clone()) {
        Ok(metas) => Some(metas.into_iter().map(|m| match m {
            Meta::NameValue(nv) => RawMeta::NameValue(nv.path.get_ident().map(ToString::to_string), nv.value.into_token_stream()),
            _ => RawMeta::Other,
        }).collect()),
        Err(_) => None,
    }
}

/// `syn::parse2::<syn::Expr>`, its kind read out: `LitStr::value`,
/// `LitBool::value`, the tokens of each array element (`ToTokens`), or
/// `Path::get_ident`.
#[verifier::external_body]
fn parse_expr(ts: &proc_macro2::TokenStream) -> (r: Option<ExprKind>)
    ensures
        match r {
            Some(e) => expr_of(stream_trees(*ts)) == Some(expr_kind_model(e)),
            None => expr_of(stream_trees(*ts)) is None,
        },
{
    match syn::parse2::<Expr>(ts.clone()) {
        Ok(Expr::Lit(ExprLit { lit: Lit::Str(s), .. })) => Some(ExprKind::Str(s.value())),
        Ok(Expr::Lit(ExprLit { lit: Lit::Bool(b), .. })) => Some(ExprKind::Bool(b.value)),
        Ok(Expr::Array(a)) => Some(ExprKind::Array(a.elems.into_iter().map(ToTokens::into_token_stream).collect())),
        Ok(Expr::Path(p)) => Some(ExprKind::Path(p.path.get_ident().map(ToString::to_string))),
        Ok(_) => Some(ExprKind::Other),
        Err(_) => None,
    }
}

/// The value of a string-literal element of an array.
pub open spec fn elem_str(trees: Seq<TreeModel>) -> Option<Seq<char>> {
    match expr_of(trees) {
        Some(ExprModel::Str(s)) => Some(s),
        _ => None,
    }
}

/// The value of an argument, as the metadata reads it: an element of an
/// array counts by its value when it is a string literal.
pub open spec fn arg_value_of(trees: Seq<TreeModel>) -> ArgValueView {
    match expr_of(trees) {
        Some(ExprModel::Str(s)) => ArgValueView::Str(s),
        Some(ExprModel::Bool(b)) => ArgValueView::Bool(b),
        Some(ExprModel::Array(elems)) => ArgValueView::Array(elems.map_values(|e: Seq<TreeModel>| elem_str(e))),
        Some(ExprModel::Path(p)) => ArgValueView::Path(p),
        _ => ArgValueView::Other,
    }
}

/// One argument, as the metadata reads it.
pub open spec fn meta_item_of(m: RawMetaModel) -> MetaItemView {
    match m {
        RawMetaModel::NameValue(k, v) => MetaItemView::NameValue(k, arg_value_of(v)),
        RawMetaModel::Other => MetaItemView::Other,
    }
}

/// The arguments of a list, read as comma-separated `syn::Meta`; `None`
/// where they do not parse so.
pub open spec fn meta_items_of(trees: Seq<TreeModel>) -> Option<Seq<MetaItemView>> {
    match meta_list_of(trees) {
        Some(ms) => Some(ms.map_values(|m: RawMetaModel| meta_item_of(m))),
        None => None,
    }
}

/// The arguments of an attribute read as comma-separated `syn::Meta`;
/// `None` without list arguments or where they do not parse so.
pub open spec fn attr_args(a: AttrView) -> Option<Seq<MetaItemView>> {
    match a.list_tokens {
        Some(trees) => meta_items_of(trees),
        None => None,
    }
}

/// The value of an argument from the tokens of its expression.
fn arg_value(ts: &proc_macro2::TokenStream) -> (r: ArgValue)
    ensures
        r@ == arg_value_of(stream_trees(*ts)),
{
    match parse_expr(ts) {
        Some(ExprKind::Str(s)) => ArgValue::Str(s),
        Some(ExprKind::Bool(b)) => ArgValue::Bool(b),
        Some(ExprKind::Array(elems)) => {
            let ghost em = elems@.map_values(|t: proc_macro2::TokenStream| stream_trees(t));
            let mut out: Vec<Option<String>> = Vec::new();
            let mut i: usize = 0;
            while i < elems.len()
                invariant
                    i <= elems@.len(),
                    out@.len() == i,
                    forall|j: int| 0 <= j < i ==> opt_text_of(#[trigger] out@[j]) == elem_str(stream_trees(elems@[j])),
                decreases elems.len() - i,
            {
                let e = match parse_expr(&elems[i]) {
                    Some(ExprKind::Str(s)) => Some(s),
                    _ => None,
                };
                out.push(e);
                i = i + 1;
            }
            assert(out@.map_values(|o: Option<String>| opt_text_of(o)) =~= em.map_values(
                |e: Seq<TreeModel>| elem_str(e),
            ));
            ArgValue::Array(out)
        },
        Some(ExprKind::Path(p)) => ArgValue::Path(p),
        _ => ArgValue::Other,
    }
}

/// Reads the arguments of a list as comma-separated `syn::Meta`, as the
/// metadata reads them; `None` where they do not parse so.
pub fn parse_meta_items(ts: &proc_macro2::TokenStream) -> (r: Option<Vec<MetaItem>>)
    ensures
        match r {
            Some(v) => meta_items_of(stream_trees(*ts)) == Some(v@.map_values(|m: MetaItem| m@)),
            None => meta_items_of(stream_trees(*ts)) is None,
        },
{
    let metas = match parse_meta_list(ts) {
        Some(m) => m,
        None => return None,
    };
    let ghost mm = metas@.map_values(|m: RawMeta| raw_meta_model(m));
    let mut items: Vec<MetaItem> = Vec::new();
    let mut i: usize = 0;
    while i < metas.len()
        invariant
            i <= metas@.len(),
            items@.len() == i,
            forall|j: int| 0 <= j < i ==> (#[trigger] items@[j])@ == meta_item_of(raw_meta_model(metas@[j])),
        decreases metas.len() - i,
    {
        let item = match &metas[i] {
            RawMeta::NameValue(k, v) => {
                let key = match k {
                    Some(t) => Some(t.clone()),
                    None => None,
                };
                MetaItem::NameValue(key, arg_value(v))
            },
            RawMeta::Other => MetaItem::Other,
        };
        items.push(item);
        i = i + 1;
    }
    assert(items@.map_values(|m: MetaItem| m@) =~= mm.map_values(|m: RawMetaModel| meta_item_of(m)));
    Some(items)
}

/// The event that an attribute's arguments name as `namespace::event`;
/// none when there are no list arguments or they do not read so.
pub open spec fn event_of_attr(a: AttrView) -> Option<(Seq<char>, Seq<char>)> {
    match a.list_tokens {
        Some(trees) => match event_args_spec(lex_spec(trees)) {
            Ok(e) => Some(e),
            Err(_) => None,
        },
        None => None,
    }
}

/// The views of a list of attributes.
pub open spec fn attr_views(attrs: Seq<AttrInfo>) -> Seq<AttrView> {
    attrs.map_values(|a: AttrInfo| a@)
}

// ---------------------------------------------------------------------------
// What attributes declare.

/// The path `oxichrome::name`.
pub open spec fn is_oxichrome_path(path: Seq<Seq<char>>, name: Seq<char>) -> bool {
    path.len() == 2 && path[0] == "oxichrome"@ && path[1] == name
}

/// The string literals of an array, in order.
pub open spec fn strings_in(elems: Seq<Option<Seq<char>>>) -> Seq<Seq<char>>
    decreases elems.len(),
{
    if elems.len() == 0 {
        Seq::empty()
    } else {
        strings_in(elems.drop_last()) + match elems.last() {
            Some(s) => seq![s],
            None => Seq::empty(),
        }
    }
}

/// One argument of `#[oxichrome::extension(..)]`: a string literal under
/// `name`, `version`, `description` or `extra_manifest` sets that field; an
/// array under `permissions` adds its string literals; anything else is ignored.
pub open spec fn extension_arg_step(m: MetadataView, item: MetaItemView) -> MetadataView {
    match item {
        MetaItemView::NameValue(key, value) => {
            let m1 = match value {
                ArgValueView::Str(s) => if key == Some("name"@) {
                    MetadataView { name: Some(s), ..m }
                } else if key == Some("version"@) {
                    MetadataView { version: Some(s), ..m }
                } else if key == Some("description"@) {
                    MetadataView { description: Some(s), ..m }
                } else if key == Some("extra_manifest"@) {
                    MetadataView { extra_manifest: Some(s), ..m }
                } else {
                    m
                },
                _ => m,
            };
            match value {
                ArgValueView::Array(elems) => if key == Some("permissions"@) {
                    MetadataView { permissions: m1.permissions + strings_in(elems), ..m1 }
                } else {
                    m1
                },
                _ => m1,
            }
        },
        MetaItemView::Other => m,
    }
}

/// The arguments of `#[oxichrome::extension(..)]`, in order.
pub open spec fn extension_args_applied(m: MetadataView, items: Seq<MetaItemView>) -> MetadataView
    decreases items.len(),
{
    if items.len() == 0 {
        m
    } else {
        extension_arg_step(extension_args_applied(m, items.drop_last()), items.last())
    }
}

/// `#[oxichrome::extension(..)]` read into the metadata; arguments that do
/// not parse change nothing.
pub open spec fn extension_attr_applied(m: MetadataView, a: AttrView) -> MetadataView {
    match attr_args(a) {
        Some(items) => extension_args_applied(m, items),
        None => m,
    }
}

/// A content script with no function name and nothing declared.
pub open spec fn empty_content_script() -> ContentScriptView {
    ContentScriptView { fn_name: Seq::empty(), matches: Seq::empty(), run_at: None, all_frames: None, css: Seq::empty() }
}

/// The manifest text of a `run_at` identifier; unknown identifiers give none.
pub open spec fn run_at_text(ident: Seq<char>) -> Option<Seq<char>> {
    match run_at_of_ident(ident) {
        Some(r) => Some(run_at_manifest_text(r)),
        None => None,
    }
}

/// One argument of `#[oxichrome::content_script(..)]`: arrays under
/// `matches` and `css` add their string literals, an identifier under
/// `run_at` sets it by its manifest text, a boolean under `all_frames` sets it.
pub open spec fn content_script_arg_step(c: ContentScriptView, item: MetaItemView) -> ContentScriptView {
    match item {
        MetaItemView::NameValue(key, value) => if key == Some("matches"@) {
            match value {
                ArgValueView::Array(elems) => ContentScriptView { matches: c.matches + strings_in(elems), ..c },
                _ => c,
            }
        } else if key == Some("run_at"@) {
            match value {
                ArgValueView::Path(Some(ident)) => ContentScriptView { run_at: run_at_text(ident), ..c },
                _ => c,
            }
        } else if key == Some("all_frames"@) {
            match value {
                ArgValueView::Bool(b) => ContentScriptView { all_frames: Some(b), ..c },
                _ => c,
            }
        } else if key == Some("css"@) {
            match value {
                ArgValueView::Array(elems) => ContentScriptView { css: c.css + strings_in(elems), ..c },
                _ => c,
            }
        } else {
            c
        },
        MetaItemView::Other => c,
    }
}

/// The arguments of `#[oxichrome::content_script(..)]`, in order.
pub open spec fn content_script_args_applied(c: ContentScriptView, items: Seq<MetaItemView>) -> ContentScriptView
    decreases items.len(),
{
    if items.len() == 0 {
        c
    } else {
        content_script_arg_step(content_script_args_applied(c, items.drop_last()), items.last())
    }
}

/// The content script an attribute declares: none when its arguments do
/// not parse or name no match pattern; its function name is left empty.
pub open spec fn content_script_of_attr(a: AttrView) -> Option<ContentScriptView> {
    match attr_args(a) {
        Some(items) => {
            let c = content_script_args_applied(empty_content_script(), items);
            if c.matches.len() == 0 {
                None
            } else {
                Some(c)
            }
        },
        None => None,
    }
}

/// The boolean an argument item `all_frames = <bool>` gives, if it is one.
pub open spec fn all_frames_item(it: MetaItemView) -> Option<bool> {
    match it {
        MetaItemView::NameValue(Some(k), ArgValueView::Bool(b)) => if k == "all_frames"@ {
            Some(b)
        } else {
            None
        },
        _ => None,
    }
}

/// The identifier an argument item `run_at = <ident>` gives, if it is one.
pub open spec fn run_at_item(it: MetaItemView) -> Option<Seq<char>> {
    match it {
        MetaItemView::NameValue(Some(k), ArgValueView::Path(Some(id))) => if k == "run_at"@ {
            Some(id)
        } else {
            None
        },
        _ => None,
    }
}

/// The manifest's `run_at` for the identifier of a `RunAt` variant.
pub open spec fn run_at_written(id: Seq<char>) -> Option<Seq<char>> {
    if id == "DocumentStart"@ {
        Some("document_start"@)
    } else if id == "DocumentEnd"@ {
        Some("document_end"@)
    } else if id == "DocumentIdle"@ {
        Some("document_idle"@)
    } else {
        None
    }
}

/// Reading items keeps `all_frames` and `run_at` as the last item that
/// writes each gives them, or as they were where none does.
proof fn lemma_content_script_args_last(c: ContentScriptView, items: Seq<MetaItemView>)
    ensures
        match content_script_args_applied(c, items).all_frames {
            Some(b) => (exists|x: int| 0 <= x < items.len() && #[trigger] all_frames_item(items[x]) == Some(b)
                && forall|y: int| x < y < items.len() ==> #[trigger] all_frames_item(items[y]) is None)
                || (c.all_frames == Some(b) && forall|y: int| 0 <= y < items.len() ==> #[trigger] all_frames_item(items[y]) is None),
            None => c.all_frames is None && forall|y: int| 0 <= y < items.len() ==> #[trigger] all_frames_item(items[y]) is None,
        },
        (exists|x: int| 0 <= x < items.len() && #[trigger] run_at_item(items[x]) is Some
            && content_script_args_applied(c, items).run_at == run_at_written(run_at_item(items[x])->Some_0)
            && forall|y: int| x < y < items.len() ==> #[trigger] run_at_item(items[y]) is None)
            || (content_script_args_applied(c, items).run_at == c.run_at && forall|y: int| 0 <= y < items.len()
            ==> #[trigger] run_at_item(items[y]) is None),
    decreases items.len(),
{
    reveal_strlit("all_frames");
    reveal_strlit("run_at");
    reveal_strlit("matches");
    reveal_strlit("css");
    reveal_strlit("DocumentStart");
    reveal_strlit("DocumentEnd");
    reveal_strlit("DocumentIdle");
    assert("all_frames"@.len() == 10 && "run_at"@.len() == 6 && "matches"@.len() == 7 && "css"@.len() == 3);
    assert("DocumentStart"@.len() == 13 && "DocumentEnd"@.len() == 11 && "DocumentIdle"@.len() == 12);
    if items.len() > 0 {
        let pre = items.drop_last();
        let last = items.last();
        lemma_content_script_args_last(c, pre);
        let m = content_script_args_applied(c, pre);
        let r = content_script_args_applied(c, items);
        assert(r == content_script_arg_step(m, last));
        assert forall|y: int| 0 <= y < pre.len() implies items[y] == pre[y] by {}
        let n = items.len() - 1;
        assert(items[n] == last);
        if all_frames_item(last) is Some {
            assert(r.all_frames == all_frames_item(last));
        } else {
            assert(r.all_frames == m.all_frames);
            match r.all_frames {
                Some(b) => {
                    if exists|x: int| 0 <= x < pre.len() && #[trigger] all_frames_item(pre[x]) == Some(b)
                        && forall|y: int| x < y < pre.len() ==> #[trigger] all_frames_item(pre[y]) is None {
                        let x = choose|x: int| 0 <= x < pre.len() && #[trigger] all_frames_item(pre[x]) == Some(b)
                            && forall|y: int| x < y < pre.len() ==> #[trigger] all_frames_item(pre[y]) is None;
                        assert(all_frames_item(items[x]) == Some(b));
                        assert forall|y: int| x < y < items.len() implies #[trigger] all_frames_item(items[y]) is None by {
                            if y < n {
                                assert(all_frames_item(pre[y]) is None);
                            }
                        }
                    } else {
                        assert forall|y: int| 0 <= y < items.len() implies #[trigger] all_frames_item(items[y]) is None by {
                            if y < n {
                                assert(all_frames_item(pre[y]) is None);
                            }
                        }
                    }
                },
                None => {
                    assert forall|y: int| 0 <= y < items.len() implies #[trigger] all_frames_item(items[y]) is None by {
                        if y < n {
                            assert(all_frames_item(pre[y]) is None);
                        }
                    }
                },
            }
        }
        if run_at_item(last) is Some {
            assert(r.run_at == run_at_written(run_at_item(last)->Some_0));
            assert(run_at_item(items[n]) is Some);
        } else {
            assert(r.run_at == m.run_at);
            if exists|x: int| 0 <= x < pre.len() && #[trigger] run_at_item(pre[x]) is Some
                && m.run_at == run_at_written(run_at_item(pre[x])->Some_0)
                && forall|y: int| x < y < pre.len() ==> #[trigger] run_at_item(pre[y]) is None {
                let x = choose|x: int| 0 <= x < pre.len() && #[trigger] run_at_item(pre[x]) is Some
                    && m.run_at == run_at_written(run_at_item(pre[x])->Some_0)
                    && forall|y: int| x < y < pre.len() ==> #[trigger] run_at_item(pre[y]) is None;
                assert(run_at_item(items[x]) is Some);
                assert forall|y: int| x < y < items.len() implies #[trigger] run_at_item(items[y]) is None by {
                    if y < n {
                        assert(run_at_item(pre[y]) is None);
                    }
                }
            } else {
                assert forall|y: int| 0 <= y < items.len() implies #[trigger] run_at_item(items[y]) is None by {
                    if y < n {
                        assert(run_at_item(pre[y]) is None);
                    }
                }
            }
        }
    }
}

/// Law: a content script read from an attribute has `all_frames` set to the
/// boolean written after the last `all_frames =` of its arguments, unset
/// where none is written; and `run_at` set by the identifier after the last
/// `run_at =` (`DocumentStart`, `DocumentEnd`, `DocumentIdle` to
/// `document_start`, `document_end`, `document_idle`, any other to none),
/// unset where none is written.
pub proof fn lemma_content_script_of_attr_written(a: AttrView)
    requires
        content_script_of_attr(a) is Some,
    ensures
        attr_args(a) is Some,
        match content_script_of_attr(a)->Some_0.all_frames {
            Some(b) => exists|x: int| 0 <= x < attr_args(a)->Some_0.len() && #[trigger] all_frames_item(
                attr_args(a)->Some_0[x],
            ) == Some(b) && forall|y: int| x < y < attr_args(a)->Some_0.len() ==> #[trigger] all_frames_item(
                attr_args(a)->Some_0[y],
            ) is None,
            None => forall|y: int| 0 <= y < attr_args(a)->Some_0.len() ==> #[trigger] all_frames_item(
                attr_args(a)->Some_0[y],
            ) is None,
        },
        (exists|x: int| 0 <= x < attr_args(a)->Some_0.len() && #[trigger] run_at_item(attr_args(a)->Some_0[x]) is Some
            && content_script_of_attr(a)->Some_0.run_at == run_at_written(run_at_item(attr_args(a)->Some_0[x])->Some_0)
            && forall|y: int| x < y < attr_args(a)->Some_0.len() ==> #[trigger] run_at_item(attr_args(a)->Some_0[y]) is None)
            || (content_script_of_attr(a)->Some_0.run_at is None && forall|y: int| 0 <= y < attr_args(a)->Some_0.len()
            ==> #[trigger] run_at_item(attr_args(a)->Some_0[y]) is None),
{
    lemma_content_script_args_last(empty_content_script(), attr_args(a)->Some_0);
}

/// The string an argument item `k = "..."` gives, if it is one.
pub open spec fn str_item(it: MetaItemView, k: Seq<char>) -> Option<Seq<char>> {
    match it {
        MetaItemView::NameValue(Some(key), ArgValueView::Str(v)) => if key == k {
            Some(v)
        } else {
            None
        },
        _ => None,
    }
}

/// The elements an argument item `k = [..]` gives, if it is one.
pub open spec fn list_item(it: MetaItemView, k: Seq<char>) -> Option<Seq<Option<Seq<char>>>> {
    match it {
        MetaItemView::NameValue(Some(key), ArgValueView::Array(elems)) => if key == k {
            Some(elems)
        } else {
            None
        },
        _ => None,
    }
}

/// The string elements of an array, in order.
pub open spec fn string_elements(elems: Seq<Option<Seq<char>>>) -> Seq<Seq<char>> {
    elems.filter_map(|o: Option<Seq<char>>| o)
}

proof fn lemma_strings_in(elems: Seq<Option<Seq<char>>>)
    ensures
        strings_in(elems) == string_elements(elems),
    decreases elems.len(),
{
    if elems.len() > 0 {
        lemma_strings_in(elems.drop_last());
        match elems.last() {
            Some(v) => {},
            None => {
                assert(strings_in(elems.drop_last()) + Seq::<Seq<char>>::empty() =~= strings_in(elems.drop_last()));
            },
        }
    }
}

/// The string field of metadata that key `k` sets.
pub open spec fn metadata_str_field(m: MetadataView, k: Seq<char>) -> Option<Seq<char>> {
    if k == "name"@ {
        m.name
    } else if k == "version"@ {
        m.version
    } else if k == "description"@ {
        m.description
    } else {
        m.extra_manifest
    }
}

/// Reading `#[extension(..)]` items: a string field ends as the last item
/// `k = "..."` writes it, or as it was where none does; the permissions grow
/// by nothing where no `permissions = [..]` item stands, and by exactly the
/// string elements of the single one that stands.
proof fn lemma_extension_args_last(m: MetadataView, items: Seq<MetaItemView>, k: Seq<char>)
    requires
        k == "name"@ || k == "version"@ || k == "description"@ || k == "extra_manifest"@,
    ensures
        (exists|x: int| 0 <= x < items.len() && #[trigger] str_item(items[x], k) is Some
            && metadata_str_field(extension_args_applied(m, items), k) == str_item(items[x], k)
            && forall|y: int| x < y < items.len() ==> #[trigger] str_item(items[y], k) is None)
            || (metadata_str_field(extension_args_applied(m, items), k) == metadata_str_field(m, k)
            && forall|y: int| 0 <= y < items.len() ==> #[trigger] str_item(items[y], k) is None),
        (forall|y: int| 0 <= y < items.len() ==> #[trigger] list_item(items[y], "permissions"@) is None)
            ==> extension_args_applied(m, items).permissions == m.permissions,
        forall|x: int| 0 <= x < items.len() && #[trigger] list_item(items[x], "permissions"@) is Some
            && (forall|y: int| 0 <= y < items.len() && y != x ==> #[trigger] list_item(items[y], "permissions"@) is None)
            ==> extension_args_applied(m, items).permissions == m.permissions + string_elements(
                list_item(items[x], "permissions"@)->Some_0,
            ),
    decreases items.len(),
{
    reveal_strlit("name");
    reveal_strlit("version");
    reveal_strlit("description");
    reveal_strlit("extra_manifest");
    reveal_strlit("permissions");
    assert("name"@.len() == 4 && "version"@.len() == 7 && "description"@.len() == 11 && "extra_manifest"@.len()
        == 14 && "permissions"@.len() == 11 && "description"@[0] == 'd' && "permissions"@[0] == 'p');
    if items.len() > 0 {
        let pre = items.drop_last();
        let last = items.last();
        let n = items.len() - 1;
        lemma_extension_args_last(m, pre, k);
        let mm = extension_args_applied(m, pre);
        let r = extension_args_applied(m, items);
        assert(r == extension_arg_step(mm, last));
        assert forall|y: int| 0 <= y < pre.len() implies items[y] == pre[y] by {}
        assert(items[n] == last);
        // string field
        if str_item(last, k) is Some {
            assert(metadata_str_field(r, k) == str_item(last, k));
            assert(str_item(items[n], k) is Some);
        } else {
            assert(metadata_str_field(r, k) == metadata_str_field(mm, k));
            if exists|x: int| 0 <= x < pre.len() && #[trigger] str_item(pre[x], k) is Some
                && metadata_str_field(mm, k) == str_item(pre[x], k)
                && forall|y: int| x < y < pre.len() ==> #[trigger] str_item(pre[y], k) is None {
                let x = choose|x: int| 0 <= x < pre.len() && #[trigger] str_item(pre[x], k) is Some
                    && metadata_str_field(mm, k) == str_item(pre[x], k)
                    && forall|y: int| x < y < pre.len() ==> #[trigger] str_item(pre[y], k) is None;
                assert(str_item(items[x], k) is Some);
                assert forall|y: int| x < y < items.len() implies #[trigger] str_item(items[y], k) is None by {
                    if y < n {
                        assert(str_item(pre[y], k) is None);
                    }
                }
            } else {
                assert forall|y: int| 0 <= y < items.len() implies #[trigger] str_item(items[y], k) is None by {
                    if y < n {
                        assert(str_item(pre[y], k) is None);
                    }
                }
            }
        }
        // permissions
        let pk = "permissions"@;
        if list_item(last, pk) is Some {
            lemma_strings_in(list_item(last, pk)->Some_0);
            assert(r.permissions == mm.permissions + string_elements(list_item(last, pk)->Some_0));
        } else {
            assert(r.permissions == mm.permissions);
        }
        if forall|y: int| 0 <= y < items.len() ==> #[trigger] list_item(items[y], pk) is None {
            assert(list_item(items[n], pk) is None);
            assert forall|y: int| 0 <= y < pre.len() implies #[trigger] list_item(pre[y], pk) is None by {
                assert(list_item(items[y], pk) is None);
            }
        }
        assert forall|x: int| 0 <= x < items.len() && #[trigger] list_item(items[x], pk) is Some
            && (forall|y: int| 0 <= y < items.len() && y != x ==> #[trigger] list_item(items[y], pk) is None)
            implies r.permissions == m.permissions + string_elements(list_item(items[x], pk)->Some_0) by {
            if x == n {
                assert forall|y: int| 0 <= y < pre.len() implies #[trigger] list_item(pre[y], pk) is None by {
                    assert(list_item(items[y], pk) is None);
                }
            } else {
                assert(list_item(items[n], pk) is None);
                assert(list_item(pre[x], pk) is Some);
                assert forall|y: int| 0 <= y < pre.len() && y != x implies #[trigger] list_item(pre[y], pk) is None by {
                    assert(list_item(items[y], pk) is None);
                }
            }
        }
    }
}

/// Law: the extension's name, version, description and extra JSON read
/// from a struct's `#[oxichrome::extension(..)]` attributes are the strings
/// written after the last `key = "..."` argument of the last such
/// attribute that has one; a field no argument writes stays unset.
pub proof fn lemma_struct_attr_strings(m: MetadataView, a: AttrView, k: Seq<char>)
    requires
        k == "name"@ || k == "version"@ || k == "description"@ || k == "extra_manifest"@,
        is_oxichrome_path(a.path, "extension"@),
    ensures
        ({
            let r = struct_attrs_applied(m, seq![a]);
            match attr_args(a) {
                Some(items) => (exists|x: int| 0 <= x < items.len() && #[trigger] str_item(items[x], k) is Some
                    && metadata_str_field(r, k) == str_item(items[x], k)
                    && forall|y: int| x < y < items.len() ==> #[trigger] str_item(items[y], k) is None)
                    || (metadata_str_field(r, k) == metadata_str_field(m, k)
                    && forall|y: int| 0 <= y < items.len() ==> #[trigger] str_item(items[y], k) is None),
                None => r == m,
            }
        }),
{
    assert(seq![a].drop_last() =~= Seq::<AttrView>::empty());
    assert(struct_attrs_applied(m, Seq::<AttrView>::empty()) == m);
    assert(seq![a].last() == a);
    assert(struct_attrs_applied(m, seq![a]) == extension_attr_applied(m, a));
    match attr_args(a) {
        Some(items) => lemma_extension_args_last(m, items, k),
        None => {},
    }
}

/// Law: the permissions read from one `#[oxichrome::extension(..)]`
/// attribute with a single `permissions = [..]` argument are those read
/// before followed by exactly the string elements of that array, in order;
/// without such an argument they stay as they were.
pub proof fn lemma_struct_attr_permissions(m: MetadataView, a: AttrView)
    requires
        is_oxichrome_path(a.path, "extension"@),
        attr_args(a) is Some,
    ensures
        ({
            let items = attr_args(a)->Some_0;
            let r = struct_attrs_applied(m, seq![a]);
            &&& (forall|y: int| 0 <= y < items.len() ==> #[trigger] list_item(items[y], "permissions"@) is None)
                ==> r.permissions == m.permissions
            &&& forall|x: int| 0 <= x < items.len() && #[trigger] list_item(items[x], "permissions"@) is Some
                && (forall|y: int| 0 <= y < items.len() && y != x ==> #[trigger] list_item(items[y], "permissions"@) is None)
                ==> r.permissions == m.permissions + string_elements(list_item(items[x], "permissions"@)->Some_0)
        }),
{
    assert(seq![a].drop_last() =~= Seq::<AttrView>::empty());
    assert(struct_attrs_applied(m, Seq::<AttrView>::empty()) == m);
    assert(seq![a].last() == a);
    assert(struct_attrs_applied(m, seq![a]) == extension_attr_applied(m, a));
    lemma_extension_args_last(m, attr_args(a)->Some_0, "name"@);
}

/// The list field of a content script that key `k` adds to.
pub open spec fn content_script_view_list(c: ContentScriptView, k: Seq<char>) -> Seq<Seq<char>> {
    if k == "matches"@ {
        c.matches
    } else {
        c.css
    }
}

/// Reading `#[content_script(..)]` items: a list field grows by nothing
/// where no `k = [..]` item stands, and by exactly the string elements of
/// the single one that stands.
proof fn lemma_content_script_args_lists(c: ContentScriptView, items: Seq<MetaItemView>, k: Seq<char>)
    requires
        k == "matches"@ || k == "css"@,
    ensures
        (forall|y: int| 0 <= y < items.len() ==> #[trigger] list_item(items[y], k) is None)
            ==> content_script_view_list(content_script_args_applied(c, items), k) == content_script_view_list(c, k),
        forall|x: int| 0 <= x < items.len() && #[trigger] list_item(items[x], k) is Some
            && (forall|y: int| 0 <= y < items.len() && y != x ==> #[trigger] list_item(items[y], k) is None)
            ==> content_script_view_list(content_script_args_applied(c, items), k) == content_script_view_list(c, k)
                + string_elements(list_item(items[x], k)->Some_0),
    decreases items.len(),
{
    reveal_strlit("all_frames");
    reveal_strlit("run_at");
    reveal_strlit("matches");
    reveal_strlit("css");
    assert("all_frames"@.len() == 10 && "run_at"@.len() == 6 && "matches"@.len() == 7 && "css"@.len() == 3);
    if items.len() > 0 {
        let pre = items.drop_last();
        let last = items.last();
        let n = items.len() - 1;
        lemma_content_script_args_lists(c, pre, k);
        let mm = content_script_args_applied(c, pre);
        let r = content_script_args_applied(c, items);
        assert(r == content_script_arg_step(mm, last));
        assert forall|y: int| 0 <= y < pre.len() implies items[y] == pre[y] by {}
        assert(items[n] == last);
        if list_item(last, k) is Some {
            lemma_strings_in(list_item(last, k)->Some_0);
            assert(content_script_view_list(r, k) == content_script_view_list(mm, k) + string_elements(list_item(last, k)->Some_0));
        } else {
            assert(content_script_view_list(r, k) == content_script_view_list(mm, k));
        }
        if forall|y: int| 0 <= y < items.len() ==> #[trigger] list_item(items[y], k) is None {
            assert(list_item(items[n], k) is None);
            assert forall|y: int| 0 <= y < pre.len() implies #[trigger] list_item(pre[y], k) is None by {
                assert(list_item(items[y], k) is None);
            }
        }
        assert forall|x: int| 0 <= x < items.len() && #[trigger] list_item(items[x], k) is Some
            && (forall|y: int| 0 <= y < items.len() && y != x ==> #[trigger] list_item(items[y], k) is None)
            implies content_script_view_list(r, k) == content_script_view_list(c, k) + string_elements(list_item(items[x], k)->Some_0) by {
            if x == n {
                assert forall|y: int| 0 <= y < pre.len() implies #[trigger] list_item(pre[y], k) is None by {
                    assert(list_item(items[y], k) is None);
                }
            } else {
                assert(list_item(items[n], k) is None);
                assert(list_item(pre[x], k) is Some);
                assert forall|y: int| 0 <= y < pre.len() && y != x implies #[trigger] list_item(pre[y], k) is None by {
                    assert(list_item(items[y], k) is None);
                }
            }
        }
    }
}

/// Law: a content script read from an attribute whose arguments hold a
/// single `matches = [..]` (or `css = [..]`) has as its match patterns (or
/// stylesheets) exactly the string elements of that array, in order; with
/// no `css = [..]` it has no stylesheets.
pub proof fn lemma_content_script_of_attr_lists(a: AttrView, k: Seq<char>)
    requires
        content_script_of_attr(a) is Some,
        k == "matches"@ || k == "css"@,
    ensures
        attr_args(a) is Some,
        ({
            let items = attr_args(a)->Some_0;
            let c = content_script_of_attr(a)->Some_0;
            &&& (forall|y: int| 0 <= y < items.len() ==> #[trigger] list_item(items[y], k) is None)
                ==> content_script_view_list(c, k).len() == 0
            &&& forall|x: int| 0 <= x < items.len() && #[trigger] list_item(items[x], k) is Some
                && (forall|y: int| 0 <= y < items.len() && y != x ==> #[trigger] list_item(items[y], k) is None)
                ==> content_script_view_list(c, k) == string_elements(list_item(items[x], k)->Some_0)
        }),
{
    let items = attr_args(a)->Some_0;
    lemma_content_script_args_lists(empty_content_script(), items, k);
    assert forall|x: int| 0 <= x < items.len() && #[trigger] list_item(items[x], k) is Some
        && (forall|y: int| 0 <= y < items.len() && y != x ==> #[trigger] list_item(items[y], k) is None)
        implies content_script_view_list(content_script_of_attr(a)->Some_0, k) == string_elements(list_item(items[x], k)->Some_0) by {
        assert(content_script_view_list(empty_content_script(), k) + string_elements(list_item(items[x], k)->Some_0)
            =~= string_elements(list_item(items[x], k)->Some_0));
    }
}

/// One attribute of a function named `fn_name`.
pub open spec fn fn_attr_step(m: MetadataView, fn_name: Seq<char>, a: AttrView) -> MetadataView {
    let m1 = if is_oxichrome_path(a.path, "background"@) {
        MetadataView { background_functions: m.background_functions.push(fn_name), ..m }
    } else {
        m
    };
    let m2 = if is_oxichrome_path(a.path, "on"@) && event_of_attr(a) is Some {
        MetadataView {
            event_handlers: m1.event_handlers.push(
                EventHandlerView {
                    fn_name: fn_name,
                    namespace: event_of_attr(a)->Some_0.0,
                    event_name: event_of_attr(a)->Some_0.1,
                },
            ),
            ..m1
        }
    } else {
        m1
    };
    let m3 = if is_oxichrome_path(a.path, "popup"@) {
        MetadataView { has_popup: true, ..m2 }
    } else {
        m2
    };
    let m4 = if is_oxichrome_path(a.path, "options_page"@) {
        MetadataView { has_options_page: true, ..m3 }
    } else {
        m3
    };
    if is_oxichrome_path(a.path, "content_script"@) && content_script_of_attr(a) is Some {
        MetadataView {
            content_scripts: m4.content_scripts.push(
                ContentScriptView { fn_name: fn_name, ..content_script_of_attr(a)->Some_0 },
            ),
            ..m4
        }
    } else {
        m4
    }
}

/// The attributes of a function, in order.
pub open spec fn fn_attrs_applied(m: MetadataView, fn_name: Seq<char>, attrs: Seq<AttrView>) -> MetadataView
    decreases attrs.len(),
{
    if attrs.len() == 0 {
        m
    } else {
        fn_attr_step(fn_attrs_applied(m, fn_name, attrs.drop_last()), fn_name, attrs.last())
    }
}

/// The attributes of a struct, in order: each `#[oxichrome::extension(..)]`
/// is read into the metadata.
pub open spec fn struct_attrs_applied(m: MetadataView, attrs: Seq<AttrView>) -> MetadataView
    decreases attrs.len(),
{
    if attrs.len() == 0 {
        m
    } else {
        let m1 = struct_attrs_applied(m, attrs.drop_last());
        let a = attrs.last();
        if is_oxichrome_path(a.path, "extension"@) {
            extension_attr_applied(m1, a)
        } else {
            m1
        }
    }
}

/// Law: the attributes of a function leave what the extension declares of
/// itself (name, version, description, permissions, extra JSON) as it was,
/// and only add to the lists of functions, keeping what they held first.
pub proof fn lemma_fn_attrs_only_add_functions(m: MetadataView, fn_name: Seq<char>, attrs: Seq<AttrView>)
    ensures
        fn_attrs_applied(m, fn_name, attrs).name == m.name,
        fn_attrs_applied(m, fn_name, attrs).version == m.version,
        fn_attrs_applied(m, fn_name, attrs).description == m.description,
        fn_attrs_applied(m, fn_name, attrs).permissions == m.permissions,
        fn_attrs_applied(m, fn_name, attrs).extra_manifest == m.extra_manifest,
        m.background_functions.is_prefix_of(fn_attrs_applied(m, fn_name, attrs).background_functions),
        m.event_handlers.is_prefix_of(fn_attrs_applied(m, fn_name, attrs).event_handlers),
        m.content_scripts.is_prefix_of(fn_attrs_applied(m, fn_name, attrs).content_scripts),
    decreases attrs.len(),
{
    if attrs.len() > 0 {
        lemma_fn_attrs_only_add_functions(m, fn_name, attrs.drop_last());
    }
}

/// Law: the attributes of a struct change only what the extension declares
/// of itself; the functions read so far stay as they were.
pub proof fn lemma_struct_attrs_keep_functions(m: MetadataView, attrs: Seq<AttrView>)
    ensures
        struct_attrs_applied(m, attrs).background_functions == m.background_functions,
        struct_attrs_applied(m, attrs).event_handlers == m.event_handlers,
        struct_attrs_applied(m, attrs).has_popup == m.has_popup,
        struct_attrs_applied(m, attrs).has_options_page == m.has_options_page,
        struct_attrs_applied(m, attrs).content_scripts == m.content_scripts,
    decreases attrs.len(),
{
    if attrs.len() > 0 {
        let m1 = struct_attrs_applied(m, attrs.drop_last());
        lemma_struct_attrs_keep_functions(m, attrs.drop_last());
        if attr_args(attrs.last()) is Some {
            lemma_extension_args_keep_functions(m1, attr_args(attrs.last())->Some_0);
        }
    }
}

proof fn lemma_extension_args_keep_functions(m: MetadataView, items: Seq<MetaItemView>)
    ensures
        extension_args_applied(m, items).background_functions == m.background_functions,
        extension_args_applied(m, items).event_handlers == m.event_handlers,
        extension_args_applied(m, items).has_popup == m.has_popup,
        extension_args_applied(m, items).has_options_page == m.has_options_page,
        extension_args_applied(m, items).content_scripts == m.content_scripts,
    decreases items.len(),
{
    if items.len() > 0 {
        lemma_extension_args_keep_functions(m, items.drop_last());
    }
}

// ---------------------------------------------------------------------------
// Reading attributes into metadata.

fn key_is(key: &Option<String>, name: &str) -> (r: bool)
    ensures
        r == (opt_text_of(*key) == Some(name@)),
{
    match key {
        Some(k) => str_eq(k.as_str(), name),
        None => false,
    }
}

/// Appends the string literals of an array.
fn add_strings(v: &mut Vec<String>, elems: &Vec<Option<String>>)
    ensures
        texts_of(final(v)@) == texts_of(old(v)@) + strings_in(elems@.map_values(|o: Option<String>| opt_text_of(o))),
{
    let ghost v0 = texts_of(v@);
    let ghost ev = elems@.map_values(|o: Option<String>| opt_text_of(o));
    let mut i: usize = 0;
    assert(ev.subrange(0, 0) =~= Seq::<Option<Seq<char>>>::empty());
    assert(texts_of(v@) =~= v0 + strings_in(ev.subrange(0, 0)));
    while i < elems.len()
        invariant
            i <= elems@.len(),
            ev == elems@.map_values(|o: Option<String>| opt_text_of(o)),
            texts_of(v@) == v0 + strings_in(ev.subrange(0, i as int)),
        decreases elems.len() - i,
    {
        let ghost before = texts_of(v@);
        assert(ev.subrange(0, i + 1).drop_last() =~= ev.subrange(0, i as int));
        match &elems[i] {
            Some(s) => {
                v.push(s.clone());
                assert(texts_of(v@) =~= before + seq![s@]);
            },
            None => {
                assert(before + Seq::<Seq<char>>::empty() =~= before);
            },
        }
        i = i + 1;
    }
    assert(ev.subrange(0, elems@.len() as int) =~= ev);
}

/// The content script that an attribute declares, with an empty function name.
fn content_script_of(attr: &AttrInfo) -> (r: Option<ContentScript>)
    ensures
        match r {
            Some(c) => content_script_of_attr(attr@) == Some(c@),
            None => content_script_of_attr(attr@) is None,
        },
{
    let items = match &attr.list_tokens {
        Some(ts) => match parse_meta_items(ts) {
            Some(items) => items,
            None => return None,
        },
        None => return None,
    };
    let ghost iv = items@.map_values(|m: MetaItem| m@);
    let mut matches: Vec<String> = Vec::new();
    let mut run_at: Option<String> = None;
    let mut all_frames: Option<bool> = None;
    let mut css: Vec<String> = Vec::new();
    assert(texts_of(matches@) =~= Seq::empty());
    assert(texts_of(css@) =~= Seq::empty());
    assert(iv.subrange(0, 0) =~= Seq::<MetaItemView>::empty());
    let mut i: usize = 0;
    while i < items.len()
        invariant
            i <= items@.len(),
            iv == items@.map_values(|m: MetaItem| m@),
            content_script_args_applied(empty_content_script(), iv.subrange(0, i as int)) == (ContentScriptView {
                fn_name: Seq::empty(),
                matches: texts_of(matches@),
                run_at: opt_text_of(run_at),
                all_frames: all_frames,
                css: texts_of(css@),
            }),
        decreases items.len() - i,
    {
        assert(iv.subrange(0, i + 1).drop_last() =~= iv.subrange(0, i as int));
        match &items[i] {
            MetaItem::NameValue(key, value) => {
                if key_is(key, "matches") {
                    match value {
                        ArgValue::Array(elems) => add_strings(&mut matches, elems),
                        _ => {},
                    }
                } else if key_is(key, "run_at") {
                    match value {
                        ArgValue::Path(Some(ident)) => {
                            run_at = match RunAt::from_ident(ident.as_str()) {
                                Some(r) => Some(r.manifest_text()),
                                None => None,
                            };
                        },
                        _ => {},
                    }
                } else if key_is(key, "all_frames") {
                    match value {
                        ArgValue::Bool(b) => all_frames = Some(*b),
                        _ => {},
                    }
                } else if key_is(key, "css") {
                    match value {
                        ArgValue::Array(elems) => add_strings(&mut css, elems),
                        _ => {},
                    }
                }
            },
            MetaItem::Other => {},
        }
        i = i + 1;
    }
    assert(iv.subrange(0, items@.len() as int) =~= iv);
    if matches.len() == 0 {
        return None;
    }
    Some(ContentScript { fn_name: String::new(), matches, run_at, all_frames, css })
}

/// Collects extension metadata while `syn` walks a source file.
pub struct MetadataVisitor {
    pub metadata: ExtensionMetadata,
}

impl MetadataVisitor {
    /// A visitor that has read nothing yet.
    pub fn new() -> (r: Self)
        ensures
            empty_metadata(r.metadata),
    {
        MetadataVisitor { metadata: ExtensionMetadata::default() }
    }

    /// Whether an attribute is `#[oxichrome::name]`.
    pub fn is_oxichrome_attr(attr: &AttrInfo, name: &str) -> (r: bool)
        ensures
            r == is_oxichrome_path(attr@.path, name@),
    {
        attr.path.len() == 2 && str_eq(attr.path[0].as_str(), "oxichrome") && str_eq(attr.path[1].as_str(), name)
    }

    /// Reads the arguments of `#[oxichrome::extension(..)]` into the metadata.
    pub fn parse_extension_args(&mut self, attr: &AttrInfo)
        ensures
            final(self).metadata@ == extension_attr_applied(old(self).metadata@, attr@),
    {
        let items = match &attr.list_tokens {
            Some(ts) => match parse_meta_items(ts) {
                Some(items) => items,
                None => return,
            },
            None => return,
        };
        let ghost m0 = self.metadata@;
        let ghost iv = items@.map_values(|m: MetaItem| m@);
        assert(iv.subrange(0, 0) =~= Seq::<MetaItemView>::empty());
        let mut i: usize = 0;
        while i < items.len()
            invariant
                i <= items@.len(),
                iv == items@.map_values(|m: MetaItem| m@),
                self.metadata@ == extension_args_applied(m0, iv.subrange(0, i as int)),
            decreases items.len() - i,
        {
            assert(iv.subrange(0, i + 1).drop_last() =~= iv.subrange(0, i as int));
            match &items[i] {
                MetaItem::NameValue(key, value) => {
                    match value {
                        ArgValue::Str(s) => {
                            if key_is(key, "name") {
                                self.metadata.name = Some(s.clone());
                            } else if key_is(key, "version") {
                                self.metadata.version = Some(s.clone());
                            } else if key_is(key, "description") {
                                self.metadata.description = Some(s.clone());
                            } else if key_is(key, "extra_manifest") {
                                self.metadata.extra_manifest = Some(s.clone());
                            }
                        },
                        _ => {},
                    }
                    match value {
                        ArgValue::Array(elems) => {
                            if key_is(key, "permissions") {
                                add_strings(&mut self.metadata.permissions, elems);
                            }
                        },
                        _ => {},
                    }
                },
                MetaItem::Other => {},
            }
            i = i + 1;
        }
        assert(iv.subrange(0, items@.len() as int) =~= iv);
    }

    /// The content script that `#[oxichrome::content_script(..)]` declares,
    /// with an empty function name; none when it names no match pattern.
    pub fn parse_content_script_args(&self, attr: &AttrInfo) -> (r: Option<ContentScript>)
        ensures
            match r {
                Some(c) => content_script_of_attr(attr@) == Some(c@),
                None => content_script_of_attr(attr@) is None,
            },
    {
        content_script_of(attr)
    }

    /// The event that `#[oxichrome::on(namespace::event)]` names.
    pub fn parse_event_args(&self, attr: &AttrInfo) -> (r: Option<(String, String)>)
        ensures
            match r {
                Some(e) => event_of_attr(attr@) == Some((e.0@, e.1@)),
                None => event_of_attr(attr@) is None,
            },
    {
        match &attr.list_tokens {
            Some(ts) => match EventArgs::parse(stream_clone(ts)) {
                Ok(ev) => Some((ev.namespace, ev.event_name)),
                Err(_) => None,
            },
            None => None,
        }
    }

    /// Reads the attributes of a struct.
    pub fn visit_item_struct(&mut self, attrs: &Vec<AttrInfo>)
        ensures
            final(self).metadata@ == struct_attrs_applied(old(self).metadata@, attr_views(attrs@)),
    {
        let ghost m0 = self.metadata@;
        let ghost av = attr_views(attrs@);
        assert(av.subrange(0, 0) =~= Seq::<AttrView>::empty());
        let mut i: usize = 0;
        while i < attrs.len()
            invariant
                i <= attrs@.len(),
                av == attr_views(attrs@),
                self.metadata@ == struct_attrs_applied(m0, av.subrange(0, i as int)),
            decreases attrs.len() - i,
        {
            assert(av.subrange(0, i + 1).drop_last() =~= av.subrange(0, i as int));
            if Self::is_oxichrome_attr(&attrs[i], "extension") {
                self.parse_extension_args(&attrs[i]);
            }
            i = i + 1;
        }
        assert(av.subrange(0, attrs@.len() as int) =~= av);
    }

    /// Reads the attributes of a function named `fn_name`.
    pub fn visit_item_fn(&mut self, fn_name: &str, attrs: &Vec<AttrInfo>)
        ensures
            final(self).metadata@ == fn_attrs_applied(old(self).metadata@, fn_name@, attr_views(attrs@)),
    {
        let ghost m0 = self.metadata@;
        let ghost av = attr_views(attrs@);
        assert(av.subrange(0, 0) =~= Seq::<AttrView>::empty());
        let mut i: usize = 0;
        while i < attrs.len()
            invariant
                i <= attrs@.len(),
                av == attr_views(attrs@),
                self.metadata@ == fn_attrs_applied(m0, fn_name@, av.subrange(0, i as int)),
            decreases attrs.len() - i,
        {
            assert(av.subrange(0, i + 1).drop_last() =~= av.subrange(0, i as int));
            let attr = &attrs[i];
            let ghost before = self.metadata@;
            if Self::is_oxichrome_attr(attr, "background") {
                self.metadata.background_functions.push(String::from_str(fn_name));
                assert(texts_of(self.metadata.background_functions@) =~= before.background_functions.push(fn_name@));
            }
            let ghost after1 = self.metadata@;
            if Self::is_oxichrome_attr(attr, "on") {
                match self.parse_event_args(attr) {
                    Some((namespace, event_name)) => {
                        let h = EventHandler { fn_name: String::from_str(fn_name), namespace, event_name };
                        self.metadata.event_handlers.push(h);
                        assert(self.metadata@.event_handlers =~= after1.event_handlers.push(h@));
                    },
                    None => {},
                }
            }
            if Self::is_oxichrome_attr(attr, "popup") {
                self.metadata.has_popup = true;
            }
            if Self::is_oxichrome_attr(attr, "options_page") {
                self.metadata.has_options_page = true;
            }
            let ghost after4 = self.metadata@;
            if Self::is_oxichrome_attr(attr, "content_script") {
                match self.parse_content_script_args(attr) {
                    Some(cs) => {
                        let mut cs = cs;
                        cs.fn_name = String::from_str(fn_name);
                        let ghost cv = cs@;
                        self.metadata.content_scripts.push(cs);
                        assert(self.metadata@.content_scripts =~= after4.content_scripts.push(cv));
                    },
                    None => {},
                }
            }
            i = i + 1;
        }
        assert(av.subrange(0, attrs@.len() as int) =~= av);
    }
}

// ---------------------------------------------------------------------------
// Reading a source file.

/// An item that carries the metadata's attributes: a function, by its name,
/// or a struct.
#[derive(Debug)]
pub enum SourceItem {
    Fn(String, Vec<AttrInfo>),
    Struct(Vec<AttrInfo>),
}

/// [`SourceItem`] by its views.
pub enum SourceItemView {
    Fn(Seq<char>, Seq<AttrView>),
    Struct(Seq<AttrView>),
}

impl View for SourceItem {
    type V = SourceItemView;

    open spec fn view(&self) -> SourceItemView {
        match self {
            SourceItem::Fn(name, attrs) => SourceItemView::Fn(name@, attr_views(attrs@)),
            SourceItem::Struct(attrs) => SourceItemView::Struct(attr_views(attrs@)),
        }
    }
}

/// The functions and structs, in the order `syn::visit` meets them, of the
/// file that `syn::parse_file` reads from a text; `None` where it refuses
/// the text.
pub uninterp spec fn source_items_of(text: Seq<char>) -> Option<Seq<SourceItemView>>;

/// The message (`Display`) of the error `syn::parse_file` gives for a text
/// it refuses.
pub uninterp spec fn source_error_text(text: Seq<char>) -> Seq<char>;

/// `syn::ItemFn`.
#[verifier::external_type_specification]
#[verifier::external_body]
pub struct ExItemFn(syn::ItemFn);

/// `syn::ItemStruct`.
#[verifier::external_type_specification]
#[verifier::external_body]
pub struct ExItemStruct(syn::ItemStruct);

/// Collects the functions and structs of a file as `syn::visit` walks it.
struct ItemCollector {
    items: Vec<SourceItem>,
}

impl<'ast> syn::visit::Visit<'ast> for ItemCollector {
    /// Records a struct by its attributes (path and list tokens), then walks
    /// inside it.
    #[verifier::external_body]
    fn visit_item_struct(&mut self, node: &'ast syn::ItemStruct) {
        self.items.push(SourceItem::Struct(node.attrs.iter().map(|a| AttrInfo {
            path: a.path().segments.iter().map(|s| s.ident.to_string()).collect(),
            list_tokens: a.meta.require_list().ok().map(|l| l.tokens.clone()),
        }).collect()));
        syn::visit::visit_item_struct(self, node);
    }

    /// Records a function by its name and attributes (path and list
    /// tokens), then walks inside it.
    #[verifier::external_body]
    fn visit_item_fn(&mut self, node: &'ast syn::ItemFn) {
        self.items.push(SourceItem::Fn(node.sig.ident.to_string(), node.attrs.iter().map(|a| AttrInfo {
            path: a.path().segments.iter().map(|s| s.ident.to_string()).collect(),
            list_tokens: a.meta.require_list().ok().map(|l| l.tokens.clone()),
        }).collect()));
        syn::visit::visit_item_fn(self, node);
    }
}

/// `syn::parse_file`, and the functions and structs that `syn::visit`
/// meets in the file, in order; the error as its message.
#[verifier::external_body]
fn source_items(source: &str) -> (r: Result<Vec<SourceItem>, String>)
    ensures
        match source_items_of(source@) {
            Some(items) => r is Ok && r->Ok_0@.map_values(|i: SourceItem| i@) == items,
            None => r is Err && r->Err_0@ == source_error_text(source@),
        },
{
    match syn::parse_file(source) {
        Ok(file) => {
            let mut collector = ItemCollector { items: Vec::new() };
            syn::visit::Visit::visit_file(&mut collector, &file);
            Ok(collector.items)
        },
        Err(e) => Err(e.to_string()),
    }
}

/// Metadata with nothing declared.
pub open spec fn empty_metadata_view() -> MetadataView {
    MetadataView {
        name: None,
        version: None,
        description: None,
        permissions: Seq::empty(),
        extra_manifest: None,
        background_functions: Seq::empty(),
        event_handlers: Seq::empty(),
        has_popup: false,
        has_options_page: false,
        content_scripts: Seq::empty(),
    }
}

/// The items of a file read into metadata, in order.
pub open spec fn items_applied(m: MetadataView, items: Seq<SourceItemView>) -> MetadataView
    decreases items.len(),
{
    if items.len() == 0 {
        m
    } else {
        let m1 = items_applied(m, items.drop_last());
        match items.last() {
            SourceItemView::Fn(name, attrs) => fn_attrs_applied(m1, name, attrs),
            SourceItemView::Struct(attrs) => struct_attrs_applied(m1, attrs),
        }
    }
}

/// The metadata that the items of a file declare.
pub open spec fn metadata_of_items(items: Seq<SourceItemView>) -> MetadataView {
    items_applied(empty_metadata_view(), items)
}

/// Reads the extension metadata that a Rust source text declares; the
/// error of `syn` when the text is no Rust file.
pub fn parse_source_str(source: &str) -> (r: Result<ExtensionMetadata, String>)
    ensures
        match source_items_of(source@) {
            Some(items) => r is Ok && r->Ok_0@ == metadata_of_items(items),
            None => r is Err && r->Err_0@ == source_error_text(source@),
        },
{
    let items = match source_items(source) {
        Ok(items) => items,
        Err(e) => return Err(e),
    };
    let ghost iv = items@.map_values(|i: SourceItem| i@);
    let mut visitor = MetadataVisitor::new();
    assert(visitor.metadata@ =~= empty_metadata_view()) by {
        assert(texts_of(visitor.metadata.permissions@) =~= Seq::<Seq<char>>::empty());
        assert(texts_of(visitor.metadata.background_functions@) =~= Seq::<Seq<char>>::empty());
        assert(visitor.metadata@.event_handlers =~= Seq::<EventHandlerView>::empty());
        assert(visitor.metadata@.content_scripts =~= Seq::<ContentScriptView>::empty());
    }
    assert(iv.subrange(0, 0) =~= Seq::<SourceItemView>::empty());
    let mut i: usize = 0;
    while i < items.len()
        invariant
            i <= items@.len(),
            iv == items@.map_values(|i: SourceItem| i@),
            visitor.metadata@ == items_applied(empty_metadata_view(), iv.subrange(0, i as int)),
        decreases items.len() - i,
    {
        assert(iv.subrange(0, i + 1).drop_last() =~= iv.subrange(0, i as int));
        match &items[i] {
            SourceItem::Fn(name, attrs) => visitor.visit_item_fn(name.as_str(), attrs),
            SourceItem::Struct(attrs) => visitor.visit_item_struct(attrs),
        }
        i = i + 1;
    }
    assert(iv.subrange(0, items@.len() as int) =~= iv);
    Ok(visitor.metadata)
}

} // verus!
