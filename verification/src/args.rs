//! The grammars of the attribute arguments:
//! `#[extension(name = "..", version = "..", permissions = [..])]`,
//! `#[on(namespace::event)]` and `#[content_script(matches = [..], ..)]`.
use crate::metadata::{opt_text_of, texts_of};
use crate::text::{starts_with, starts_with_spec, str_eq, string_of};
use crate::tokens::{
    ident_parses, lemma_toks_view, lex, lex_spec, stream_trees, syn_accepts_ident, toks_view, Delim, Tok,
    TokView,
};
use vstd::prelude::*;

verus! {

/// Why attribute arguments were refused.
#[derive(Debug)]
pub enum ArgsError {
    /// Something other than an identifier where one was expected; whether
    /// the input had ended there.
    ExpectedIdent(bool),
    /// A keyword where an identifier was expected.
    KeywordNotIdent(String),
    /// A missing punctuation (`=`, `,` or `::`).
    ExpectedPunct(String),
    /// No string literal where one was expected; whether the input had ended there.
    ExpectedStr(bool),
    /// No boolean literal where one was expected; whether the input had ended there.
    ExpectedBool(bool),
    /// No `[..]` where one was expected; whether the input had ended there.
    ExpectedBrackets(bool),
    /// Tokens left over after a complete argument.
    UnexpectedToken,
    UnknownArgument(String),
    MissingArgument(String),
    /// A match pattern that has no scheme and is not `<all_urls>`.
    InvalidMatchPattern(String),
}

/// [`ArgsError`] with its texts as character sequences.
pub enum ArgsErrorView {
    ExpectedIdent(bool),
    KeywordNotIdent(Seq<char>),
    ExpectedPunct(Seq<char>),
    ExpectedStr(bool),
    ExpectedBool(bool),
    ExpectedBrackets(bool),
    UnexpectedToken,
    UnknownArgument(Seq<char>),
    MissingArgument(Seq<char>),
    InvalidMatchPattern(Seq<char>),
}

impl View for ArgsError {
    type V = ArgsErrorView;

    open spec fn view(&self) -> ArgsErrorView {
        match self {
            ArgsError::ExpectedIdent(e) => ArgsErrorView::ExpectedIdent(*e),
            ArgsError::KeywordNotIdent(s) => ArgsErrorView::KeywordNotIdent(s@),
            ArgsError::ExpectedPunct(s) => ArgsErrorView::ExpectedPunct(s@),
            ArgsError::ExpectedStr(e) => ArgsErrorView::ExpectedStr(*e),
            ArgsError::ExpectedBool(e) => ArgsErrorView::ExpectedBool(*e),
            ArgsError::ExpectedBrackets(e) => ArgsErrorView::ExpectedBrackets(*e),
            ArgsError::UnexpectedToken => ArgsErrorView::UnexpectedToken,
            ArgsError::UnknownArgument(s) => ArgsErrorView::UnknownArgument(s@),
            ArgsError::MissingArgument(s) => ArgsErrorView::MissingArgument(s@),
            ArgsError::InvalidMatchPattern(s) => ArgsErrorView::InvalidMatchPattern(s@),
        }
    }
}

/// A message, prefixed as `syn` does when the input has ended.
pub open spec fn at_end_message(at_end: bool, m: Seq<char>) -> Seq<char> {
    if at_end {
        "unexpected end of input, "@ + m
    } else {
        m
    }
}

fn with_end(at_end: bool, m: &str) -> (r: String)
    ensures
        r@ == at_end_message(at_end, m@),
{
    if at_end {
        let mut r = string_of("unexpected end of input, ");
        r.append(m);
        r
    } else {
        string_of(m)
    }
}

/// The message of an error, as a compiler diagnostic shows it.
pub open spec fn args_error_message(e: ArgsErrorView) -> Seq<char> {
    match e {
        ArgsErrorView::ExpectedIdent(e) => at_end_message(e, "expected identifier"@),
        ArgsErrorView::KeywordNotIdent(k) => "expected identifier, found keyword `"@ + k + "`"@,
        ArgsErrorView::ExpectedPunct(p) => "expected `"@ + p + "`"@,
        ArgsErrorView::ExpectedStr(e) => at_end_message(e, "expected string literal"@),
        ArgsErrorView::ExpectedBool(e) => at_end_message(e, "expected boolean literal"@),
        ArgsErrorView::ExpectedBrackets(e) => at_end_message(e, "expected square brackets"@),
        ArgsErrorView::UnexpectedToken => "unexpected token"@,
        ArgsErrorView::UnknownArgument(a) => "unknown argument `"@ + a + "`"@,
        ArgsErrorView::MissingArgument(a) => "missing required argument `"@ + a + "`"@,
        ArgsErrorView::InvalidMatchPattern(v) => "invalid match pattern `"@ + v
            + "`: must start with a scheme (e.g. `https://`, `*://`, `http://`) or be `<all_urls>`"@,
    }
}

impl ArgsError {
    /// The error's message.
    pub fn message(&self) -> (r: String)
        ensures
            r@ == args_error_message(self@),
    {
        match self {
            ArgsError::ExpectedIdent(e) => with_end(*e, "expected identifier"),
            ArgsError::KeywordNotIdent(k) => {
                let mut r = string_of("expected identifier, found keyword `");
                r.append(k.as_str());
                r.append("`");
                r
            },
            ArgsError::ExpectedPunct(p) => {
                let mut r = string_of("expected `");
                r.append(p.as_str());
                r.append("`");
                r
            },
            ArgsError::ExpectedStr(e) => with_end(*e, "expected string literal"),
            ArgsError::ExpectedBool(e) => with_end(*e, "expected boolean literal"),
            ArgsError::ExpectedBrackets(e) => with_end(*e, "expected square brackets"),
            ArgsError::UnexpectedToken => string_of("unexpected token"),
            ArgsError::UnknownArgument(a) => {
                let mut r = string_of("unknown argument `");
                r.append(a.as_str());
                r.append("`");
                r
            },
            ArgsError::MissingArgument(a) => {
                let mut r = string_of("missing required argument `");
                r.append(a.as_str());
                r.append("`");
                r
            },
            ArgsError::InvalidMatchPattern(v) => {
                let mut r = string_of("invalid match pattern `");
                r.append(v.as_str());
                r.append("`: must start with a scheme (e.g. `https://`, `*://`, `http://`) or be `<all_urls>`");
                r
            },
        }
    }
}

/// A result with both sides by their views.
pub open spec fn result_view<T: View, E: View>(r: Result<T, E>) -> Result<T::V, E::V> {
    match r {
        Ok(t) => Ok(t@),
        Err(e) => Err(e@),
    }
}


// ---------------------------------------------------------------------------
// Reading single tokens.

/// An identifier at `i`; a keyword or another token there is an error.
pub open spec fn ident_at(toks: Seq<TokView>, i: int) -> Result<Seq<char>, ArgsErrorView> {
    if 0 <= i < toks.len() && toks[i] is Ident {
        let t = toks[i]->Ident_0;
        if ident_parses(t) {
            Ok(t)
        } else {
            Err(ArgsErrorView::KeywordNotIdent(t))
        }
    } else {
        Err(ArgsErrorView::ExpectedIdent(i >= toks.len()))
    }
}

/// The punctuation `c` at `i`.
pub open spec fn punct_at(toks: Seq<TokView>, i: int, c: char) -> bool {
    0 <= i < toks.len() && toks[i] is Punct && toks[i]->Punct_0 == c
}

/// The path separator `::` at `i`: a `:` joined to the next `:`.
pub open spec fn path_sep_at(toks: Seq<TokView>, i: int) -> bool {
    punct_at(toks, i, ':') && toks[i]->Punct_1 && punct_at(toks, i + 1, ':')
}

/// A string literal at `i`.
pub open spec fn str_at(toks: Seq<TokView>, i: int) -> Option<Seq<char>> {
    if 0 <= i < toks.len() && toks[i] is Str {
        Some(toks[i]->Str_0)
    } else {
        None
    }
}

/// A boolean literal (`true` or `false`) at `i`.
pub open spec fn bool_at(toks: Seq<TokView>, i: int) -> Option<bool> {
    if 0 <= i < toks.len() && toks[i] is Ident && toks[i]->Ident_0 == "true"@ {
        Some(true)
    } else if 0 <= i < toks.len() && toks[i] is Ident && toks[i]->Ident_0 == "false"@ {
        Some(false)
    } else {
        None
    }
}

/// The tokens inside square brackets at `i`.
pub open spec fn bracket_at(toks: Seq<TokView>, i: int) -> Option<Seq<TokView>> {
    if 0 <= i < toks.len() && toks[i] is Group && toks[i]->Group_0 == Delim::Bracket {
        Some(toks[i]->Group_1)
    } else {
        None
    }
}

/// String literals separated by commas, a trailing comma allowed, from `i`.
pub open spec fn str_list(toks: Seq<TokView>, i: int) -> Result<Seq<Seq<char>>, ArgsErrorView>
    decreases toks.len() - i,
{
    if i < 0 || i >= toks.len() {
        Ok(Seq::empty())
    } else {
        match str_at(toks, i) {
            None => Err(ArgsErrorView::ExpectedStr(i >= toks.len())),
            Some(s) => if i + 1 >= toks.len() {
                Ok(seq![s])
            } else if punct_at(toks, i + 1, ',') {
                match str_list(toks, i + 2) {
                    Ok(l) => Ok(seq![s] + l),
                    Err(e) => Err(e),
                }
            } else {
                Err(ArgsErrorView::ExpectedPunct(","@))
            },
        }
    }
}

/// Law: a list of strings that reads from `i` holds each string literal at
/// every other token from `i`, in order, with commas between and at most
/// one after the last.
pub proof fn lemma_str_list_written(toks: Seq<TokView>, i: int)
    requires
        0 <= i,
        str_list(toks, i) is Ok,
    ensures
        ({
            let l = str_list(toks, i)->Ok_0;
            &&& i >= toks.len() ==> l.len() == 0
            &&& i < toks.len() ==> (toks.len() - i == 2 * l.len() || toks.len() - i == 2 * l.len() - 1)
            &&& forall|j: int| 0 <= j < l.len() ==> toks[i + 2 * j] == TokView::Str(#[trigger] l[j])
            &&& forall|j: int| 0 <= j && i + 2 * j + 1 < toks.len() ==> toks[i + 2 * j + 1] == TokView::Punct(',', (#[trigger] toks[i + 2 * j + 1])->Punct_1)
        }),
    decreases toks.len() - i,
{
    if i < toks.len() {
        let s0 = str_at(toks, i)->Some_0;
        assert(toks[i] == TokView::Str(s0));
        if i + 1 < toks.len() {
            lemma_str_list_written(toks, i + 2);
            let l2 = str_list(toks, i + 2)->Ok_0;
            let l = str_list(toks, i)->Ok_0;
            assert(l == seq![s0] + l2);
            assert forall|j: int| 0 <= j < l.len() implies toks[i + 2 * j] == TokView::Str(#[trigger] l[j]) by {
                if j > 0 {
                    assert(l[j] == l2[j - 1]);
                    assert(toks[(i + 2) + 2 * (j - 1)] == TokView::Str(l2[j - 1]));
                }
            }
            assert forall|j: int| 0 <= j && i + 2 * j + 1 < toks.len() implies toks[i + 2 * j + 1] == TokView::Punct(
                ',',
                (#[trigger] toks[i + 2 * j + 1])->Punct_1,
            ) by {
                if j > 0 {
                    assert(toks[(i + 2) + 2 * (j - 1) + 1] == TokView::Punct(',', toks[(i + 2) + 2 * (j - 1) + 1]->Punct_1));
                }
            }
        }
    }
}

fn expect_ident(toks: &Vec<Tok>, i: usize) -> (r: Result<String, ArgsError>)
    ensures
        match r {
            Ok(s) => ident_at(toks_view(toks@), i as int) == Ok::<Seq<char>, ArgsErrorView>(s@),
            Err(e) => ident_at(toks_view(toks@), i as int) == Err::<Seq<char>, ArgsErrorView>(e@),
        },
{
    proof { lemma_toks_view(toks@); }
    if i < toks.len() {
        match &toks[i] {
            Tok::Ident(t) => {
                if syn_accepts_ident(t.as_str()) {
                    Ok(t.clone())
                } else {
                    Err(ArgsError::KeywordNotIdent(t.clone()))
                }
            },
            _ => Err(ArgsError::ExpectedIdent(false)),
        }
    } else {
        Err(ArgsError::ExpectedIdent(true))
    }
}

fn is_punct(toks: &Vec<Tok>, i: usize, c: char) -> (r: bool)
    ensures
        r == punct_at(toks_view(toks@), i as int, c),
{
    proof { lemma_toks_view(toks@); }
    if i < toks.len() {
        match &toks[i] {
            Tok::Punct(p, _) => *p == c,
            _ => false,
        }
    } else {
        false
    }
}

fn is_path_sep(toks: &Vec<Tok>, i: usize) -> (r: bool)
    requires
        i < usize::MAX,
    ensures
        r == path_sep_at(toks_view(toks@), i as int),
{
    proof { lemma_toks_view(toks@); }
    if i < toks.len() {
        match &toks[i] {
            Tok::Punct(p, joint) => *p == ':' && *joint && is_punct(toks, i + 1, ':'),
            _ => false,
        }
    } else {
        false
    }
}

fn str_tok(toks: &Vec<Tok>, i: usize) -> (r: Option<String>)
    ensures
        match r {
            Some(s) => str_at(toks_view(toks@), i as int) == Some(s@),
            None => str_at(toks_view(toks@), i as int) is None,
        },
{
    proof { lemma_toks_view(toks@); }
    if i < toks.len() {
        match &toks[i] {
            Tok::Str(s) => Some(s.clone()),
            _ => None,
        }
    } else {
        None
    }
}

fn bool_tok(toks: &Vec<Tok>, i: usize) -> (r: Option<bool>)
    ensures
        r == bool_at(toks_view(toks@), i as int),
{
    proof { lemma_toks_view(toks@); }
    if i < toks.len() {
        match &toks[i] {
            Tok::Ident(t) => {
                if str_eq(t.as_str(), "true") {
                    Some(true)
                } else if str_eq(t.as_str(), "false") {
                    Some(false)
                } else {
                    None
                }
            },
            _ => None,
        }
    } else {
        None
    }
}

fn bracket_tok(toks: &Vec<Tok>, i: usize) -> (r: Option<&Vec<Tok>>)
    ensures
        match r {
            Some(inner) => bracket_at(toks_view(toks@), i as int) == Some(toks_view(inner@)),
            None => bracket_at(toks_view(toks@), i as int) is None,
        },
{
    proof { lemma_toks_view(toks@); }
    if i < toks.len() {
        match &toks[i] {
            Tok::Group(d, inner) => {
                if *d == Delim::Bracket {
                    Some(inner)
                } else {
                    None
                }
            },
            _ => None,
        }
    } else {
        None
    }
}

/// Reads string literals separated by commas, as inside `[..]`.
fn parse_str_list(toks: &Vec<Tok>) -> (r: Result<Vec<String>, ArgsError>)
    ensures
        match r {
            Ok(v) => str_list(toks_view(toks@), 0) == Ok::<Seq<Seq<char>>, ArgsErrorView>(texts_of(v@)),
            Err(e) => str_list(toks_view(toks@), 0) == Err::<Seq<Seq<char>>, ArgsErrorView>(e@),
        },
{
    proof { lemma_toks_view(toks@); }
    let mut out: Vec<String> = Vec::new();
    let mut i: usize = 0;
    while i < toks.len()
        invariant
            i <= toks@.len(),
            toks_view(toks@).len() == toks@.len(),
            str_list(toks_view(toks@), 0) == match str_list(toks_view(toks@), i as int) {
                Ok(l) => Ok::<Seq<Seq<char>>, ArgsErrorView>(texts_of(out@) + l),
                Err(e) => Err(e),
            },
        decreases toks.len() - i,
    {
        let s = match str_tok(toks, i) {
            Some(s) => s,
            None => return Err(ArgsError::ExpectedStr(false)),
        };
        let ghost before = out@;
        out.push(s);
        assert(texts_of(out@) =~= texts_of(before) + seq![s@]);
        if i + 1 >= toks.len() {
            i = i + 1;
            assert(str_list(toks_view(toks@), i as int) == Ok::<Seq<Seq<char>>, ArgsErrorView>(Seq::empty()));
            assert(texts_of(out@) + Seq::<Seq<char>>::empty() =~= texts_of(out@));
        } else if is_punct(toks, i + 1, ',') {
            proof {
                match str_list(toks_view(toks@), i + 2) {
                    Ok(l) => {
                        assert(texts_of(before) + (seq![s@] + l) =~= texts_of(out@) + l);
                    },
                    Err(_) => {},
                }
            }
            i = i + 2;
        } else {
            return Err(ArgsError::ExpectedPunct(string_of(",")));
        }
    }
    assert(str_list(toks_view(toks@), i as int) == Ok::<Seq<Seq<char>>, ArgsErrorView>(Seq::empty()));
    assert(texts_of(out@) + Seq::<Seq<char>>::empty() =~= texts_of(out@));
    Ok(out)
}

// ---------------------------------------------------------------------------
// `#[extension(..)]`

/// The arguments of `#[extension(..)]`.
#[derive(Debug)]
pub struct ExtensionArgs {
    pub name: String,
    pub version: String,
    pub description: Option<String>,
    pub permissions: Vec<String>,
    pub extra_manifest: Option<String>,
}

/// [`ExtensionArgs`] with texts as character sequences; the optional name
/// and version are the fields as read so far.
pub struct ExtensionFields {
    pub name: Option<Seq<char>>,
    pub version: Option<Seq<char>>,
    pub description: Option<Seq<char>>,
    pub permissions: Seq<Seq<char>>,
    pub extra_manifest: Option<Seq<char>>,
}

pub open spec fn no_extension_fields() -> ExtensionFields {
    ExtensionFields { name: None, version: None, description: None, permissions: Seq::empty(), extra_manifest: None }
}

impl View for ExtensionArgs {
    type V = ExtensionFields;

    open spec fn view(&self) -> ExtensionFields {
        ExtensionFields {
            name: Some(self.name@),
            version: Some(self.version@),
            description: opt_text_of(self.description),
            permissions: texts_of(self.permissions@),
            extra_manifest: opt_text_of(self.extra_manifest),
        }
    }
}

/// The value of argument `key` at `j`, read into `st`.
pub open spec fn extension_value(toks: Seq<TokView>, key: Seq<char>, j: int, st: ExtensionFields) -> Result<ExtensionFields, ArgsErrorView> {
    if key == "name"@ {
        match str_at(toks, j) {
            Some(s) => Ok(ExtensionFields { name: Some(s), ..st }),
            None => Err(ArgsErrorView::ExpectedStr(j >= toks.len())),
        }
    } else if key == "version"@ {
        match str_at(toks, j) {
            Some(s) => Ok(ExtensionFields { version: Some(s), ..st }),
            None => Err(ArgsErrorView::ExpectedStr(j >= toks.len())),
        }
    } else if key == "description"@ {
        match str_at(toks, j) {
            Some(s) => Ok(ExtensionFields { description: Some(s), ..st }),
            None => Err(ArgsErrorView::ExpectedStr(j >= toks.len())),
        }
    } else if key == "extra_manifest"@ {
        match str_at(toks, j) {
            Some(s) => Ok(ExtensionFields { extra_manifest: Some(s), ..st }),
            None => Err(ArgsErrorView::ExpectedStr(j >= toks.len())),
        }
    } else if key == "permissions"@ {
        match bracket_at(toks, j) {
            Some(inner) => match str_list(inner, 0) {
                Ok(l) => Ok(ExtensionFields { permissions: st.permissions + l, ..st }),
                Err(e) => Err(e),
            },
            None => Err(ArgsErrorView::ExpectedBrackets(j >= toks.len())),
        }
    } else {
        Err(ArgsErrorView::UnknownArgument(key))
    }
}

/// The arguments `key = value`, separated by commas (a trailing comma
/// allowed), from `i` on, read into `st`.
pub open spec fn extension_items(toks: Seq<TokView>, i: int, st: ExtensionFields) -> Result<ExtensionFields, ArgsErrorView>
    decreases toks.len() - i,
{
    if i < 0 || i >= toks.len() {
        Ok(st)
    } else {
        match ident_at(toks, i) {
            Err(e) => Err(e),
            Ok(key) => if !punct_at(toks, i + 1, '=') {
                Err(ArgsErrorView::ExpectedPunct("="@))
            } else {
                match extension_value(toks, key, i + 2, st) {
                    Err(e) => Err(e),
                    Ok(st2) => if i + 3 >= toks.len() {
                        Ok(st2)
                    } else if punct_at(toks, i + 3, ',') {
                        extension_items(toks, i + 4, st2)
                    } else {
                        Err(ArgsErrorView::ExpectedPunct(","@))
                    },
                }
            },
        }
    }
}

/// The arguments of `#[extension(..)]`: `name` and `version` are required;
/// a later value of a key replaces an earlier one, and permission lists add up.
pub open spec fn extension_args_spec(toks: Seq<TokView>) -> Result<ExtensionFields, ArgsErrorView> {
    match extension_items(toks, 0, no_extension_fields()) {
        Err(e) => Err(e),
        Ok(st) => if st.name is None {
            Err(ArgsErrorView::MissingArgument("name"@))
        } else if st.version is None {
            Err(ArgsErrorView::MissingArgument("version"@))
        } else {
            Ok(st)
        },
    }
}

impl ExtensionArgs {
    /// Reads the arguments of `#[extension(..)]` from tokens.
    pub fn parse_tokens(toks: &Vec<Tok>) -> (r: Result<ExtensionArgs, ArgsError>)
        ensures
            extension_args_spec(toks_view(toks@)) == result_view(r),
    {
        proof { lemma_toks_view(toks@); }
        let mut name: Option<String> = None;
        let mut version: Option<String> = None;
        let mut description: Option<String> = None;
        let mut extra_manifest: Option<String> = None;
        let mut permissions: Vec<String> = Vec::new();
        assert(texts_of(permissions@) =~= Seq::empty());
        let mut i: usize = 0;
        while i < toks.len()
            invariant
                i <= toks@.len(),
                toks_view(toks@).len() == toks@.len(),
                extension_items(toks_view(toks@), 0, no_extension_fields()) == extension_items(
                    toks_view(toks@),
                    i as int,
                    ExtensionFields {
                        name: opt_text_of(name),
                        version: opt_text_of(version),
                        description: opt_text_of(description),
                        permissions: texts_of(permissions@),
                        extra_manifest: opt_text_of(extra_manifest),
                    },
                ),
            decreases toks.len() - i,
        {
            let key = match expect_ident(toks, i) {
                Ok(k) => k,
                Err(e) => return Err(e),
            };
            if !is_punct(toks, i + 1, '=') {
                return Err(ArgsError::ExpectedPunct(string_of("=")));
            }
            let j = i + 2;
            if str_eq(key.as_str(), "name") {
                match str_tok(toks, j) {
                    Some(s) => name = Some(s),
                    None => return Err(ArgsError::ExpectedStr(j >= toks.len())),
                }
            } else if str_eq(key.as_str(), "version") {
                match str_tok(toks, j) {
                    Some(s) => version = Some(s),
                    None => return Err(ArgsError::ExpectedStr(j >= toks.len())),
                }
            } else if str_eq(key.as_str(), "description") {
                match str_tok(toks, j) {
                    Some(s) => description = Some(s),
                    None => return Err(ArgsError::ExpectedStr(j >= toks.len())),
                }
            } else if str_eq(key.as_str(), "extra_manifest") {
                match str_tok(toks, j) {
                    Some(s) => extra_manifest = Some(s),
                    None => return Err(ArgsError::ExpectedStr(j >= toks.len())),
                }
            } else if str_eq(key.as_str(), "permissions") {
                match bracket_tok(toks, j) {
                    Some(inner) => match parse_str_list(inner) {
                        Ok(mut l) => {
                            let ghost before = permissions@;
                            let ghost added = l@;
                            permissions.append(&mut l);
                            assert(texts_of(permissions@) =~= texts_of(before) + texts_of(added));
                        },
                        Err(e) => return Err(e),
                    },
                    None => return Err(ArgsError::ExpectedBrackets(j >= toks.len())),
                }
            } else {
                return Err(ArgsError::UnknownArgument(key));
            }
            if j + 1 >= toks.len() {
                i = j + 1;
            } else if is_punct(toks, j + 1, ',') {
                i = j + 2;
            } else {
                return Err(ArgsError::ExpectedPunct(string_of(",")));
            }
        }
        let name = match name {
            Some(n) => n,
            None => return Err(ArgsError::MissingArgument(string_of("name"))),
        };
        let version = match version {
            Some(v) => v,
            None => return Err(ArgsError::MissingArgument(string_of("version"))),
        };
        Ok(ExtensionArgs { name, version, description, permissions, extra_manifest })
    }

    /// Reads the arguments of `#[extension(..)]` from a token stream, as the
    /// attribute macro receives them.
    pub fn parse(input: proc_macro2::TokenStream) -> (r: Result<ExtensionArgs, ArgsError>)
        ensures
            result_view(r) == extension_args_spec(lex_spec(stream_trees(input))),
    {
        let toks = lex(input);
        let r = Self::parse_tokens(&toks);
        assert(extension_args_spec(toks_view(toks@)) == result_view(r));
        r
    }
}

// ---------------------------------------------------------------------------
// `#[on(namespace::event)]`

/// The arguments of `#[on(..)]`: the event's namespace and name.
#[derive(Debug)]
pub struct EventArgs {
    pub namespace: String,
    pub event_name: String,
}

impl View for EventArgs {
    type V = (Seq<char>, Seq<char>);

    open spec fn view(&self) -> (Seq<char>, Seq<char>) {
        (self.namespace@, self.event_name@)
    }
}

/// `namespace::event_name`: two identifiers joined by `::`, and nothing more.
pub open spec fn event_args_spec(toks: Seq<TokView>) -> Result<(Seq<char>, Seq<char>), ArgsErrorView> {
    match ident_at(toks, 0) {
        Err(e) => Err(e),
        Ok(ns) => if !path_sep_at(toks, 1) {
            Err(ArgsErrorView::ExpectedPunct("::"@))
        } else {
            match ident_at(toks, 3) {
                Err(e) => Err(e),
                Ok(ev) => if toks.len() > 4 {
                    Err(ArgsErrorView::UnexpectedToken)
                } else {
                    Ok((ns, ev))
                },
            }
        },
    }
}

/// Law: accepted arguments of `#[on(..)]` are exactly four tokens: the
/// namespace, `:` joined to `:`, and the event name, which the result
/// gives back in that order.
pub proof fn lemma_event_args_written(toks: Seq<TokView>)
    requires
        event_args_spec(toks) is Ok,
    ensures
        toks.len() == 4,
        toks[0] == TokView::Ident(event_args_spec(toks)->Ok_0.0),
        toks[1] == TokView::Punct(':', true),
        toks[2] is Punct && toks[2]->Punct_0 == ':',
        toks[3] == TokView::Ident(event_args_spec(toks)->Ok_0.1),
{
}

impl EventArgs {
    /// Reads `namespace::event_name` from tokens.
    pub fn parse_tokens(toks: &Vec<Tok>) -> (r: Result<EventArgs, ArgsError>)
        ensures
            event_args_spec(toks_view(toks@)) == result_view(r),
    {
        proof { lemma_toks_view(toks@); }
        let namespace = match expect_ident(toks, 0) {
            Ok(n) => n,
            Err(e) => return Err(e),
        };
        if !is_path_sep(toks, 1) {
            return Err(ArgsError::ExpectedPunct(string_of("::")));
        }
        let event_name = match expect_ident(toks, 3) {
            Ok(n) => n,
            Err(e) => return Err(e),
        };
        if toks.len() > 4 {
            return Err(ArgsError::UnexpectedToken);
        }
        Ok(EventArgs { namespace, event_name })
    }

    /// Reads `namespace::event_name` from a token stream.
    pub fn parse(input: proc_macro2::TokenStream) -> (r: Result<EventArgs, ArgsError>)
        ensures
            result_view(r) == event_args_spec(lex_spec(stream_trees(input))),
    {
        let toks = lex(input);
        let r = Self::parse_tokens(&toks);
        assert(event_args_spec(toks_view(toks@)) == result_view(r));
        r
    }
}

// ---------------------------------------------------------------------------
// `#[content_script(..)]`

/// The arguments of `#[content_script(..)]`.
#[derive(Debug)]
pub struct ContentScriptArgs {
    pub matches: Vec<String>,
    /// The identifier given for `run_at`, such as `DocumentStart`.
    pub run_at: Option<String>,
    pub all_frames: Option<bool>,
    pub css: Vec<String>,
}

/// [`ContentScriptArgs`] with texts as character sequences.
pub struct ContentScriptFields {
    pub matches: Seq<Seq<char>>,
    pub run_at: Option<Seq<char>>,
    pub all_frames: Option<bool>,
    pub css: Seq<Seq<char>>,
}

pub open spec fn no_content_script_fields() -> ContentScriptFields {
    ContentScriptFields { matches: Seq::empty(), run_at: None, all_frames: None, css: Seq::empty() }
}

impl View for ContentScriptArgs {
    type V = ContentScriptFields;

    open spec fn view(&self) -> ContentScriptFields {
        ContentScriptFields {
            matches: texts_of(self.matches@),
            run_at: opt_text_of(self.run_at),
            all_frames: self.all_frames,
            css: texts_of(self.css@),
        }
    }
}

/// A match pattern that a browser accepts: `<all_urls>`, or one that
/// starts with a scheme.
pub open spec fn valid_match_pattern(p: Seq<char>) -> bool {
    ||| p == "<all_urls>"@
    ||| starts_with_spec(p, "http://"@)
    ||| starts_with_spec(p, "https://"@)
    ||| starts_with_spec(p, "*://"@)
    ||| starts_with_spec(p, "file://"@)
    ||| starts_with_spec(p, "ftp://"@)
}

/// The first pattern of a list that is not valid, if any.
pub open spec fn first_invalid_pattern(ps: Seq<Seq<char>>) -> Option<Seq<char>>
    decreases ps.len(),
{
    if ps.len() == 0 {
        None
    } else if !valid_match_pattern(ps[0]) {
        Some(ps[0])
    } else {
        first_invalid_pattern(ps.subrange(1, ps.len() as int))
    }
}

/// Law: a list of match patterns has no invalid one exactly when every
/// pattern is valid; the one reported is in the list, invalid, and every
/// pattern before it is valid.
pub proof fn lemma_first_invalid_pattern(ps: Seq<Seq<char>>)
    ensures
        first_invalid_pattern(ps) is None <==> forall|i: int| 0 <= i < ps.len() ==> valid_match_pattern(#[trigger] ps[i]),
        first_invalid_pattern(ps) is Some ==> exists|k: int|
            0 <= k < ps.len() && ps[k] == first_invalid_pattern(ps)->Some_0 && !valid_match_pattern(#[trigger] ps[k])
                && forall|i: int| 0 <= i < k ==> valid_match_pattern(#[trigger] ps[i]),
    decreases ps.len(),
{
    if ps.len() > 0 {
        let rest = ps.subrange(1, ps.len() as int);
        lemma_first_invalid_pattern(rest);
        assert forall|i: int| 1 <= i < ps.len() implies ps[i] == rest[i - 1] by {}
        if valid_match_pattern(ps[0]) {
            if first_invalid_pattern(rest) is Some {
                let k = choose|k: int|
                    0 <= k < rest.len() && rest[k] == first_invalid_pattern(rest)->Some_0 && !valid_match_pattern(
                        #[trigger] rest[k],
                    ) && forall|i: int| 0 <= i < k ==> valid_match_pattern(#[trigger] rest[i]);
                assert(ps[k + 1] == rest[k]);
                assert forall|i: int| 0 <= i < k + 1 implies valid_match_pattern(#[trigger] ps[i]) by {
                    if i > 0 {
                        assert(ps[i] == rest[i - 1]);
                    }
                }
            } else {
                assert forall|i: int| 0 <= i < ps.len() implies valid_match_pattern(#[trigger] ps[i]) by {
                    if i > 0 {
                        assert(ps[i] == rest[i - 1]);
                    }
                }
            }
        }
    }
}

/// Law: arguments of `#[content_script(..)]` that are accepted name at least
/// one match pattern, and every pattern they name is valid.
pub proof fn lemma_content_script_args_accepted(toks: Seq<TokView>)
    requires
        content_script_args_spec(toks) is Ok,
    ensures
        content_script_args_spec(toks)->Ok_0.matches.len() > 0,
        forall|i: int|
            0 <= i < content_script_args_spec(toks)->Ok_0.matches.len() ==> valid_match_pattern(
                #[trigger] content_script_args_spec(toks)->Ok_0.matches[i],
            ),
{
    match content_script_items(toks, 0, no_content_script_fields()) {
        Ok(st) => lemma_first_invalid_pattern(st.matches),
        Err(_) => {},
    }
}

/// Reading the arguments from `i` on keeps each optional field that no
/// identifier from `i` on names.
proof fn lemma_content_script_items_keep(toks: Seq<TokView>, i: int, st: ContentScriptFields)
    requires
        content_script_items(toks, i, st) is Ok,
    ensures
        (forall|x: int| i <= x < toks.len() ==> toks[x] != TokView::Ident("run_at"@)) ==> content_script_items(
            toks,
            i,
            st,
        )->Ok_0.run_at == st.run_at,
        (forall|x: int| i <= x < toks.len() ==> toks[x] != TokView::Ident("all_frames"@)) ==> content_script_items(
            toks,
            i,
            st,
        )->Ok_0.all_frames == st.all_frames,
        (forall|x: int| i <= x < toks.len() ==> toks[x] != TokView::Ident("css"@)) ==> content_script_items(
            toks,
            i,
            st,
        )->Ok_0.css == st.css,
    decreases toks.len() - i,
{
    if 0 <= i < toks.len() {
        let key = ident_at(toks, i)->Ok_0;
        assert(toks[i] == TokView::Ident(key));
        let st2 = content_script_value(toks, key, i + 2, st)->Ok_0;
        if i + 3 < toks.len() {
            lemma_content_script_items_keep(toks, i + 4, st2);
        }
    }
}

/// Law: arguments of `#[content_script(..)]` that are accepted and do not
/// name `run_at`, `all_frames` or `css` leave that field unset or empty.
pub proof fn lemma_content_script_absent_keys(toks: Seq<TokView>)
    requires
        content_script_args_spec(toks) is Ok,
    ensures
        (forall|x: int| 0 <= x < toks.len() ==> toks[x] != TokView::Ident("run_at"@))
            ==> content_script_args_spec(toks)->Ok_0.run_at is None,
        (forall|x: int| 0 <= x < toks.len() ==> toks[x] != TokView::Ident("all_frames"@))
            ==> content_script_args_spec(toks)->Ok_0.all_frames is None,
        (forall|x: int| 0 <= x < toks.len() ==> toks[x] != TokView::Ident("css"@))
            ==> content_script_args_spec(toks)->Ok_0.css.len() == 0,
{
    lemma_content_script_items_keep(toks, 0, no_content_script_fields());
}

/// `k =` at `y`: the identifier `k` followed by `=`.
pub open spec fn key_at(toks: Seq<TokView>, y: int, k: Seq<char>) -> bool {
    &&& 0 <= y
    &&& y + 1 < toks.len()
    &&& toks[y] == TokView::Ident(k)
    &&& toks[y + 1] is Punct
    &&& toks[y + 1]->Punct_0 == '='
}

/// The last `k =` of the tokens stands at `x`.
pub open spec fn last_key_at(toks: Seq<TokView>, x: int, k: Seq<char>) -> bool {
    key_at(toks, x, k) && forall|y: int| x < y ==> !#[trigger] key_at(toks, y, k)
}

/// The token that writes a boolean literal.
pub open spec fn bool_literal(b: bool) -> TokView {
    TokView::Ident(if b { "true"@ } else { "false"@ })
}

/// Between one argument `key = value` at `i` and the next, no `k =` stands.
proof fn lemma_no_key_inside(toks: Seq<TokView>, i: int, k: Seq<char>)
    requires
        0 <= i,
        i + 2 < toks.len(),
        toks[i + 1] is Punct,
        toks[i + 1]->Punct_0 == '=',
        i + 3 < toks.len() ==> (toks[i + 3] is Punct && toks[i + 3]->Punct_0 == ','),
    ensures
        forall|y: int| i < y < i + 4 ==> !#[trigger] key_at(toks, y, k),
{
    assert forall|y: int| i < y < i + 4 implies !#[trigger] key_at(toks, y, k) by {
        if y == i + 2 && key_at(toks, y, k) {
            assert(toks[i + 3]->Punct_0 == ',');
        }
    }
}

/// From `i` on, `all_frames` and `run_at` end as the last `all_frames =`
/// and `run_at =` from `i` on write them, or as they were where none stands.
proof fn lemma_content_script_items_last(toks: Seq<TokView>, i: int, st: ContentScriptFields)
    requires
        0 <= i,
        content_script_items(toks, i, st) is Ok,
    ensures
        ({
            let r = content_script_items(toks, i, st)->Ok_0;
            match r.all_frames {
                Some(b) => (exists|x: int| i <= x && #[trigger] last_key_at(toks, x, "all_frames"@)
                    && toks[x + 2] == bool_literal(b)) || (st.all_frames == Some(b) && forall|y: int|
                    i <= y ==> !#[trigger] key_at(toks, y, "all_frames"@)),
                None => st.all_frames is None && forall|y: int| i <= y ==> !#[trigger] key_at(toks, y, "all_frames"@),
            }
        }),
        ({
            let r = content_script_items(toks, i, st)->Ok_0;
            match r.run_at {
                Some(v) => (exists|x: int| i <= x && #[trigger] last_key_at(toks, x, "run_at"@)
                    && toks[x + 2] == TokView::Ident(v)) || (st.run_at == Some(v) && forall|y: int|
                    i <= y ==> !#[trigger] key_at(toks, y, "run_at"@)),
                None => st.run_at is None && forall|y: int| i <= y ==> !#[trigger] key_at(toks, y, "run_at"@),
            }
        }),
    decreases toks.len() - i,
{
    let af = "all_frames"@;
    let ra = "run_at"@;
    reveal_strlit("all_frames");
    reveal_strlit("run_at");
    reveal_strlit("matches");
    reveal_strlit("css");
    assert("all_frames"@.len() == 10 && "run_at"@.len() == 6 && "matches"@.len() == 7 && "css"@.len() == 3);
    if i >= toks.len() {
        assert forall|y: int| i <= y implies !#[trigger] key_at(toks, y, af) by {}
        assert forall|y: int| i <= y implies !#[trigger] key_at(toks, y, ra) by {}
    } else {
        let key = ident_at(toks, i)->Ok_0;
        assert(toks[i] == TokView::Ident(key));
        assert(ident_at(toks, i) is Ok);
        assert(content_script_value(toks, key, i + 2, st) is Ok);
        let st2 = content_script_value(toks, key, i + 2, st)->Ok_0;
        lemma_no_key_inside(toks, i, af);
        lemma_no_key_inside(toks, i, ra);
        assert(key_at(toks, i, af) <==> key == af);
        assert(key_at(toks, i, ra) <==> key == ra);
        let r = content_script_items(toks, i, st)->Ok_0;
        if i + 3 < toks.len() {
            lemma_content_script_items_last(toks, i + 4, st2);
            assert(r == content_script_items(toks, i + 4, st2)->Ok_0);
        } else {
            assert(r == st2);
            assert forall|y: int| i + 4 <= y implies !#[trigger] key_at(toks, y, af) by {}
            assert forall|y: int| i + 4 <= y implies !#[trigger] key_at(toks, y, ra) by {}
        }
        // all_frames
        if key == af {
            assert(key != "matches"@ && key != "run_at"@);
            assert(bool_at(toks, i + 2) is Some);
            let b = bool_at(toks, i + 2)->Some_0;
            assert(st2.all_frames == Some(b));
            assert(toks[i + 2] == bool_literal(b));
            match r.all_frames {
                Some(c) => {
                    if !(exists|x: int| i + 4 <= x && #[trigger] last_key_at(toks, x, af) && toks[x + 2] == bool_literal(c)) {
                        assert(c == b);
                        assert forall|y: int| i < y implies !#[trigger] key_at(toks, y, af) by {}
                        assert(last_key_at(toks, i, af));
                    } else {
                        let x = choose|x: int| i + 4 <= x && #[trigger] last_key_at(toks, x, af) && toks[x + 2] == bool_literal(c);
                        assert(i <= x && last_key_at(toks, x, af));
                    }
                },
                None => {},
            }
        } else {
            assert(st2.all_frames == st.all_frames);
            match r.all_frames {
                Some(c) => {
                    if exists|x: int| i + 4 <= x && #[trigger] last_key_at(toks, x, af) && toks[x + 2] == bool_literal(c) {
                        let x = choose|x: int| i + 4 <= x && #[trigger] last_key_at(toks, x, af) && toks[x + 2] == bool_literal(c);
                        assert(i <= x && last_key_at(toks, x, af));
                    } else {
                        assert forall|y: int| i <= y implies !#[trigger] key_at(toks, y, af) by {}
                    }
                },
                None => {
                    assert forall|y: int| i <= y implies !#[trigger] key_at(toks, y, af) by {}
                },
            }
        }
        // run_at
        if key == ra {
            let v = ident_at(toks, i + 2)->Ok_0;
            assert(st2.run_at == Some(v));
            assert(toks[i + 2] == TokView::Ident(v));
            match r.run_at {
                Some(c) => {
                    if !(exists|x: int| i + 4 <= x && #[trigger] last_key_at(toks, x, ra) && toks[x + 2] == TokView::Ident(c)) {
                        assert(c == v);
                        assert forall|y: int| i < y implies !#[trigger] key_at(toks, y, ra) by {}
                        assert(last_key_at(toks, i, ra));
                    } else {
                        let x = choose|x: int| i + 4 <= x && #[trigger] last_key_at(toks, x, ra) && toks[x + 2] == TokView::Ident(c);
                        assert(i <= x && last_key_at(toks, x, ra));
                    }
                },
                None => {},
            }
        } else {
            assert(st2.run_at == st.run_at);
            match r.run_at {
                Some(c) => {
                    if exists|x: int| i + 4 <= x && #[trigger] last_key_at(toks, x, ra) && toks[x + 2] == TokView::Ident(c) {
                        let x = choose|x: int| i + 4 <= x && #[trigger] last_key_at(toks, x, ra) && toks[x + 2] == TokView::Ident(c);
                        assert(i <= x && last_key_at(toks, x, ra));
                    } else {
                        assert forall|y: int| i <= y implies !#[trigger] key_at(toks, y, ra) by {}
                    }
                },
                None => {
                    assert forall|y: int| i <= y implies !#[trigger] key_at(toks, y, ra) by {}
                },
            }
        }
    }
}

/// Law: accepted arguments of `#[content_script(..)]` set `all_frames` to
/// the boolean literal written after the last `all_frames =`, and `run_at`
/// to the identifier written after the last `run_at =`; each is unset
/// where no such argument is written.
pub proof fn lemma_content_script_written_values(toks: Seq<TokView>)
    requires
        content_script_args_spec(toks) is Ok,
    ensures
        match content_script_args_spec(toks)->Ok_0.all_frames {
            Some(b) => exists|x: int| #[trigger] last_key_at(toks, x, "all_frames"@) && toks[x + 2] == bool_literal(b),
            None => forall|y: int| !#[trigger] key_at(toks, y, "all_frames"@),
        },
        match content_script_args_spec(toks)->Ok_0.run_at {
            Some(v) => exists|x: int| #[trigger] last_key_at(toks, x, "run_at"@) && toks[x + 2] == TokView::Ident(v),
            None => forall|y: int| !#[trigger] key_at(toks, y, "run_at"@),
        },
{
    lemma_content_script_items_last(toks, 0, no_content_script_fields());
    assert forall|y: int| y < 0 implies !#[trigger] key_at(toks, y, "all_frames"@) by {}
    assert forall|y: int| y < 0 implies !#[trigger] key_at(toks, y, "run_at"@) by {}
}

/// The string field of [`ExtensionFields`] that key `k` sets.
pub open spec fn extension_str_field(st: ExtensionFields, k: Seq<char>) -> Option<Seq<char>> {
    if k == "name"@ {
        st.name
    } else if k == "version"@ {
        st.version
    } else if k == "description"@ {
        st.description
    } else {
        st.extra_manifest
    }
}

/// From `i` on, the string field under `k` ends as the last `k =` from `i`
/// on writes it, or as it was where none stands.
proof fn lemma_extension_items_last(toks: Seq<TokView>, i: int, st: ExtensionFields, k: Seq<char>)
    requires
        0 <= i,
        extension_items(toks, i, st) is Ok,
        k == "name"@ || k == "version"@ || k == "description"@ || k == "extra_manifest"@,
    ensures
        match extension_str_field(extension_items(toks, i, st)->Ok_0, k) {
            Some(v) => (exists|x: int| i <= x && #[trigger] last_key_at(toks, x, k) && toks[x + 2] == TokView::Str(v))
                || (extension_str_field(st, k) == Some(v) && forall|y: int| i <= y ==> !#[trigger] key_at(toks, y, k)),
            None => extension_str_field(st, k) is None && forall|y: int| i <= y ==> !#[trigger] key_at(toks, y, k),
        },
    decreases toks.len() - i,
{
    reveal_strlit("name");
    reveal_strlit("version");
    reveal_strlit("description");
    reveal_strlit("extra_manifest");
    reveal_strlit("permissions");
    assert("name"@.len() == 4 && "version"@.len() == 7 && "description"@.len() == 11 && "extra_manifest"@.len()
        == 14 && "permissions"@.len() == 11 && "description"@[0] == 'd' && "permissions"@[0] == 'p');
    if i >= toks.len() {
        assert forall|y: int| i <= y implies !#[trigger] key_at(toks, y, k) by {}
    } else {
        assert(ident_at(toks, i) is Ok);
        let key = ident_at(toks, i)->Ok_0;
        assert(toks[i] == TokView::Ident(key));
        assert(extension_value(toks, key, i + 2, st) is Ok);
        let st2 = extension_value(toks, key, i + 2, st)->Ok_0;
        lemma_no_key_inside(toks, i, k);
        assert(key_at(toks, i, k) <==> key == k);
        let r = extension_items(toks, i, st)->Ok_0;
        if i + 3 < toks.len() {
            lemma_extension_items_last(toks, i + 4, st2, k);
            assert(r == extension_items(toks, i + 4, st2)->Ok_0);
        } else {
            assert(r == st2);
            assert forall|y: int| i + 4 <= y implies !#[trigger] key_at(toks, y, k) by {}
        }
        if key == k {
            assert(str_at(toks, i + 2) is Some);
            let v = str_at(toks, i + 2)->Some_0;
            assert(extension_str_field(st2, k) == Some(v));
            assert(toks[i + 2] == TokView::Str(v));
            match extension_str_field(r, k) {
                Some(c) => {
                    if !(exists|x: int| i + 4 <= x && #[trigger] last_key_at(toks, x, k) && toks[x + 2] == TokView::Str(c)) {
                        assert(c == v);
                        assert forall|y: int| i < y implies !#[trigger] key_at(toks, y, k) by {}
                        assert(last_key_at(toks, i, k));
                    } else {
                        let x = choose|x: int| i + 4 <= x && #[trigger] last_key_at(toks, x, k) && toks[x + 2] == TokView::Str(c);
                        assert(i <= x && last_key_at(toks, x, k));
                    }
                },
                None => {},
            }
        } else {
            assert(extension_str_field(st2, k) == extension_str_field(st, k));
            match extension_str_field(r, k) {
                Some(c) => {
                    if exists|x: int| i + 4 <= x && #[trigger] last_key_at(toks, x, k) && toks[x + 2] == TokView::Str(c) {
                        let x = choose|x: int| i + 4 <= x && #[trigger] last_key_at(toks, x, k) && toks[x + 2] == TokView::Str(c);
                        assert(i <= x && last_key_at(toks, x, k));
                    } else {
                        assert forall|y: int| i <= y implies !#[trigger] key_at(toks, y, k) by {}
                    }
                },
                None => {
                    assert forall|y: int| i <= y implies !#[trigger] key_at(toks, y, k) by {}
                },
            }
        }
    }
}

/// Law: accepted arguments of `#[extension(..)]` set `name`, `version`,
/// `description` and `extra_manifest` each to the string literal written
/// after its last `key =`; `description` and `extra_manifest` are unset
/// where no such argument is written.
pub proof fn lemma_extension_written_values(toks: Seq<TokView>)
    requires
        extension_args_spec(toks) is Ok,
    ensures
        exists|x: int| #[trigger] last_key_at(toks, x, "name"@) && toks[x + 2] == TokView::Str(
            extension_args_spec(toks)->Ok_0.name->Some_0,
        ),
        exists|x: int| #[trigger] last_key_at(toks, x, "version"@) && toks[x + 2] == TokView::Str(
            extension_args_spec(toks)->Ok_0.version->Some_0,
        ),
        match extension_args_spec(toks)->Ok_0.description {
            Some(v) => exists|x: int| #[trigger] last_key_at(toks, x, "description"@) && toks[x + 2] == TokView::Str(v),
            None => forall|y: int| !#[trigger] key_at(toks, y, "description"@),
        },
        match extension_args_spec(toks)->Ok_0.extra_manifest {
            Some(v) => exists|x: int| #[trigger] last_key_at(toks, x, "extra_manifest"@) && toks[x + 2] == TokView::Str(v),
            None => forall|y: int| !#[trigger] key_at(toks, y, "extra_manifest"@),
        },
{
    reveal_strlit("name");
    reveal_strlit("version");
    reveal_strlit("description");
    reveal_strlit("extra_manifest");
    assert("name"@.len() == 4 && "version"@.len() == 7 && "description"@.len() == 11 && "extra_manifest"@.len() == 14);
    let st0 = no_extension_fields();
    lemma_extension_items_last(toks, 0, st0, "name"@);
    lemma_extension_items_last(toks, 0, st0, "version"@);
    lemma_extension_items_last(toks, 0, st0, "description"@);
    lemma_extension_items_last(toks, 0, st0, "extra_manifest"@);
    assert forall|y: int| y < 0 implies !#[trigger] key_at(toks, y, "description"@) by {}
    assert forall|y: int| y < 0 implies !#[trigger] key_at(toks, y, "extra_manifest"@) by {}
}

/// The list field of [`ContentScriptFields`] that key `k` adds to.
pub open spec fn content_script_list_field(st: ContentScriptFields, k: Seq<char>) -> Seq<Seq<char>> {
    if k == "matches"@ {
        st.matches
    } else {
        st.css
    }
}

/// From `i` on, a list field grows by nothing where no `k =` stands, and by
/// exactly the strings of the one `[..]` after the single `k =` that stands.
proof fn lemma_content_script_items_list(toks: Seq<TokView>, i: int, st: ContentScriptFields, k: Seq<char>)
    requires
        0 <= i,
        content_script_items(toks, i, st) is Ok,
        k == "matches"@ || k == "css"@,
    ensures
        (forall|y: int| i <= y ==> !#[trigger] key_at(toks, y, k)) ==> content_script_list_field(
            content_script_items(toks, i, st)->Ok_0,
            k,
        ) == content_script_list_field(st, k),
        forall|x: int|
            i <= x && #[trigger] key_at(toks, x, k) && (forall|y: int| i <= y && y != x ==> !#[trigger] key_at(toks, y, k))
                ==> exists|inner: Seq<TokView>| toks[x + 2] == TokView::Group(Delim::Bracket, inner) && #[trigger] str_list(inner, 0) is Ok
                && content_script_list_field(content_script_items(toks, i, st)->Ok_0, k) == content_script_list_field(st, k) + str_list(inner, 0)->Ok_0,
    decreases toks.len() - i,
{
    reveal_strlit("all_frames");
    reveal_strlit("run_at");
    reveal_strlit("matches");
    reveal_strlit("css");
    assert("all_frames"@.len() == 10 && "run_at"@.len() == 6 && "matches"@.len() == 7 && "css"@.len() == 3);
    if i < toks.len() {
        assert(ident_at(toks, i) is Ok);
        let key = ident_at(toks, i)->Ok_0;
        assert(toks[i] == TokView::Ident(key));
        assert(content_script_value(toks, key, i + 2, st) is Ok);
        let st2 = content_script_value(toks, key, i + 2, st)->Ok_0;
        lemma_no_key_inside(toks, i, k);
        assert(key_at(toks, i, k) <==> key == k);
        let r = content_script_items(toks, i, st)->Ok_0;
        if i + 3 < toks.len() {
            lemma_content_script_items_list(toks, i + 4, st2, k);
            assert(r == content_script_items(toks, i + 4, st2)->Ok_0);
        } else {
            assert(r == st2);
        }
        if key == k {
            let inner = bracket_at(toks, i + 2)->Some_0;
            assert(toks[i + 2] == TokView::Group(Delim::Bracket, inner));
            assert(str_list(inner, 0) is Ok);
            assert(content_script_list_field(st2, k) == content_script_list_field(st, k) + str_list(inner, 0)->Ok_0);
            assert forall|x: int|
                i <= x && #[trigger] key_at(toks, x, k) && (forall|y: int| i <= y && y != x ==> !#[trigger] key_at(toks, y, k))
                implies exists|inner: Seq<TokView>| toks[x + 2] == TokView::Group(Delim::Bracket, inner) && #[trigger] str_list(inner, 0) is Ok
                && content_script_list_field(r, k) == content_script_list_field(st, k) + str_list(inner, 0)->Ok_0 by {
                if x != i {
                    assert(!key_at(toks, i, k));
                }
                assert(forall|y: int| i + 4 <= y ==> !#[trigger] key_at(toks, y, k));
            }
        } else {
            assert(content_script_list_field(st2, k) == content_script_list_field(st, k));
            assert forall|x: int|
                i <= x && #[trigger] key_at(toks, x, k) && (forall|y: int| i <= y && y != x ==> !#[trigger] key_at(toks, y, k))
                implies exists|inner: Seq<TokView>| toks[x + 2] == TokView::Group(Delim::Bracket, inner) && #[trigger] str_list(inner, 0) is Ok
                && content_script_list_field(r, k) == content_script_list_field(st, k) + str_list(inner, 0)->Ok_0 by {
                assert(i + 4 <= x);
                assert(forall|y: int| i + 4 <= y && y != x ==> !#[trigger] key_at(toks, y, k));
            }
        }
    }
}

/// Law: accepted arguments of `#[content_script(..)]` with a single
/// `matches =` (or `css =`) take as their match patterns (or stylesheets)
/// exactly the strings of the `[..]` written after it, in order.
pub proof fn lemma_content_script_single_list(toks: Seq<TokView>, x: int, k: Seq<char>)
    requires
        content_script_args_spec(toks) is Ok,
        k == "matches"@ || k == "css"@,
        key_at(toks, x, k),
        forall|y: int| y != x ==> !#[trigger] key_at(toks, y, k),
    ensures
        exists|inner: Seq<TokView>| toks[x + 2] == TokView::Group(Delim::Bracket, inner) && #[trigger] str_list(inner, 0) is Ok
            && content_script_list_field(content_script_args_spec(toks)->Ok_0, k) == str_list(inner, 0)->Ok_0,
{
    lemma_content_script_items_list(toks, 0, no_content_script_fields(), k);
    assert(key_at(toks, x, k) && (forall|y: int| 0 <= y && y != x ==> !#[trigger] key_at(toks, y, k)));
    let inner = choose|inner: Seq<TokView>| toks[x + 2] == TokView::Group(Delim::Bracket, inner) && #[trigger] str_list(inner, 0) is Ok
        && content_script_list_field(content_script_args_spec(toks)->Ok_0, k) == content_script_list_field(no_content_script_fields(), k) + str_list(inner, 0)->Ok_0;
    assert(content_script_list_field(no_content_script_fields(), k) + str_list(inner, 0)->Ok_0 =~= str_list(inner, 0)->Ok_0);
}

/// From `i` on, the permissions grow by nothing where no `permissions =`
/// stands, and by exactly the strings of the one `[..]` after the single
/// `permissions =` that stands.
proof fn lemma_extension_items_permissions(toks: Seq<TokView>, i: int, st: ExtensionFields)
    requires
        0 <= i,
        extension_items(toks, i, st) is Ok,
    ensures
        (forall|y: int| i <= y ==> !#[trigger] key_at(toks, y, "permissions"@)) ==> extension_items(toks, i, st)->Ok_0.permissions
            == st.permissions,
        forall|x: int|
            i <= x && #[trigger] key_at(toks, x, "permissions"@) && (forall|y: int| i <= y && y != x ==> !#[trigger] key_at(
                toks,
                y,
                "permissions"@,
            )) ==> exists|inner: Seq<TokView>| toks[x + 2] == TokView::Group(Delim::Bracket, inner) && #[trigger] str_list(inner, 0) is Ok
                && extension_items(toks, i, st)->Ok_0.permissions == st.permissions + str_list(inner, 0)->Ok_0,
    decreases toks.len() - i,
{
    let k = "permissions"@;
    reveal_strlit("name");
    reveal_strlit("version");
    reveal_strlit("description");
    reveal_strlit("extra_manifest");
    reveal_strlit("permissions");
    assert("name"@.len() == 4 && "version"@.len() == 7 && "description"@.len() == 11 && "extra_manifest"@.len()
        == 14 && "permissions"@.len() == 11 && "description"@[0] == 'd' && "permissions"@[0] == 'p');
    if i < toks.len() {
        assert(ident_at(toks, i) is Ok);
        let key = ident_at(toks, i)->Ok_0;
        assert(toks[i] == TokView::Ident(key));
        assert(extension_value(toks, key, i + 2, st) is Ok);
        let st2 = extension_value(toks, key, i + 2, st)->Ok_0;
        lemma_no_key_inside(toks, i, k);
        assert(key_at(toks, i, k) <==> key == k);
        let r = extension_items(toks, i, st)->Ok_0;
        if i + 3 < toks.len() {
            lemma_extension_items_permissions(toks, i + 4, st2);
            assert(r == extension_items(toks, i + 4, st2)->Ok_0);
        } else {
            assert(r == st2);
        }
        if key == k {
            let inner = bracket_at(toks, i + 2)->Some_0;
            assert(toks[i + 2] == TokView::Group(Delim::Bracket, inner));
            assert(str_list(inner, 0) is Ok);
            assert(st2.permissions == st.permissions + str_list(inner, 0)->Ok_0);
            assert forall|x: int|
                i <= x && #[trigger] key_at(toks, x, k) && (forall|y: int| i <= y && y != x ==> !#[trigger] key_at(toks, y, k))
                implies exists|inner: Seq<TokView>| toks[x + 2] == TokView::Group(Delim::Bracket, inner) && #[trigger] str_list(inner, 0) is Ok
                && r.permissions == st.permissions + str_list(inner, 0)->Ok_0 by {
                if x != i {
                    assert(!key_at(toks, i, k));
                }
                assert(forall|y: int| i + 4 <= y ==> !#[trigger] key_at(toks, y, k));
            }
        } else {
            assert(st2.permissions == st.permissions);
            assert forall|x: int|
                i <= x && #[trigger] key_at(toks, x, k) && (forall|y: int| i <= y && y != x ==> !#[trigger] key_at(toks, y, k))
                implies exists|inner: Seq<TokView>| toks[x + 2] == TokView::Group(Delim::Bracket, inner) && #[trigger] str_list(inner, 0) is Ok
                && r.permissions == st.permissions + str_list(inner, 0)->Ok_0 by {
                assert(i + 4 <= x);
                assert(forall|y: int| i + 4 <= y && y != x ==> !#[trigger] key_at(toks, y, k));
            }
        }
    }
}

/// Law: accepted arguments of `#[extension(..)]` have no permissions where
/// no `permissions =` is written, and with a single one exactly the strings
/// of the `[..]` written after it, in order.
pub proof fn lemma_extension_permissions_written(toks: Seq<TokView>)
    requires
        extension_args_spec(toks) is Ok,
    ensures
        (forall|y: int| !#[trigger] key_at(toks, y, "permissions"@)) ==> extension_args_spec(toks)->Ok_0.permissions.len() == 0,
        forall|x: int|
            #[trigger] key_at(toks, x, "permissions"@) && (forall|y: int| y != x ==> !#[trigger] key_at(toks, y, "permissions"@))
                ==> exists|inner: Seq<TokView>| toks[x + 2] == TokView::Group(Delim::Bracket, inner) && #[trigger] str_list(inner, 0) is Ok
                && extension_args_spec(toks)->Ok_0.permissions == str_list(inner, 0)->Ok_0,
{
    let k = "permissions"@;
    let st0 = no_extension_fields();
    lemma_extension_items_permissions(toks, 0, st0);
    assert forall|x: int|
        #[trigger] key_at(toks, x, k) && (forall|y: int| y != x ==> !#[trigger] key_at(toks, y, k))
            implies exists|inner: Seq<TokView>| toks[x + 2] == TokView::Group(Delim::Bracket, inner) && #[trigger] str_list(inner, 0) is Ok
            && extension_args_spec(toks)->Ok_0.permissions == str_list(inner, 0)->Ok_0 by {
        assert(0 <= x);
        assert(forall|y: int| 0 <= y && y != x ==> !#[trigger] key_at(toks, y, k));
        let inner = choose|inner: Seq<TokView>| toks[x + 2] == TokView::Group(Delim::Bracket, inner) && #[trigger] str_list(inner, 0) is Ok
            && extension_items(toks, 0, st0)->Ok_0.permissions == st0.permissions + str_list(inner, 0)->Ok_0;
        assert(st0.permissions + str_list(inner, 0)->Ok_0 =~= str_list(inner, 0)->Ok_0);
    }
}

/// The value of argument `key` at `j`, read into `st`.
pub open spec fn content_script_value(toks: Seq<TokView>, key: Seq<char>, j: int, st: ContentScriptFields) -> Result<ContentScriptFields, ArgsErrorView> {
    if key == "matches"@ {
        match bracket_at(toks, j) {
            Some(inner) => match str_list(inner, 0) {
                Ok(l) => Ok(ContentScriptFields { matches: st.matches + l, ..st }),
                Err(e) => Err(e),
            },
            None => Err(ArgsErrorView::ExpectedBrackets(j >= toks.len())),
        }
    } else if key == "run_at"@ {
        match ident_at(toks, j) {
            Ok(v) => Ok(ContentScriptFields { run_at: Some(v), ..st }),
            Err(e) => Err(e),
        }
    } else if key == "all_frames"@ {
        match bool_at(toks, j) {
            Some(b) => Ok(ContentScriptFields { all_frames: Some(b), ..st }),
            None => Err(ArgsErrorView::ExpectedBool(j >= toks.len())),
        }
    } else if key == "css"@ {
        match bracket_at(toks, j) {
            Some(inner) => match str_list(inner, 0) {
                Ok(l) => Ok(ContentScriptFields { css: st.css + l, ..st }),
                Err(e) => Err(e),
            },
            None => Err(ArgsErrorView::ExpectedBrackets(j >= toks.len())),
        }
    } else {
        Err(ArgsErrorView::UnknownArgument(key))
    }
}

/// The arguments `key = value`, separated by commas, from `i` on.
pub open spec fn content_script_items(toks: Seq<TokView>, i: int, st: ContentScriptFields) -> Result<ContentScriptFields, ArgsErrorView>
    decreases toks.len() - i,
{
    if i < 0 || i >= toks.len() {
        Ok(st)
    } else {
        match ident_at(toks, i) {
            Err(e) => Err(e),
            Ok(key) => if !punct_at(toks, i + 1, '=') {
                Err(ArgsErrorView::ExpectedPunct("="@))
            } else {
                match content_script_value(toks, key, i + 2, st) {
                    Err(e) => Err(e),
                    Ok(st2) => if i + 3 >= toks.len() {
                        Ok(st2)
                    } else if punct_at(toks, i + 3, ',') {
                        content_script_items(toks, i + 4, st2)
                    } else {
                        Err(ArgsErrorView::ExpectedPunct(","@))
                    },
                }
            },
        }
    }
}

/// The arguments of `#[content_script(..)]`: at least one match pattern is
/// required, and every pattern must be valid; the first invalid one is reported.
pub open spec fn content_script_args_spec(toks: Seq<TokView>) -> Result<ContentScriptFields, ArgsErrorView> {
    match content_script_items(toks, 0, no_content_script_fields()) {
        Err(e) => Err(e),
        Ok(st) => if st.matches.len() == 0 {
            Err(ArgsErrorView::MissingArgument("matches"@))
        } else {
            match first_invalid_pattern(st.matches) {
                Some(p) => Err(ArgsErrorView::InvalidMatchPattern(p)),
                None => Ok(st),
            }
        },
    }
}

/// Whether a match pattern is valid.
pub fn is_valid_match_pattern(p: &str) -> (r: bool)
    ensures
        r == valid_match_pattern(p@),
{
    str_eq(p, "<all_urls>") || starts_with(p, "http://") || starts_with(p, "https://") || starts_with(p, "*://")
        || starts_with(p, "file://") || starts_with(p, "ftp://")
}

fn find_invalid_pattern(ps: &Vec<String>) -> (r: Option<String>)
    ensures
        opt_text_of(r) == first_invalid_pattern(texts_of(ps@)),
{
    let mut i: usize = 0;
    assert(texts_of(ps@).subrange(0, ps@.len() as int) =~= texts_of(ps@));
    while i < ps.len()
        invariant
            i <= ps@.len(),
            first_invalid_pattern(texts_of(ps@)) == first_invalid_pattern(texts_of(ps@).subrange(i as int, ps@.len() as int)),
        decreases ps.len() - i,
    {
        let ghost rest = texts_of(ps@).subrange(i as int, ps@.len() as int);
        assert(rest[0] == ps@[i as int]@);
        assert(rest.subrange(1, rest.len() as int) =~= texts_of(ps@).subrange(i + 1, ps@.len() as int));
        if !is_valid_match_pattern(ps[i].as_str()) {
            return Some(ps[i].clone());
        }
        i = i + 1;
    }
    assert(texts_of(ps@).subrange(i as int, ps@.len() as int).len() == 0);
    None
}

impl ContentScriptArgs {
    /// Reads the arguments of `#[content_script(..)]` from tokens.
    pub fn parse_tokens(toks: &Vec<Tok>) -> (r: Result<ContentScriptArgs, ArgsError>)
        ensures
            content_script_args_spec(toks_view(toks@)) == result_view(r),
    {
        proof { lemma_toks_view(toks@); }
        let mut matches: Vec<String> = Vec::new();
        let mut run_at: Option<String> = None;
        let mut all_frames: Option<bool> = None;
        let mut css: Vec<String> = Vec::new();
        assert(texts_of(matches@) =~= Seq::empty());
        assert(texts_of(css@) =~= Seq::empty());
        let mut i: usize = 0;
        while i < toks.len()
            invariant
                i <= toks@.len(),
                toks_view(toks@).len() == toks@.len(),
                content_script_items(toks_view(toks@), 0, no_content_script_fields()) == content_script_items(
                    toks_view(toks@),
                    i as int,
                    ContentScriptFields {
                        matches: texts_of(matches@),
                        run_at: opt_text_of(run_at),
                        all_frames: all_frames,
                        css: texts_of(css@),
                    },
                ),
            decreases toks.len() - i,
        {
            let key = match expect_ident(toks, i) {
                Ok(k) => k,
                Err(e) => return Err(e),
            };
            if !is_punct(toks, i + 1, '=') {
                return Err(ArgsError::ExpectedPunct(string_of("=")));
            }
            let j = i + 2;
            if str_eq(key.as_str(), "matches") {
                match bracket_tok(toks, j) {
                    Some(inner) => match parse_str_list(inner) {
                        Ok(mut l) => {
                            let ghost before = matches@;
                            let ghost added = l@;
                            matches.append(&mut l);
                            assert(texts_of(matches@) =~= texts_of(before) + texts_of(added));
                        },
                        Err(e) => return Err(e),
                    },
                    None => return Err(ArgsError::ExpectedBrackets(j >= toks.len())),
                }
            } else if str_eq(key.as_str(), "run_at") {
                match expect_ident(toks, j) {
                    Ok(v) => run_at = Some(v),
                    Err(e) => return Err(e),
                }
            } else if str_eq(key.as_str(), "all_frames") {
                match bool_tok(toks, j) {
                    Some(b) => all_frames = Some(b),
                    None => return Err(ArgsError::ExpectedBool(j >= toks.len())),
                }
            } else if str_eq(key.as_str(), "css") {
                match bracket_tok(toks, j) {
                    Some(inner) => match parse_str_list(inner) {
                        Ok(mut l) => {
                            let ghost before = css@;
                            let ghost added = l@;
                            css.append(&mut l);
                            assert(texts_of(css@) =~= texts_of(before) + texts_of(added));
                        },
                        Err(e) => return Err(e),
                    },
                    None => return Err(ArgsError::ExpectedBrackets(j >= toks.len())),
                }
            } else {
                return Err(ArgsError::UnknownArgument(key));
            }
            if j + 1 >= toks.len() {
                i = j + 1;
            } else if is_punct(toks, j + 1, ',') {
                i = j + 2;
            } else {
                return Err(ArgsError::ExpectedPunct(string_of(",")));
            }
        }
        if matches.len() == 0 {
            return Err(ArgsError::MissingArgument(string_of("matches")));
        }
        match find_invalid_pattern(&matches) {
            Some(p) => Err(ArgsError::InvalidMatchPattern(p)),
            None => Ok(ContentScriptArgs { matches, run_at, all_frames, css }),
        }
    }

    /// Reads the arguments of `#[content_script(..)]` from a token stream.
    pub fn parse(input: proc_macro2::TokenStream) -> (r: Result<ContentScriptArgs, ArgsError>)
        ensures
            result_view(r) == content_script_args_spec(lex_spec(stream_trees(input))),
    {
        let toks = lex(input);
        let r = Self::parse_tokens(&toks);
        assert(content_script_args_spec(toks_view(toks@)) == result_view(r));
        r
    }
}

} // verus!
