//! Token trees of attribute arguments, as plain values.
use proc_macro2::{Delimiter, Spacing, TokenTree};
use vstd::prelude::*;

verus! {

/// `proc_macro2::TokenStream`.
#[verifier::external_type_specification]
#[verifier::external_body]
pub struct ExTokenStream(proc_macro2::TokenStream);

/// `proc_macro2::token_stream::IntoIter`.
#[verifier::external_type_specification]
#[verifier::external_body]
pub struct ExTokenIter(proc_macro2::token_stream::IntoIter);

/// The delimiter of a group.
#[derive(Debug, Clone, Copy, PartialEq, Eq, Structural)]
pub enum Delim {
    Paren,
    Brace,
    Bracket,
    /// A group without visible delimiters.
    Invisible,
}

/// A token tree as plain values: identifiers and literals by their text as
/// written, a group by its delimiter and the trees inside it.
pub enum TreeModel {
    Ident(Seq<char>),
    /// A punctuation character, and whether it is joined to the next one.
    Punct(char, bool),
    Literal(Seq<char>),
    Group(Delim, Seq<TreeModel>),
}

/// What a token stream holds: its token trees, in order.
pub uninterp spec fn stream_trees(ts: proc_macro2::TokenStream) -> Seq<TreeModel>;

/// The token trees that an iterator over a stream has still to give.
pub uninterp spec fn iter_trees(it: proc_macro2::token_stream::IntoIter) -> Seq<TreeModel>;

/// The value of the string literal written as `text`, escapes resolved;
/// `None` where `text` is no string literal.
pub uninterp spec fn str_literal_value(text: Seq<char>) -> Option<Seq<char>>;

/// Whether `syn` parses a text as an identifier (`syn::Ident`: an
/// identifier that is no keyword).
pub uninterp spec fn ident_parses(text: Seq<char>) -> bool;

/// One token tree as the iterator hands it out: its parts as plain values,
/// the tokens inside a group as a stream.
pub enum RawToken {
    Ident(String),
    Punct(char, bool),
    Literal(String),
    Group(Delim, proc_macro2::TokenStream),
}

/// The raw token read out of the tree `m`.
pub open spec fn raw_matches(r: RawToken, m: TreeModel) -> bool {
    match r {
        RawToken::Ident(s) => m == TreeModel::Ident(s@),
        RawToken::Punct(c, j) => m == TreeModel::Punct(c, j),
        RawToken::Literal(s) => m == TreeModel::Literal(s@),
        RawToken::Group(d, ts) => m == TreeModel::Group(d, stream_trees(ts)),
    }
}

/// `TokenStream::into_iter`: an iterator that gives the stream's trees.
#[verifier::external_body]
fn stream_iter(ts: proc_macro2::TokenStream) -> (it: proc_macro2::token_stream::IntoIter)
    ensures
        iter_trees(it) == stream_trees(ts),
{
    ts.into_iter()
}

/// `TokenStream::clone`.
#[verifier::external_body]
pub(crate) fn stream_clone(ts: &proc_macro2::TokenStream) -> (r: proc_macro2::TokenStream)
    ensures
        stream_trees(r) == stream_trees(*ts),
{
    ts.clone()
}

/// `IntoIter::next`: the next tree, read out as `Ident::to_string`,
/// `Punct::as_char` with whether `Punct::spacing` is `Joint`,
/// `Literal::to_string`, or `Group::delimiter` with `Group::stream`;
/// `None` when no tree is left.
#[verifier::external_body]
fn next_token(it: &mut proc_macro2::token_stream::IntoIter) -> (r: Option<RawToken>)
    ensures
        iter_trees(*old(it)).len() == 0 ==> r is None,
        iter_trees(*old(it)).len() > 0 ==> r is Some && raw_matches(r->Some_0, iter_trees(*old(it))[0])
            && iter_trees(*final(it)) == iter_trees(*old(it)).drop_first(),
{
    match it.next() {
        None => None,
        Some(TokenTree::Ident(i)) => Some(RawToken::Ident(i.to_string())),
        Some(TokenTree::Punct(p)) => Some(RawToken::Punct(p.as_char(), p.spacing() == Spacing::Joint)),
        Some(TokenTree::Literal(l)) => Some(RawToken::Literal(l.to_string())),
        Some(TokenTree::Group(g)) => Some(RawToken::Group(match g.delimiter() {
            Delimiter::Parenthesis => Delim::Paren,
            Delimiter::Brace => Delim::Brace,
            Delimiter::Bracket => Delim::Bracket,
            Delimiter::None => Delim::Invisible,
        }, g.stream())),
    }
}

/// `syn::parse_str::<syn::LitStr>` of a literal's text, and `LitStr::value`.
#[verifier::external_body]
fn string_literal_value(text: &str) -> (r: Option<String>)
    ensures
        match r {
            Some(v) => str_literal_value(text@) == Some(v@),
            None => str_literal_value(text@) is None,
        },
{
    match syn::parse_str::<syn::LitStr>(text) {
        Ok(s) => Some(s.value()),
        Err(_) => None,
    }
}

/// `syn::parse_str::<syn::Ident>`, whether it succeeds.
#[verifier::external_body]
pub(crate) fn syn_accepts_ident(text: &str) -> (r: bool)
    ensures
        r == ident_parses(text@),
{
    syn::parse_str::<syn::Ident>(text).is_ok()
}

/// A token, as the argument grammars read it.
#[derive(Debug)]
pub enum Tok {
    /// An identifier or keyword, as it is written.
    Ident(String),
    /// A punctuation character, and whether it is joined to the next one.
    Punct(char, bool),
    /// A string literal, by its value.
    Str(String),
    /// Any other literal.
    Lit,
    /// A delimited group and the tokens inside it.
    Group(Delim, Vec<Tok>),
}

/// [`Tok`] with texts as character sequences.
pub enum TokView {
    Ident(Seq<char>),
    Punct(char, bool),
    Str(Seq<char>),
    Lit,
    Group(Delim, Seq<TokView>),
}

/// A token by its texts.
pub open spec fn tok_view(t: Tok) -> TokView
    decreases t,
{
    match t {
        Tok::Ident(s) => TokView::Ident(s@),
        Tok::Punct(c, j) => TokView::Punct(c, j),
        Tok::Str(s) => TokView::Str(s@),
        Tok::Lit => TokView::Lit,
        Tok::Group(d, v) => TokView::Group(d, toks_view(v@)),
    }
}

/// Tokens by their texts.
pub open spec fn toks_view(s: Seq<Tok>) -> Seq<TokView>
    decreases s,
{
    if s.len() == 0 {
        Seq::empty()
    } else {
        toks_view(s.drop_last()).push(tok_view(s.last()))
    }
}

/// The tokens of one token tree: a string literal by its value; a group
/// without visible delimiters read through, as `syn` does.
pub open spec fn lex_tree(m: TreeModel) -> Seq<TokView>
    decreases m,
{
    match m {
        TreeModel::Ident(s) => seq![TokView::Ident(s)],
        TreeModel::Punct(c, j) => seq![TokView::Punct(c, j)],
        TreeModel::Literal(t) => match str_literal_value(t) {
            Some(v) => seq![TokView::Str(v)],
            None => seq![TokView::Lit],
        },
        TreeModel::Group(d, inner) => if d == Delim::Invisible {
            lex_spec(inner)
        } else {
            seq![TokView::Group(d, lex_spec(inner))]
        },
    }
}

/// The tokens of token trees, tree by tree.
pub open spec fn lex_spec(trees: Seq<TreeModel>) -> Seq<TokView>
    decreases trees,
{
    if trees.len() == 0 {
        Seq::empty()
    } else {
        lex_tree(trees[0]) + lex_spec(trees.drop_first())
    }
}

/// The view of a token list has its length, and the view of each token in place.
pub proof fn lemma_toks_view(s: Seq<Tok>)
    ensures
        toks_view(s).len() == s.len(),
        forall|i: int| 0 <= i < s.len() ==> #[trigger] toks_view(s)[i] == tok_view(s[i]),
    decreases s.len(),
{
    if s.len() > 0 {
        lemma_toks_view(s.drop_last());
    }
}

/// The view of two token lists joined is their views joined.
pub proof fn lemma_toks_view_add(a: Seq<Tok>, b: Seq<Tok>)
    ensures
        toks_view(a + b) == toks_view(a) + toks_view(b),
{
    lemma_toks_view(a);
    lemma_toks_view(b);
    lemma_toks_view(a + b);
    assert(toks_view(a + b) =~= toks_view(a) + toks_view(b));
}

/// The tokens of a stream.
pub fn lex(ts: proc_macro2::TokenStream) -> (r: Vec<Tok>)
    ensures
        toks_view(r@) == lex_spec(stream_trees(ts)),
    decreases stream_trees(ts),
{
    let ghost all = stream_trees(ts);
    let mut it = stream_iter(ts);
    let mut out: Vec<Tok> = Vec::new();
    let ghost mut k: int = 0;
    assert(all.subrange(0, all.len() as int) =~= all);
    assert(toks_view(out@) + lex_spec(all) =~= lex_spec(all));
    loop
        invariant_except_break
            all == stream_trees(ts),
            0 <= k <= all.len(),
            iter_trees(it) == all.subrange(k, all.len() as int),
            toks_view(out@) + lex_spec(iter_trees(it)) == lex_spec(all),
        ensures
            toks_view(out@) == lex_spec(all),
        decreases all.len() - k,
    {
        let ghost rest = iter_trees(it);
        let ghost before = out@;
        match next_token(&mut it) {
            None => {
                assert(toks_view(out@) + lex_spec(rest) =~= toks_view(out@));
                break;
            },
            Some(raw) => {
                let ghost m = rest[0];
                let ghost tail = lex_spec(rest.drop_first());
                assert(m == all[k]);
                assert(lex_spec(rest) == lex_tree(m) + tail);
                match raw {
                    RawToken::Ident(s) => {
                        let t = Tok::Ident(s);
                        assert(lex_tree(m) == seq![tok_view(t)]);
                        out.push(t);
                    },
                    RawToken::Punct(c, j) => {
                        let t = Tok::Punct(c, j);
                        assert(lex_tree(m) == seq![tok_view(t)]);
                        out.push(t);
                    },
                    RawToken::Literal(text) => {
                        let t = match string_literal_value(text.as_str()) {
                            Some(v) => Tok::Str(v),
                            None => Tok::Lit,
                        };
                        assert(lex_tree(m) == seq![tok_view(t)]);
                        out.push(t);
                    },
                    RawToken::Group(d, inner) => {
                        assert(decreases_to!(all => m));
                        assert(decreases_to!(m => stream_trees(inner)));
                        if d == Delim::Invisible {
                            let mut inner_toks = lex(inner);
                            proof { lemma_toks_view_add(before, inner_toks@); }
                            out.append(&mut inner_toks);
                        } else {
                            let t = Tok::Group(d, lex(inner));
                            assert(lex_tree(m) == seq![tok_view(t)]);
                            out.push(t);
                        }
                    },
                }
                proof {
                    if out@.len() == before.len() + 1 {
                        assert(out@.drop_last() =~= before);
                        assert(toks_view(out@) =~= toks_view(before) + lex_tree(m));
                    }
                    assert(toks_view(out@) + tail =~= toks_view(before) + lex_spec(rest));
                    assert(rest.drop_first() =~= all.subrange(k + 1, all.len() as int));
                    k = k + 1;
                }
            },
        }
    }
    out
}

} // verus!
