//! From the text of a grammar to its tokens.

use proc_macro2::TokenTree;
use vstd::prelude::*;
use crate::parse::{tokens_view, Delim, Token, TokenView};

verus! {

/// `proc_macro2::TokenStream`, a run of token trees. Nothing of what is
/// inside it is known here.
#[verifier::external_type_specification]
#[verifier::external_body]
pub struct ExTokenStream(proc_macro2::TokenStream);

/// The tokens that a `proc_macro2::TokenStream` holds, in order.
pub uninterp spec fn stream_tokens(ts: proc_macro2::TokenStream) -> Seq<TokenView>;

/// The tokens that `proc_macro2` reads a text as; nothing where it rejects
/// the text.
pub uninterp spec fn lexed(src: Seq<char>) -> Option<Seq<TokenView>>;

/// Reads a text as a token stream, by `proc_macro2::TokenStream::from_str`:
/// the stream that it gives, or nothing where it rejects the text. What
/// the tokens are is not stated here; the same text always gives the same.
#[verifier::external_body]
fn lex_stream(src: &str) -> (r: Option<proc_macro2::TokenStream>)
    ensures
        match r {
            Some(ts) => lexed(src@) == Some(stream_tokens(ts)),
            None => lexed(src@).is_none(),
        },
{
    src.parse::<proc_macro2::TokenStream>().ok()
}

/// Hands out the token trees of a `proc_macro2::TokenStream` in the
/// library's own type, by the stream's iterator: a word and a literal by
/// their text, a punctuation by its character, a group by its brackets
/// and its own tokens.
#[verifier::external_body]
fn tokens_of(ts: proc_macro2::TokenStream) -> (r: Vec<Token>)
    ensures
        tokens_view(r@) == stream_tokens(ts),
{
    let mut out = Vec::new();
    for tt in ts {
        out.push(match tt {
            TokenTree::Ident(i) => Token::Ident(i.to_string()),
            TokenTree::Punct(p) => Token::Punct(p.as_char()),
            TokenTree::Literal(l) => Token::Literal(l.to_string()),
            TokenTree::Group(g) => match g.delimiter() {
                proc_macro2::Delimiter::Parenthesis => Token::Group(Delim::Parenthesis, tokens_of(g.stream())),
                proc_macro2::Delimiter::Brace => Token::Group(Delim::Brace, tokens_of(g.stream())),
                proc_macro2::Delimiter::Bracket => Token::Group(Delim::Bracket, tokens_of(g.stream())),
                proc_macro2::Delimiter::None => Token::Group(Delim::Invisible, tokens_of(g.stream())),
            },
        });
    }
    out
}

/// Reads a text as tokens; nothing where the text is rejected.
pub fn lex(src: &str) -> (r: Option<Vec<Token>>)
    ensures
        match r {
            Some(ts) => lexed(src@) == Some(tokens_view(ts@)),
            None => lexed(src@).is_none(),
        },
{
    match lex_stream(src) {
        Some(ts) => Some(tokens_of(ts)),
        None => None,
    }
}

} // verus!
