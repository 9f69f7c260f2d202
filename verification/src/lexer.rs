//! The boundary to the tokenizer. The rules by which a text falls into
//! tokens are those of `proc_macro2`. What this module states of the calls
//! into that crate is believed, not proved, and the rest of the library
//! rests on it.

use crate::token::{views, Delimiter, Location, Spacing, Token, TokenView};
use proc_macro2::{TokenStream, TokenTree};
use vstd::prelude::*;

verus! {

/// `proc_macro2::TokenStream`, a sequence of token trees. The library sees
/// nothing inside it and only passes it from the lexer to the conversion.
#[verifier::external_type_specification]
#[verifier::external_body]
pub struct ExTokenStream(TokenStream);

/// What a `proc_macro2::TokenStream` holds: its token trees in order, each
/// as the library models it. An identifier and a literal are taken by the
/// text that `proc_macro2` prints for them, and every token is placed at the
/// call site.
pub uninterp spec fn stream_tokens(stream: TokenStream) -> Seq<TokenView>;

/// What `proc_macro2` makes of a text: the tokens it falls into, or `None`
/// where the text is not a sequence of tokens (an unbalanced bracket, an
/// unterminated literal, a character that starts no token). This is the
/// crate's own lexer, which is the only one it has when it is built without
/// its `proc-macro` feature, as this library builds it.
pub uninterp spec fn lexed(text: Seq<char>) -> Option<Seq<TokenView>>;

/// The source text of the string literal that `proc_macro2` writes for a
/// text: the text between double quotes, with escapes where needed.
pub uninterp spec fn quoted(text: Seq<char>) -> Seq<char>;

/// `<proc_macro2::TokenStream as FromStr>::from_str`. Without the crate's
/// `proc-macro` feature this is its own lexer, a function of the text alone,
/// which answers every text with a stream or with an error.
#[verifier::external_body]
fn parse_stream(text: &str) -> (r: Option<TokenStream>)
    ensures
        match r {
            Some(stream) => lexed(text@) == Some(stream_tokens(stream)),
            None => lexed(text@) is None,
        },
{
    match text.parse::<TokenStream>() {
        Ok(stream) => Some(stream),
        Err(_) => None,
    }
}

/// `proc_macro2::TokenStream::into_iter` and the accessors of the four kinds
/// of token tree (`to_string` of an identifier and of a literal, `as_char`
/// and `spacing` of a punctuation mark, `delimiter` and `stream` of a
/// group): hands the contents of a stream over as tokens of the library.
#[verifier::external_body]
fn stream_into_tokens(stream: TokenStream) -> (r: Vec<Token>)
    ensures
        views(r@) == stream_tokens(stream),
{
    stream.into_iter().map(|tree| match tree {
        TokenTree::Ident(x) => Token::Identifier(x.to_string(), Location::CallSite),
        TokenTree::Punct(x) => Token::Punctuation(x.as_char(), match x.spacing() {
            proc_macro2::Spacing::Joint => Spacing::Joint,
            proc_macro2::Spacing::Alone => Spacing::Alone,
        }, Location::CallSite),
        TokenTree::Literal(x) => Token::Literal(x.to_string(), Location::CallSite),
        TokenTree::Group(x) => Token::Group(match x.delimiter() {
            proc_macro2::Delimiter::Parenthesis => Delimiter::Parenthesis,
            proc_macro2::Delimiter::Bracket => Delimiter::Bracket,
            proc_macro2::Delimiter::Brace => Delimiter::Brace,
            proc_macro2::Delimiter::None => Delimiter::Invisible,
        }, stream_into_tokens(x.stream()), Location::CallSite),
    }).collect()
}

/// `proc_macro2::Literal::string`, printed: the source text of a string
/// literal whose value is `text`.
#[verifier::external_body]
pub(crate) fn string_literal(text: &str) -> (r: String)
    ensures
        r@ == quoted(text@),
{
    proc_macro2::Literal::string(text).to_string()
}

/// Splits a text into tokens, all placed at the call site. `None` where the
/// text is not a sequence of tokens.
pub fn tokenize(text: &str) -> (r: Option<Vec<Token>>)
    ensures
        match r {
            Some(tokens) => lexed(text@) == Some(views(tokens@)),
            None => lexed(text@) is None,
        },
{
    match parse_stream(text) {
        Some(stream) => Some(stream_into_tokens(stream)),
        None => None,
    }
}

} // verus!
