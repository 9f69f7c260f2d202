//! Token fragments that the library writes itself.

use crate::lexer::{quoted, string_literal};
use crate::token::{views, Delimiter, Location, Spacing, Token, TokenView};
use vstd::prelude::*;

verus! {

/// A punctuation mark at the call site.
pub open spec fn mark(c: char, spacing: Spacing) -> TokenView {
    TokenView::Punctuation(c, spacing, Location::CallSite)
}

/// An identifier at the call site.
pub open spec fn word(text: Seq<char>) -> TokenView {
    TokenView::Identifier(text, Location::CallSite)
}

/// The tokens of `::name`.
pub open spec fn segment_tokens(name: Seq<char>) -> Seq<TokenView> {
    seq![mark(':', Spacing::Joint), mark(':', Spacing::Alone), word(name)]
}

/// The tokens of `::core::name!("arg");`, the argument written as a string
/// literal.
pub open spec fn core_macro_tokens(name: Seq<char>, arg: Seq<char>) -> Seq<TokenView> {
    segment_tokens("core"@) + segment_tokens(name) + seq![
        mark('!', Spacing::Alone),
        TokenView::Group(
            Delimiter::Parenthesis,
            seq![TokenView::Literal(quoted(arg), Location::CallSite)],
            Location::CallSite,
        ),
        mark(';', Spacing::Alone),
    ]
}

/// The tokens of `const _: &'static [::core::primitive::u8] =
/// ::core::include_bytes!("path");`: an unnamed constant whose value is the
/// bytes of the file at `path`.
pub open spec fn trigger_tokens(path: Seq<char>) -> Seq<TokenView> {
    seq![
        word("const"@),
        word("_"@),
        mark(':', Spacing::Alone),
        mark('&', Spacing::Alone),
        mark('\'', Spacing::Joint),
        word("static"@),
        TokenView::Group(
            Delimiter::Bracket,
            segment_tokens("core"@) + segment_tokens("primitive"@) + segment_tokens("u8"@),
            Location::CallSite,
        ),
        mark('=', Spacing::Alone),
    ] + core_macro_tokens("include_bytes"@, path)
}

/// Appends the tokens of `::name`.
pub fn push_segment(tokens: &mut Vec<Token>, name: &str)
    ensures
        views(final(tokens)@) == views(old(tokens)@) + segment_tokens(name@),
{
    tokens.push(Token::punctuation(':', Spacing::Joint));
    tokens.push(Token::punctuation(':', Spacing::Alone));
    tokens.push(Token::identifier(name));
}

/// A call of a macro of `core` with one string argument, as a statement.
pub fn core_macro(name: &str, arg: &str) -> (r: Vec<Token>)
    ensures
        views(r@) == core_macro_tokens(name@, arg@),
{
    let mut tokens: Vec<Token> = Vec::new();
    push_segment(&mut tokens, "core");
    push_segment(&mut tokens, name);
    let mut argument: Vec<Token> = Vec::new();
    let literal = string_literal(arg);
    argument.push(Token::literal(literal.as_str()));
    assert(views(argument@) =~= seq![TokenView::Literal(quoted(arg@), Location::CallSite)]);
    tokens.push(Token::punctuation('!', Spacing::Alone));
    tokens.push(Token::group(Delimiter::Parenthesis, argument));
    tokens.push(Token::punctuation(';', Spacing::Alone));
    tokens
}

} // verus!
