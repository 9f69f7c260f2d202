//! The flattened text of a token sequence.

use crate::token::{lemma_group_view, views, Delimiter, Spacing, Token, TokenView};
use vstd::prelude::*;
use vstd::string::StringExecFns;

verus! {

/// What is written before the tokens of a group.
pub open spec fn opening(delimiter: Delimiter) -> Seq<char> {
    match delimiter {
        Delimiter::Parenthesis => seq!['('],
        Delimiter::Bracket => seq!['['],
        Delimiter::Brace => seq!['{', ' '],
        Delimiter::Invisible => Seq::empty(),
    }
}

/// What is written behind the tokens of a group. A brace group that is not
/// empty gets a blank before its closing brace.
pub open spec fn closing(delimiter: Delimiter, empty: bool) -> Seq<char> {
    match delimiter {
        Delimiter::Parenthesis => seq![')'],
        Delimiter::Bracket => seq![']'],
        Delimiter::Brace => if empty {
            seq!['}']
        } else {
            seq![' ', '}']
        },
        Delimiter::Invisible => Seq::empty(),
    }
}

/// What is written between token `i - 1` and token `i`: one blank, unless
/// the token before is a punctuation mark joined to the next.
pub open spec fn gap(tokens: Seq<TokenView>, i: int) -> Seq<char> {
    if 0 < i <= tokens.len() && !(tokens[i - 1] matches TokenView::Punctuation(
        _,
        Spacing::Joint,
        _,
    )) {
        seq![' ']
    } else {
        Seq::empty()
    }
}

/// The text of one token.
pub open spec fn token_text(token: TokenView) -> Seq<char>
    decreases token, 0nat,
{
    match token {
        TokenView::Identifier(text, _) => text,
        TokenView::Punctuation(mark, _, _) => seq![mark],
        TokenView::Literal(text, _) => text,
        TokenView::Group(delimiter, inner, _) => opening(delimiter) + text_upto(
            inner,
            inner.len(),
        ) + closing(delimiter, inner.len() == 0),
    }
}

/// The text of the first `n` tokens.
pub open spec fn text_upto(tokens: Seq<TokenView>, n: nat) -> Seq<char>
    decreases tokens, n,
{
    if n == 0 || n > tokens.len() {
        Seq::empty()
    } else {
        text_upto(tokens, (n - 1) as nat) + gap(tokens, n - 1) + token_text(tokens[n - 1])
    }
}

/// The flattened text of a token sequence: the texts of its tokens in order,
/// with one blank between two tokens unless the first is a joined
/// punctuation mark.
pub open spec fn stream_text(tokens: Seq<TokenView>) -> Seq<char> {
    text_upto(tokens, tokens.len())
}

fn push_opening(delimiter: Delimiter, out: &mut String)
    ensures
        final(out)@ == old(out)@ + opening(delimiter),
{
    match delimiter {
        Delimiter::Parenthesis => {
            out.push('(');
        },
        Delimiter::Bracket => {
            out.push('[');
        },
        Delimiter::Brace => {
            out.push('{');
            out.push(' ');
        },
        Delimiter::Invisible => {},
    }
}

fn push_closing(delimiter: Delimiter, empty: bool, out: &mut String)
    ensures
        final(out)@ == old(out)@ + closing(delimiter, empty),
{
    match delimiter {
        Delimiter::Parenthesis => {
            out.push(')');
        },
        Delimiter::Bracket => {
            out.push(']');
        },
        Delimiter::Brace => {
            if !empty {
                out.push(' ');
            }
            out.push('}');
        },
        Delimiter::Invisible => {},
    }
}

fn render_token(token: &Token, out: &mut String)
    ensures
        final(out)@ == old(out)@ + token_text(token@),
    decreases token, 0nat,
{
    match token {
        Token::Identifier(text, _) => {
            out.append(text.as_str());
        },
        Token::Punctuation(mark, _, _) => {
            out.push(*mark);
        },
        Token::Literal(text, _) => {
            out.append(text.as_str());
        },
        Token::Group(delimiter, inner, location) => {
            proof {
                lemma_group_view(*delimiter, *inner, *location);
            }
            push_opening(*delimiter, out);
            render_into(inner, out);
            push_closing(*delimiter, inner.len() == 0, out);
        },
    }
}

fn render_into(tokens: &Vec<Token>, out: &mut String)
    ensures
        final(out)@ == old(out)@ + stream_text(views(tokens@)),
    decreases tokens, 1nat,
{
    let ghost start = out@;
    let ghost model = views(tokens@);
    let mut joint = false;
    let mut i: usize = 0;
    while i < tokens.len()
        invariant
            i <= tokens@.len(),
            model == views(tokens@),
            out@ == start + text_upto(model, i as nat),
            joint == (i > 0 && model[i - 1] matches TokenView::Punctuation(_, Spacing::Joint, _)),
        decreases tokens.len() - i,
    {
        if i != 0 && !joint {
            out.push(' ');
        }
        joint = is_joint(&tokens[i]);
        render_token(&tokens[i], out);
        i += 1;
    }
}

/// Whether the token is a punctuation mark joined to the next.
fn is_joint(token: &Token) -> (r: bool)
    ensures
        r == (token@ matches TokenView::Punctuation(_, Spacing::Joint, _)),
{
    match token {
        Token::Punctuation(_, Spacing::Joint, _) => true,
        _ => false,
    }
}

/// Writes a token sequence out as text.
pub fn render(tokens: &Vec<Token>) -> (r: String)
    ensures
        r@ == stream_text(views(tokens@)),
{
    let mut out = String::new();
    render_into(tokens, &mut out);
    out
}

} // verus!
