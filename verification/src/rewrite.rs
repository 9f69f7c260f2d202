//! The walk over a token tree that finds the invocations and resolves them.

use crate::aliases::Aliases;
use crate::error::{Error, ErrorView};
use crate::laws::{
    lemma_rewrite_nested, lemma_rewrite_reports_invocations, lemma_rewrite_without_invocation,
};
use crate::resolve::{is_invocation, resolve_body, TableView};
use crate::token::{copy_tokens, lemma_group_view, views, Delimiter, Token, TokenView};
use vstd::prelude::*;

verus! {

/// Whether token `i` stands right behind an annotation marker: behind a
/// `#`, or behind a `!` that itself stands behind a marker.
pub open spec fn in_annotation(tokens: Seq<TokenView>, i: int) -> bool
    decreases i,
{
    0 < i <= tokens.len() && match tokens[i - 1] {
        TokenView::Punctuation(mark, _, _) => mark == '#' || (mark == '!' && in_annotation(
            tokens,
            i - 1,
        )),
        _ => false,
    }
}

/// What one token becomes, and whether anything in it was resolved. A
/// bracket group right behind an annotation marker is the body of an
/// annotation and is resolved as one; any other group is walked through.
/// Everything else stays as it is.
pub open spec fn rewrite_token(table: TableView, token: TokenView, annotated: bool) -> Result<
    (TokenView, bool),
    ErrorView,
>
    decreases token, 0nat,
{
    match token {
        TokenView::Group(delimiter, inner, location) => {
            let contents = if annotated && delimiter == Delimiter::Bracket {
                resolve_body(table, inner)
            } else {
                rewrite_upto(table, inner, inner.len())
            };
            match contents {
                Ok((body, resolved)) => Ok((TokenView::Group(delimiter, body, location), resolved)),
                Err(error) => Err(error),
            }
        },
        _ => Ok((token, false)),
    }
}

/// What the first `n` tokens become, and whether anything in them was
/// resolved; or the first error among them.
pub open spec fn rewrite_upto(table: TableView, tokens: Seq<TokenView>, n: nat) -> Result<
    (Seq<TokenView>, bool),
    ErrorView,
>
    decreases tokens, n,
{
    if n == 0 || n > tokens.len() {
        Ok((Seq::empty(), false))
    } else {
        match rewrite_upto(table, tokens, (n - 1) as nat) {
            Ok((front, before)) => match rewrite_token(
                table,
                tokens[n - 1],
                in_annotation(tokens, n - 1),
            ) {
                Ok((token, resolved)) => Ok((front.push(token), before || resolved)),
                Err(error) => Err(error),
            },
            Err(error) => Err(error),
        }
    }
}

/// What a token tree becomes when every invocation in it is resolved, and
/// whether there was one; or the first error.
pub open spec fn rewrite_spec(table: TableView, tokens: Seq<TokenView>) -> Result<
    (Seq<TokenView>, bool),
    ErrorView,
> {
    rewrite_upto(table, tokens, tokens.len())
}

/// Whether a token holds an invocation that the walk would resolve: the
/// body of an annotation that is an invocation, or such a body somewhere
/// inside a group that the walk goes through.
pub open spec fn token_invokes(token: TokenView, annotated: bool) -> bool
    decreases token, 0nat,
{
    match token {
        TokenView::Group(delimiter, inner, _) => if annotated && delimiter == Delimiter::Bracket {
            is_invocation(inner)
        } else {
            invokes_upto(inner, inner.len())
        },
        _ => false,
    }
}

/// Whether one of the first `n` tokens holds an invocation.
pub open spec fn invokes_upto(tokens: Seq<TokenView>, n: nat) -> bool
    decreases tokens, n,
{
    0 < n <= tokens.len() && (invokes_upto(tokens, (n - 1) as nat) || token_invokes(
        tokens[n - 1],
        in_annotation(tokens, n - 1),
    ))
}

/// Whether a token tree holds an invocation.
pub open spec fn has_invocation(tokens: Seq<TokenView>) -> bool {
    invokes_upto(tokens, tokens.len())
}

/// Whether a token holds the body of an annotation that the walk would
/// look at: a bracket group right behind an annotation marker, here or
/// somewhere inside a group that the walk goes through.
pub open spec fn token_annotated(token: TokenView, annotated: bool) -> bool
    decreases token, 0nat,
{
    match token {
        TokenView::Group(delimiter, inner, _) => (annotated && delimiter == Delimiter::Bracket)
            || annotated_upto(inner, inner.len()),
        _ => false,
    }
}

/// Whether one of the first `n` tokens holds the body of an annotation.
pub open spec fn annotated_upto(tokens: Seq<TokenView>, n: nat) -> bool
    decreases tokens, n,
{
    0 < n <= tokens.len() && (annotated_upto(tokens, (n - 1) as nat) || token_annotated(
        tokens[n - 1],
        in_annotation(tokens, n - 1),
    ))
}

/// Whether a token tree holds the body of an annotation. Only then does the
/// walk consult the alias table.
pub open spec fn has_annotation(tokens: Seq<TokenView>) -> bool {
    annotated_upto(tokens, tokens.len())
}

/// Whether `path` leads to the body of an annotation that the walk looks
/// at. Each index of the path but the last picks, among the tokens reached
/// so far, a group that the walk goes through; the last picks a bracket
/// group right behind an annotation marker.
pub open spec fn leads_to_annotation(tokens: Seq<TokenView>, path: Seq<int>) -> bool
    decreases path.len(),
{
    path.len() > 0 && 0 <= path[0] < tokens.len() && match tokens[path[0]] {
        TokenView::Group(delimiter, inner, _) => {
            let body = in_annotation(tokens, path[0]) && delimiter == Delimiter::Bracket;
            if path.len() == 1 {
                body
            } else {
                !body && leads_to_annotation(inner, path.drop_first())
            }
        },
        _ => false,
    }
}

/// The tokens inside the group that `path` leads to.
pub open spec fn body_at(tokens: Seq<TokenView>, path: Seq<int>) -> Seq<TokenView>
    decreases path.len(),
{
    if path.len() == 0 {
        tokens
    } else {
        body_at(tokens[path[0]]->Group_1, path.drop_first())
    }
}

/// Once the tokens up to some point fail, the whole sequence fails the same
/// way.
pub proof fn lemma_rewrite_fails(table: TableView, tokens: Seq<TokenView>, n: nat, m: nat)
    requires
        n <= m <= tokens.len(),
        rewrite_upto(table, tokens, n) is Err,
    ensures
        rewrite_upto(table, tokens, m) == rewrite_upto(table, tokens, n),
    decreases m,
{
    if n < m {
        lemma_rewrite_fails(table, tokens, n, (m - 1) as nat);
    }
}

/// Whether the token is an annotation marker: `#`, or `!` behind a marker.
fn is_marker(token: &Token, annotated: bool) -> (r: bool)
    ensures
        r == match token@ {
            TokenView::Punctuation(mark, _, _) => mark == '#' || (mark == '!' && annotated),
            _ => false,
        },
{
    match token {
        Token::Punctuation(mark, _, _) => *mark == '#' || (annotated && *mark == '!'),
        _ => false,
    }
}

/// What the walk over a token tree gives: the new tree and whether anything
/// was resolved.
pub open spec fn walked(result: Result<(Vec<Token>, bool), Error>) -> Result<
    (Seq<TokenView>, bool),
    ErrorView,
> {
    match result {
        Ok((tokens, resolved)) => Ok((views(tokens@), resolved)),
        Err(error) => Err(error@),
    }
}

fn eval_token(token: &Token, annotated: bool, aliases: &Aliases) -> (r: Result<
    (Token, bool),
    Error,
>)
    ensures
        match rewrite_token(aliases@, token@, annotated) {
            Ok((new, resolved)) => r matches Ok((t, b)) && t@ == new && b == resolved,
            Err(error) => r matches Err(e) && e@ == error,
        },
    decreases token, 0nat,
{
    match token {
        Token::Group(delimiter, inner, location) => {
            proof {
                lemma_group_view(*delimiter, *inner, *location);
            }
            let bracket = match delimiter {
                Delimiter::Bracket => true,
                _ => false,
            };
            let contents = if annotated && bracket {
                let mut body = copy_tokens(inner);
                match aliases.resolve(&mut body) {
                    Ok(resolved) => Ok((body, resolved)),
                    Err(error) => Err(error),
                }
            } else {
                eval_item(inner, aliases)
            };
            match contents {
                Ok((body, resolved)) => {
                    proof {
                        lemma_group_view(*delimiter, body, *location);
                    }
                    Ok((Token::Group(*delimiter, body, *location), resolved))
                },
                Err(error) => Err(error),
            }
        },
        _ => Ok((token.clone(), false)),
    }
}

/// Walks a token tree from left to right and resolves every invocation in
/// it. Gives the new tree and whether anything was resolved, or the first
/// error. A tree without invocations comes back as it was. The body of an
/// annotation, at whatever depth it stands, is replaced in its place by what
/// it resolves to.
pub fn eval_item(item: &Vec<Token>, aliases: &Aliases) -> (r: Result<(Vec<Token>, bool), Error>)
    ensures
        walked(r) == rewrite_spec(aliases@, views(item@)),
        r matches Ok((_, resolved)) ==> resolved == has_invocation(views(item@)),
        !has_invocation(views(item@)) ==> walked(r) == Ok::<(Seq<TokenView>, bool), ErrorView>(
            (views(item@), false),
        ),
        r is Ok ==> forall|path: Seq<int>| #[trigger]
            leads_to_annotation(views(item@), path) ==> {
                &&& leads_to_annotation(views(r->Ok_0.0@), path)
                &&& resolve_body(aliases@, body_at(views(item@), path)) is Ok
                &&& body_at(views(r->Ok_0.0@), path) == resolve_body(
                    aliases@,
                    body_at(views(item@), path),
                )->Ok_0.0
                &&& is_invocation(body_at(views(item@), path)) ==> r->Ok_0.1
            },
    decreases item, 1nat,
{
    let ghost model = views(item@);
    let mut tree: Vec<Token> = Vec::new();
    let mut resolved = false;
    let mut annotated = false;
    let mut i: usize = 0;
    assert(views(tree@) =~= Seq::<TokenView>::empty());
    while i < item.len()
        invariant
            i <= item@.len(),
            model == views(item@),
            annotated == in_annotation(model, i as int),
            rewrite_upto(aliases@, model, i as nat) == Ok::<(Seq<TokenView>, bool), ErrorView>(
                (views(tree@), resolved),
            ),
        decreases item.len() - i,
    {
        match eval_token(&item[i], annotated, aliases) {
            Ok((token, found)) => {
                let ghost front = views(tree@);
                tree.push(token);
                assert(views(tree@) =~= front.push(token@));
                resolved = resolved || found;
            },
            Err(error) => {
                proof {
                    lemma_rewrite_fails(aliases@, model, (i + 1) as nat, model.len());
                    if !has_invocation(model) {
                        lemma_rewrite_without_invocation(aliases@, model);
                    }
                }
                return Err(error);
            },
        }
        annotated = is_marker(&item[i], annotated);
        i += 1;
    }
    proof {
        lemma_rewrite_reports_invocations(aliases@, model);
        if !has_invocation(model) {
            lemma_rewrite_without_invocation(aliases@, model);
        }
        assert forall|path: Seq<int>| #[trigger] leads_to_annotation(model, path) implies {
            &&& leads_to_annotation(views(tree@), path)
            &&& resolve_body(aliases@, body_at(model, path)) is Ok
            &&& body_at(views(tree@), path) == resolve_body(aliases@, body_at(model, path))->Ok_0.0
            &&& is_invocation(body_at(model, path)) ==> resolved
        } by {
            lemma_rewrite_nested(aliases@, model, path);
        }
    }
    Ok((tree, resolved))
}

fn token_needs_aliases(token: &Token, annotated: bool) -> (r: bool)
    ensures
        r == token_annotated(token@, annotated),
    decreases token, 0nat,
{
    match token {
        Token::Group(delimiter, inner, location) => {
            proof {
                lemma_group_view(*delimiter, *inner, *location);
            }
            let bracket = match delimiter {
                Delimiter::Bracket => true,
                _ => false,
            };
            (annotated && bracket) || needs_aliases(inner)
        },
        _ => false,
    }
}

/// Whether the walk over a token tree would consult the alias table: whether
/// the tree holds the body of an annotation. A tree that holds none is
/// rewritten the same way against every table, so the table need not be
/// read for it.
pub fn needs_aliases(item: &Vec<Token>) -> (r: bool)
    ensures
        r == has_annotation(views(item@)),
    decreases item, 1nat,
{
    let ghost model = views(item@);
    let mut annotated = false;
    let mut i: usize = 0;
    while i < item.len()
        invariant
            i <= item@.len(),
            model == views(item@),
            annotated == in_annotation(model, i as int),
            !annotated_upto(model, i as nat),
        decreases item.len() - i,
    {
        if token_needs_aliases(&item[i], annotated) {
            proof {
                lemma_annotated_stays(model, (i + 1) as nat, model.len());
            }
            return true;
        }
        annotated = is_marker(&item[i], annotated);
        i += 1;
    }
    false
}

/// Once the body of an annotation stands among the first tokens, it stands
/// in the whole sequence.
pub proof fn lemma_annotated_stays(tokens: Seq<TokenView>, n: nat, m: nat)
    requires
        n <= m <= tokens.len(),
        annotated_upto(tokens, n),
    ensures
        annotated_upto(tokens, m),
    decreases m,
{
    if n < m {
        lemma_annotated_stays(tokens, n, (m - 1) as nat);
    }
}

} // verus!
