//! What resolving an invocation means.

use crate::error::{reserved_name, tokenization_error, unknown_alias, Error, ErrorView};
use crate::invocation::{lemma_pattern_end, parse_invocation, InvocationView};
use crate::lexer::lexed;
use crate::render::stream_text;
use crate::text::substitute_first;
use crate::token::{views, Delimiter, Token, TokenView};
use vstd::prelude::*;

verus! {

/// The value of an alias table: from each defined name to its expansion.
pub type TableView = Map<Seq<char>, Seq<TokenView>>;

/// The word that marks an invocation.
pub open spec fn keyword() -> Seq<char> {
    "attr_alias"@
}

/// The name of the alias that holds the pattern for invocations without one.
pub open spec fn default_name() -> Seq<char> {
    "default"@
}

/// Whether a token sequence is an invocation: the keyword, then one group
/// in parentheses, then nothing.
pub open spec fn is_invocation(body: Seq<TokenView>) -> bool {
    &&& body.len() == 2
    &&& body[0].is_word(keyword())
    &&& body[1] matches TokenView::Group(Delimiter::Parenthesis, _, _)
}

/// The arguments of an invocation: the tokens inside its parentheses.
pub open spec fn arguments(body: Seq<TokenView>) -> Seq<TokenView> {
    body[1]->Group_1
}

/// The text of the pattern that an invocation is resolved with: the text of
/// its own pattern, else that of the default alias, else a single `*`.
pub open spec fn effective_pattern(table: TableView, pattern: Option<Seq<TokenView>>) -> Seq<char> {
    match pattern {
        Some(tokens) => stream_text(tokens),
        None => if table.contains_key(default_name()) {
            stream_text(table[default_name()])
        } else {
            seq!['*']
        },
    }
}

/// The tokens of the effective pattern with its first `*` replaced by the
/// text of the alias.
pub open spec fn expansion_of(
    table: TableView,
    name: Seq<char>,
    pattern: Option<Seq<TokenView>>,
) -> Result<Seq<TokenView>, ErrorView> {
    match lexed(substitute_first(effective_pattern(table, pattern), stream_text(table[name]))) {
        Some(tokens) => Ok(tokens),
        None => Err(tokenization_error()),
    }
}

/// What an invocation resolves to. The default alias cannot be named; the
/// name must be defined; a pattern that is itself an invocation is resolved
/// first; an empty pattern counts as none.
pub open spec fn resolve_invocation_spec(table: TableView, invocation: InvocationView) -> Result<
    Seq<TokenView>,
    ErrorView,
>
    decreases invocation.tokens(), 1nat,
{
    if invocation.name == default_name() {
        Err(reserved_name(invocation.name, invocation.location))
    } else if !table.contains_key(invocation.name) {
        Err(unknown_alias(invocation.name, invocation.location))
    } else {
        match invocation.pattern {
            Some(pattern) if pattern.len() > 0 => match resolve_body(table, pattern) {
                Ok((resolved, _)) => expansion_of(table, invocation.name, Some(resolved)),
                Err(error) => Err(error),
            },
            _ => expansion_of(table, invocation.name, None),
        }
    }
}

/// What the body of an annotation becomes, and whether it was an
/// invocation. A body that is no invocation stays as it is.
pub open spec fn resolve_body(table: TableView, body: Seq<TokenView>) -> Result<
    (Seq<TokenView>, bool),
    ErrorView,
>
    decreases body, 0nat,
{
    if is_invocation(body) {
        match parse_invocation(arguments(body)) {
            Ok(invocation) => {
                proof {
                    lemma_pattern_below_body(body);
                }
                match resolve_invocation_spec(table, invocation) {
                    Ok(tokens) => Ok((tokens, true)),
                    Err(error) => Err(error),
                }
            },
            Err(error) => Err(error),
        }
    } else {
        Ok((body, false))
    }
}

/// What a list of arguments resolves to.
pub open spec fn resolve_args_spec(table: TableView, args: Seq<TokenView>) -> Result<
    Seq<TokenView>,
    ErrorView,
> {
    match parse_invocation(args) {
        Ok(invocation) => resolve_invocation_spec(table, invocation),
        Err(error) => Err(error),
    }
}

/// The pattern of an invocation is a smaller thing than the invocation.
pub proof fn lemma_pattern_below_body(body: Seq<TokenView>)
    requires
        is_invocation(body),
        parse_invocation(arguments(body)) is Ok,
    ensures
        decreases_to!(body => parse_invocation(arguments(body))->Ok_0.tokens()),
{
    let args = arguments(body);
    let tokens = parse_invocation(args)->Ok_0.tokens();
    if args.len() >= 2 {
        lemma_pattern_end(args, 2);
    }
    if tokens.len() == 0 {
        vstd::seq::axiom_seq_len_decreases(args, tokens);
    }
}

/// What the result of a resolution stands for.
pub open spec fn outcome(result: Result<Vec<Token>, Error>) -> Result<Seq<TokenView>, ErrorView> {
    match result {
        Ok(tokens) => Ok(views(tokens@)),
        Err(error) => Err(error@),
    }
}

} // verus!
