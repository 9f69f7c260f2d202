//! What loading an alias file means.

use crate::error::{
    duplicate_alias, end_of_input, malformed_definition, unexpected_token, Error, ErrorView,
};
use crate::lexer::lexed;
use crate::resolve::{resolve_body, TableView};
use crate::text::definitions;
use crate::token::{copy_range, views, Token, TokenView};
use vstd::prelude::*;

verus! {

/// The name and the raw pattern of a definition: an identifier, then `=`,
/// then the pattern.
pub open spec fn definition_of(tokens: Seq<TokenView>) -> Result<
    (Seq<char>, Seq<TokenView>),
    ErrorView,
> {
    if tokens.len() == 0 {
        Err(end_of_input())
    } else {
        match tokens[0] {
            TokenView::Identifier(name, _) => {
                if tokens.len() == 1 {
                    Err(end_of_input())
                } else if !tokens[1].is_mark('=') {
                    Err(unexpected_token(tokens[1]))
                } else {
                    Ok((name, tokens.skip(2)))
                }
            },
            _ => Err(unexpected_token(tokens[0])),
        }
    }
}

/// The table with one more definition, given by its tokens. The pattern is
/// resolved against the table as it stands, so it can refer to aliases
/// defined before it and to no others. A name that is already defined is
/// refused.
pub open spec fn define_spec(table: TableView, tokens: Seq<TokenView>) -> Result<
    TableView,
    ErrorView,
> {
    match definition_of(tokens) {
        Ok((name, raw)) => match resolve_body(table, raw) {
            Ok((expansion, _)) => if table.contains_key(name) {
                Err(duplicate_alias(name))
            } else {
                Ok(table.insert(name, expansion))
            },
            Err(error) => Err(error),
        },
        Err(error) => Err(error),
    }
}

/// The table with one more definition, given by its text.
pub open spec fn define_text(table: TableView, text: Seq<char>) -> Result<TableView, ErrorView> {
    match lexed(text) {
        Some(tokens) => define_spec(table, tokens),
        None => Err(malformed_definition()),
    }
}

/// The table that the first `n` definitions make, or the first error among
/// them.
pub open spec fn load_upto(texts: Seq<Seq<char>>, n: nat) -> Result<TableView, ErrorView>
    decreases n,
{
    if n == 0 || n > texts.len() {
        Ok(TableView::empty())
    } else {
        match load_upto(texts, (n - 1) as nat) {
            Ok(table) => define_text(table, texts[n - 1]),
            Err(error) => Err(error),
        }
    }
}

/// The table that an alias file defines, or the first error in it.
pub open spec fn load_spec(source: Seq<char>) -> Result<TableView, ErrorView> {
    load_upto(definitions(source), definitions(source).len())
}

/// Once the definitions up to some point fail, the whole file fails the
/// same way.
pub proof fn lemma_load_fails(texts: Seq<Seq<char>>, n: nat, m: nat)
    requires
        n <= m <= texts.len(),
        load_upto(texts, n) is Err,
    ensures
        load_upto(texts, m) == load_upto(texts, n),
    decreases m,
{
    if n < m {
        lemma_load_fails(texts, n, (m - 1) as nat);
    }
}

/// Reads one definition: its name and its raw pattern.
pub fn parse_definition(tokens: &Vec<Token>) -> (r: Result<(String, Vec<Token>), Error>)
    ensures
        match r {
            Ok((name, pattern)) => definition_of(views(tokens@)) == Ok::<
                (Seq<char>, Seq<TokenView>),
                ErrorView,
            >((name@, views(pattern@))),
            Err(error) => definition_of(views(tokens@)) == Err::<
                (Seq<char>, Seq<TokenView>),
                ErrorView,
            >(error@),
        },
{
    if tokens.len() == 0 {
        return Err(Error::end_of_input());
    }
    let name = match &tokens[0] {
        Token::Identifier(name, _) => name.clone(),
        _ => {
            return Err(Error::token(&tokens[0]));
        },
    };
    if tokens.len() == 1 {
        return Err(Error::end_of_input());
    }
    let assigns = match &tokens[1] {
        Token::Punctuation(mark, _, _) => *mark == '=',
        _ => false,
    };
    if !assigns {
        return Err(Error::token(&tokens[1]));
    }
    Ok((name, copy_range(tokens, 2, tokens.len())))
}

} // verus!
