//! Aliases for attributes.
//!
//! An alias file gives short names to attribute values. An invocation,
//! `attr_alias(name)` or `attr_alias(name, pattern)`, stands for the pattern
//! with its first `*` replaced by the value of the alias. This library reads
//! alias files, resolves invocations, and rewrites whole token trees by
//! resolving every invocation in them.

pub mod aliases;
pub mod emit;
pub mod error;
pub mod invocation;
pub mod laws;
pub mod lexer;
pub mod load;
pub mod render;
pub mod resolve;
pub mod rewrite;
pub mod text;
pub mod token;

pub use crate::aliases::Aliases;
pub use crate::error::{Error, ErrorKind};
pub use crate::invocation::AliasInvocation;
pub use crate::rewrite::{eval_item, needs_aliases};
pub use crate::token::{Delimiter, Location, Spacing, Token};

use crate::emit::{mark, trigger_tokens};
use crate::error::{unexpected_token, unnecessary_rewrite, ErrorView};
use crate::resolve::{outcome, resolve_args_spec, TableView};
use crate::rewrite::rewrite_spec;
use crate::token::{views, TokenView};
use vstd::prelude::*;

verus! {

/// The tokens of the annotation `#[alias]`.
pub open spec fn annotation_tokens(alias: Seq<TokenView>) -> Seq<TokenView> {
    seq![
        mark('#', Spacing::Joint),
        TokenView::Group(Delimiter::Bracket, alias, Location::CallSite),
    ]
}

/// What an annotated item becomes: the resolved annotation, then the item.
pub open spec fn attr_alias_spec(
    table: TableView,
    args: Seq<TokenView>,
    item: Seq<TokenView>,
) -> Result<Seq<TokenView>, ErrorView> {
    match resolve_args_spec(table, args) {
        Ok(alias) => Ok(annotation_tokens(alias) + item),
        Err(error) => Err(error),
    }
}

/// What a whole item becomes: the item with every invocation resolved, then
/// the tokens that make the build depend on the alias file. An item without
/// any invocation is an error.
pub open spec fn eval_block_spec(
    table: TableView,
    item: Seq<TokenView>,
    alias_file: Seq<char>,
) -> Result<Seq<TokenView>, ErrorView> {
    match rewrite_spec(table, item) {
        Ok((tree, resolved)) => if resolved {
            Ok(tree + trigger_tokens(alias_file))
        } else {
            Err(unnecessary_rewrite())
        },
        Err(error) => Err(error),
    }
}

/// What a whole item becomes when the rewrite is asked for by an attribute:
/// the attribute takes no arguments.
pub open spec fn eval_spec(
    table: TableView,
    args: Seq<TokenView>,
    item: Seq<TokenView>,
    alias_file: Seq<char>,
) -> Result<Seq<TokenView>, ErrorView> {
    if args.len() > 0 {
        Err(unexpected_token(args[0]))
    } else {
        eval_block_spec(table, item, alias_file)
    }
}

/// Accepts an empty token sequence and refuses any other at its first
/// token.
pub fn parse_empty(tokens: &Vec<Token>) -> (r: Result<(), Error>)
    ensures
        match r {
            Ok(_) => tokens@.len() == 0,
            Err(error) => tokens@.len() > 0 && error@ == unexpected_token(tokens@[0]@),
        },
{
    if tokens.len() == 0 {
        Ok(())
    } else {
        Err(Error::token(&tokens[0]))
    }
}

/// Resolves an alias by a pattern and puts the result, as an annotation,
/// before the item.
///
/// The arguments are the name of the alias and, optionally, a pattern. The
/// first `*` of the pattern is replaced by the value of the alias. Without
/// a pattern, the value of the alias `default` is the pattern, or `*` if
/// that alias is not defined.
pub fn attr_alias(args: Vec<Token>, item: Vec<Token>, aliases: &Aliases) -> (r: Result<
    Vec<Token>,
    Error,
>)
    ensures
        outcome(r) == attr_alias_spec(aliases@, views(args@), views(item@)),
{
    match aliases.resolve_args(&args) {
        Ok(alias) => {
            let mut item = item;
            let ghost rest = views(item@);
            let mut tokens: Vec<Token> = Vec::new();
            tokens.push(Token::punctuation('#', Spacing::Joint));
            tokens.push(Token::group(Delimiter::Bracket, alias));
            tokens.append(&mut item);
            assert(views(tokens@) =~= annotation_tokens(views(alias@)) + rest);
            Ok(tokens)
        },
        Err(error) => Err(error),
    }
}

/// Resolves every invocation in an item and appends the tokens that make
/// the build depend on the alias file at `alias_file`.
pub fn eval_block(item: Vec<Token>, aliases: &Aliases, alias_file: &str) -> (r: Result<
    Vec<Token>,
    Error,
>)
    ensures
        outcome(r) == eval_block_spec(aliases@, views(item@), alias_file@),
{
    match eval_item(&item, aliases) {
        Ok((tree, resolved)) => {
            if resolved {
                let mut tree = tree;
                let ghost front = views(tree@);
                let mut trigger = Aliases::create_trigger(alias_file);
                let ghost back = views(trigger@);
                tree.append(&mut trigger);
                assert(views(tree@) =~= front + back);
                Ok(tree)
            } else {
                Err(Error::new(ErrorKind::UnnecessaryRewrite, "unnecessary attribute"))
            }
        },
        Err(error) => Err(error),
    }
}

/// As [`eval_block`], for use as an attribute on the item: the attribute
/// takes no arguments.
pub fn eval(args: Vec<Token>, item: Vec<Token>, aliases: &Aliases, alias_file: &str) -> (r: Result<
    Vec<Token>,
    Error,
>)
    ensures
        outcome(r) == eval_spec(aliases@, views(args@), views(item@), alias_file@),
{
    match parse_empty(&args) {
        Ok(_) => eval_block(item, aliases, alias_file),
        Err(error) => Err(error),
    }
}

} // verus!
