//! The arguments of an invocation: the name of an alias and, optionally, a
//! pattern.

use crate::error::{end_of_input, trailing_tokens, unexpected_token, Error, ErrorView};
use crate::token::{copy_range, is_comma, views, Location, Token, TokenView};
use vstd::prelude::*;

verus! {

/// One use of an alias: the name, where the name stands, and the pattern
/// if one is given and not empty.
#[derive(Debug, PartialEq, Eq)]
pub struct AliasInvocation {
    pub name: String,
    pub location: Location,
    pub pattern: Option<Vec<Token>>,
}

/// The mathematical value of an [`AliasInvocation`].
pub struct InvocationView {
    pub name: Seq<char>,
    pub location: Location,
    pub pattern: Option<Seq<TokenView>>,
}

impl InvocationView {
    /// The tokens of the pattern; none where no pattern is given.
    pub open spec fn tokens(self) -> Seq<TokenView> {
        match self.pattern {
            Some(pattern) => pattern,
            None => Seq::empty(),
        }
    }
}

impl View for AliasInvocation {
    type V = InvocationView;

    open spec fn view(&self) -> InvocationView {
        InvocationView {
            name: self.name@,
            location: self.location,
            pattern: match self.pattern {
                Some(pattern) => Some(views(pattern@)),
                None => None,
            },
        }
    }
}

/// The place of the first comma at or behind `from`, or the number of
/// arguments if there is none.
pub open spec fn pattern_end(args: Seq<TokenView>, from: int) -> int
    decreases args.len() - from,
{
    if from < 0 || from >= args.len() {
        args.len() as int
    } else if args[from].is_mark(',') {
        from
    } else {
        pattern_end(args, from + 1)
    }
}

/// The pattern ends at or behind its start and within the arguments, holds
/// no comma, and ends at a comma or at the end of the arguments.
pub proof fn lemma_pattern_end(args: Seq<TokenView>, from: int)
    requires
        0 <= from <= args.len(),
    ensures
        from <= pattern_end(args, from) <= args.len(),
        forall|i: int| from <= i < pattern_end(args, from) ==> !args[i].is_mark(','),
        pattern_end(args, from) < args.len() ==> args[pattern_end(args, from)].is_mark(','),
    decreases args.len() - from,
{
    if from < args.len() && !args[from].is_mark(',') {
        lemma_pattern_end(args, from + 1);
    }
}

/// The invocation that a list of arguments stands for: an identifier, then
/// nothing more, or a comma and the pattern, which runs up to the next comma
/// or to the end. An empty pattern counts as none. Nothing may follow the
/// comma that ends a pattern.
pub open spec fn parse_invocation(args: Seq<TokenView>) -> Result<InvocationView, ErrorView> {
    if args.len() == 0 {
        Err(end_of_input())
    } else {
        match args[0] {
            TokenView::Identifier(name, location) => {
                if args.len() == 1 {
                    Ok(InvocationView { name, location, pattern: None })
                } else if !args[1].is_mark(',') {
                    Err(unexpected_token(args[1]))
                } else {
                    let end = pattern_end(args, 2);
                    if end + 1 < args.len() {
                        Err(trailing_tokens(args[end + 1]))
                    } else {
                        Ok(
                            InvocationView {
                                name,
                                location,
                                pattern: if end == 2 {
                                    None
                                } else {
                                    Some(args.subrange(2, end))
                                },
                            },
                        )
                    }
                }
            },
            _ => Err(unexpected_token(args[0])),
        }
    }
}

impl AliasInvocation {
    /// Reads the arguments of an invocation.
    pub fn parse(args: &Vec<Token>) -> (r: Result<AliasInvocation, Error>)
        ensures
            match r {
                Ok(invocation) => parse_invocation(views(args@)) == Ok::<
                    InvocationView,
                    ErrorView,
                >(invocation@),
                Err(error) => parse_invocation(views(args@)) == Err::<InvocationView, ErrorView>(
                    error@,
                ),
            },
    {
        let ghost model = views(args@);
        if args.len() == 0 {
            return Err(Error::end_of_input());
        }
        let (name, location) = match &args[0] {
            Token::Identifier(name, location) => (name.clone(), *location),
            _ => {
                return Err(Error::token(&args[0]));
            },
        };
        if args.len() == 1 {
            return Ok(AliasInvocation { name, location, pattern: None });
        }
        if !is_comma(&args[1]) {
            return Err(Error::token(&args[1]));
        }
        let mut end: usize = 2;
        while end < args.len() && !is_comma(&args[end])
            invariant
                2 <= end <= args@.len(),
                model == views(args@),
                pattern_end(model, 2) == pattern_end(model, end as int),
            decreases args.len() - end,
        {
            end += 1;
        }
        if end < args.len() && end + 1 < args.len() {
            return Err(Error::trailing(&args[end + 1]));
        }
        let pattern = if end == 2 {
            None
        } else {
            Some(copy_range(args, 2, end))
        };
        Ok(AliasInvocation { name, location, pattern })
    }
}

} // verus!
