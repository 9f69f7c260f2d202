//! The token model: identifiers, punctuation marks, literals and delimited
//! groups, each tagged with the place it came from.

use vstd::prelude::*;

verus! {

/// The kind of bracket that encloses a group.
#[derive(Clone, Copy, Debug, PartialEq, Eq, Structural)]
pub enum Delimiter {
    /// `( ... )`
    Parenthesis,
    /// `[ ... ]`
    Bracket,
    /// `{ ... }`
    Brace,
    /// A group without visible brackets.
    Invisible,
}

/// Whether a punctuation mark is glued to the mark that follows it.
#[derive(Clone, Copy, Debug, PartialEq, Eq, Structural)]
pub enum Spacing {
    /// The next token is a punctuation mark that continues this operator.
    Joint,
    /// The operator ends here.
    Alone,
}

/// Where a token came from. The caller numbers the places of its input;
/// tokens that the library makes itself are at the call site.
#[derive(Clone, Copy, Debug, PartialEq, Eq, Structural)]
pub enum Location {
    /// The place where the library was invoked.
    CallSite,
    /// A place in the caller's input, by the caller's own numbering.
    Input(usize),
}

/// One syntax element. A sequence of tokens is in source order.
#[derive(Debug, PartialEq, Eq)]
pub enum Token {
    /// A name, with its text.
    Identifier(String, Location),
    /// A single punctuation character.
    Punctuation(char, Spacing, Location),
    /// A literal, with its source text (quotes and suffix included).
    Literal(String, Location),
    /// A bracketed sequence of tokens.
    Group(Delimiter, Vec<Token>, Location),
}

/// The mathematical value of a [`Token`].
pub enum TokenView {
    Identifier(Seq<char>, Location),
    Punctuation(char, Spacing, Location),
    Literal(Seq<char>, Location),
    Group(Delimiter, Seq<TokenView>, Location),
}

impl View for Token {
    type V = TokenView;

    open spec fn view(&self) -> TokenView
        decreases self,
    {
        match self {
            Token::Identifier(text, location) => TokenView::Identifier(text@, *location),
            Token::Punctuation(mark, spacing, location) => TokenView::Punctuation(
                *mark,
                *spacing,
                *location,
            ),
            Token::Literal(text, location) => TokenView::Literal(text@, *location),
            Token::Group(delimiter, inner, location) => TokenView::Group(
                *delimiter,
                Seq::new(
                    inner@.len(),
                    |i: int|
                        if 0 <= i < inner@.len() {
                            inner@[i]@
                        } else {
                            arbitrary()
                        },
                ),
                *location,
            ),
        }
    }
}

/// The values of a sequence of tokens, one for one.
pub open spec fn views(tokens: Seq<Token>) -> Seq<TokenView> {
    Seq::new(tokens.len(), |i: int| tokens[i]@)
}

/// The value of a group is the group of the values of its tokens.
pub proof fn lemma_group_view(delimiter: Delimiter, inner: Vec<Token>, location: Location)
    ensures
        Token::Group(delimiter, inner, location)@ == TokenView::Group(
            delimiter,
            views(inner@),
            location,
        ),
{
    reveal_with_fuel(<Token as View>::view, 2);
    assert(Token::Group(delimiter, inner, location)@->Group_1 =~= views(inner@));
}

impl TokenView {
    /// The place the token came from.
    pub open spec fn location(self) -> Location {
        match self {
            TokenView::Identifier(_, location) => location,
            TokenView::Punctuation(_, _, location) => location,
            TokenView::Literal(_, location) => location,
            TokenView::Group(_, _, location) => location,
        }
    }

    /// The same token at another place. The tokens inside a group stay
    /// where they are.
    pub open spec fn at(self, location: Location) -> TokenView {
        match self {
            TokenView::Identifier(text, _) => TokenView::Identifier(text, location),
            TokenView::Punctuation(mark, spacing, _) => TokenView::Punctuation(
                mark,
                spacing,
                location,
            ),
            TokenView::Literal(text, _) => TokenView::Literal(text, location),
            TokenView::Group(delimiter, inner, _) => TokenView::Group(delimiter, inner, location),
        }
    }

    /// Whether the token is the punctuation mark `mark`, with any spacing.
    pub open spec fn is_mark(self, mark: char) -> bool {
        self matches TokenView::Punctuation(c, _, _) && c == mark
    }

    /// Whether the token is the identifier `name`.
    pub open spec fn is_word(self, name: Seq<char>) -> bool {
        self matches TokenView::Identifier(text, _) && text == name
    }
}

impl Token {
    /// An identifier at the call site.
    pub fn identifier(text: &str) -> (r: Token)
        ensures
            r@ == TokenView::Identifier(text@, Location::CallSite),
    {
        Token::Identifier(text.to_owned(), Location::CallSite)
    }

    /// A punctuation mark at the call site.
    pub fn punctuation(mark: char, spacing: Spacing) -> (r: Token)
        ensures
            r@ == TokenView::Punctuation(mark, spacing, Location::CallSite),
    {
        Token::Punctuation(mark, spacing, Location::CallSite)
    }

    /// A literal at the call site.
    pub fn literal(text: &str) -> (r: Token)
        ensures
            r@ == TokenView::Literal(text@, Location::CallSite),
    {
        Token::Literal(text.to_owned(), Location::CallSite)
    }

    /// A group at the call site.
    pub fn group(delimiter: Delimiter, inner: Vec<Token>) -> (r: Token)
        ensures
            r@ == TokenView::Group(delimiter, views(inner@), Location::CallSite),
    {
        proof {
            lemma_group_view(delimiter, inner, Location::CallSite);
        }
        Token::Group(delimiter, inner, Location::CallSite)
    }

    /// The place the token came from.
    pub fn location(&self) -> (r: Location)
        ensures
            r == self@.location(),
    {
        match self {
            Token::Identifier(_, location) => *location,
            Token::Punctuation(_, _, location) => *location,
            Token::Literal(_, location) => *location,
            Token::Group(_, _, location) => *location,
        }
    }

    /// Moves the token to another place.
    pub fn set_location(&mut self, location: Location)
        ensures
            final(self)@ == old(self)@.at(location),
    {
        match self {
            Token::Identifier(_, place) => {
                *place = location;
            },
            Token::Punctuation(_, _, place) => {
                *place = location;
            },
            Token::Literal(_, place) => {
                *place = location;
            },
            Token::Group(_, _, place) => {
                *place = location;
            },
        }
    }
}

impl Clone for Token {
    /// A deep copy of the token.
    fn clone(&self) -> (r: Token)
        ensures
            r@ == self@,
        decreases self,
    {
        match self {
            Token::Identifier(text, location) => Token::Identifier(text.clone(), *location),
            Token::Punctuation(mark, spacing, location) => Token::Punctuation(
                *mark,
                *spacing,
                *location,
            ),
            Token::Literal(text, location) => Token::Literal(text.clone(), *location),
            Token::Group(delimiter, inner, location) => {
                let mut copy: Vec<Token> = Vec::new();
                let mut i: usize = 0;
                while i < inner.len()
                    invariant
                        i <= inner.len(),
                        copy@.len() == i,
                        forall|j: int| 0 <= j < i ==> copy@[j]@ == inner@[j]@,
                        self matches Token::Group(_, v, _) && v == inner,
                    decreases inner.len() - i,
                {
                    copy.push(inner[i].clone());
                    i += 1;
                }
                proof {
                    lemma_group_view(*delimiter, copy, *location);
                    lemma_group_view(*delimiter, *inner, *location);
                    assert(views(copy@) =~= views(inner@));
                }
                Token::Group(*delimiter, copy, *location)
            },
        }
    }
}

/// Whether the token is a comma.
pub fn is_comma(token: &Token) -> (r: bool)
    ensures
        r == token@.is_mark(','),
{
    match token {
        Token::Punctuation(mark, _, _) => *mark == ',',
        _ => false,
    }
}

/// A deep copy of `tokens[from..to]`.
pub(crate) fn copy_range(tokens: &Vec<Token>, from: usize, to: usize) -> (r: Vec<Token>)
    requires
        from <= to <= tokens@.len(),
    ensures
        views(r@) == views(tokens@).subrange(from as int, to as int),
{
    let mut copy: Vec<Token> = Vec::new();
    let mut i: usize = from;
    while i < to
        invariant
            from <= i <= to <= tokens@.len(),
            copy@.len() == i - from,
            forall|j: int| 0 <= j < copy@.len() ==> copy@[j]@ == tokens@[from + j]@,
        decreases to - i,
    {
        copy.push(tokens[i].clone());
        i += 1;
    }
    copy
}

/// A deep copy of a token sequence.
pub fn copy_tokens(tokens: &Vec<Token>) -> (r: Vec<Token>)
    ensures
        views(r@) == views(tokens@),
{
    let copy = copy_range(tokens, 0, tokens.len());
    copy
}

} // verus!
