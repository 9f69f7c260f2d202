//! Errors: what went wrong, where, and the message shown to the user.

use crate::emit::{core_macro, core_macro_tokens};
use crate::token::{views, Location, Token, TokenView};
use vstd::prelude::*;
use vstd::string::StringExecFns;

verus! {

/// The kinds of failure.
#[derive(Debug, PartialEq, Eq)]
pub enum ErrorKind {
    /// A token stands where another kind of token was expected.
    UnexpectedToken(Token),
    /// The tokens ended where more were expected.
    UnexpectedEndOfInput,
    /// No alias of this name is defined (yet).
    UnknownAlias(String),
    /// The default alias was invoked by name.
    ReservedAliasName,
    /// The alias file defines this name twice.
    DuplicateAlias(String),
    /// Tokens follow a complete list of arguments.
    TrailingTokens,
    /// A pattern with the alias filled in is not a sequence of tokens.
    TokenizationError,
    /// A definition of the alias file is not a sequence of tokens.
    MalformedDefinition,
    /// The alias file could not be opened or read.
    IoError,
    /// A whole item was to be rewritten and holds no invocation.
    UnnecessaryRewrite,
}

/// The mathematical value of an [`ErrorKind`].
pub enum ErrorKindView {
    UnexpectedToken(TokenView),
    UnexpectedEndOfInput,
    UnknownAlias(Seq<char>),
    ReservedAliasName,
    DuplicateAlias(Seq<char>),
    TrailingTokens,
    TokenizationError,
    MalformedDefinition,
    IoError,
    UnnecessaryRewrite,
}

impl View for ErrorKind {
    type V = ErrorKindView;

    open spec fn view(&self) -> ErrorKindView {
        match self {
            ErrorKind::UnexpectedToken(token) => ErrorKindView::UnexpectedToken(token@),
            ErrorKind::UnexpectedEndOfInput => ErrorKindView::UnexpectedEndOfInput,
            ErrorKind::UnknownAlias(name) => ErrorKindView::UnknownAlias(name@),
            ErrorKind::ReservedAliasName => ErrorKindView::ReservedAliasName,
            ErrorKind::DuplicateAlias(name) => ErrorKindView::DuplicateAlias(name@),
            ErrorKind::TrailingTokens => ErrorKindView::TrailingTokens,
            ErrorKind::TokenizationError => ErrorKindView::TokenizationError,
            ErrorKind::MalformedDefinition => ErrorKindView::MalformedDefinition,
            ErrorKind::IoError => ErrorKindView::IoError,
            ErrorKind::UnnecessaryRewrite => ErrorKindView::UnnecessaryRewrite,
        }
    }
}

/// A failure: its kind, the place the diagnostic is anchored at, and the
/// message.
#[derive(Debug, PartialEq, Eq)]
pub struct Error {
    pub kind: ErrorKind,
    pub location: Location,
    pub message: String,
}

/// The mathematical value of an [`Error`].
pub struct ErrorView {
    pub kind: ErrorKindView,
    pub location: Location,
    pub message: Seq<char>,
}

impl View for Error {
    type V = ErrorView;

    open spec fn view(&self) -> ErrorView {
        ErrorView { kind: self.kind@, location: self.location, message: self.message@ }
    }
}

/// A token stands where another was expected: reported at that token.
pub open spec fn unexpected_token(token: TokenView) -> ErrorView {
    ErrorView {
        kind: ErrorKindView::UnexpectedToken(token),
        location: token.location(),
        message: "unexpected token"@,
    }
}

/// The tokens ended too early: reported at the call site.
pub open spec fn end_of_input() -> ErrorView {
    ErrorView {
        kind: ErrorKindView::UnexpectedEndOfInput,
        location: Location::CallSite,
        message: "unexpected end of tokens"@,
    }
}

/// The message for a name that no alias has.
pub open spec fn unknown_alias_message(name: Seq<char>) -> Seq<char> {
    "unknown alias '"@ + name + "'"@
}

/// An unknown alias was named: reported at the name.
pub open spec fn unknown_alias(name: Seq<char>, location: Location) -> ErrorView {
    ErrorView {
        kind: ErrorKindView::UnknownAlias(name),
        location,
        message: unknown_alias_message(name),
    }
}

/// The default alias was named: reported at the name, in the words used for
/// an unknown alias.
pub open spec fn reserved_name(name: Seq<char>, location: Location) -> ErrorView {
    ErrorView {
        kind: ErrorKindView::ReservedAliasName,
        location,
        message: unknown_alias_message(name),
    }
}

/// A name is defined twice: reported at the call site.
pub open spec fn duplicate_alias(name: Seq<char>) -> ErrorView {
    ErrorView {
        kind: ErrorKindView::DuplicateAlias(name),
        location: Location::CallSite,
        message: "duplicate alias name in alias file"@,
    }
}

/// Tokens follow the arguments: reported at the first of them.
pub open spec fn trailing_tokens(token: TokenView) -> ErrorView {
    ErrorView {
        kind: ErrorKindView::TrailingTokens,
        location: token.location(),
        message: "unexpected token"@,
    }
}

/// A pattern with the alias filled in is not a sequence of tokens.
pub open spec fn tokenization_error() -> ErrorView {
    ErrorView {
        kind: ErrorKindView::TokenizationError,
        location: Location::CallSite,
        message: "error parsing alias"@,
    }
}

/// A definition is not a sequence of tokens.
pub open spec fn malformed_definition() -> ErrorView {
    ErrorView {
        kind: ErrorKindView::MalformedDefinition,
        location: Location::CallSite,
        message: "error parsing alias file"@,
    }
}

/// A whole item holds no invocation.
pub open spec fn unnecessary_rewrite() -> ErrorView {
    ErrorView {
        kind: ErrorKindView::UnnecessaryRewrite,
        location: Location::CallSite,
        message: "unnecessary attribute"@,
    }
}

/// The message of an error that wraps the text of another: what was being
/// done, then what went wrong.
pub open spec fn wrapped_message(error: Seq<char>, message: Seq<char>) -> Seq<char> {
    "error "@ + message + ": "@ + error
}

/// The tokens of the diagnostic for an error: a call of `compile_error`
/// with the message, every token of the call placed where the error is.
pub open spec fn compile_error_tokens(error: ErrorView) -> Seq<TokenView> {
    let call = core_macro_tokens("compile_error"@, error.message);
    Seq::new(call.len(), |i: int| call[i].at(error.location))
}

fn unknown_message(name: &str) -> (r: String)
    ensures
        r@ == unknown_alias_message(name@),
{
    let mut text = String::from_str("unknown alias '");
    text.append(name);
    text.append("'");
    text
}

impl Error {
    /// An error at the call site.
    pub fn new(kind: ErrorKind, message: &str) -> (r: Error)
        ensures
            r@ == (ErrorView { kind: kind@, location: Location::CallSite, message: message@ }),
    {
        Error { kind, location: Location::CallSite, message: message.to_owned() }
    }

    /// An error at the call site that wraps the text of another error:
    /// `message` says what was being done.
    pub fn new_from(kind: ErrorKind, error: &str, message: &str) -> (r: Error)
        ensures
            r@ == (ErrorView {
                kind: kind@,
                location: Location::CallSite,
                message: wrapped_message(error@, message@),
            }),
    {
        let mut text = String::from_str("error ");
        text.append(message);
        text.append(": ");
        text.append(error);
        Error { kind, location: Location::CallSite, message: text }
    }

    /// The error for a token that stands where another was expected.
    pub fn token(token: &Token) -> (r: Error)
        ensures
            r@ == unexpected_token(token@),
    {
        Error {
            kind: ErrorKind::UnexpectedToken(token.clone()),
            location: token.location(),
            message: "unexpected token".to_owned(),
        }
    }

    /// The error for tokens that follow a complete list of arguments.
    pub fn trailing(token: &Token) -> (r: Error)
        ensures
            r@ == trailing_tokens(token@),
    {
        Error {
            kind: ErrorKind::TrailingTokens,
            location: token.location(),
            message: "unexpected token".to_owned(),
        }
    }

    /// The error for tokens that end too early.
    pub fn end_of_input() -> (r: Error)
        ensures
            r@ == end_of_input(),
    {
        Error::new(ErrorKind::UnexpectedEndOfInput, "unexpected end of tokens")
    }

    /// The error for a name that no alias has.
    pub fn unknown(name: &str, location: Location) -> (r: Error)
        ensures
            r@ == unknown_alias(name@, location),
    {
        Error {
            kind: ErrorKind::UnknownAlias(name.to_owned()),
            location,
            message: unknown_message(name),
        }
    }

    /// The error for the default alias named explicitly.
    pub fn reserved(name: &str, location: Location) -> (r: Error)
        ensures
            r@ == reserved_name(name@, location),
    {
        Error { kind: ErrorKind::ReservedAliasName, location, message: unknown_message(name) }
    }

    /// The tokens of the diagnostic for this error.
    pub fn into_compile_error(self) -> (r: Vec<Token>)
        ensures
            views(r@) == compile_error_tokens(self@),
    {
        let mut tokens = core_macro("compile_error", self.message.as_str());
        let ghost call = views(tokens@);
        let mut i: usize = 0;
        while i < tokens.len()
            invariant
                i <= tokens@.len(),
                tokens@.len() == call.len(),
                forall|j: int| 0 <= j < i ==> tokens@[j]@ == call[j].at(self.location),
                forall|j: int| i <= j < tokens@.len() ==> tokens@[j]@ == call[j],
            decreases tokens.len() - i,
        {
            let mut token = tokens[i].clone();
            token.set_location(self.location);
            tokens.set(i, token);
            i += 1;
        }
        tokens
    }
}

} // verus!
