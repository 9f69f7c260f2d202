use attr_alias::emit::{core_macro, push_segment};
use attr_alias::lexer::tokenize;
use attr_alias::render::render;
use attr_alias::{Aliases, Delimiter, Error, ErrorKind, Location, Spacing, Token};

fn tokens(text: &str) -> Vec<Token> {
    tokenize(text).expect("the text is a sequence of tokens")
}

#[test]
fn new_error_is_at_call_site() {
    let error = Error::new(ErrorKind::IoError, "no such file");
    assert_eq!(error.kind, ErrorKind::IoError);
    assert_eq!(error.location, Location::CallSite);
    assert_eq!(error.message, "no such file");
}

#[test]
fn wrapped_error_names_the_operation() {
    let error = Error::new_from(ErrorKind::IoError, "permission denied", "opening alias file");
    assert_eq!(error.kind, ErrorKind::IoError);
    assert_eq!(error.location, Location::CallSite);
    assert_eq!(error.message, "error opening alias file: permission denied");
    let error = Error::new_from(ErrorKind::IoError, "", "reading alias file");
    assert_eq!(error.message, "error reading alias file: ");
}

#[test]
fn token_error_is_at_the_token() {
    let token = Token::Literal("1".to_string(), Location::Input(6));
    let error = Error::token(&token);
    assert_eq!(error.kind, ErrorKind::UnexpectedToken(token));
    assert_eq!(error.location, Location::Input(6));
    assert_eq!(error.message, "unexpected token");
}

#[test]
fn trailing_error_is_at_the_token() {
    let token = Token::Identifier("x".to_string(), Location::Input(9));
    let error = Error::trailing(&token);
    assert_eq!(error.kind, ErrorKind::TrailingTokens);
    assert_eq!(error.location, Location::Input(9));
    assert_eq!(error.message, "unexpected token");
}

#[test]
fn unknown_and_reserved_share_their_words() {
    let unknown = Error::unknown("x", Location::Input(1));
    assert_eq!(unknown.kind, ErrorKind::UnknownAlias("x".to_string()));
    assert_eq!(unknown.message, "unknown alias 'x'");
    assert_eq!(unknown.location, Location::Input(1));
    let reserved = Error::reserved("default", Location::CallSite);
    assert_eq!(reserved.kind, ErrorKind::ReservedAliasName);
    assert_eq!(reserved.message, "unknown alias 'default'");
}

#[test]
fn segment_is_two_colons_and_a_name() {
    let mut path = vec![Token::identifier("x")];
    push_segment(&mut path, "core");
    assert_eq!(
        path,
        vec![
            Token::identifier("x"),
            Token::punctuation(':', Spacing::Joint),
            Token::punctuation(':', Spacing::Alone),
            Token::identifier("core"),
        ]
    );
}

#[test]
fn core_macro_is_a_call_with_a_string() {
    assert_eq!(
        core_macro("compile_error", "unexpected token"),
        tokens("::core::compile_error!(\"unexpected token\");")
    );
    assert_eq!(
        render(&core_macro("include_bytes", "/a/b")),
        ":: core :: include_bytes ! (\"/a/b\") ;"
    );
}

#[test]
fn core_macro_escapes_its_argument() {
    let call = core_macro("compile_error", "unknown alias 'a\"b\\c'\n");
    assert_eq!(
        call[7],
        Token::group(
            Delimiter::Parenthesis,
            vec![Token::literal("\"unknown alias 'a\\\"b\\\\c'\\n\"")],
        )
    );
    assert_eq!(call, tokens("::core::compile_error!(\"unknown alias 'a\\\"b\\\\c'\\n\");"));
}

#[test]
fn compile_error_is_placed_at_the_error() {
    let error = Error::unknown("x", Location::Input(3));
    let out = error.into_compile_error();
    let at = Location::Input(3);
    assert_eq!(
        out,
        vec![
            Token::Punctuation(':', Spacing::Joint, at),
            Token::Punctuation(':', Spacing::Alone, at),
            Token::Identifier("core".to_string(), at),
            Token::Punctuation(':', Spacing::Joint, at),
            Token::Punctuation(':', Spacing::Alone, at),
            Token::Identifier("compile_error".to_string(), at),
            Token::Punctuation('!', Spacing::Alone, at),
            Token::Group(
                Delimiter::Parenthesis,
                vec![Token::literal("\"unknown alias 'x'\"")],
                at,
            ),
            Token::Punctuation(';', Spacing::Alone, at),
        ]
    );
}

#[test]
fn compile_error_at_call_site_reads_as_source() {
    let error = Error::new(ErrorKind::UnnecessaryRewrite, "unnecessary attribute");
    let out = error.into_compile_error();
    assert_eq!(out, tokens("::core::compile_error!(\"unnecessary attribute\");"));
}

#[test]
fn trigger_includes_the_alias_file() {
    assert_eq!(
        Aliases::create_trigger("/build/src/attr-aliases.txt"),
        tokens(
            "const _: & 'static [::core::primitive::u8] = \
             ::core::include_bytes!(\"/build/src/attr-aliases.txt\");"
        )
    );
    assert_eq!(
        render(&Aliases::create_trigger("p")),
        "const _ : & 'static [:: core :: primitive :: u8] = :: core :: include_bytes ! (\"p\") ;"
    );
}
