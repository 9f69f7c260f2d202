use attr_alias::lexer::tokenize;
use attr_alias::render::render;
use attr_alias::{attr_alias, eval, eval_block, eval_item};
use attr_alias::{Aliases, Delimiter, Error, ErrorKind, Location, Spacing, Token};

const ALIAS_FILE: &str = "*macos = target_os = \"macos\"\n*default = cfg(*)\n";

fn tokens(text: &str) -> Vec<Token> {
    tokenize(text).expect("the text is a sequence of tokens")
}

fn table(source: &str) -> Aliases {
    Aliases::parse(source).expect("the alias file is well formed")
}

#[test]
fn invocation_without_pattern_uses_default_alias() {
    let aliases = table(ALIAS_FILE);
    let resolved = aliases.resolve_args(&tokens("macos")).unwrap();
    assert_eq!(resolved, tokens("cfg(target_os = \"macos\")"));
    let mut body = tokens("attr_alias(macos)");
    assert_eq!(aliases.resolve(&mut body), Ok(true));
    assert_eq!(body, tokens("cfg(target_os = \"macos\")"));
}

#[test]
fn invocation_with_pattern_expands_like_default() {
    let aliases = table("*macos = target_os = \"macos\"\n");
    let resolved = aliases.resolve_args(&tokens("macos, cfg(*)")).unwrap();
    assert_eq!(resolved, tokens("cfg(target_os = \"macos\")"));
    assert_eq!(render(&resolved), "cfg (target_os = \"macos\")");
}

#[test]
fn alias_may_reference_earlier_alias() {
    let aliases = table("*a = foo\n*b = attr_alias(a, bar(*))\n");
    assert_eq!(aliases.len(), 2);
    assert_eq!(aliases.expansion("b").cloned(), Some(tokens("bar(foo)")));
    let mut body = tokens("attr_alias(b)");
    assert_eq!(aliases.resolve(&mut body), Ok(true));
    assert_eq!(body, tokens("bar(foo)"));
}

#[test]
fn default_alias_cannot_be_invoked() {
    let aliases = table(ALIAS_FILE);
    let mut body = tokens("attr_alias(default)");
    let error = aliases.resolve(&mut body).unwrap_err();
    assert_eq!(error.kind, ErrorKind::ReservedAliasName);
    assert_eq!(error.location, Location::CallSite);
    assert_eq!(body, tokens("attr_alias(default)"));
}

#[test]
fn unknown_alias_is_reported_by_name() {
    let aliases = table(ALIAS_FILE);
    let mut body = tokens("attr_alias(unknown_name)");
    let error = aliases.resolve(&mut body).unwrap_err();
    assert_eq!(error.kind, ErrorKind::UnknownAlias("unknown_name".to_string()));
    assert_eq!(error.message, "unknown alias 'unknown_name'");
}

#[test]
fn whole_item_without_invocation_is_unnecessary() {
    let aliases = table(ALIAS_FILE);
    let item = tokens("#[derive(Debug)] struct Point { x: u8 }");
    let error = eval_block(item, &aliases, "/build/src/attr-aliases.txt").unwrap_err();
    assert_eq!(
        error,
        Error::new(ErrorKind::UnnecessaryRewrite, "unnecessary attribute")
    );
}

#[test]
fn rewrite_without_invocation_is_identity() {
    let aliases = table(ALIAS_FILE);
    let item = tokens("#[derive(Debug)] mod a { fn f(x: [u8; 2]) -> (u8, u8) { (x[0], x[1]) } }");
    let (tree, resolved) = eval_item(&item, &aliases).unwrap();
    assert_eq!(tree, item);
    assert!(!resolved);
}

#[test]
fn nested_invocation_is_resolved() {
    let aliases = table(ALIAS_FILE);
    let item = tokens("mod a { fn f() { g((#[attr_alias(macos)] 1, 2)) } }");
    let (tree, resolved) = eval_item(&item, &aliases).unwrap();
    assert!(resolved);
    assert_eq!(
        tree,
        tokens("mod a { fn f() { g((#[cfg(target_os = \"macos\")] 1, 2)) } }")
    );
}

#[test]
fn whole_item_gets_dependency_trigger() {
    let aliases = table(ALIAS_FILE);
    let item = tokens("#[attr_alias(macos)] fn f() {}");
    let out = eval_block(item, &aliases, "/build/src/attr-aliases.txt").unwrap();
    let expected = tokens(
        "#[cfg(target_os = \"macos\")] fn f() {} \
         const _: & 'static [::core::primitive::u8] = \
         ::core::include_bytes!(\"/build/src/attr-aliases.txt\");",
    );
    assert_eq!(out, expected);
}

#[test]
fn eval_refuses_arguments() {
    let aliases = table(ALIAS_FILE);
    let item = tokens("#[attr_alias(macos)] fn f() {}");
    let error = eval(tokens("x y"), item, &aliases, "p").unwrap_err();
    assert_eq!(error, Error::token(&Token::identifier("x")));
    let item = tokens("#[attr_alias(macos)] fn f() {}");
    assert!(eval(Vec::new(), item, &aliases, "p").is_ok());
}

#[test]
fn attr_alias_puts_annotation_before_item() {
    let aliases = table(ALIAS_FILE);
    let out = attr_alias(tokens("macos, cfg(not(*))"), tokens("fn f() {}"), &aliases).unwrap();
    let mut expected = vec![
        Token::punctuation('#', Spacing::Joint),
        Token::group(
            Delimiter::Bracket,
            tokens("cfg(not(target_os = \"macos\"))"),
        ),
    ];
    expected.extend(tokens("fn f() {}"));
    assert_eq!(out, expected);
}
