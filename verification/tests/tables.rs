use attr_alias::load::parse_definition;
use attr_alias::lexer::tokenize;
use attr_alias::{Aliases, Error, ErrorKind, Location, Token};

fn tokens(text: &str) -> Vec<Token> {
    tokenize(text).expect("the text is a sequence of tokens")
}

#[test]
fn alias_file_has_conventional_place() {
    assert_eq!(Aliases::FILE, "src/attr-aliases.txt");
}

#[test]
fn new_table_is_empty() {
    let aliases = Aliases::new();
    assert_eq!(aliases.len(), 0);
    assert!(!aliases.contains("default"));
    assert_eq!(aliases.expansion("a").cloned(), None);
}

#[test]
fn load_gives_one_entry_for_each_definition() {
    let aliases = Aliases::parse(
        "*macos = target_os = \"macos\"\n\
         *windows = target_os = \"windows\"\n\
         *macos_or_windows = any(\n    target_os = \"macos\",\n    target_os = \"windows\",\n)\n\
         *default = cfg(*)\n",
    )
    .unwrap();
    assert_eq!(aliases.len(), 4);
    assert!(aliases.contains("macos"));
    assert!(aliases.contains("windows"));
    assert!(aliases.contains("macos_or_windows"));
    assert!(aliases.contains("default"));
    assert!(!aliases.contains("linux"));
    assert_eq!(
        aliases.expansion("macos").cloned(),
        Some(tokens("target_os = \"macos\""))
    );
    assert_eq!(aliases.expansion("default").cloned(), Some(tokens("cfg(*)")));
    assert_eq!(
        aliases.expansion("macos_or_windows").cloned(),
        Some(tokens("any(target_os = \"macos\", target_os = \"windows\",)"))
    );
}

#[test]
fn load_resolves_backward_references() {
    let aliases = Aliases::parse(
        "*a = foo\n*b = attr_alias(a, bar(*))\n*c = attr_alias(b, not(*))\n",
    )
    .unwrap();
    assert_eq!(aliases.len(), 3);
    assert_eq!(aliases.expansion("b").cloned(), Some(tokens("bar(foo)")));
    assert_eq!(aliases.expansion("c").cloned(), Some(tokens("not(bar(foo))")));
}

#[test]
fn load_uses_default_defined_so_far() {
    let aliases = Aliases::parse(
        "*a = x\n*b = attr_alias(a)\n*default = cfg(*)\n*c = attr_alias(a)\n",
    )
    .unwrap();
    assert_eq!(aliases.expansion("b").cloned(), Some(tokens("x")));
    assert_eq!(aliases.expansion("c").cloned(), Some(tokens("cfg(x)")));
}

#[test]
fn load_keeps_a_pattern_that_is_no_invocation() {
    let aliases = Aliases::parse("*a = foo\n*b = attr_alias(a), bar(*)\n").unwrap();
    assert_eq!(
        aliases.expansion("b").cloned(),
        Some(tokens("attr_alias(a), bar(*)"))
    );
}

#[test]
fn load_fails_on_duplicate_name() {
    let error = Aliases::parse("*a = x\n*b = y\n*a = z\n").err().unwrap();
    assert_eq!(error.kind, ErrorKind::DuplicateAlias("a".to_string()));
    assert_eq!(error.location, Location::CallSite);
    assert_eq!(error.message, "duplicate alias name in alias file");
}

#[test]
fn load_fails_on_forward_reference() {
    let error = Aliases::parse("*a = attr_alias(b)\n*b = y\n").err().unwrap();
    assert_eq!(error.kind, ErrorKind::UnknownAlias("b".to_string()));
    assert_eq!(error.message, "unknown alias 'b'");
}

#[test]
fn load_fails_on_self_reference() {
    let error = Aliases::parse("*a = attr_alias(a)\n").err().unwrap();
    assert_eq!(error.kind, ErrorKind::UnknownAlias("a".to_string()));
}

#[test]
fn load_fails_on_reference_to_default_by_name() {
    let error = Aliases::parse("*default = cfg(*)\n*a = attr_alias(default)\n")
        .err()
        .unwrap();
    assert_eq!(error.kind, ErrorKind::ReservedAliasName);
    assert_eq!(error.message, "unknown alias 'default'");
}

#[test]
fn load_reports_the_first_error() {
    let error = Aliases::parse("*a = attr_alias(b)\n*a = y\n").err().unwrap();
    assert_eq!(error.kind, ErrorKind::UnknownAlias("b".to_string()));
    let error = Aliases::parse("*a = x\n*= y\n*a = z\n").err().unwrap();
    assert_eq!(
        error.kind,
        ErrorKind::UnexpectedToken(Token::punctuation('=', attr_alias::Spacing::Alone))
    );
}

#[test]
fn load_fails_on_text_that_is_not_tokens() {
    let error = Aliases::parse("*a = (x\n").err().unwrap();
    assert_eq!(
        error,
        Error::new(ErrorKind::MalformedDefinition, "error parsing alias file")
    );
}

#[test]
fn load_of_a_file_without_definitions_is_empty() {
    for source in ["", "\n\n", "  \n\t\n", "// no aliases yet\n", " *a = x\n"] {
        let aliases = Aliases::parse(source).ok().unwrap();
        assert_eq!(aliases.len(), 0);
        assert!(!aliases.contains("a"));
    }
}

#[test]
fn load_leaves_out_what_stands_before_the_first_definition() {
    let aliases = Aliases::parse("// aliases\n\n*b = y\n").ok().unwrap();
    assert_eq!(aliases.len(), 1);
    assert_eq!(aliases.expansion("b").cloned(), Some(tokens("y")));
    let aliases = Aliases::parse("a = x\n*b = y\n").ok().unwrap();
    assert_eq!(aliases.len(), 1);
    assert!(!aliases.contains("a"));
    let aliases = Aliases::parse("\"unclosed\n*b = y\n").ok().unwrap();
    assert_eq!(aliases.len(), 1);
}

#[test]
fn load_fails_on_definition_without_name() {
    let error = Aliases::parse("*\n").err().unwrap();
    assert_eq!(error, Error::end_of_input());
    let error = Aliases::parse("*a = x\n*\n*b = y\n").err().unwrap();
    assert_eq!(error, Error::end_of_input());
}

#[test]
fn definition_is_name_equals_pattern() {
    assert_eq!(
        parse_definition(&tokens("macos = target_os = \"macos\"")),
        Ok(("macos".to_string(), tokens("target_os = \"macos\"")))
    );
    assert_eq!(
        parse_definition(&tokens("empty =")),
        Ok(("empty".to_string(), Vec::new()))
    );
}

#[test]
fn definition_without_name_or_equals_is_refused() {
    assert_eq!(parse_definition(&Vec::new()), Err(Error::end_of_input()));
    assert_eq!(parse_definition(&tokens("a")), Err(Error::end_of_input()));
    assert_eq!(
        parse_definition(&tokens("1 = x")),
        Err(Error::token(&Token::literal("1")))
    );
    assert_eq!(
        parse_definition(&tokens("a b")),
        Err(Error::token(&Token::identifier("b")))
    );
    assert_eq!(
        parse_definition(&tokens("a (=)")),
        Err(Error::token(&tokens("(=)")[0]))
    );
}

#[test]
fn define_adds_one_alias() {
    let mut aliases = Aliases::new();
    assert_eq!(aliases.define(&tokens("a = x y")), Ok(()));
    assert_eq!(aliases.len(), 1);
    assert_eq!(aliases.expansion("a").cloned(), Some(tokens("x y")));
    assert_eq!(aliases.define(&tokens("b = attr_alias(a, f(*))")), Ok(()));
    assert_eq!(aliases.len(), 2);
    assert_eq!(aliases.expansion("b").cloned(), Some(tokens("f(x y)")));
}

#[test]
fn define_leaves_the_table_alone_on_error() {
    let mut aliases = Aliases::new();
    aliases.define(&tokens("a = x")).unwrap();
    let error = aliases.define(&tokens("a = y")).unwrap_err();
    assert_eq!(error.kind, ErrorKind::DuplicateAlias("a".to_string()));
    let error = aliases.define(&tokens("b = attr_alias(c)")).unwrap_err();
    assert_eq!(error.kind, ErrorKind::UnknownAlias("c".to_string()));
    let error = aliases.define(&tokens("b")).unwrap_err();
    assert_eq!(error.kind, ErrorKind::UnexpectedEndOfInput);
    assert_eq!(aliases.len(), 1);
    assert_eq!(aliases.expansion("a").cloned(), Some(tokens("x")));
    assert!(!aliases.contains("b"));
}

#[test]
fn cache_is_filled_once() {
    let mut cache: Option<Aliases> = None;
    {
        let aliases = Aliases::get(&mut cache, "*a = x\n").ok().unwrap();
        assert_eq!(aliases.len(), 1);
    }
    assert!(cache.is_some());
    {
        let aliases = Aliases::get(&mut cache, "*b = y\n*c = z\n").ok().unwrap();
        assert_eq!(aliases.len(), 1);
        assert!(aliases.contains("a"));
        assert!(!aliases.contains("b"));
    }
    {
        let aliases = Aliases::get(&mut cache, "not an alias file").ok().unwrap();
        assert_eq!(aliases.expansion("a").cloned(), Some(tokens("x")));
    }
}

#[test]
fn cache_stays_empty_when_loading_fails() {
    let mut cache: Option<Aliases> = None;
    let error = Aliases::get(&mut cache, "*a = x\n*a = y\n").err().unwrap();
    assert_eq!(error.kind, ErrorKind::DuplicateAlias("a".to_string()));
    assert!(cache.is_none());
    let aliases = Aliases::get(&mut cache, "*a = x\n").ok().unwrap();
    assert!(aliases.contains("a"));
}

#[test]
fn expansion_may_itself_read_as_an_invocation() {
    let aliases = Aliases::parse("*q = (b)\n*p = attr_alias(q, attr_alias *)\n")
        .ok()
        .unwrap();
    assert_eq!(aliases.expansion("p").cloned(), Some(tokens("attr_alias(b)")));
}
