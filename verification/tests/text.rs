use attr_alias::text::{chars_of, same_text, split_definitions, substitute};

#[test]
fn chars_come_in_order() {
    assert_eq!(chars_of("a*é"), vec!['a', '*', 'é']);
    assert_eq!(chars_of(""), Vec::<char>::new());
}

#[test]
fn same_text_compares_characters() {
    assert!(same_text("default", "default"));
    assert!(same_text("", ""));
    assert!(!same_text("default", "defaults"));
    assert!(!same_text("default", "defaulT"));
    assert!(!same_text("a", ""));
}

#[test]
fn substitute_replaces_the_wildcard() {
    assert_eq!(substitute("cfg (*)", "unix"), "cfg (unix)");
    assert_eq!(substitute("*", "target_os = \"macos\""), "target_os = \"macos\"");
    assert_eq!(substitute("not (*) x", ""), "not () x");
}

#[test]
fn substitute_replaces_only_the_first_wildcard() {
    assert_eq!(substitute("a * b * c", "X"), "a X b * c");
    assert_eq!(substitute("**", "ab"), "ab*");
    assert_eq!(substitute("*", "*"), "*");
}

#[test]
fn substitute_without_wildcard_ignores_the_expansion() {
    assert_eq!(substitute("cfg (test)", "unix"), "cfg (test)");
    assert_eq!(substitute("", "unix"), "");
}

#[test]
fn substitute_is_textual_inside_literals() {
    assert_eq!(substitute("doc = \"a*b\" , *", "X"), "doc = \"aXb\" , *");
}

#[test]
fn split_cuts_at_each_line_that_starts_with_a_star() {
    assert_eq!(
        split_definitions("*a = x\n*b = y\n"),
        vec!["a = x".to_string(), "b = y\n".to_string()]
    );
    assert_eq!(split_definitions("*a = x"), vec!["a = x".to_string()]);
}

#[test]
fn split_keeps_patterns_over_several_lines() {
    assert_eq!(
        split_definitions("*a = any(\n    x,\n    y * z,\n)\n*b = c"),
        vec![
            "a = any(\n    x,\n    y * z,\n)".to_string(),
            "b = c".to_string()
        ]
    );
}

#[test]
fn split_finds_no_definition_without_a_star_line() {
    assert_eq!(split_definitions(""), Vec::<String>::new());
    assert_eq!(split_definitions("\n\n  \n"), Vec::<String>::new());
    assert_eq!(split_definitions("a = x\nb = y * z\n"), Vec::<String>::new());
    assert_eq!(split_definitions(" *a = b"), Vec::<String>::new());
}

#[test]
fn split_leaves_out_what_stands_before_the_first_definition() {
    assert_eq!(split_definitions("x\n*a = b"), vec!["a = b".to_string()]);
    assert_eq!(
        split_definitions("\n\n*a = b\n*c = d"),
        vec!["a = b".to_string(), "c = d".to_string()]
    );
    assert_eq!(
        split_definitions("// aliases\n  \n*a = b\n"),
        vec!["a = b\n".to_string()]
    );
}

#[test]
fn split_gives_empty_definitions_for_bare_stars() {
    assert_eq!(split_definitions("*"), vec!["".to_string()]);
    assert_eq!(
        split_definitions("*\n*\n*a"),
        vec!["".to_string(), "".to_string(), "a".to_string()]
    );
    assert_eq!(
        split_definitions("*a\n\n*b\n"),
        vec!["a\n".to_string(), "b\n".to_string()]
    );
}
