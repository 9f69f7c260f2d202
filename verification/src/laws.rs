//! What holds of the library as a whole.

use crate::error::{duplicate_alias, unknown_alias, ErrorView};
use crate::invocation::{parse_invocation, InvocationView};
use crate::lexer::lexed;
use crate::load::{definition_of, lemma_load_fails, load_spec, load_upto};
use crate::render::stream_text;
use crate::resolve::{
    arguments, default_name, is_invocation, resolve_body, resolve_invocation_spec, TableView,
};
use crate::rewrite::{
    annotated_upto, body_at, has_annotation, has_invocation, in_annotation, invokes_upto,
    leads_to_annotation, rewrite_spec, rewrite_token, rewrite_upto, token_annotated,
    token_invokes,
};
use crate::text::{definitions, is_marker, next_marker, pieces_from, substitute_first};
use crate::token::{Delimiter, Location, TokenView};
use vstd::prelude::*;

verus! {

/// Substitution with one wildcard: a pattern whose only `*` stands at `i`
/// becomes what stands before it, then the expansion, then what stands
/// behind it.
pub proof fn lemma_substitute_single(pattern: Seq<char>, expansion: Seq<char>, i: int)
    requires
        0 <= i < pattern.len(),
        pattern[i] == '*',
        forall|j: int| 0 <= j < pattern.len() && j != i ==> pattern[j] != '*',
    ensures
        substitute_first(pattern, expansion) == pattern.take(i) + expansion + pattern.skip(i + 1),
{
    pattern.index_of_first_ensures('*');
}

/// Resolving with an explicit pattern: where an invocation gives a pattern
/// that is not itself an invocation and whose text holds exactly one `*`,
/// and resolves to some tokens, these are the tokens of the pattern's text
/// with the `*` replaced by the text of the alias.
pub proof fn lemma_resolve_explicit_pattern(
    table: TableView,
    invocation: InvocationView,
    tokens: Seq<TokenView>,
    i: int,
)
    requires
        invocation.pattern is Some,
        !is_invocation(invocation.pattern->Some_0),
        0 <= i < stream_text(invocation.pattern->Some_0).len(),
        stream_text(invocation.pattern->Some_0)[i] == '*',
        forall|j: int|
            0 <= j < stream_text(invocation.pattern->Some_0).len() && j != i ==> stream_text(
                invocation.pattern->Some_0,
            )[j] != '*',
        resolve_invocation_spec(table, invocation) == Ok::<Seq<TokenView>, ErrorView>(tokens),
    ensures
        lexed(
            stream_text(invocation.pattern->Some_0).take(i) + stream_text(table[invocation.name])
                + stream_text(invocation.pattern->Some_0).skip(i + 1),
        ) == Some(tokens),
{
    lemma_substitute_single(
        stream_text(invocation.pattern->Some_0),
        stream_text(table[invocation.name]),
        i,
    );
}

/// The name that definition `j` of a file gives, where the definition has
/// the shape `name = pattern`.
pub open spec fn name_at(texts: Seq<Seq<char>>, j: int) -> Seq<char> {
    definition_of(lexed(texts[j])->Some_0)->Ok_0.0
}

/// The raw pattern of definition `j`.
pub open spec fn pattern_at(texts: Seq<Seq<char>>, j: int) -> Seq<TokenView> {
    definition_of(lexed(texts[j])->Some_0)->Ok_0.1
}

/// Whether definition `j` is a sequence of tokens of the shape
/// `name = pattern`.
pub open spec fn shaped(texts: Seq<Seq<char>>, j: int) -> bool {
    lexed(texts[j]) is Some && definition_of(lexed(texts[j])->Some_0) is Ok
}

/// A table that was loaded has exactly one entry for each definition read,
/// under the name that the definition gives.
pub proof fn lemma_load_size(texts: Seq<Seq<char>>, n: nat)
    requires
        n <= texts.len(),
        load_upto(texts, n) is Ok,
    ensures
        load_upto(texts, n)->Ok_0.dom().finite(),
        load_upto(texts, n)->Ok_0.len() == n,
        forall|j: int| 0 <= j < n ==> #[trigger] shaped(texts, j),
        forall|j: int|
            0 <= j < n ==> load_upto(texts, n)->Ok_0.contains_key(#[trigger] name_at(texts, j)),
    decreases n,
{
    if n > 0 {
        lemma_load_size(texts, (n - 1) as nat);
        lemma_define_step(texts, n);
    }
}

/// One step of a load that succeeds: the last definition read has the shape
/// `name = pattern`, its name was not defined before, its pattern resolves
/// against the table before it, and the table gains that one entry.
pub proof fn lemma_define_step(texts: Seq<Seq<char>>, n: nat)
    requires
        0 < n <= texts.len(),
        load_upto(texts, n) is Ok,
    ensures
        load_upto(texts, (n - 1) as nat) is Ok,
        shaped(texts, n - 1),
        resolve_body(load_upto(texts, (n - 1) as nat)->Ok_0, pattern_at(texts, n - 1)) is Ok,
        !load_upto(texts, (n - 1) as nat)->Ok_0.contains_key(name_at(texts, n - 1)),
        load_upto(texts, n)->Ok_0 == load_upto(texts, (n - 1) as nat)->Ok_0.insert(
            name_at(texts, n - 1),
            resolve_body(
                load_upto(texts, (n - 1) as nat)->Ok_0,
                pattern_at(texts, n - 1),
            )->Ok_0.0,
        ),
{
}

/// Loading succeeds on backward references and unique names: if every
/// definition has the shape `name = pattern`, no two definitions give the
/// same name, and every pattern resolves against the table of the
/// definitions before it, then the file loads, and the table has as many
/// entries as the file has definitions.
pub proof fn lemma_load_succeeds(texts: Seq<Seq<char>>, n: nat)
    requires
        n <= texts.len(),
        forall|j: int| 0 <= j < n ==> shaped(texts, j),
        forall|i: int, j: int| 0 <= i < j < n ==> name_at(texts, i) != name_at(texts, j),
        forall|j: int|
            0 <= j < n && load_upto(texts, j as nat) is Ok ==> #[trigger] resolve_body(
                load_upto(texts, j as nat)->Ok_0,
                pattern_at(texts, j),
            ) is Ok,
    ensures
        load_upto(texts, n) is Ok,
        load_upto(texts, n)->Ok_0.dom().finite(),
        load_upto(texts, n)->Ok_0.len() == n,
        forall|key: Seq<char>| #[trigger]
            load_upto(texts, n)->Ok_0.contains_key(key) <==> exists|j: int|
                0 <= j < n && name_at(texts, j) == key,
    decreases n,
{
    if n > 0 {
        lemma_load_succeeds(texts, (n - 1) as nat);
        let before = load_upto(texts, (n - 1) as nat)->Ok_0;
        let after = load_upto(texts, n)->Ok_0;
        assert(shaped(texts, n - 1));
        assert(after == before.insert(
            name_at(texts, n - 1),
            resolve_body(before, pattern_at(texts, n - 1))->Ok_0.0,
        ));
        assert forall|key: Seq<char>| #[trigger] after.contains_key(key) implies exists|j: int|
            0 <= j < n && name_at(texts, j) == key by {}
    }
}

/// A duplicate name fails the load: if the definitions before the `j`-th
/// load, and the `j`-th has the shape `name = pattern`, a pattern that
/// resolves, and the name of an earlier definition, then loading the file
/// fails with `DuplicateAlias` of that name, and no table is made.
pub proof fn lemma_load_duplicate(texts: Seq<Seq<char>>, i: int, j: int)
    requires
        0 <= i < j < texts.len(),
        load_upto(texts, j as nat) is Ok,
        shaped(texts, j),
        resolve_body(load_upto(texts, j as nat)->Ok_0, pattern_at(texts, j)) is Ok,
        shaped(texts, i) ==> name_at(texts, i) == name_at(texts, j),
    ensures
        load_upto(texts, texts.len()) == Err::<TableView, ErrorView>(
            duplicate_alias(name_at(texts, j)),
        ),
{
    lemma_load_size(texts, j as nat);
    lemma_load_fails(texts, (j + 1) as nat, texts.len());
}

/// A forward reference fails the load: if the definitions before the `j`-th
/// load, and the pattern of the `j`-th is an invocation of a name, other
/// than the default alias, that none of them defines, then loading the file
/// fails with `UnknownAlias` of that name.
pub proof fn lemma_load_forward_reference(texts: Seq<Seq<char>>, j: int)
    requires
        0 <= j < texts.len(),
        load_upto(texts, j as nat) is Ok,
        shaped(texts, j),
        is_invocation(pattern_at(texts, j)),
        parse_invocation(arguments(pattern_at(texts, j))) is Ok,
        parse_invocation(arguments(pattern_at(texts, j)))->Ok_0.name != default_name(),
        !load_upto(texts, j as nat)->Ok_0.contains_key(
            parse_invocation(arguments(pattern_at(texts, j)))->Ok_0.name,
        ),
    ensures
        load_upto(texts, texts.len()) == Err::<TableView, ErrorView>(
            unknown_alias(
                parse_invocation(arguments(pattern_at(texts, j)))->Ok_0.name,
                parse_invocation(arguments(pattern_at(texts, j)))->Ok_0.location,
            ),
        ),
{
    lemma_load_fails(texts, (j + 1) as nat, texts.len());
}

proof fn lemma_rewrite_token_plain(table: TableView, token: TokenView, annotated: bool)
    ensures
        rewrite_token(table, token, annotated) matches Ok((_, resolved)) ==> resolved
            == token_invokes(token, annotated),
        !token_invokes(token, annotated) ==> rewrite_token(table, token, annotated) == Ok::<
            (TokenView, bool),
            ErrorView,
        >((token, false)),
    decreases token, 0nat,
{
    match token {
        TokenView::Group(delimiter, inner, location) => {
            if !(annotated && delimiter == Delimiter::Bracket) {
                lemma_rewrite_upto_plain(table, inner, inner.len());
                assert(inner.take(inner.len() as int) =~= inner);
            }
        },
        _ => {},
    }
}

proof fn lemma_rewrite_upto_plain(table: TableView, tokens: Seq<TokenView>, n: nat)
    requires
        n <= tokens.len(),
    ensures
        rewrite_upto(table, tokens, n) matches Ok((_, resolved)) ==> resolved == invokes_upto(
            tokens,
            n,
        ),
        !invokes_upto(tokens, n) ==> rewrite_upto(table, tokens, n) == Ok::<
            (Seq<TokenView>, bool),
            ErrorView,
        >((tokens.take(n as int), false)),
    decreases tokens, n,
{
    if n > 0 {
        lemma_rewrite_upto_plain(table, tokens, (n - 1) as nat);
        lemma_rewrite_token_plain(table, tokens[n - 1], in_annotation(tokens, n - 1));
        assert(tokens.take(n - 1).push(tokens[n - 1]) =~= tokens.take(n as int));
    } else {
        assert(tokens.take(0) =~= Seq::<TokenView>::empty());
    }
}

/// Rewriting a tree without invocations changes nothing: the tree comes
/// back as it was, and nothing is reported as resolved.
pub proof fn lemma_rewrite_without_invocation(table: TableView, tokens: Seq<TokenView>)
    requires
        !has_invocation(tokens),
    ensures
        rewrite_spec(table, tokens) == Ok::<(Seq<TokenView>, bool), ErrorView>((tokens, false)),
{
    lemma_rewrite_upto_plain(table, tokens, tokens.len());
    assert(tokens.take(tokens.len() as int) =~= tokens);
}

proof fn lemma_token_invocation_is_annotated(token: TokenView, annotated: bool)
    requires
        token_invokes(token, annotated),
    ensures
        token_annotated(token, annotated),
    decreases token, 0nat,
{
    match token {
        TokenView::Group(delimiter, inner, _) => {
            if !(annotated && delimiter == Delimiter::Bracket) {
                lemma_invocation_is_annotated(inner, inner.len());
            }
        },
        _ => {},
    }
}

proof fn lemma_invocation_is_annotated(tokens: Seq<TokenView>, n: nat)
    requires
        n <= tokens.len(),
        invokes_upto(tokens, n),
    ensures
        annotated_upto(tokens, n),
    decreases tokens, n,
{
    if invokes_upto(tokens, (n - 1) as nat) {
        lemma_invocation_is_annotated(tokens, (n - 1) as nat);
    } else {
        lemma_token_invocation_is_annotated(tokens[n - 1], in_annotation(tokens, n - 1));
    }
}

/// Rewriting a tree without annotations does not depend on the table: the
/// tree comes back as it was, whatever the table holds.
pub proof fn lemma_rewrite_without_annotation(table: TableView, tokens: Seq<TokenView>)
    requires
        !has_annotation(tokens),
    ensures
        rewrite_spec(table, tokens) == Ok::<(Seq<TokenView>, bool), ErrorView>((tokens, false)),
{
    if has_invocation(tokens) {
        lemma_invocation_is_annotated(tokens, tokens.len());
    }
    lemma_rewrite_without_invocation(table, tokens);
}

/// A rewrite reports a resolution exactly when the tree holds an
/// invocation.
pub proof fn lemma_rewrite_reports_invocations(table: TableView, tokens: Seq<TokenView>)
    requires
        rewrite_spec(table, tokens) is Ok,
    ensures
        rewrite_spec(table, tokens)->Ok_0.1 == has_invocation(tokens),
{
    lemma_rewrite_upto_plain(table, tokens, tokens.len());
}

/// The walk goes into groups: a tree that is one group becomes that group
/// around its rewritten contents, however deep the group is nested.
pub proof fn lemma_rewrite_enclosed(
    table: TableView,
    delimiter: Delimiter,
    inner: Seq<TokenView>,
    location: Location,
)
    ensures
        rewrite_spec(table, seq![TokenView::Group(delimiter, inner, location)])
            == match rewrite_spec(table, inner) {
            Ok((body, resolved)) => Ok(
                (seq![TokenView::Group(delimiter, body, location)], resolved),
            ),
            Err(error) => Err::<(Seq<TokenView>, bool), ErrorView>(error),
        },
{
    let group = TokenView::Group(delimiter, inner, location);
    let tree = seq![group];
    assert(rewrite_upto(table, tree, 0) == Ok::<(Seq<TokenView>, bool), ErrorView>(
        (Seq::empty(), false),
    ));
    assert(rewrite_token(table, group, false) == match rewrite_spec(table, inner) {
        Ok((body, resolved)) => Ok((TokenView::Group(delimiter, body, location), resolved)),
        Err(error) => Err::<(TokenView, bool), ErrorView>(error),
    });
}

/// The walk resolves annotations: a `#` followed by a bracket group becomes
/// the `#` followed by the group around its resolved body.
pub proof fn lemma_rewrite_annotation(
    table: TableView,
    marker: TokenView,
    body: Seq<TokenView>,
    location: Location,
)
    requires
        marker.is_mark('#'),
    ensures
        rewrite_spec(table, seq![marker, TokenView::Group(Delimiter::Bracket, body, location)])
            == match resolve_body(table, body) {
            Ok((resolved, found)) => Ok(
                (seq![marker, TokenView::Group(Delimiter::Bracket, resolved, location)], found),
            ),
            Err(error) => Err::<(Seq<TokenView>, bool), ErrorView>(error),
        },
{
    let group = TokenView::Group(Delimiter::Bracket, body, location);
    let tree = seq![marker, group];
    assert(rewrite_upto(table, tree, 0) == Ok::<(Seq<TokenView>, bool), ErrorView>(
        (Seq::empty(), false),
    ));
    assert(rewrite_token(table, marker, false) == Ok::<(TokenView, bool), ErrorView>(
        (marker, false),
    ));
    assert(rewrite_upto(table, tree, 1) == Ok::<(Seq<TokenView>, bool), ErrorView>(
        (seq![marker], false),
    ));
    assert(rewrite_token(table, group, true) == match resolve_body(table, body) {
        Ok((resolved, found)) => Ok(
            (TokenView::Group(Delimiter::Bracket, resolved, location), found),
        ),
        Err(error) => Err::<(TokenView, bool), ErrorView>(error),
    });
    match resolve_body(table, body) {
        Ok((resolved, found)) => {
            assert(seq![marker].push(TokenView::Group(Delimiter::Bracket, resolved, location))
                =~= seq![marker, TokenView::Group(Delimiter::Bracket, resolved, location)]);
        },
        Err(_) => {},
    }
}

proof fn lemma_no_marker(text: Seq<char>, from: int)
    requires
        0 <= from,
        forall|i: int| from <= i ==> !is_marker(text, i),
    ensures
        next_marker(text, from) == text.len(),
    decreases text.len() - from,
{
    if from < text.len() {
        lemma_no_marker(text, from + 1);
    }
}

/// A file without definitions loads as the empty table: where no line of
/// the file starts with `*`, the file has no definition, and loading it
/// gives a table without entries. The empty file is such a file.
pub proof fn lemma_load_without_definitions(source: Seq<char>)
    requires
        forall|i: int| !is_marker(seq!['\n'] + source, i),
    ensures
        definitions(source).len() == 0,
        load_spec(source) == Ok::<TableView, ErrorView>(TableView::empty()),
{
    let text = seq!['\n'] + source;
    lemma_no_marker(text, 0);
    assert(pieces_from(text, 0) =~= seq![text.subrange(0, text.len() as int)]);
}

/// The empty file loads as the empty table.
pub proof fn lemma_load_empty()
    ensures
        load_spec(Seq::empty()) == Ok::<TableView, ErrorView>(TableView::empty()),
{
    let text = seq!['\n'] + Seq::<char>::empty();
    assert forall|i: int| !is_marker(text, i) by {}
    lemma_load_without_definitions(Seq::empty());
}

/// The walk works token by token: where it succeeds on the first `n`
/// tokens, it gives `n` tokens, each the rewritten token at the same place,
/// and it reports a resolution as soon as one of them holds one.
pub proof fn lemma_rewrite_pointwise(table: TableView, tokens: Seq<TokenView>, n: nat)
    requires
        n <= tokens.len(),
        rewrite_upto(table, tokens, n) is Ok,
    ensures
        rewrite_upto(table, tokens, n)->Ok_0.0.len() == n,
        forall|i: int|
            0 <= i < n ==> rewrite_token(table, #[trigger] tokens[i], in_annotation(tokens, i))
                is Ok,
        forall|i: int|
            0 <= i < n ==> rewrite_upto(table, tokens, n)->Ok_0.0[i] == rewrite_token(
                table,
                #[trigger] tokens[i],
                in_annotation(tokens, i),
            )->Ok_0.0,
        forall|i: int|
            0 <= i < n && rewrite_token(
                table,
                #[trigger] tokens[i],
                in_annotation(tokens, i),
            )->Ok_0.1 ==> rewrite_upto(table, tokens, n)->Ok_0.1,
    decreases n,
{
    if n > 0 {
        lemma_rewrite_pointwise(table, tokens, (n - 1) as nat);
    }
}

/// The walk keeps the shape of a token: a punctuation mark stays as it is,
/// a group stays a group with its delimiter, and nothing else becomes
/// either.
pub proof fn lemma_rewrite_token_shape(table: TableView, token: TokenView, annotated: bool)
    requires
        rewrite_token(table, token, annotated) is Ok,
    ensures
        !(token is Group) ==> rewrite_token(table, token, annotated)->Ok_0.0 == token,
        token is Group ==> rewrite_token(table, token, annotated)->Ok_0.0 is Group
            && rewrite_token(table, token, annotated)->Ok_0.0->Group_0 == token->Group_0,
{
}

proof fn lemma_rewrite_keeps_markers(table: TableView, tokens: Seq<TokenView>, i: int)
    requires
        rewrite_spec(table, tokens) is Ok,
        0 <= i <= tokens.len(),
    ensures
        in_annotation(rewrite_spec(table, tokens)->Ok_0.0, i) == in_annotation(tokens, i),
    decreases i,
{
    lemma_rewrite_pointwise(table, tokens, tokens.len());
    if i > 0 {
        lemma_rewrite_keeps_markers(table, tokens, i - 1);
        assert(rewrite_token(table, tokens[i - 1], in_annotation(tokens, i - 1)) is Ok);
        lemma_rewrite_token_shape(table, tokens[i - 1], in_annotation(tokens, i - 1));
    }
}

/// Nesting: the walk finds the body of an annotation at any depth. Where a
/// path leads through groups to the body of an annotation and the walk
/// succeeds, the same path leads to the body of an annotation in the new
/// tree, this body is what the old body resolves to, and the walk reports a
/// resolution if the old body is an invocation. So the walk succeeds only
/// if every such body resolves.
pub proof fn lemma_rewrite_nested(table: TableView, tokens: Seq<TokenView>, path: Seq<int>)
    requires
        rewrite_spec(table, tokens) is Ok,
        leads_to_annotation(tokens, path),
    ensures
        leads_to_annotation(rewrite_spec(table, tokens)->Ok_0.0, path),
        resolve_body(table, body_at(tokens, path)) is Ok,
        body_at(rewrite_spec(table, tokens)->Ok_0.0, path) == resolve_body(
            table,
            body_at(tokens, path),
        )->Ok_0.0,
        is_invocation(body_at(tokens, path)) ==> rewrite_spec(table, tokens)->Ok_0.1,
    decreases path.len(),
{
    let out = rewrite_spec(table, tokens)->Ok_0.0;
    let first = path[0];
    let rest = path.drop_first();
    let annotated = in_annotation(tokens, first);
    lemma_rewrite_pointwise(table, tokens, tokens.len());
    lemma_rewrite_keeps_markers(table, tokens, first);
    assert(rewrite_token(table, tokens[first], annotated) is Ok);
    assert(out[first] == rewrite_token(table, tokens[first], annotated)->Ok_0.0);
    lemma_rewrite_token_shape(table, tokens[first], annotated);
    let inner = tokens[first]->Group_1;
    assert(body_at(tokens, path) == body_at(inner, rest));
    assert(body_at(out, path) == body_at(out[first]->Group_1, rest));
    if path.len() == 1 {
        assert(body_at(inner, rest) == inner);
        assert(body_at(out[first]->Group_1, rest) == out[first]->Group_1);
    } else {
        assert(rewrite_spec(table, inner) is Ok);
        lemma_rewrite_nested(table, inner, rest);
    }
}

} // verus!
