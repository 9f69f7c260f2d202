//! The alias table: reading it from an alias file and resolving
//! invocations against it.

use crate::emit::{core_macro, push_segment, trigger_tokens};
use crate::error::{Error, ErrorKind, ErrorView};
use crate::invocation::AliasInvocation;
use crate::laws::{lemma_load_empty, lemma_load_size};
use crate::lexer::tokenize;
use crate::load::{define_spec, lemma_load_fails, load_spec, load_upto, parse_definition};
use crate::render::render;
use crate::resolve::{
    expansion_of, lemma_pattern_below_body, outcome, resolve_args_spec, resolve_body,
    resolve_invocation_spec, TableView,
};
use crate::text::{definitions, same_text, split_definitions, substitute};
use crate::token::{copy_tokens, lemma_group_view, views, Delimiter, Spacing, Token};
use vstd::prelude::*;

verus! {

/// One entry of the table.
#[derive(Debug)]
struct Alias {
    name: String,
    expansion: Vec<Token>,
}

/// The alias table: each defined name with its expansion. No name is
/// defined twice.
#[derive(Debug)]
pub struct Aliases {
    entries: Vec<Alias>,
}

/// The table that the first `n` entries make.
spec fn table_upto(entries: Seq<Alias>, n: nat) -> TableView
    decreases n,
{
    if n == 0 || n > entries.len() {
        Map::empty()
    } else {
        table_upto(entries, (n - 1) as nat).insert(
            entries[n - 1].name@,
            views(entries[n - 1].expansion@),
        )
    }
}

/// Whether no two entries have the same name.
spec fn distinct_names(entries: Seq<Alias>) -> bool {
    forall|i: int, j: int| 0 <= i < j < entries.len() ==> entries[i].name@ != entries[j].name@
}

proof fn lemma_table(entries: Seq<Alias>, n: nat)
    requires
        n <= entries.len(),
        distinct_names(entries),
    ensures
        forall|key: Seq<char>| #[trigger]
            table_upto(entries, n).contains_key(key) <==> exists|i: int|
                0 <= i < n && entries[i].name@ == key,
        forall|i: int|
            0 <= i < n ==> #[trigger] table_upto(entries, n)[entries[i].name@] == views(
                entries[i].expansion@,
            ),
        table_upto(entries, n).dom().finite(),
        table_upto(entries, n).len() == n,
    decreases n,
{
    if n > 0 {
        let before = table_upto(entries, (n - 1) as nat);
        let name = entries[n - 1].name@;
        lemma_table(entries, (n - 1) as nat);
        assert forall|key: Seq<char>| #[trigger]
            table_upto(entries, n).contains_key(key) implies exists|i: int|
            0 <= i < n && entries[i].name@ == key by {
            if key != name {
            }
        }
    }
}

proof fn lemma_table_prefix(longer: Seq<Alias>, shorter: Seq<Alias>, n: nat)
    requires
        n <= shorter.len() <= longer.len(),
        forall|i: int| 0 <= i < n ==> longer[i] == shorter[i],
    ensures
        table_upto(longer, n) == table_upto(shorter, n),
    decreases n,
{
    if n > 0 {
        lemma_table_prefix(longer, shorter, (n - 1) as nat);
    }
}

impl View for Aliases {
    type V = TableView;

    closed spec fn view(&self) -> TableView {
        table_upto(self.entries@, self.entries@.len())
    }
}

impl Aliases {
    /// The conventional place of the alias file, from the root of the build.
    pub const FILE: &'static str = "src/attr-aliases.txt";

    #[verifier::type_invariant]
    spec fn well_formed(self) -> bool {
        distinct_names(self.entries@)
    }

    /// The empty table.
    pub fn new() -> (r: Aliases)
        ensures
            r@ == TableView::empty(),
    {
        Aliases { entries: Vec::new() }
    }

    /// The number of aliases.
    pub fn len(&self) -> (r: usize)
        ensures
            self@.dom().finite(),
            r == self@.len(),
    {
        proof {
            use_type_invariant(self);
            lemma_table(self.entries@, self.entries@.len());
        }
        self.entries.len()
    }

    fn find(&self, name: &str) -> (r: Option<usize>)
        ensures
            match r {
                Some(i) => {
                    &&& i < self.entries@.len()
                    &&& self.entries@[i as int].name@ == name@
                    &&& self@.contains_key(name@)
                    &&& self@[name@] == views(self.entries@[i as int].expansion@)
                },
                None => !self@.contains_key(name@),
            },
    {
        proof {
            use_type_invariant(self);
            lemma_table(self.entries@, self.entries@.len());
        }
        let mut i: usize = 0;
        while i < self.entries.len()
            invariant
                i <= self.entries@.len(),
                forall|j: int| 0 <= j < i ==> self.entries@[j].name@ != name@,
            decreases self.entries.len() - i,
        {
            if same_text(self.entries[i].name.as_str(), name) {
                proof {
                    use_type_invariant(self);
                    lemma_table(self.entries@, self.entries@.len());
                }
                return Some(i);
            }
            i += 1;
        }
        None
    }

    /// Whether an alias of this name is defined.
    pub fn contains(&self, name: &str) -> (r: bool)
        ensures
            r == self@.contains_key(name@),
    {
        self.find(name).is_some()
    }

    /// The expansion of an alias, if it is defined.
    pub fn expansion(&self, name: &str) -> (r: Option<&Vec<Token>>)
        ensures
            match r {
                Some(tokens) => self@.contains_key(name@) && views(tokens@) == self@[name@],
                None => !self@.contains_key(name@),
            },
    {
        match self.find(name) {
            Some(i) => Some(&self.entries[i].expansion),
            None => None,
        }
    }

    /// Fills the alias at `index` into a pattern and splits the text into
    /// tokens.
    fn expand(&self, index: usize, pattern: Option<&Vec<Token>>) -> (r: Result<
        Vec<Token>,
        Error,
    >)
        requires
            index < self.entries@.len(),
        ensures
            outcome(r) == expansion_of(
                self@,
                self.entries@[index as int].name@,
                match pattern {
                    Some(tokens) => Some(views(tokens@)),
                    None => None,
                },
            ),
    {
        proof {
            use_type_invariant(self);
            lemma_table(self.entries@, self.entries@.len());
        }
        let pattern_text = match pattern {
            Some(tokens) => render(tokens),
            None => match self.find("default") {
                Some(i) => render(&self.entries[i].expansion),
                None => {
                    proof {
                        reveal_strlit("*");
                    }
                    assert("*"@ =~= seq!['*']);
                    "*".to_owned()
                },
            },
        };
        let alias_text = render(&self.entries[index].expansion);
        let text = substitute(pattern_text.as_str(), alias_text.as_str());
        match tokenize(text.as_str()) {
            Some(tokens) => Ok(tokens),
            None => Err(Error::new(ErrorKind::TokenizationError, "error parsing alias")),
        }
    }

    /// Resolves one invocation.
    pub fn resolve_invocation(&self, invocation: &AliasInvocation) -> (r: Result<
        Vec<Token>,
        Error,
    >)
        ensures
            outcome(r) == resolve_invocation_spec(self@, invocation@),
        decreases invocation@.tokens(), 1nat,
    {
        let name = invocation.name.as_str();
        if same_text(name, "default") {
            return Err(Error::reserved(name, invocation.location));
        }
        let index = match self.find(name) {
            Some(index) => index,
            None => {
                return Err(Error::unknown(name, invocation.location));
            },
        };
        match &invocation.pattern {
            Some(pattern) if pattern.len() > 0 => {
                let mut resolved = copy_tokens(pattern);
                match self.resolve(&mut resolved) {
                    Ok(_) => self.expand(index, Some(&resolved)),
                    Err(error) => Err(error),
                }
            },
            _ => self.expand(index, None),
        }
    }

    /// Resolves the arguments of an invocation: the name of an alias and,
    /// optionally, a pattern.
    pub fn resolve_args(&self, args: &Vec<Token>) -> (r: Result<Vec<Token>, Error>)
        ensures
            outcome(r) == resolve_args_spec(self@, views(args@)),
    {
        match AliasInvocation::parse(args) {
            Ok(invocation) => self.resolve_invocation(&invocation),
            Err(error) => Err(error),
        }
    }

    /// Resolves the body of an annotation in place if it is an invocation,
    /// and says whether it was one. On an error the body stays as it was.
    pub fn resolve(&self, attr: &mut Vec<Token>) -> (r: Result<bool, Error>)
        ensures
            match resolve_body(self@, views(old(attr)@)) {
                Ok((body, resolved)) => r == Ok::<bool, Error>(resolved) && views(final(attr)@)
                    == body,
                Err(error) => r matches Err(e) && e@ == error && *final(attr) == *old(attr),
            },
        decreases views(old(attr)@), 0nat,
    {
        let ghost body = views(attr@);
        if attr.len() != 2 {
            return Ok(false);
        }
        let marked = match &attr[0] {
            Token::Identifier(text, _) => same_text(text.as_str(), "attr_alias"),
            _ => false,
        };
        if !marked {
            return Ok(false);
        }
        let parsed = match &attr[1] {
            Token::Group(Delimiter::Parenthesis, args, location) => {
                proof {
                    lemma_group_view(Delimiter::Parenthesis, *args, *location);
                }
                AliasInvocation::parse(args)
            },
            _ => {
                return Ok(false);
            },
        };
        match parsed {
            Ok(invocation) => {
                proof {
                    lemma_pattern_below_body(body);
                }
                match self.resolve_invocation(&invocation) {
                    Ok(tokens) => {
                        *attr = tokens;
                        Ok(true)
                    },
                    Err(error) => Err(error),
                }
            },
            Err(error) => Err(error),
        }
    }

    /// Adds one definition, given by its tokens. On an error the table stays
    /// as it was.
    pub fn define(&mut self, tokens: &Vec<Token>) -> (r: Result<(), Error>)
        ensures
            match define_spec(old(self)@, views(tokens@)) {
                Ok(table) => r is Ok && final(self)@ == table,
                Err(error) => r matches Err(e) && e@ == error && final(self)@ == old(self)@,
            },
    {
        let (name, mut pattern) = match parse_definition(tokens) {
            Ok(definition) => definition,
            Err(error) => {
                return Err(error);
            },
        };
        match self.resolve(&mut pattern) {
            Ok(_) => {},
            Err(error) => {
                return Err(error);
            },
        }
        if self.contains(name.as_str()) {
            return Err(
                Error::new(
                    ErrorKind::DuplicateAlias(name),
                    "duplicate alias name in alias file",
                ),
            );
        }
        proof {
            use_type_invariant(&*self);
            lemma_table(self.entries@, self.entries@.len());
        }
        let mut taken = Aliases::new();
        core::mem::swap(self, &mut taken);
        let Aliases { entries: mut entries } = taken;
        let ghost before = entries@;
        entries.push(Alias { name, expansion: pattern });
        proof {
            lemma_table_prefix(entries@, before, before.len());
        }
        *self = Aliases { entries };
        Ok(())
    }

    /// Reads an alias file: the table of its definitions, or the first error
    /// in it. A table that is read has one alias for each definition; the
    /// empty file gives the empty table.
    pub fn parse(source: &str) -> (r: Result<Aliases, Error>)
        ensures
            match load_spec(source@) {
                Ok(table) => r matches Ok(aliases) && aliases@ == table,
                Err(error) => r matches Err(e) && e@ == error,
            },
            r matches Ok(aliases) ==> aliases@.dom().finite() && aliases@.len() == definitions(
                source@,
            ).len(),
            source@.len() == 0 ==> r is Ok && r->Ok_0@ == TableView::empty(),
    {
        let texts = split_definitions(source);
        let ghost model = definitions(source@);
        let mut aliases = Aliases::new();
        let mut i: usize = 0;
        while i < texts.len()
            invariant
                i <= texts@.len(),
                model == definitions(source@),
                texts@.len() == model.len(),
                forall|k: int| 0 <= k < texts@.len() ==> texts@[k]@ == #[trigger] model[k],
                load_upto(model, i as nat) == Ok::<TableView, ErrorView>(aliases@),
            decreases texts.len() - i,
        {
            let tokens = match tokenize(texts[i].as_str()) {
                Some(tokens) => tokens,
                None => {
                    proof {
                        lemma_load_fails(model, (i + 1) as nat, model.len());
                    }
                    return Err(
                        Error::new(ErrorKind::MalformedDefinition, "error parsing alias file"),
                    );
                },
            };
            match aliases.define(&tokens) {
                Ok(_) => {},
                Err(error) => {
                    proof {
                        lemma_load_fails(model, (i + 1) as nat, model.len());
                    }
                    return Err(error);
                },
            }
            i += 1;
        }
        proof {
            lemma_load_size(model, model.len());
            if source@.len() == 0 {
                assert(source@ =~= Seq::<char>::empty());
                lemma_load_empty();
            }
        }
        Ok(aliases)
    }

    /// The table of the alias file, read once. An empty cache is filled from
    /// the text of the file; a filled one is handed out as it is, whatever
    /// the text. Where reading fails, the cache stays empty.
    pub fn get<'a>(cache: &'a mut Option<Aliases>, source: &str) -> (r: Result<&'a Aliases, Error>)
        ensures
            match *old(cache) {
                Some(aliases) => *final(cache) == *old(cache) && r == Ok::<&Aliases, Error>(
                    &aliases,
                ),
                None => match load_spec(source@) {
                    Ok(table) => r matches Ok(aliases) && aliases@ == table && *final(cache)
                        == Some(*aliases),
                    Err(error) => r matches Err(e) && e@ == error && *final(cache) is None,
                },
            },
    {
        if cache.is_none() {
            match Aliases::parse(source) {
                Ok(aliases) => {
                    *cache = Some(aliases);
                },
                Err(error) => {
                    return Err(error);
                },
            }
        }
        Ok(cache.as_ref().unwrap())
    }

    /// The tokens that make the build depend on the alias file: an unnamed
    /// constant that holds the bytes of the file at `alias_file`.
    pub fn create_trigger(alias_file: &str) -> (r: Vec<Token>)
        ensures
            views(r@) == trigger_tokens(alias_file@),
    {
        let mut element: Vec<Token> = Vec::new();
        push_segment(&mut element, "core");
        push_segment(&mut element, "primitive");
        push_segment(&mut element, "u8");
        let mut tokens: Vec<Token> = Vec::new();
        tokens.push(Token::identifier("const"));
        tokens.push(Token::identifier("_"));
        tokens.push(Token::punctuation(':', Spacing::Alone));
        tokens.push(Token::punctuation('&', Spacing::Alone));
        tokens.push(Token::punctuation('\'', Spacing::Joint));
        tokens.push(Token::identifier("static"));
        tokens.push(Token::group(Delimiter::Bracket, element));
        tokens.push(Token::punctuation('=', Spacing::Alone));
        let mut call = core_macro("include_bytes", alias_file);
        tokens.append(&mut call);
        tokens
    }
}

} // verus!
