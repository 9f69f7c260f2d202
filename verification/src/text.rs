//! Plain text: the wildcard substitution and the cutting of an alias file
//! into its definitions.

use vstd::prelude::*;

verus! {

/// `String::push` appends one character to the end of the string.
pub assume_specification[ String::push ](text: &mut String, c: char)
    ensures
        final(text)@ == old(text)@.push(c),
;

/// The characters of a string, in order.
pub fn chars_of(text: &str) -> (r: Vec<char>)
    ensures
        r@ == text@,
{
    let mut chars: Vec<char> = Vec::new();
    for c in it: text.chars()
        invariant
            it.seq() == text@,
            chars@ == text@.take(it.index() as int),
    {
        chars.push(c);
    }
    chars
}

/// The string made of `chars[from..to]`.
pub(crate) fn string_of(chars: &Vec<char>, from: usize, to: usize) -> (r: String)
    requires
        from <= to <= chars@.len(),
    ensures
        r@ == chars@.subrange(from as int, to as int),
{
    let mut text = String::new();
    let mut i: usize = from;
    while i < to
        invariant
            from <= i <= to <= chars@.len(),
            text@ == chars@.subrange(from as int, i as int),
        decreases to - i,
    {
        text.push(chars[i]);
        i += 1;
    }
    text
}

/// Whether two strings hold the same characters.
pub fn same_text(a: &str, b: &str) -> (r: bool)
    ensures
        r == (a@ == b@),
{
    let left = chars_of(a);
    let right = chars_of(b);
    if left.len() != right.len() {
        return false;
    }
    let mut i: usize = 0;
    while i < left.len()
        invariant
            i <= left@.len(),
            left@ == a@,
            right@ == b@,
            left@.len() == right@.len(),
            forall|j: int| 0 <= j < i ==> left@[j] == right@[j],
        decreases left.len() - i,
    {
        if left[i] != right[i] {
            return false;
        }
        i += 1;
    }
    assert(left@ =~= right@);
    true
}

/// The pattern with its first `*` replaced by the expansion. A pattern
/// without `*` stays as it is: the expansion is then not used.
pub open spec fn substitute_first(pattern: Seq<char>, expansion: Seq<char>) -> Seq<char> {
    match pattern.index_of_first('*') {
        Some(i) => pattern.take(i) + expansion + pattern.skip(i + 1),
        None => pattern,
    }
}

/// Replaces the first `*` of the pattern by the expansion.
pub fn substitute(pattern: &str, expansion: &str) -> (r: String)
    ensures
        r@ == substitute_first(pattern@, expansion@),
{
    let chars = chars_of(pattern);
    let mut i: usize = 0;
    while i < chars.len() && chars[i] != '*'
        invariant
            i <= chars@.len(),
            forall|j: int| 0 <= j < i ==> chars@[j] != '*',
        decreases chars.len() - i,
    {
        i += 1;
    }
    proof {
        chars@.index_of_first_ensures('*');
    }
    if i == chars.len() {
        pattern.to_owned()
    } else {
        let mut text = string_of(&chars, 0, i);
        text.append(expansion);
        let rest = string_of(&chars, i + 1, chars.len());
        text.append(rest.as_str());
        text
    }
}

/// Whether a line break followed by `*` stands at `i`: a new definition
/// starts behind it.
pub open spec fn is_marker(text: Seq<char>, i: int) -> bool {
    0 <= i && i + 1 < text.len() && text[i] == '\n' && text[i + 1] == '*'
}

/// The first marker at or behind `from`, or the length of the text if there
/// is none.
pub open spec fn next_marker(text: Seq<char>, from: int) -> int
    decreases text.len() - from,
{
    if from >= text.len() {
        text.len() as int
    } else if is_marker(text, from) {
        from
    } else {
        next_marker(text, from + 1)
    }
}

/// The text behind `from`, cut at every marker; the markers themselves are
/// left out.
pub open spec fn pieces_from(text: Seq<char>, from: int) -> Seq<Seq<char>>
    decreases text.len() - from,
{
    let marker = next_marker(text, from);
    if 0 <= from <= marker && is_marker(text, marker) {
        seq![text.subrange(from, marker)] + pieces_from(text, marker + 2)
    } else {
        seq![text.subrange(from, text.len() as int)]
    }
}

/// The texts of the definitions of an alias file, in file order. A
/// definition starts behind a `*` at the start of a line and ends before the
/// next such line, or at the end of the file. What stands before the first
/// such line belongs to no definition: a file without such a line has none.
pub open spec fn definitions(source: Seq<char>) -> Seq<Seq<char>> {
    pieces_from(seq!['\n'] + source, 0).drop_first()
}

/// Cuts an alias file into the texts of its definitions.
pub fn split_definitions(source: &str) -> (r: Vec<String>)
    ensures
        r@.len() == definitions(source@).len(),
        forall|k: int| 0 <= k < r@.len() ==> r@[k]@ == #[trigger] definitions(source@)[k],
{
    let mut chars: Vec<char> = Vec::new();
    chars.push('\n');
    let mut body = chars_of(source);
    chars.append(&mut body);
    let ghost text = seq!['\n'] + source@;
    let mut pieces: Vec<String> = Vec::new();
    let ghost mut done: Seq<Seq<char>> = Seq::empty();
    let mut begin: usize = 0;
    let mut i: usize = 0;
    while i < chars.len()
        invariant
            chars@ == text,
            begin <= i <= text.len(),
            next_marker(text, begin as int) == next_marker(text, i as int),
            pieces_from(text, 0) == done + pieces_from(text, begin as int),
            begin == 0 <==> done.len() == 0,
            done.len() > 0 ==> pieces@.len() == done.len() - 1,
            done.len() == 0 ==> pieces@.len() == 0,
            forall|k: int| 0 <= k < pieces@.len() ==> pieces@[k]@ == done[k + 1],
        decreases chars.len() - i,
    {
        if chars[i] == '\n' && i + 1 < chars.len() && chars[i + 1] == '*' {
            if begin != 0 {
                pieces.push(string_of(&chars, begin, i));
            }
            proof {
                done = done.push(text.subrange(begin as int, i as int));
            }
            begin = i + 2;
            i = i + 2;
        } else {
            i += 1;
        }
    }
    if begin != 0 {
        pieces.push(string_of(&chars, begin, chars.len()));
    }
    pieces
}

} // verus!
