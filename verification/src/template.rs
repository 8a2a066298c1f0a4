//! Code templates.
//!
//! A template is a text of words with blanks between them. A word is
//!
//! - a bracket, which opens or closes a group;
//! - `#name`, in whose place the tokens of the slot `name` stand;
//! - an identifier or a lifetime;
//! - a decimal digit;
//! - an operator: its characters, joined to one another.
use proc_macro2::{Span, TokenStream};
use vstd::prelude::*;

use crate::stream::{
    append, ascii_ident, ascii_word_char, decimal, new_stream, punct_char, push_group, push_ident,
    push_number, push_punct, stream_tokens, views, Delim, Tree,
};
use crate::text::same;

verus! {

/// Tokens that a template names.
pub struct Slot {
    pub name: &'static str,
    pub tokens: TokenStream,
}

impl View for Slot {
    type V = (Seq<char>, Seq<Tree>);

    open spec fn view(&self) -> (Seq<char>, Seq<Tree>) {
        (self.name@, stream_tokens(self.tokens))
    }
}

/// The tokens of the last slot of that name, or none.
pub open spec fn bound(slots: Seq<(Seq<char>, Seq<Tree>)>, name: Seq<char>) -> Seq<Tree>
    decreases slots.len(),
{
    if slots.len() == 0 {
        Seq::empty()
    } else if slots.last().0 == name {
        slots.last().1
    } else {
        bound(slots.drop_last(), name)
    }
}

/// What separates the words of a template.
pub open spec fn blank(c: char) -> bool {
    c == ' ' || c == '\n'
}

/// The words that a text has ended, and the one that it has not.
pub open spec fn scanned(text: Seq<char>) -> (Seq<Seq<char>>, Seq<char>)
    decreases text.len(),
{
    if text.len() == 0 {
        (Seq::empty(), Seq::empty())
    } else {
        let (done, word) = scanned(text.drop_last());
        if !blank(text.last()) {
            (done, word.push(text.last()))
        } else if word.len() == 0 {
            (done, word)
        } else {
            (done.push(word), Seq::empty())
        }
    }
}

/// The words of a text.
pub open spec fn words(text: Seq<char>) -> Seq<Seq<char>> {
    let (done, word) = scanned(text);
    if word.len() == 0 {
        done
    } else {
        done.push(word)
    }
}

/// The group that a word opens.
pub open spec fn opens(word: Seq<char>) -> Option<Delim> {
    if word == seq!['('] {
        Some(Delim::Paren)
    } else if word == seq!['{'] {
        Some(Delim::Brace)
    } else if word == seq!['['] {
        Some(Delim::Bracket)
    } else {
        None
    }
}

/// Whether a word closes a group.
pub open spec fn closes(word: Seq<char>) -> bool {
    word == seq![')'] || word == seq!['}'] || word == seq![']']
}

/// The operator that the characters of a word spell, other characters left out.
pub open spec fn operator(word: Seq<char>, at: Span) -> Seq<Tree> {
    operator_part(word, word.len() as int, at)
}

/// The operator up to a character.
pub open spec fn operator_part(word: Seq<char>, end: int, at: Span) -> Seq<Tree>
    decreases end,
{
    if end <= 0 {
        Seq::empty()
    } else if punct_char(word[end - 1]) {
        operator_part(word, end - 1, at).push(
            Tree::Punct { ch: word[end - 1], joint: end < word.len(), at },
        )
    } else {
        operator_part(word, end - 1, at)
    }
}

/// The tokens of a word that is no bracket.
pub open spec fn word_tokens(
    word: Seq<char>,
    slots: Seq<(Seq<char>, Seq<Tree>)>,
    at: Span,
) -> Seq<Tree> {
    if word.len() > 1 && word[0] == '#' {
        bound(slots, word.skip(1))
    } else if ascii_ident(word) {
        seq![Tree::Ident { text: word, at }]
    } else if word.len() > 1 && word[0] == '\'' && ascii_ident(word.skip(1)) {
        seq![
            Tree::Punct { ch: '\'', joint: true, at },
            Tree::Ident { text: word.skip(1), at },
        ]
    } else if word.len() == 1 && '0' <= word[0] <= '9' {
        seq![Tree::Literal { text: word, at }]
    } else {
        operator(word, at)
    }
}

/// A template that is being filled in: the groups that are open, each with
/// what stands before it, and what stands in the innermost one.
pub struct Draft {
    pub open: Seq<(Delim, Seq<Tree>)>,
    pub here: Seq<Tree>,
}

/// One more word.
pub open spec fn extended(
    draft: Draft,
    word: Seq<char>,
    slots: Seq<(Seq<char>, Seq<Tree>)>,
    at: Span,
) -> Draft {
    if opens(word) is Some {
        Draft { open: draft.open.push((opens(word)->0, draft.here)), here: Seq::empty() }
    } else if closes(word) {
        if draft.open.len() == 0 {
            draft
        } else {
            let (delim, before) = draft.open.last();
            Draft {
                open: draft.open.drop_last(),
                here: before.push(Tree::Group { delim, inner: draft.here, at }),
            }
        }
    } else {
        Draft { open: draft.open, here: draft.here + word_tokens(word, slots, at) }
    }
}

/// The draft after some words.
pub open spec fn drafted(
    words: Seq<Seq<char>>,
    slots: Seq<(Seq<char>, Seq<Tree>)>,
    at: Span,
) -> Draft
    decreases words.len(),
{
    if words.len() == 0 {
        Draft { open: Seq::empty(), here: Seq::empty() }
    } else {
        extended(drafted(words.drop_last(), slots, at), words.last(), slots, at)
    }
}

/// The tokens of a template, its slots filled in and its own tokens at `at`.
/// A group that is not closed is left out.
pub open spec fn filled(
    template: Seq<char>,
    slots: Seq<(Seq<char>, Seq<Tree>)>,
    at: Span,
) -> Seq<Tree> {
    let draft = drafted(words(template), slots, at);
    if draft.open.len() == 0 {
        draft.here
    } else {
        draft.open[0].1
    }
}

/// The words of a text.
fn split<'a>(text: &'a str) -> (parts: Vec<&'a str>)
    ensures
        views(parts@) == words(text@),
{
    let mut done: Vec<&'a str> = Vec::new();
    let mut start: usize = 0;
    let mut end: usize = 0;
    let length = text.unicode_len();
    let ghost all = text@;
    for c in it: text.chars()
        invariant
            it.seq() == all,
            all == text@,
            length == all.len(),
            start <= end == it.index() <= length,
            scanned(all.take(it.index())) == (views(done@), all.subrange(start as int, end as int)),
    {
        let ghost before = done@;
        assert(all.take(end + 1).drop_last() =~= all.take(end as int));
        assert(all.take(end + 1).last() == c);
        assert(all.subrange(start as int, end as int).push(c) =~= all.subrange(
            start as int,
            end + 1,
        ));
        if c == ' ' || c == '\n' {
            if start < end {
                done.push(text.substring_char(start, end));
                assert(views(done@) =~= views(before).push(all.subrange(start as int, end as int)));
            }
            start = end + 1;
        }
        end = end + 1;
        assert(start == end ==> all.subrange(start as int, end as int) =~= Seq::<char>::empty());
    }
    assert(all.take(all.len() as int) =~= all);
    if start < end {
        let ghost before = done@;
        done.push(text.substring_char(start, end));
        assert(views(done@) =~= views(before).push(all.subrange(start as int, end as int)));
    }
    done
}

/// The tokens of the last slot of that name, or none.
fn splice(out: &mut TokenStream, slots: &Vec<Slot>, name: &str)
    ensures
        stream_tokens(*final(out)) == stream_tokens(*old(out)) + bound(views(slots@), name@),
{
    let ghost all = views(slots@);
    let mut found: Option<usize> = None;
    for i in 0..slots.len()
        invariant
            all == views(slots@),
            found matches Some(k) ==> k < slots.len() && bound(all.take(i as int), name@)
                == all[k as int].1,
            found is None ==> bound(all.take(i as int), name@) == Seq::<Tree>::empty(),
    {
        assert(all.take(i + 1).drop_last() =~= all.take(i as int));
        if same(slots[i].name, name) {
            found = Some(i);
        }
    }
    assert(all.take(slots.len() as int) =~= all);
    match found {
        Some(k) => {
            append(out, &slots[k].tokens);
        },
        None => {
            assert(stream_tokens(*out) + Seq::<Tree>::empty() =~= stream_tokens(*out));
        },
    }
}

/// Whether `word` is an identifier of ASCII letters, digits and underscores.
fn is_ascii_ident(word: &str) -> (yes: bool)
    ensures
        yes == ascii_ident(word@),
{
    let length = word.unicode_len();
    if length == 0 {
        return false;
    }
    let first = word.get_char(0);
    if '0' <= first && first <= '9' {
        return false;
    }
    for i in 0..length
        invariant
            length == word@.len(),
            forall|k: int| 0 <= k < i ==> ascii_word_char(#[trigger] word@[k]),
    {
        let c = word.get_char(i);
        if !(('a' <= c && c <= 'z') || ('A' <= c && c <= 'Z') || ('0' <= c && c <= '9') || c
            == '_') {
            return false;
        }
    }
    true
}

/// Whether a punctuation token can hold `c`.
fn is_punct_char(c: char) -> (yes: bool)
    ensures
        yes == punct_char(c),
{
    c == '!' || c == '#' || c == '$' || c == '%' || c == '&' || c == '\'' || c == '*' || c == '+'
        || c == ',' || c == '-' || c == '.' || c == '/' || c == ':' || c == ';' || c == '<' || c
        == '=' || c == '>' || c == '?' || c == '@' || c == '^' || c == '|' || c == '~'
}

/// The value of a decimal digit.
fn digit_value(c: char) -> (value: usize)
    requires
        '0' <= c <= '9',
    ensures
        value < 10,
        decimal(value as nat) == seq![c],
{
    let value = (c as u32 - '0' as u32) as usize;
    assert(decimal(value as nat) =~= seq![c]);
    value
}

/// Adds the tokens of a word that is no bracket.
fn push_word(out: &mut TokenStream, word: &str, slots: &Vec<Slot>, at: Span)
    ensures
        stream_tokens(*final(out)) == stream_tokens(*old(out)) + word_tokens(
            word@,
            views(slots@),
            at,
        ),
{
    let length = word.unicode_len();
    let ghost before = stream_tokens(*out);
    if length > 1 && word.get_char(0) == '#' {
        let name = word.substring_char(1, length);
        assert(name@ =~= word@.skip(1));
        splice(out, slots, name);
        return ;
    }
    if is_ascii_ident(word) {
        push_ident(out, word, at);
        assert(before.push(Tree::Ident { text: word@, at }) =~= before + seq![
            Tree::Ident { text: word@, at },
        ]);
        return ;
    }
    if length > 1 && word.get_char(0) == '\'' {
        let name = word.substring_char(1, length);
        assert(name@ =~= word@.skip(1));
        if is_ascii_ident(name) {
            push_punct(out, '\'', true, at);
            push_ident(out, name, at);
            assert(stream_tokens(*out) =~= before + word_tokens(word@, views(slots@), at));
            return ;
        }
    }
    if length == 1 {
        let c = word.get_char(0);
        if '0' <= c && c <= '9' {
            push_number(out, digit_value(c), at);
            assert(word@ =~= seq![c]);
            assert(stream_tokens(*out) =~= before + word_tokens(word@, views(slots@), at));
            return ;
        }
    }
    for i in 0..length
        invariant
            length == word@.len(),
            stream_tokens(*out) == before + operator_part(word@, i as int, at),
    {
        let c = word.get_char(i);
        if is_punct_char(c) {
            push_punct(out, c, i + 1 < length, at);
        }
        assert(stream_tokens(*out) =~= before + operator_part(word@, i + 1, at));
    }
}

/// The group that a word opens.
fn opened(word: &str) -> (delim: Option<Delim>)
    ensures
        delim == opens(word@),
{
    if word.unicode_len() != 1 {
        return None;
    }
    let c = word.get_char(0);
    assert(word@ =~= seq![c]);
    if c == '(' {
        Some(Delim::Paren)
    } else if c == '{' {
        assert(word@[0] != seq!['('][0]);
        Some(Delim::Brace)
    } else if c == '[' {
        assert(word@[0] != seq!['('][0]);
        assert(word@[0] != seq!['{'][0]);
        Some(Delim::Bracket)
    } else {
        assert(word@[0] != seq!['('][0]);
        assert(word@[0] != seq!['{'][0]);
        assert(word@[0] != seq!['['][0]);
        None
    }
}

/// Whether a word closes a group.
fn is_closing(word: &str) -> (yes: bool)
    ensures
        yes == closes(word@),
{
    if word.unicode_len() != 1 {
        return false;
    }
    let c = word.get_char(0);
    assert(word@ =~= seq![c]);
    assert(seq![')'][0] == ')' && seq!['}'][0] == '}' && seq![']'][0] == ']');
    c == ')' || c == '}' || c == ']'
}

/// What is written so far inside of an open group, and its delimiters.
struct OpenGroup {
    delim: Delim,
    before: TokenStream,
}

impl View for OpenGroup {
    type V = (Delim, Seq<Tree>);

    closed spec fn view(&self) -> (Delim, Seq<Tree>) {
        (self.delim, stream_tokens(self.before))
    }
}

/// The tokens of a template, its slots filled in and its own tokens at `at`.
pub fn fill(template: &str, slots: &Vec<Slot>, at: Span) -> (out: TokenStream)
    ensures
        stream_tokens(out) == filled(template@, views(slots@), at),
{
    let parts = split(template);
    let ghost all = views(parts@);
    let ghost filling = views(slots@);
    let mut open: Vec<OpenGroup> = Vec::new();
    let mut here = new_stream();
    assert(views(open@) =~= Seq::<(Delim, Seq<Tree>)>::empty());
    for i in 0..parts.len()
        invariant
            all == views(parts@),
            filling == views(slots@),
            drafted(all.take(i as int), filling, at) == (Draft {
                open: views(open@),
                here: stream_tokens(here),
            }),
    {
        let word = parts[i];
        assert(all.take(i + 1).drop_last() =~= all.take(i as int));
        assert(all.take(i + 1).last() == word@);
        let ghost was = open@;
        match opened(word) {
            Some(delim) => {
                open.push(OpenGroup { delim, before: here });
                assert(views(open@) =~= views(was).push((delim, stream_tokens(here))));
                here = new_stream();
            },
            None => {
                if is_closing(word) {
                    match open.pop() {
                        Some(frame) => {
                            assert(views(was).last() == frame@);
                            assert(views(open@) =~= views(was).drop_last());
                            let mut outer = frame.before;
                            push_group(&mut outer, frame.delim, &here, at);
                            here = outer;
                        },
                        None => {
                            assert(views(open@) =~= views(was));
                            assert(views(was).len() == 0);
                        },
                    }
                } else {
                    push_word(&mut here, word, slots, at);
                }
            },
        }
    }
    assert(all.take(parts.len() as int) =~= all);
    if open.len() > 0 {
        assert(views(open@)[0] == open@[0]@);
        let mut out = new_stream();
        append(&mut out, &open[0].before);
        assert(stream_tokens(out) =~= stream_tokens(open@[0].before));
        out
    } else {
        assert(views(open@).len() == 0);
        here
    }
}

} // verus!
