//! Token streams: what they hold, how they are built and how they are read.
//!
//! A `proc_macro2::TokenStream` is kept as it is, so that spans, hygiene and
//! the exact spelling of a token survive. What a stream holds is described by
//! a sequence of [`Tree`]s.
use proc_macro2::Delimiter::{Brace, Bracket, Parenthesis};
use proc_macro2::Spacing::Joint;
use proc_macro2::TokenTree::{
    Group as GroupTree, Ident as IdentTree, Literal as LiteralTree, Punct as PunctTree,
};
use proc_macro2::{Delimiter, Group, Ident, Literal, Punct, Spacing, Span, TokenStream, TokenTree};
use syn::ext::IdentExt;
use syn::Lit;
use vstd::prelude::*;

use crate::text::{concat, joined};

verus! {

/// A stream of token trees.
#[verifier::external_type_specification]
#[verifier::external_body]
pub struct ExTokenStream(proc_macro2::TokenStream);

/// A place in the source, with its hygiene.
#[verifier::external_type_specification]
#[verifier::external_body]
pub struct ExSpan(proc_macro2::Span);

/// The delimiters of a group. `Bare` is the invisible pair that surrounds a
/// fragment which a declarative macro has passed on.
#[derive(Clone, Copy, PartialEq, Eq, Structural, Debug)]
pub enum Delim {
    Paren,
    Brace,
    Bracket,
    Bare,
}

/// One token tree, as the contracts see it. A string literal is known by its
/// value, whatever its spelling; any other literal by its text.
#[verifier::ext_equal]
pub enum Tree {
    Ident { text: Seq<char>, at: Span },
    Punct { ch: char, joint: bool, at: Span },
    Str { value: Seq<char>, suffix: Seq<char>, at: Span },
    Literal { text: Seq<char>, at: Span },
    Group { delim: Delim, inner: Seq<Tree>, at: Span },
}

/// What a token stream holds.
pub uninterp spec fn stream_tokens(stream: TokenStream) -> Seq<Tree>;

impl Tree {
    /// The place of the tree; for a group that of its delimiters.
    pub open spec fn at(self) -> Span {
        match self {
            Tree::Ident { text: _, at } => at,
            Tree::Punct { ch: _, joint: _, at } => at,
            Tree::Str { value: _, suffix: _, at } => at,
            Tree::Literal { text: _, at } => at,
            Tree::Group { delim: _, inner: _, at } => at,
        }
    }

    /// The tree itself, but nothing inside of it, moved to `place`.
    pub open spec fn moved(self, place: Span) -> Tree {
        match self {
            Tree::Ident { text, at: _ } => Tree::Ident { text, at: place },
            Tree::Punct { ch, joint, at: _ } => Tree::Punct { ch, joint, at: place },
            Tree::Str { value, suffix, at: _ } => Tree::Str { value, suffix, at: place },
            Tree::Literal { text, at: _ } => Tree::Literal { text, at: place },
            Tree::Group { delim, inner, at: _ } => Tree::Group { delim, inner, at: place },
        }
    }
}

/// The views of the elements of a sequence.
pub open spec fn views<T: View>(items: Seq<T>) -> Seq<T::V> {
    items.map_values(|item: T| item@)
}

/// The contents of streams.
pub open spec fn stream_list(streams: Seq<TokenStream>) -> Seq<Seq<Tree>> {
    streams.map_values(|stream: TokenStream| stream_tokens(stream))
}

/// What a single token is.
pub enum Shape {
    Ident(String),
    /// The character, and whether it is joined to a following one.
    Punct(char, bool),
    /// A string literal: its value and its suffix.
    Str(String, String),
    /// Any other literal, as it is spelled.
    Literal(String),
    Group(Delim, TokenStream),
}

/// A token read out of a stream.
pub struct Token {
    pub shape: Shape,
    pub span: Span,
    /// The stream that holds this token alone.
    pub alone: TokenStream,
}

impl View for Token {
    type V = Tree;

    open spec fn view(&self) -> Tree {
        match self.shape {
            Shape::Ident(text) => Tree::Ident { text: text@, at: self.span },
            Shape::Punct(ch, joint) => Tree::Punct { ch, joint, at: self.span },
            Shape::Str(value, suffix) => Tree::Str {
                value: value@,
                suffix: suffix@,
                at: self.span,
            },
            Shape::Literal(text) => Tree::Literal { text: text@, at: self.span },
            Shape::Group(delim, inner) => Tree::Group {
                delim,
                inner: stream_tokens(inner),
                at: self.span,
            },
        }
    }
}

/// `Span::call_site`: the place where the running macro was called.
#[verifier::external_body]
pub(crate) fn call_site() -> (at: Span) {
    Span::call_site()
}

/// `TokenStream::new`: a stream that holds nothing.
#[verifier::external_body]
pub(crate) fn new_stream() -> (stream: TokenStream)
    ensures
        stream_tokens(stream) == Seq::<Tree>::empty(),
{
    TokenStream::new()
}

/// `Extend<TokenStream>` for `TokenStream`: the trees of `more` follow those
/// that were there.
#[verifier::external_body]
pub(crate) fn append(stream: &mut TokenStream, more: &TokenStream)
    ensures
        stream_tokens(*final(stream)) == stream_tokens(*old(stream)) + stream_tokens(*more),
{
    stream.extend([more.clone()])
}

/// Whether `text` is an identifier made of ASCII letters, digits and
/// underscores that does not start with a digit.
pub open spec fn ascii_ident(text: Seq<char>) -> bool {
    &&& text.len() > 0
    &&& !('0' <= text[0] <= '9')
    &&& forall|i: int| 0 <= i < text.len() ==> ascii_word_char(#[trigger] text[i])
}

/// An ASCII letter, digit or underscore.
pub open spec fn ascii_word_char(c: char) -> bool {
    ||| 'a' <= c <= 'z'
    ||| 'A' <= c <= 'Z'
    ||| '0' <= c <= '9'
    ||| c == '_'
}

/// `Ident::new`: the identifier that `text` spells, at `at`. The outside
/// function panics where `text` spells none.
#[verifier::external_body]
pub(crate) fn push_ident(stream: &mut TokenStream, text: &str, at: Span)
    requires
        ascii_ident(text@),
    ensures
        stream_tokens(*final(stream)) == stream_tokens(*old(stream)).push(
            Tree::Ident { text: text@, at },
        ),
{
    stream.extend([Ident::new(text, at)])
}

/// The characters that a punctuation token can hold.
pub open spec fn punct_char(c: char) -> bool {
    ||| c == '!' || c == '#' || c == '$' || c == '%' || c == '&' || c == '\''
    ||| c == '*' || c == '+' || c == ',' || c == '-' || c == '.' || c == '/'
    ||| c == ':' || c == ';' || c == '<' || c == '=' || c == '>' || c == '?'
    ||| c == '@' || c == '^' || c == '|' || c == '~'
}

/// `Punct::new`: a punctuation character, joined to the next one or not. The
/// outside function panics on any other character.
#[verifier::external_body]
pub(crate) fn push_punct(stream: &mut TokenStream, ch: char, joint: bool, at: Span)
    requires
        punct_char(ch),
    ensures
        stream_tokens(*final(stream)) == stream_tokens(*old(stream)).push(
            Tree::Punct { ch, joint, at },
        ),
{
    let mut punct = Punct::new(ch, if joint { Spacing::Joint } else { Spacing::Alone });
    punct.set_span(at);
    stream.extend([punct])
}

/// `Group::new`: the trees of `inner` between delimiters that stand at `at`.
#[verifier::external_body]
pub(crate) fn push_group(stream: &mut TokenStream, delim: Delim, inner: &TokenStream, at: Span)
    ensures
        stream_tokens(*final(stream)) == stream_tokens(*old(stream)).push(
            Tree::Group { delim, inner: stream_tokens(*inner), at },
        ),
{
    let delimiter = match delim {
        Delim::Paren => Delimiter::Parenthesis,
        Delim::Brace => Delimiter::Brace,
        Delim::Bracket => Delimiter::Bracket,
        Delim::Bare => Delimiter::None,
    };
    let mut group = Group::new(delimiter, inner.clone());
    group.set_span(at);
    stream.extend([group])
}

/// `Literal::string`: a string literal with the given value and no suffix.
#[verifier::external_body]
pub(crate) fn push_string(stream: &mut TokenStream, value: &str, at: Span)
    ensures
        stream_tokens(*final(stream)) == stream_tokens(*old(stream)).push(
            Tree::Str { value: value@, suffix: Seq::empty(), at },
        ),
{
    let mut literal = Literal::string(value);
    literal.set_span(at);
    stream.extend([TokenTree::from(literal)])
}

/// `IntoIterator` for `TokenStream`: the trees of a stream, one by one. Of a
/// literal `syn::Lit::new` tells whether it is a string, and its value.
#[verifier::external_body]
pub(crate) fn tokens_of(stream: &TokenStream) -> (tokens: Vec<Token>)
    ensures
        views(tokens@) == stream_tokens(*stream),
        forall|i: int|
            0 <= i < tokens.len() ==> stream_tokens((#[trigger] tokens[i]).alone) == seq![
                tokens[i]@,
            ],
{
    stream.clone().into_iter().map(|tree| Token {
        span: tree.span(),
        alone: tree.clone().into(),
        shape: match tree {
            IdentTree(t) => Shape::Ident(t.to_string()),
            PunctTree(t) => Shape::Punct(t.as_char(), t.spacing() == Joint),
            LiteralTree(t) => match Lit::new(t.clone()) {
                Lit::Str(s) => Shape::Str(s.value(), s.suffix().into()),
                _ => Shape::Literal(t.to_string()),
            },
            GroupTree(t) => Shape::Group(match t.delimiter() {
                Parenthesis => Delim::Paren, Brace => Delim::Brace, Bracket => Delim::Bracket, _ => Delim::Bare,
            }, t.stream()),
        },
    }).collect()
}

/// `Literal::usize_unsuffixed`: a number in decimal digits, without a suffix.
#[verifier::external_body]
pub(crate) fn push_number(stream: &mut TokenStream, value: usize, at: Span)
    ensures
        stream_tokens(*final(stream)) == stream_tokens(*old(stream)).push(
            Tree::Literal { text: decimal(value as nat), at },
        ),
{
    let mut literal = Literal::usize_unsuffixed(value);
    literal.set_span(at);
    stream.extend([TokenTree::from(literal)])
}

/// `TokenTree::set_span`: the token at another place. Of a group only the
/// delimiters move.
#[verifier::external_body]
pub(crate) fn push_moved(stream: &mut TokenStream, token: &Token, at: Span)
    requires
        stream_tokens(token.alone) == seq![token@],
    ensures
        stream_tokens(*final(stream)) == stream_tokens(*old(stream)).push(token@.moved(at)),
{
    stream.extend(token.alone.clone().into_iter().map(|mut tree| {
        tree.set_span(at);
        tree
    }))
}

/// Whether a group can have its opening delimiter at that place.
pub uninterp spec fn opens_at(group: Tree, at: Span) -> bool;

/// `Group::span_open`: where a token starts, which for a group is the place of
/// its opening delimiter. That place is not part of the group's [`Tree`], so it
/// is known as one that such a group can have only.
#[verifier::external_body]
pub(crate) fn opening(token: &Token) -> (at: Span)
    requires
        stream_tokens(token.alone) == seq![token@],
    ensures
        !(token@ is Group) ==> at == token@.at(),
        token@ is Group ==> opens_at(token@, at),
{
    match token.alone.clone().into_iter().next() {
        Some(GroupTree(group)) => group.span_open(),
        _ => token.span,
    }
}

/// The text of an identifier without the `r#` of a raw one.
pub open spec fn unraw(text: Seq<char>) -> Seq<char> {
    if text.len() >= 2 && text[0] == 'r' && text[1] == '#' {
        text.skip(2)
    } else {
        text
    }
}

/// `Ident::new`, on a prefix and the text of another identifier, less the
/// `r#` of a raw one (`IdentExt::unraw`). The outside function would panic on
/// what does not spell an identifier: `$crate` is no text to be prefixed.
#[verifier::external_body]
pub(crate) fn push_prefixed(stream: &mut TokenStream, prefix: &str, ident: &Token, at: Span)
    requires
        ascii_ident(prefix@),
        ident@ is Ident,
        ident@->Ident_text.len() > 0 && ident@->Ident_text[0] != '$',
        stream_tokens(ident.alone) == seq![ident@],
    ensures
        stream_tokens(*final(stream)) == stream_tokens(*old(stream)).push(
            Tree::Ident { text: prefix@ + unraw(ident@->Ident_text), at },
        ),
{
    stream.extend(ident.alone.clone().into_iter().map(|tree| match tree {
        IdentTree(t) => IdentTree(Ident::new(&format!("{}{}", prefix, t.unraw()), at)),
        other => other,
    }))
}

/// The same tokens once more.
pub(crate) fn copied(stream: &TokenStream) -> (out: TokenStream)
    ensures
        stream_tokens(out) == stream_tokens(*stream),
{
    let mut out = new_stream();
    append(&mut out, stream);
    assert(stream_tokens(out) =~= stream_tokens(*stream));
    out
}

/// A comma.
pub open spec fn comma(at: Span) -> Tree {
    Tree::Punct { ch: ',', joint: false, at }
}

/// The tokens of the streams, with a comma at `at` between each two of them.
pub(crate) fn comma_separated(parts: &Vec<TokenStream>, at: Span) -> (out: TokenStream)
    ensures
        stream_tokens(out) == joined(stream_list(parts@), seq![comma(at)]),
{
    let mut out = new_stream();
    let ghost all = stream_list(parts@);
    for i in 0..parts.len()
        invariant
            all == stream_list(parts@),
            stream_tokens(out) == joined(all.take(i as int), seq![comma(at)]),
    {
        let ghost before = stream_tokens(out);
        assert(all.take(i + 1).drop_last() =~= all.take(i as int));
        if i > 0 {
            push_punct(&mut out, ',', false, at);
            assert(stream_tokens(out) =~= before + seq![comma(at)]);
        }
        append(&mut out, &parts[i]);
        assert(stream_tokens(out) =~= joined(all.take(i + 1), seq![comma(at)]));
    }
    assert(all.take(parts.len() as int) =~= all);
    out
}

/// The tokens of the streams, one after another.
pub(crate) fn concatenated(parts: &Vec<TokenStream>) -> (out: TokenStream)
    ensures
        stream_tokens(out) == concat(stream_list(parts@)),
{
    let mut out = new_stream();
    let ghost all = stream_list(parts@);
    for i in 0..parts.len()
        invariant
            all == stream_list(parts@),
            stream_tokens(out) == concat(all.take(i as int)),
    {
        assert(all.take(i + 1).drop_last() =~= all.take(i as int));
        append(&mut out, &parts[i]);
    }
    assert(all.take(parts.len() as int) =~= all);
    out
}

/// The decimal digits of a number.
pub open spec fn decimal(value: nat) -> Seq<char>
    decreases value,
{
    let digit = ('0' as u32 + value % 10) as char;
    if value < 10 {
        seq![digit]
    } else {
        decimal(value / 10).push(digit)
    }
}

/// The trees with everything in them moved to `place`.
pub open spec fn respanned(trees: Seq<Tree>, place: Span) -> Seq<Tree>
    decreases trees,
{
    if trees.len() == 0 {
        Seq::empty()
    } else {
        let last = trees.last();
        let moved = match last {
            Tree::Group { delim, inner, at: _ } => Tree::Group {
                delim,
                inner: respanned(inner, place),
                at: place,
            },
            other => other.moved(place),
        };
        respanned(trees.drop_last(), place).push(moved)
    }
}

/// The tokens of `stream`, every one of them placed at `at`.
pub fn respan(stream: &TokenStream, at: Span) -> (out: TokenStream)
    ensures
        stream_tokens(out) == respanned(stream_tokens(*stream), at),
    decreases stream_tokens(*stream),
{
    let tokens = tokens_of(stream);
    let ghost trees = stream_tokens(*stream);
    let mut out = new_stream();
    for i in 0..tokens.len()
        invariant
            trees == stream_tokens(*stream),
            views(tokens@) == trees,
            forall|k: int|
                0 <= k < tokens.len() ==> stream_tokens((#[trigger] tokens[k]).alone) == seq![
                    tokens[k]@,
                ],
            stream_tokens(out) == respanned(trees.take(i as int), at),
    {
        let token = &tokens[i];
        assert(views(tokens@)[i as int] == token@);
        assert(trees.take(i + 1).drop_last() =~= trees.take(i as int));
        match &token.shape {
            Shape::Group(delim, inner) => {
                assert(decreases_to!(trees => trees[i as int]));
                assert(decreases_to!(trees[i as int] => trees[i as int]->Group_inner));
                let moved = respan(inner, at);
                push_group(&mut out, *delim, &moved, at);
            },
            _ => {
                push_moved(&mut out, token, at);
            },
        }
    }
    assert(trees.take(tokens.len() as int) =~= trees);
    out
}

} // verus!
