//! Pieces of Rust code, as tokens.
use proc_macro2::{Span, TokenStream};
use vstd::prelude::*;

use crate::emit::{make_word, word};
use crate::stream::{
    append, ascii_ident, new_stream, punct_char, push_group, push_ident, push_punct, stream_tokens,
    views, Delim, Tree,
};
use crate::template::{fill, filled, Slot};

verus! {

/// A punctuation character that stands by itself.
pub open spec fn mark(ch: char, at: Span) -> Seq<Tree> {
    seq![Tree::Punct { ch, joint: false, at }]
}

/// A punctuation character that stands by itself.
pub(crate) fn make_mark(ch: char, at: Span) -> (out: TokenStream)
    requires
        punct_char(ch),
    ensures
        stream_tokens(out) == mark(ch, at),
{
    let mut out = new_stream();
    push_punct(&mut out, ch, false, at);
    assert(stream_tokens(out) =~= mark(ch, at));
    out
}

/// `::`
pub open spec fn colons(at: Span) -> Seq<Tree> {
    seq![Tree::Punct { ch: ':', joint: true, at }, Tree::Punct { ch: ':', joint: false, at }]
}

/// `::`
pub(crate) fn make_colons(at: Span) -> (out: TokenStream)
    ensures
        stream_tokens(out) == colons(at),
{
    let mut out = new_stream();
    push_punct(&mut out, ':', true, at);
    push_punct(&mut out, ':', false, at);
    assert(stream_tokens(out) =~= colons(at));
    out
}

/// `'name`
pub open spec fn lifetime(name: Seq<char>, at: Span) -> Seq<Tree> {
    seq![Tree::Punct { ch: '\'', joint: true, at }, Tree::Ident { text: name, at }]
}

/// `'name`
pub(crate) fn make_lifetime(name: &str, at: Span) -> (out: TokenStream)
    requires
        ascii_ident(name@),
    ensures
        stream_tokens(out) == lifetime(name@, at),
{
    let mut out = new_stream();
    push_punct(&mut out, '\'', true, at);
    push_ident(&mut out, name, at);
    assert(stream_tokens(out) =~= lifetime(name@, at));
    out
}

/// Tokens between delimiters.
pub open spec fn enclosed(delim: Delim, inner: Seq<Tree>, at: Span) -> Seq<Tree> {
    seq![Tree::Group { delim, inner, at }]
}

/// Tokens between delimiters.
pub(crate) fn enclose(delim: Delim, inner: &TokenStream, at: Span) -> (out: TokenStream)
    ensures
        stream_tokens(out) == enclosed(delim, stream_tokens(*inner), at),
{
    let mut out = new_stream();
    push_group(&mut out, delim, inner, at);
    assert(stream_tokens(out) =~= enclosed(delim, stream_tokens(*inner), at));
    out
}

/// `#[inner]`
pub open spec fn attribute_with(inner: Seq<Tree>, at: Span) -> Seq<Tree> {
    mark('#', at) + enclosed(Delim::Bracket, inner, at)
}

/// `#[inner]`
pub(crate) fn make_attribute(inner: &TokenStream, at: Span) -> (out: TokenStream)
    ensures
        stream_tokens(out) == attribute_with(stream_tokens(*inner), at),
{
    let mut out = make_mark('#', at);
    append(&mut out, &enclose(Delim::Bracket, inner, at));
    out
}

/// A template without slots.
pub open spec fn fixed(template: Seq<char>, at: Span) -> Seq<Tree> {
    filled(template, Seq::empty(), at)
}

/// A template without slots.
pub(crate) fn make_fixed(template: &str, at: Span) -> (out: TokenStream)
    ensures
        stream_tokens(out) == fixed(template@, at),
{
    let slots: Vec<Slot> = Vec::new();
    assert(views(slots@) =~= Seq::empty());
    fill(template, &slots, at)
}

/// `const _: () = { inner };`
pub open spec fn in_const(inner: Seq<Tree>, at: Span) -> Seq<Tree> {
    word("const"@, at) + word("_"@, at) + mark(':', at) + enclosed(Delim::Paren, Seq::empty(), at)
        + mark('=', at) + enclosed(Delim::Brace, inner, at) + mark(';', at)
}

/// `const _: () = { inner };`
pub(crate) fn make_const(inner: &TokenStream, at: Span) -> (out: TokenStream)
    ensures
        stream_tokens(out) == in_const(stream_tokens(*inner), at),
{
    proof {
        reveal_strlit("const");
        reveal_strlit("_");
    }
    let mut out = make_word("const", at);
    append(&mut out, &make_word("_", at));
    append(&mut out, &make_mark(':', at));
    append(&mut out, &enclose(Delim::Paren, &new_stream(), at));
    append(&mut out, &make_mark('=', at));
    append(&mut out, &enclose(Delim::Brace, inner, at));
    append(&mut out, &make_mark(';', at));
    out
}

/// `#[automatically_derived] impl<..> Trait for Type where .. { body }`
pub open spec fn derived_impl(
    generics: Seq<Tree>,
    of: Seq<Tree>,
    ty: Seq<Tree>,
    where_clause: Seq<Tree>,
    body: Seq<Tree>,
    at: Span,
) -> Seq<Tree> {
    attribute_with(word("automatically_derived"@, at), at) + word("impl"@, at) + generics + of
        + word("for"@, at) + ty + where_clause + enclosed(Delim::Brace, body, at)
}

/// `#[automatically_derived] impl<..> Trait for Type where .. { body }`
pub(crate) fn make_impl(
    generics: &TokenStream,
    of: &TokenStream,
    ty: &TokenStream,
    where_clause: &TokenStream,
    body: &TokenStream,
    at: Span,
) -> (out: TokenStream)
    ensures
        stream_tokens(out) == derived_impl(
            stream_tokens(*generics),
            stream_tokens(*of),
            stream_tokens(*ty),
            stream_tokens(*where_clause),
            stream_tokens(*body),
            at,
        ),
{
    proof {
        reveal_strlit("automatically_derived");
        reveal_strlit("impl");
        reveal_strlit("for");
    }
    let mut out = make_attribute(&make_word("automatically_derived", at), at);
    append(&mut out, &make_word("impl", at));
    append(&mut out, generics);
    append(&mut out, of);
    append(&mut out, &make_word("for", at));
    append(&mut out, ty);
    append(&mut out, where_clause);
    append(&mut out, &enclose(Delim::Brace, body, at));
    out
}

} // verus!
