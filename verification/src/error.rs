//! What goes wrong, where, and how it is reported.
use proc_macro2::{Span, TokenStream};
use vstd::prelude::*;

use crate::stream::{
    new_stream, opens_at, push_group, push_ident, push_punct, push_string, stream_list,
    stream_tokens, tokens_of, views, Delim, Tree,
};

verus! {

/// A message about the tokens between two places.
pub struct Error {
    pub message: String,
    pub start: Span,
    pub end: Span,
}

/// An [`Error`] as the contracts see it.
pub struct ErrorView {
    pub message: Seq<char>,
    pub start: Span,
    pub end: Span,
}

impl View for Error {
    type V = ErrorView;

    open spec fn view(&self) -> ErrorView {
        ErrorView { message: self.message@, start: self.start, end: self.end }
    }
}

/// A result as the contracts see it.
pub open spec fn seen<T: View>(result: Result<T, Error>) -> Result<T::V, ErrorView> {
    match result {
        Ok(value) => Ok(value@),
        Err(error) => Err(error@),
    }
}

/// A list as the contracts see it.
pub open spec fn seen_list<T: View>(result: Result<Vec<T>, Error>) -> Result<
    Seq<T::V>,
    ErrorView,
> {
    match result {
        Ok(values) => Ok(views(values@)),
        Err(error) => Err(error@),
    }
}

/// A list of streams as the contracts see it.
pub open spec fn seen_streams(result: Result<Vec<TokenStream>, Error>) -> Result<
    Seq<Seq<Tree>>,
    ErrorView,
> {
    match result {
        Ok(streams) => Ok(stream_list(streams@)),
        Err(error) => Err(error@),
    }
}

/// Two streams as the contracts see them.
pub open spec fn seen_pair(result: Result<(TokenStream, TokenStream), Error>) -> Result<
    (Seq<Tree>, Seq<Tree>),
    ErrorView,
> {
    match result {
        Ok((first, second)) => Ok((stream_tokens(first), stream_tokens(second))),
        Err(error) => Err(error@),
    }
}

/// What a contract says of a failure.
pub enum Fail {
    /// An error in full.
    Own(ErrorView),
    /// The message of an error, and the group at whose opening delimiter it
    /// stands.
    Opening(Seq<char>, Tree),
}

/// An outcome, with what is owed in the place of an error.
pub open spec fn owed<V>(outcome: Result<V, ErrorView>) -> Result<V, Fail> {
    match outcome {
        Ok(value) => Ok(value),
        Err(error) => Err(Fail::Own(error)),
    }
}

/// Whether `error` is the failure that is owed.
pub open spec fn fits(error: ErrorView, owed: Fail) -> bool {
    match owed {
        Fail::Own(own) => error == own,
        Fail::Opening(message, group) => error.message == message && error.start == error.end
            && opens_at(group, error.start),
    }
}

/// Whether `result` is the outcome that is owed.
pub open spec fn settles<T: View>(result: Result<T, Error>, owed: Result<T::V, Fail>) -> bool {
    match result {
        Ok(value) => owed matches Ok(want) && value@ == want,
        Err(error) => owed matches Err(fail) && fits(error@, fail),
    }
}

/// Whether `result` is the outcome that is owed, for a list.
pub open spec fn settles_list<T: View>(
    result: Result<Vec<T>, Error>,
    owed: Result<Seq<T::V>, Fail>,
) -> bool {
    match result {
        Ok(values) => owed matches Ok(want) && views(values@) == want,
        Err(error) => owed matches Err(fail) && fits(error@, fail),
    }
}

/// Whether `result` is the outcome that is owed, for a stream of tokens.
pub open spec fn settles_tokens(
    result: Result<TokenStream, Error>,
    owed: Result<Seq<Tree>, Fail>,
) -> bool {
    match result {
        Ok(stream) => owed matches Ok(want) && stream_tokens(stream) == want,
        Err(error) => owed matches Err(fail) && fits(error@, fail),
    }
}

/// The error that spans the given trees: from the place of the first to the
/// place of the last, or at `site` where there are none.
pub open spec fn spanning(trees: Seq<Tree>, message: Seq<char>, site: Span) -> ErrorView {
    if trees.len() == 0 {
        ErrorView { message, start: site, end: site }
    } else {
        ErrorView { message, start: trees.first().at(), end: trees.last().at() }
    }
}

impl Error {
    /// The same error once more.
    pub(crate) fn copied(&self) -> (error: Error)
        ensures
            error@ == self@,
    {
        Error { message: self.message.clone(), start: self.start, end: self.end }
    }

    /// An error at one place.
    pub fn at(place: Span, message: String) -> (error: Error)
        ensures
            error@ == (ErrorView { message: message@, start: place, end: place }),
    {
        Error { message, start: place, end: place }
    }

    /// An error that spans the tokens of `stream`.
    pub fn spanning(stream: &TokenStream, message: String, site: Span) -> (error: Error)
        ensures
            error@ == spanning(stream_tokens(*stream), message@, site),
    {
        let tokens = tokens_of(stream);
        let count = tokens.len();
        if count == 0 {
            assert(views(tokens@).len() == 0);
            Error { message, start: site, end: site }
        } else {
            assert(views(tokens@)[0] == tokens@[0]@);
            assert(views(tokens@)[count - 1] == tokens@[count - 1]@);
            Error { message, start: tokens[0].span, end: tokens[count - 1].span }
        }
    }
}

/// `:: core :: compile_error ! { "message" }`: the path at the start of the
/// error, the message at its end.
pub open spec fn report(error: ErrorView) -> Seq<Tree> {
    let (start, end) = (error.start, error.end);
    seq![
        Tree::Punct { ch: ':', joint: true, at: start },
        Tree::Punct { ch: ':', joint: false, at: start },
        Tree::Ident { text: "core"@, at: start },
        Tree::Punct { ch: ':', joint: true, at: start },
        Tree::Punct { ch: ':', joint: false, at: start },
        Tree::Ident { text: "compile_error"@, at: start },
        Tree::Punct { ch: '!', joint: false, at: start },
        Tree::Group {
            delim: Delim::Brace,
            inner: seq![Tree::Str { value: error.message, suffix: Seq::empty(), at: end }],
            at: end,
        },
    ]
}

/// The tokens that make the compiler report `error`.
pub fn to_compile_error(error: &Error) -> (stream: TokenStream)
    ensures
        stream_tokens(stream) == report(error@),
{
    proof {
        reveal_strlit("core");
        reveal_strlit("compile_error");
    }
    let mut stream = new_stream();
    push_punct(&mut stream, ':', true, error.start);
    push_punct(&mut stream, ':', false, error.start);
    push_ident(&mut stream, "core", error.start);
    push_punct(&mut stream, ':', true, error.start);
    push_punct(&mut stream, ':', false, error.start);
    push_ident(&mut stream, "compile_error", error.start);
    push_punct(&mut stream, '!', false, error.start);
    let mut message = new_stream();
    push_string(&mut message, error.message.as_str(), error.end);
    assert(stream_tokens(message) =~= seq![
        Tree::Str { value: error.message@, suffix: Seq::empty(), at: error.end },
    ]);
    push_group(&mut stream, Delim::Brace, &message, error.end);
    assert(stream_tokens(stream) =~= report(error@));
    stream
}

} // verus!
