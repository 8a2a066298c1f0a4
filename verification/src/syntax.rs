//! The pieces of Rust syntax that the macros read.
//!
//! The parsing itself is syn's. Each function below hands tokens to one of its
//! parsers and moves what comes back into plain parts; the contract names the
//! outcome. An outcome can hold places that the trees of the tokens do not: an
//! error may stand at a delimiter or where the running macro was called, and
//! where syn prints types or expressions again it may add a comma that stands
//! there too. So a name takes these places beside the tokens, and the contract
//! says that there are some.
use proc_macro2::{Span, TokenStream};
use quote::ToTokens;
use syn::parse::{ParseStream, Parser};
use syn::punctuated::{Pair, Punctuated};
use syn::token::Comma;
use syn::GenericParam::{Const as ConstParam, Lifetime as LifetimeParam, Type as TypeParam};
use syn::{Field, GenericArgument, LitStr, MetaList};
use vstd::prelude::*;

use crate::error::{seen, seen_list, seen_pair, seen_streams, Error, ErrorView};
use crate::stream::{stream_tokens, Token, Tree};

verus! {

/// An optional text.
pub open spec fn text_of(name: Option<String>) -> Option<Seq<char>> {
    match name {
        Some(text) => Some(text@),
        None => None,
    }
}

/// Optional tokens.
pub open spec fn tokens_in(stream: Option<TokenStream>) -> Option<Seq<Tree>> {
    match stream {
        Some(stream) => Some(stream_tokens(stream)),
        None => None,
    }
}

/// Whether the trees are one identifier.
pub open spec fn lone_ident(trees: Seq<Tree>) -> bool {
    trees.len() == 1 && trees[0] is Ident
}

impl Token {
    /// Whether the token is an identifier, and stands alone in its stream.
    pub open spec fn is_name(self) -> bool {
        self@ is Ident && stream_tokens(self.alone) == seq![self@]
    }
}

/// The parts of a struct item, in the order in which they are written. The
/// where clause stands before the fields where these have names, after them
/// otherwise.
pub struct Header {
    pub attrs: TokenStream,
    pub vis: TokenStream,
    pub keyword: TokenStream,
    pub ident: TokenStream,
    pub generics: TokenStream,
    pub where_clause: TokenStream,
    pub fields: TokenStream,
    pub semi: TokenStream,
}

/// A [`Header`] as the contracts see it.
pub struct HeaderView {
    pub attrs: Seq<Tree>,
    pub vis: Seq<Tree>,
    pub keyword: Seq<Tree>,
    pub ident: Seq<Tree>,
    pub generics: Seq<Tree>,
    pub where_clause: Seq<Tree>,
    pub fields: Seq<Tree>,
    pub semi: Seq<Tree>,
}

impl View for Header {
    type V = HeaderView;

    open spec fn view(&self) -> HeaderView {
        HeaderView {
            attrs: stream_tokens(self.attrs),
            vis: stream_tokens(self.vis),
            keyword: stream_tokens(self.keyword),
            ident: stream_tokens(self.ident),
            generics: stream_tokens(self.generics),
            where_clause: stream_tokens(self.where_clause),
            fields: stream_tokens(self.fields),
            semi: stream_tokens(self.semi),
        }
    }
}

/// What `syn::ItemStruct` reads out of some tokens.
pub uninterp spec fn syn_item_struct(tokens: Seq<Tree>, places: Seq<Span>) -> Result<
    HeaderView,
    ErrorView,
>;

/// `syn::parse2::<syn::ItemStruct>`: the tokens are one struct item, and these
/// are its parts. Its name is one identifier.
#[verifier::external_body]
pub(crate) fn parse_header(stream: &TokenStream) -> (result: Result<Header, Error>)
    ensures
        exists|places: Seq<Span>| #[trigger]
            syn_item_struct(stream_tokens(*stream), places) == seen(result),
        result matches Ok(header) ==> lone_ident(stream_tokens(header.ident)),
{
    let item = syn::parse2::<syn::ItemStruct>(stream.clone()).map_err(|e| Error::spanning(&e.to_compile_error(), e.to_string(), e.span()))?;
    Ok(Header {
        attrs: item.attrs.iter().map(ToTokens::to_token_stream).collect(),
        vis: item.vis.to_token_stream(),
        keyword: item.struct_token.to_token_stream(),
        ident: item.ident.to_token_stream(),
        generics: item.generics.to_token_stream(),
        where_clause: item.generics.where_clause.to_token_stream(),
        fields: item.fields.to_token_stream(),
        semi: item.semi_token.to_token_stream(),
    })
}

/// The arguments of an attribute: none, a list of them, given with the name and
/// the delimiters, or a value after an equals sign, which stands at the given
/// place.
pub enum ArgsParts {
    Bare,
    List(TokenStream),
    Value(Span),
}

/// [`ArgsParts`] as the contracts see them.
pub enum ArgsPartsView {
    Bare,
    List(Seq<Tree>),
    Value(Span),
}

/// An attribute.
pub struct AttributeParts {
    /// Its path, where that is a single identifier.
    pub name: Option<String>,
    pub path: TokenStream,
    pub args: ArgsParts,
    /// All of it, with `#` and brackets.
    pub tokens: TokenStream,
}

/// An [`AttributeParts`] as the contracts see it.
pub struct AttributePartsView {
    pub name: Option<Seq<char>>,
    pub path: Seq<Tree>,
    pub args: ArgsPartsView,
    pub tokens: Seq<Tree>,
}

impl View for AttributeParts {
    type V = AttributePartsView;

    open spec fn view(&self) -> AttributePartsView {
        AttributePartsView {
            name: text_of(self.name),
            path: stream_tokens(self.path),
            args: match self.args {
                ArgsParts::Bare => ArgsPartsView::Bare,
                ArgsParts::List(list) => ArgsPartsView::List(stream_tokens(list)),
                ArgsParts::Value(at) => ArgsPartsView::Value(at),
            },
            tokens: stream_tokens(self.tokens),
        }
    }
}

/// What `syn::Attribute::parse_outer` reads out of some tokens.
pub uninterp spec fn syn_attributes(tokens: Seq<Tree>, places: Seq<Span>) -> Result<
    Seq<AttributePartsView>,
    ErrorView,
>;

/// `syn::Attribute::parse_outer`: the tokens are attributes, and these are
/// their parts.
#[verifier::external_body]
pub(crate) fn parse_attributes(stream: &TokenStream) -> (result: Result<Vec<AttributeParts>, Error>)
    ensures
        exists|places: Seq<Span>| #[trigger]
            syn_attributes(stream_tokens(*stream), places) == seen_list(result),
{
    let attrs = syn::Attribute::parse_outer.parse2(stream.clone()).map_err(|e| Error::spanning(&e.to_compile_error(), e.to_string(), e.span()))?;
    Ok(attrs.into_iter().map(|attr| AttributeParts {
        name: attr.path().get_ident().map(|ident| ident.to_string()),
        path: attr.path().to_token_stream(),
        tokens: attr.to_token_stream(),
        args: match attr.meta {
            syn::Meta::Path(_) => ArgsParts::Bare,
            syn::Meta::List(list) => ArgsParts::List(list.to_token_stream()),
            syn::Meta::NameValue(pair) => ArgsParts::Value(pair.eq_token.span),
        },
    }).collect())
}

/// One setting in the list of an attribute: `name`, `name(..)` or
/// `name = value`.
pub struct MetaParts {
    /// Its path, where that is a single identifier.
    pub name: Option<String>,
    /// Its path, and the equals sign of `name = value`.
    pub head: TokenStream,
    pub value: Option<TokenStream>,
    /// All of it.
    pub tokens: TokenStream,
}

/// A [`MetaParts`] as the contracts see it.
pub struct MetaPartsView {
    pub name: Option<Seq<char>>,
    pub head: Seq<Tree>,
    pub value: Option<Seq<Tree>>,
    pub tokens: Seq<Tree>,
}

impl View for MetaParts {
    type V = MetaPartsView;

    open spec fn view(&self) -> MetaPartsView {
        MetaPartsView {
            name: text_of(self.name),
            head: stream_tokens(self.head),
            value: tokens_in(self.value),
            tokens: stream_tokens(self.tokens),
        }
    }
}

/// The settings that `syn::MetaList::parse_args_with` reads out of the tokens of
/// a name and a group.
pub uninterp spec fn syn_metas(tokens: Seq<Tree>, places: Seq<Span>) -> Result<
    Seq<MetaPartsView>,
    ErrorView,
>;

/// `syn::MetaList::parse_args_with`, on
/// `Punctuated::<syn::Meta, Token![,]>::parse_terminated`: the tokens are a name
/// and a group of settings, and these are the parts of the settings. An error at
/// the end of the group stands at its closing delimiter.
#[verifier::external_body]
pub(crate) fn parse_meta_list(stream: &TokenStream) -> (result: Result<Vec<MetaParts>, Error>)
    ensures
        exists|places: Seq<Span>| #[trigger]
            syn_metas(stream_tokens(*stream), places) == seen_list(result),
{
    let metas = syn::parse2::<MetaList>(stream.clone())
        .and_then(|list| list.parse_args_with(Punctuated::<syn::Meta, Comma>::parse_terminated))
        .map_err(|e| Error::spanning(&e.to_compile_error(), e.to_string(), e.span()))?;
    Ok(metas.into_iter().map(|meta| {
        let name = meta.path().get_ident().map(|ident| ident.to_string());
        let (tokens, mut head) = (meta.to_token_stream(), meta.path().to_token_stream());
        let value = match meta {
            syn::Meta::NameValue(pair) => {
                pair.eq_token.to_tokens(&mut head);
                Some(pair.value.to_token_stream())
            },
            _ => None,
        };
        MetaParts { name, head, value, tokens }
    }).collect())
}

/// Whether a struct's fields have names, positions, or are absent.
#[derive(Clone, Copy, PartialEq, Eq, Structural, Debug)]
pub enum Layout {
    Named,
    Unnamed,
    Unit,
}

/// The parts of a field, in the order in which they are written.
pub struct FieldParts {
    pub attrs: TokenStream,
    pub vis: TokenStream,
    pub ident: Option<TokenStream>,
    pub colon: TokenStream,
    pub ty: TokenStream,
    pub comma: TokenStream,
}

/// [`FieldParts`] as the contracts see them.
pub struct FieldPartsView {
    pub attrs: Seq<Tree>,
    pub vis: Seq<Tree>,
    pub ident: Option<Seq<Tree>>,
    pub colon: Seq<Tree>,
    pub ty: Seq<Tree>,
    pub comma: Seq<Tree>,
}

impl View for FieldParts {
    type V = FieldPartsView;

    open spec fn view(&self) -> FieldPartsView {
        FieldPartsView {
            attrs: stream_tokens(self.attrs),
            vis: stream_tokens(self.vis),
            ident: tokens_in(self.ident),
            colon: stream_tokens(self.colon),
            ty: stream_tokens(self.ty),
            comma: stream_tokens(self.comma),
        }
    }
}

/// What a comma-separated list of fields with names reads out of some tokens.
pub uninterp spec fn syn_named_fields(tokens: Seq<Tree>, places: Seq<Span>) -> Result<
    Seq<FieldPartsView>,
    ErrorView,
>;

/// `Punctuated::<syn::Field, Token![,]>::parse_terminated_with`, on
/// `Field::parse_named`: the tokens are fields with names, and these are their
/// parts. The name of a field is one identifier.
#[verifier::external_body]
pub(crate) fn parse_named_fields(stream: &TokenStream) -> (result: Result<Vec<FieldParts>, Error>)
    ensures
        exists|places: Seq<Span>| #[trigger]
            syn_named_fields(stream_tokens(*stream), places) == seen_list(result),
        result matches Ok(fields) ==> forall|i: int|
            0 <= i < fields.len() ==> ((#[trigger] fields[i]).ident matches Some(ident)
                ==> lone_ident(stream_tokens(ident))),
{
    let list = |input: ParseStream| Punctuated::<Field, Comma>::parse_terminated_with(input, Field::parse_named);
    let fields = list.parse2(stream.clone()).map_err(|e| Error::spanning(&e.to_compile_error(), e.to_string(), e.span()))?;
    Ok(fields.into_pairs().map(Pair::into_tuple).map(|(field, comma)| FieldParts {
        attrs: field.attrs.iter().map(ToTokens::to_token_stream).collect(),
        vis: field.vis.to_token_stream(),
        ident: field.ident.map(ToTokens::into_token_stream),
        colon: field.colon_token.to_token_stream(),
        ty: field.ty.to_token_stream(),
        comma: comma.to_token_stream(),
    }).collect())
}

/// What a comma-separated list of fields without names reads out of some tokens.
pub uninterp spec fn syn_unnamed_fields(tokens: Seq<Tree>, places: Seq<Span>) -> Result<
    Seq<FieldPartsView>,
    ErrorView,
>;

/// `Punctuated::<syn::Field, Token![,]>::parse_terminated_with`, on
/// `Field::parse_unnamed`: the tokens are fields without names, and these are
/// their parts. None has a name.
#[verifier::external_body]
pub(crate) fn parse_unnamed_fields(stream: &TokenStream) -> (result: Result<Vec<FieldParts>, Error>)
    ensures
        exists|places: Seq<Span>| #[trigger]
            syn_unnamed_fields(stream_tokens(*stream), places) == seen_list(result),
        result matches Ok(fields) ==> forall|i: int|
            0 <= i < fields.len() ==> (#[trigger] fields[i]).ident is None,
{
    let list = |input: ParseStream| Punctuated::<Field, Comma>::parse_terminated_with(input, Field::parse_unnamed);
    let fields = list.parse2(stream.clone()).map_err(|e| Error::spanning(&e.to_compile_error(), e.to_string(), e.span()))?;
    Ok(fields.into_pairs().map(Pair::into_tuple).map(|(field, comma)| FieldParts {
        attrs: field.attrs.iter().map(ToTokens::to_token_stream).collect(),
        vis: field.vis.to_token_stream(),
        ident: field.ident.map(ToTokens::into_token_stream),
        colon: field.colon_token.to_token_stream(),
        ty: field.ty.to_token_stream(),
        comma: comma.to_token_stream(),
    }).collect())
}

/// A generic parameter of a struct.
pub enum Param {
    /// The name, without its apostrophe; the lifetime alone; and with its
    /// bounds.
    Lifetime { name: String, lifetime: TokenStream, tokens: TokenStream },
    Type { ident: TokenStream, default: Option<TokenStream> },
    Const { ident: TokenStream, ty: TokenStream, default: Option<TokenStream> },
}

/// A [`Param`] as the contracts see it.
pub enum ParamView {
    Lifetime { name: Seq<char>, lifetime: Seq<Tree>, tokens: Seq<Tree> },
    Type { ident: Seq<Tree>, default: Option<Seq<Tree>> },
    Const { ident: Seq<Tree>, ty: Seq<Tree>, default: Option<Seq<Tree>> },
}

impl View for Param {
    type V = ParamView;

    open spec fn view(&self) -> ParamView {
        match *self {
            Param::Lifetime { name, lifetime, tokens } => ParamView::Lifetime {
                name: name@,
                lifetime: stream_tokens(lifetime),
                tokens: stream_tokens(tokens),
            },
            Param::Type { ident, default } => ParamView::Type {
                ident: stream_tokens(ident),
                default: tokens_in(default),
            },
            Param::Const { ident, ty, default } => ParamView::Const {
                ident: stream_tokens(ident),
                ty: stream_tokens(ty),
                default: tokens_in(default),
            },
        }
    }
}

/// What `syn::Generics` reads out of some tokens.
pub uninterp spec fn syn_generics(tokens: Seq<Tree>, places: Seq<Span>) -> Result<
    Seq<ParamView>,
    ErrorView,
>;

/// `syn::parse2::<syn::Generics>`: the tokens are a list of generic parameters
/// in angle brackets, or nothing, and these are the parameters. The name of a
/// type or const parameter is one identifier.
#[verifier::external_body]
pub(crate) fn parse_params(stream: &TokenStream) -> (result: Result<Vec<Param>, Error>)
    ensures
        exists|places: Seq<Span>| #[trigger]
            syn_generics(stream_tokens(*stream), places) == seen_list(result),
        result matches Ok(params) ==> forall|i: int|
            0 <= i < params.len() ==> match #[trigger] params[i] {
                Param::Lifetime { name: _, lifetime: _, tokens: _ } => true,
                Param::Type { ident, default: _ } => lone_ident(stream_tokens(ident)),
                Param::Const { ident, ty: _, default: _ } => lone_ident(stream_tokens(ident)),
            },
{
    let generics = syn::parse2::<syn::Generics>(stream.clone()).map_err(|e| Error::spanning(&e.to_compile_error(), e.to_string(), e.span()))?;
    Ok(generics.params.into_iter().map(|param| match param {
        LifetimeParam(p) => Param::Lifetime {
            name: p.lifetime.ident.to_string(), lifetime: p.lifetime.to_token_stream(),
            tokens: p.to_token_stream(),
        },
        TypeParam(p) => Param::Type {
            ident: p.ident.to_token_stream(), default: p.default.map(ToTokens::into_token_stream),
        },
        ConstParam(p) => Param::Const {
            ident: p.ident.to_token_stream(),
            ty: p.ty.to_token_stream(),
            default: p.default.map(ToTokens::into_token_stream),
        },
    }).collect())
}

/// A path to a struct, perhaps with generic arguments.
pub struct PathParts {
    /// All that stands before the last segment.
    pub lead: TokenStream,
    /// The name in the last segment, and its arguments.
    pub ident: TokenStream,
    pub args: TokenStream,
    /// All of the path.
    pub tokens: TokenStream,
}

/// A [`PathParts`] as the contracts see it.
pub struct PathPartsView {
    pub lead: Seq<Tree>,
    pub ident: Seq<Tree>,
    pub args: Seq<Tree>,
    pub tokens: Seq<Tree>,
}

impl View for PathParts {
    type V = PathPartsView;

    open spec fn view(&self) -> PathPartsView {
        PathPartsView {
            lead: stream_tokens(self.lead),
            ident: stream_tokens(self.ident),
            args: stream_tokens(self.args),
            tokens: stream_tokens(self.tokens),
        }
    }
}

/// A path and what follows it, as the contracts see them.
pub open spec fn seen_split(result: Result<(PathParts, TokenStream), Error>) -> Result<
    (PathPartsView, Seq<Tree>),
    ErrorView,
> {
    match result {
        Ok((path, rest)) => Ok((path@, stream_tokens(rest))),
        Err(error) => Err(error@),
    }
}

/// What `syn::Path` reads at the start of some tokens, and what it leaves.
pub uninterp spec fn syn_path(tokens: Seq<Tree>, places: Seq<Span>) -> Result<
    (PathPartsView, Seq<Tree>),
    ErrorView,
>;

/// `syn::Path::parse`, on the start of the tokens: a path, and the tokens
/// after it. The name in its last segment is one identifier.
#[verifier::external_body]
pub(crate) fn split_path(stream: &TokenStream) -> (result: Result<(PathParts, TokenStream), Error>)
    ensures
        exists|places: Seq<Span>| #[trigger]
            syn_path(stream_tokens(*stream), places) == seen_split(result),
        result matches Ok((path, _)) ==> lone_ident(stream_tokens(path.ident)),
{
    let parser = |input: ParseStream| Ok((input.parse::<syn::Path>()?, input.parse::<TokenStream>()?));
    let (mut path, rest) = parser.parse2(stream.clone()).map_err(|e| Error::spanning(&e.to_compile_error(), e.to_string(), e.span()))?;
    let tokens = path.to_token_stream();
    let last = path.segments.pop().unwrap().into_value();
    let (lead, ident, args) = (path.to_token_stream(), last.ident.to_token_stream(), last.arguments.to_token_stream());
    Ok((PathParts { lead, ident, args, tokens }, rest))
}

/// The paths that `syn::MetaList::parse_args_with` reads out of the tokens of a
/// name and a group.
pub uninterp spec fn syn_paths(tokens: Seq<Tree>, places: Seq<Span>) -> Result<
    Seq<PathPartsView>,
    ErrorView,
>;

/// `syn::MetaList::parse_args_with`, on
/// `Punctuated::<syn::Path, Token![,]>::parse_terminated`: the tokens are a name
/// and a group of paths, and these are the parts of the paths. An error at the
/// end of the group stands at its closing delimiter.
#[verifier::external_body]
pub(crate) fn parse_paths(stream: &TokenStream) -> (result: Result<Vec<PathParts>, Error>)
    ensures
        exists|places: Seq<Span>| #[trigger]
            syn_paths(stream_tokens(*stream), places) == seen_list(result),
{
    let paths = syn::parse2::<MetaList>(stream.clone())
        .and_then(|list| list.parse_args_with(Punctuated::<syn::Path, Comma>::parse_terminated))
        .map_err(|e| Error::spanning(&e.to_compile_error(), e.to_string(), e.span()))?;
    Ok(paths.into_iter().map(|mut path| {
        let tokens = path.to_token_stream();
        let last = path.segments.pop().unwrap().into_value();
        let (lead, ident, args) = (path.to_token_stream(), last.ident.to_token_stream(), last.arguments.to_token_stream());
        PathParts { lead, ident, args, tokens }
    }).collect())
}

/// What `syn::Path::parse_mod_style` reads at the start of some tokens, and
/// what it leaves.
pub uninterp spec fn syn_mod_path(tokens: Seq<Tree>, places: Seq<Span>) -> Result<
    (Seq<Tree>, Seq<Tree>),
    ErrorView,
>;

/// `syn::Path::parse_mod_style`, on the start of the tokens: a path without
/// generic arguments, and the tokens after it.
#[verifier::external_body]
pub(crate) fn split_mod_path(stream: &TokenStream) -> (result: Result<
    (TokenStream, TokenStream),
    Error,
>)
    ensures
        exists|places: Seq<Span>| #[trigger]
            syn_mod_path(stream_tokens(*stream), places) == seen_pair(result),
{
    let parser = |input: ParseStream|
        Ok((syn::Path::parse_mod_style(input)?.to_token_stream(), input.parse::<TokenStream>()?));
    parser.parse2(stream.clone()).map_err(|e| Error::spanning(&e.to_compile_error(), e.to_string(), e.span()))
}

/// A generic argument of a path.
pub enum Arg {
    /// The name of the lifetime, without its apostrophe.
    Lifetime { name: String, tokens: TokenStream },
    Type(TokenStream),
    Const(TokenStream),
    /// A binding or a bound of an associated item.
    Other(TokenStream),
}

/// An [`Arg`] as the contracts see it.
pub enum ArgView {
    Lifetime { name: Seq<char>, tokens: Seq<Tree> },
    Type(Seq<Tree>),
    Const(Seq<Tree>),
    Other(Seq<Tree>),
}

impl View for Arg {
    type V = ArgView;

    open spec fn view(&self) -> ArgView {
        match *self {
            Arg::Lifetime { name, tokens } => ArgView::Lifetime {
                name: name@,
                tokens: stream_tokens(tokens),
            },
            Arg::Type(tokens) => ArgView::Type(stream_tokens(tokens)),
            Arg::Const(tokens) => ArgView::Const(stream_tokens(tokens)),
            Arg::Other(tokens) => ArgView::Other(stream_tokens(tokens)),
        }
    }
}

/// What `syn::AngleBracketedGenericArguments` reads out of some tokens.
pub uninterp spec fn syn_generic_args(tokens: Seq<Tree>, places: Seq<Span>) -> Result<
    Seq<ArgView>,
    ErrorView,
>;

/// `syn::parse2::<syn::AngleBracketedGenericArguments>`: the tokens are a list
/// of generic arguments in angle brackets, and these are the arguments.
#[verifier::external_body]
pub(crate) fn parse_generic_args(stream: &TokenStream) -> (result: Result<Vec<Arg>, Error>)
    ensures
        exists|places: Seq<Span>| #[trigger]
            syn_generic_args(stream_tokens(*stream), places) == seen_list(result),
{
    let list = syn::parse2::<syn::AngleBracketedGenericArguments>(stream.clone()).map_err(|e| Error::spanning(&e.to_compile_error(), e.to_string(), e.span()))?;
    Ok(list.args.into_iter().map(|arg| match arg {
        GenericArgument::Lifetime(a) => Arg::Lifetime { name: a.ident.to_string(), tokens: a.to_token_stream() },
        GenericArgument::Type(a) => Arg::Type(a.to_token_stream()),
        GenericArgument::Const(a) => Arg::Const(a.to_token_stream()),
        other => Arg::Other(other.to_token_stream()),
    }).collect())
}

/// What `syn::Ident` reads out of some tokens: the text of the identifier.
pub uninterp spec fn syn_ident(tokens: Seq<Tree>, places: Seq<Span>) -> Result<
    Seq<char>,
    ErrorView,
>;

/// `syn::parse2::<syn::Ident>`: the tokens are an identifier that is no
/// keyword, and this is its text.
#[verifier::external_body]
pub(crate) fn parse_ident(stream: &TokenStream) -> (result: Result<String, Error>)
    ensures
        exists|places: Seq<Span>| #[trigger]
            syn_ident(stream_tokens(*stream), places) == seen(result),
{
    syn::parse2::<syn::Ident>(stream.clone())
        .map(|ident| ident.to_string())
        .map_err(|e| Error::spanning(&e.to_compile_error(), e.to_string(), e.span()))
}

/// A parameter of a function: the type of a typed one, or all of a receiver.
pub enum FnParam {
    Typed(TokenStream),
    Receiver(TokenStream),
}

/// An [`FnParam`] as the contracts see it.
pub enum FnParamView {
    Typed(Seq<Tree>),
    Receiver(Seq<Tree>),
}

impl View for FnParam {
    type V = FnParamView;

    open spec fn view(&self) -> FnParamView {
        match *self {
            FnParam::Typed(ty) => FnParamView::Typed(stream_tokens(ty)),
            FnParam::Receiver(tokens) => FnParamView::Receiver(stream_tokens(tokens)),
        }
    }
}

/// What a comma-separated list of `syn::FnArg` reads out of some tokens.
pub uninterp spec fn syn_fn_params(tokens: Seq<Tree>, places: Seq<Span>) -> Result<
    Seq<FnParamView>,
    ErrorView,
>;

/// `Punctuated::<syn::FnArg, Token![,]>::parse_terminated`: the tokens are the
/// parameters of a function.
#[verifier::external_body]
pub(crate) fn parse_fn_params(stream: &TokenStream) -> (result: Result<Vec<FnParam>, Error>)
    ensures
        exists|places: Seq<Span>| #[trigger]
            syn_fn_params(stream_tokens(*stream), places) == seen_list(result),
{
    let params = Punctuated::<syn::FnArg, Comma>::parse_terminated.parse2(stream.clone()).map_err(|e| Error::spanning(&e.to_compile_error(), e.to_string(), e.span()))?;
    Ok(params.into_iter().map(|param| match param {
        syn::FnArg::Typed(typed) => FnParam::Typed(typed.ty.to_token_stream()),
        syn::FnArg::Receiver(receiver) => FnParam::Receiver(receiver.to_token_stream()),
    }).collect())
}

/// What a comma-separated list of `syn::Expr` reads out of some tokens: the
/// tokens of each expression.
pub uninterp spec fn syn_exprs(tokens: Seq<Tree>, places: Seq<Span>) -> Result<
    Seq<Seq<Tree>>,
    ErrorView,
>;

/// `Punctuated::<syn::Expr, Token![,]>::parse_terminated`: the tokens are
/// expressions, and these are the tokens of each.
#[verifier::external_body]
pub(crate) fn parse_exprs(stream: &TokenStream) -> (result: Result<Vec<TokenStream>, Error>)
    ensures
        exists|places: Seq<Span>| #[trigger]
            syn_exprs(stream_tokens(*stream), places) == seen_streams(result),
{
    let exprs = Punctuated::<syn::Expr, Comma>::parse_terminated.parse2(stream.clone()).map_err(|e| Error::spanning(&e.to_compile_error(), e.to_string(), e.span()))?;
    Ok(exprs.into_iter().map(ToTokens::into_token_stream).collect())
}

/// The last segment of the path that `syn::Type` reads out of some tokens,
/// where these are the path of a type.
pub uninterp spec fn syn_last_segment(tokens: Seq<Tree>) -> Option<Seq<char>>;

/// `syn::parse2::<syn::Type>`: where the tokens are the path of a type, the
/// name in its last segment.
#[verifier::external_body]
pub(crate) fn last_segment(stream: &TokenStream) -> (name: Option<String>)
    ensures
        text_of(name) == syn_last_segment(stream_tokens(*stream)),
{
    match syn::parse2::<syn::Type>(stream.clone()) {
        Ok(syn::Type::Path(ty)) => ty.path.segments.last().map(|segment| segment.ident.to_string()),
        _ => None,
    }
}

/// Whether a text can spell the tokens, each of them placed at `at`.
pub uninterp spec fn lexes_as(text: Seq<char>, at: Span, tokens: Seq<Tree>) -> bool;

/// Whether that can be the error about a text, in a literal at `at`, which spells
/// no tokens.
pub uninterp spec fn lex_fails(text: Seq<char>, at: Span, error: ErrorView) -> bool;

/// `syn::LitStr::parse::<TokenStream>`, on a literal of that text at that
/// place: the tokens that the text spells. Inside of a compiler it is the
/// compiler's lexer that is at work, which goes by the edition, normalizes
/// identifiers and words its own errors, so the tokens are known as some that
/// the text can spell only, and an error as one that it can give.
#[verifier::external_body]
pub(crate) fn lex(text: &str, at: Span) -> (result: Result<TokenStream, Error>)
    ensures
        match result {
            Ok(stream) => lexes_as(text@, at, stream_tokens(stream)),
            Err(error) => lex_fails(text@, at, error@),
        },
{
    LitStr::new(text, at).parse::<TokenStream>().map_err(|e| Error::spanning(&e.to_compile_error(), e.to_string(), e.span()))
}

/// Whether `text` is a printed form of the tokens.
pub uninterp spec fn prints_as(tokens: Seq<Tree>, text: Seq<char>) -> bool;

/// `Display` for `TokenStream`: a source text for the tokens. Where the blanks
/// stand in it is up to the compiler where one is at work, so the text is
/// known as one of the forms of the tokens only.
#[verifier::external_body]
pub(crate) fn show(stream: &TokenStream) -> (text: String)
    ensures
        prints_as(stream_tokens(*stream), text@),
{
    stream.to_string()
}

} // verus!
