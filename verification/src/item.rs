//! A struct item, read out of its tokens and written back.
use proc_macro2::{Span, TokenStream};
use vstd::prelude::*;

use crate::attrs::{deku_attr, is_deku};
use crate::error::{seen, seen_list, Error, ErrorView};
use crate::setting::{attrs_read, read_attributes, Attribute, AttributeView};
use crate::stream::{
    append, new_stream, push_group, stream_tokens, tokens_of, views, Delim, Shape, Token, Tree,
};
use crate::syntax::{
    lone_ident, parse_header, parse_named_fields, parse_params, parse_unnamed_fields,
    syn_generics, syn_item_struct, syn_named_fields, syn_unnamed_fields, FieldParts, FieldPartsView,
    HeaderView, Layout, Param, ParamView,
};
use crate::text::concat;

verus! {

/// A field of a struct.
pub struct Field {
    pub attrs: Vec<Attribute>,
    pub vis: TokenStream,
    pub ident: Option<Token>,
    pub colon: TokenStream,
    pub ty: TokenStream,
    pub comma: TokenStream,
}

/// A [`Field`] as the contracts see it.
pub struct FieldView {
    pub attrs: Seq<AttributeView>,
    pub vis: Seq<Tree>,
    pub ident: Option<Tree>,
    pub colon: Seq<Tree>,
    pub ty: Seq<Tree>,
    pub comma: Seq<Tree>,
}

impl View for Field {
    type V = FieldView;

    open spec fn view(&self) -> FieldView {
        FieldView {
            attrs: views(self.attrs@),
            vis: stream_tokens(self.vis),
            ident: match self.ident {
                Some(ident) => Some(ident@),
                None => None,
            },
            colon: stream_tokens(self.colon),
            ty: stream_tokens(self.ty),
            comma: stream_tokens(self.comma),
        }
    }
}

/// A struct item.
pub struct ItemStruct {
    pub attrs: Vec<Attribute>,
    pub vis: TokenStream,
    pub keyword: TokenStream,
    pub ident: Token,
    /// The generic parameters as they are written, and one by one.
    pub generics: TokenStream,
    pub params: Vec<Param>,
    pub where_clause: TokenStream,
    pub layout: Layout,
    pub fields: Vec<Field>,
    /// Where the delimiters of the fields stand.
    pub body_at: Span,
    pub semi: TokenStream,
}

/// An [`ItemStruct`] as the contracts see it.
pub struct ItemView {
    pub attrs: Seq<AttributeView>,
    pub vis: Seq<Tree>,
    pub keyword: Seq<Tree>,
    pub ident: Tree,
    pub generics: Seq<Tree>,
    pub params: Seq<ParamView>,
    pub where_clause: Seq<Tree>,
    pub layout: Layout,
    pub fields: Seq<FieldView>,
    pub body_at: Span,
    pub semi: Seq<Tree>,
}

impl View for ItemStruct {
    type V = ItemView;

    open spec fn view(&self) -> ItemView {
        ItemView {
            attrs: views(self.attrs@),
            vis: stream_tokens(self.vis),
            keyword: stream_tokens(self.keyword),
            ident: self.ident@,
            generics: stream_tokens(self.generics),
            params: views(self.params@),
            where_clause: stream_tokens(self.where_clause),
            layout: self.layout,
            fields: views(self.fields@),
            body_at: self.body_at,
            semi: stream_tokens(self.semi),
        }
    }
}

/// The names of the fields are identifiers.
pub open spec fn all_named(fields: Seq<Field>) -> bool {
    forall|i: int|
        0 <= i < fields.len() ==> ((#[trigger] fields[i]).ident matches Some(ident)
            ==> ident.is_name())
}

impl ItemStruct {
    /// The names in the item are identifiers.
    pub open spec fn wf(self) -> bool {
        self.ident.is_name() && all_named(self.fields@)
    }
}

/// The kind of fields that the trees are, the trees between their delimiters,
/// and the place of these; `place` where there are none.
pub open spec fn body_of(trees: Seq<Tree>, place: Span) -> (Layout, Seq<Tree>, Span) {
    if trees.len() == 1 {
        match trees[0] {
            Tree::Group { delim: Delim::Brace, inner, at } => (Layout::Named, inner, at),
            Tree::Group { delim: Delim::Paren, inner, at } => (Layout::Unnamed, inner, at),
            _ => (Layout::Unit, Seq::empty(), place),
        }
    } else {
        (Layout::Unit, Seq::empty(), place)
    }
}

/// Whether the parts can be that field.
pub open spec fn field_read(parts: FieldPartsView, outcome: Result<FieldView, ErrorView>) -> bool {
    exists|attrs: Result<Seq<AttributeView>, ErrorView>| #[trigger]
        attrs_read(parts.attrs, attrs) && match attrs {
            Ok(attrs) => outcome == Ok::<_, ErrorView>(field_with(parts, attrs)),
            Err(error) => outcome == Err::<FieldView, _>(error),
        }
}

/// A field with the given attributes.
pub open spec fn field_with(parts: FieldPartsView, attrs: Seq<AttributeView>) -> FieldView {
    FieldView {
        attrs,
        vis: parts.vis,
        ident: match parts.ident {
            Some(ident) => Some(ident[0]),
            None => None,
        },
        colon: parts.colon,
        ty: parts.ty,
        comma: parts.comma,
    }
}

/// Whether some tokens can have the parts of those fields.
pub open spec fn fields_parsed(
    layout: Layout,
    inner: Seq<Tree>,
    parts: Result<Seq<FieldPartsView>, ErrorView>,
) -> bool {
    match layout {
        Layout::Named => exists|places: Seq<Span>|
            parts == #[trigger] syn_named_fields(inner, places),
        Layout::Unnamed => exists|places: Seq<Span>|
            parts == #[trigger] syn_unnamed_fields(inner, places),
        Layout::Unit => parts == Ok::<_, ErrorView>(Seq::<FieldPartsView>::empty()),
    }
}

/// Whether the parts can be a field.
pub open spec fn field_readable(parts: FieldPartsView) -> bool {
    exists|field: FieldView| #[trigger] field_read(parts, Ok::<_, ErrorView>(field))
}

/// Whether the parts can be those fields, one for one. An error is that of the
/// first that cannot be read.
pub open spec fn each_field_read(
    parts: Seq<FieldPartsView>,
    outcome: Result<Seq<FieldView>, ErrorView>,
) -> bool {
    match outcome {
        Ok(fields) => fields.len() == parts.len() && forall|i: int|
            0 <= i < parts.len() ==> field_read(
                parts[i],
                Ok::<_, ErrorView>(#[trigger] fields[i]),
            ),
        Err(error) => exists|i: int|
            0 <= i < parts.len() && field_read(#[trigger] parts[i], Err::<FieldView, _>(error))
                && forall|k: int| 0 <= k < i ==> field_readable(#[trigger] parts[k]),
    }
}

/// Whether some tokens can be those fields.
pub open spec fn fields_read(
    layout: Layout,
    inner: Seq<Tree>,
    outcome: Result<Seq<FieldView>, ErrorView>,
) -> bool {
    exists|parts: Result<Seq<FieldPartsView>, ErrorView>| #[trigger]
        fields_parsed(layout, inner, parts) && match parts {
            Ok(parts) => each_field_read(parts, outcome),
            Err(error) => outcome == Err::<Seq<FieldView>, _>(error),
        }
}

/// Whether some tokens can be those generic parameters.
pub open spec fn params_read(
    tokens: Seq<Tree>,
    outcome: Result<Seq<ParamView>, ErrorView>,
) -> bool {
    exists|places: Seq<Span>|
            outcome == #[trigger] syn_generics(tokens, places)
}

/// Whether some tokens can have the parts of that struct item.
pub open spec fn header_parsed(
    tokens: Seq<Tree>,
    header: Result<HeaderView, ErrorView>,
) -> bool {
    exists|places: Seq<Span>|
            header == #[trigger] syn_item_struct(tokens, places)
}

/// The item with the given parts, attributes, parameters and fields.
pub open spec fn item_with(
    header: HeaderView,
    attrs: Seq<AttributeView>,
    params: Seq<ParamView>,
    fields: Seq<FieldView>,
) -> ItemView {
    let (layout, _, body_at) = body_of(header.fields, header.ident[0].at());
    ItemView {
        attrs,
        vis: header.vis,
        keyword: header.keyword,
        ident: header.ident[0],
        generics: header.generics,
        params,
        where_clause: header.where_clause,
        layout,
        fields,
        body_at,
        semi: header.semi,
    }
}

/// Whether an item with these parts can have those fields.
pub open spec fn header_fields_read(
    header: HeaderView,
    outcome: Result<Seq<FieldView>, ErrorView>,
) -> bool {
    let (layout, inner, _) = body_of(header.fields, header.ident[0].at());
    fields_read(layout, inner, outcome)
}

/// Whether the parts of an item can come to that, once its attributes and its
/// parameters are read.
pub open spec fn body_read(
    header: HeaderView,
    attrs: Seq<AttributeView>,
    params: Seq<ParamView>,
    outcome: Result<ItemView, ErrorView>,
) -> bool {
    exists|fields: Result<Seq<FieldView>, ErrorView>| #[trigger]
        header_fields_read(header, fields) && match fields {
            Ok(fields) => outcome == Ok::<_, ErrorView>(item_with(header, attrs, params, fields)),
            Err(error) => outcome == Err::<ItemView, _>(error),
        }
}

/// Whether the parts of an item can come to that, once its attributes are read.
pub open spec fn generics_read(
    header: HeaderView,
    attrs: Seq<AttributeView>,
    outcome: Result<ItemView, ErrorView>,
) -> bool {
    exists|params: Result<Seq<ParamView>, ErrorView>| #[trigger]
        params_read(header.generics, params) && match params {
            Ok(params) => body_read(header, attrs, params, outcome),
            Err(error) => outcome == Err::<ItemView, _>(error),
        }
}

/// Whether the parts of an item can come to that.
pub open spec fn parts_read(header: HeaderView, outcome: Result<ItemView, ErrorView>) -> bool {
    exists|attrs: Result<Seq<AttributeView>, ErrorView>| #[trigger]
        attrs_read(header.attrs, attrs) && match attrs {
            Ok(attrs) => generics_read(header, attrs, outcome),
            Err(error) => outcome == Err::<ItemView, _>(error),
        }
}

/// Whether some tokens can be that struct item.
pub open spec fn item_read(tokens: Seq<Tree>, outcome: Result<ItemView, ErrorView>) -> bool {
    exists|header: Result<HeaderView, ErrorView>| #[trigger]
        header_parsed(tokens, header) && match header {
            Ok(header) => parts_read(header, outcome),
            Err(error) => outcome == Err::<ItemView, _>(error),
        }
}

/// The identifier that a stream of one identifier holds.
pub(crate) fn only_ident(stream: &TokenStream) -> (ident: Token)
    requires
        lone_ident(stream_tokens(*stream)),
    ensures
        ident.is_name(),
        ident@ == stream_tokens(*stream)[0],
{
    let mut tokens = tokens_of(stream);
    assert(views(tokens@).len() == 1);
    assert(views(tokens@)[0] == tokens@[0]@);
    tokens.swap_remove(0)
}

/// The field that the parts are.
fn read_field(parts: FieldParts) -> (result: Result<Field, Error>)
    requires
        parts.ident matches Some(ident) ==> lone_ident(stream_tokens(ident)),
    ensures
        field_read(parts@, seen(result)),
        result matches Ok(field) ==> (field.ident matches Some(ident) ==> ident.is_name()),
{
    let read = read_attributes(&parts.attrs);
    assert(attrs_read(parts@.attrs, seen_list(read)));
    let attrs = match read {
        Ok(attrs) => attrs,
        Err(error) => return Err(error),
    };
    let ident = match &parts.ident {
        Some(ident) => Some(only_ident(ident)),
        None => None,
    };
    Ok(
        Field {
            attrs,
            vis: parts.vis,
            ident,
            colon: parts.colon,
            ty: parts.ty,
            comma: parts.comma,
        },
    )
}

/// The kind of fields that the tokens are, the tokens between their
/// delimiters, and the place of these.
fn read_body(stream: &TokenStream, place: Span) -> (body: (Layout, TokenStream, Span))
    ensures
        (body.0, stream_tokens(body.1), body.2) == body_of(stream_tokens(*stream), place),
{
    let mut tokens = tokens_of(stream);
    assert(views(tokens@).len() == tokens.len());
    if tokens.len() == 1 {
        assert(views(tokens@)[0] == tokens@[0]@);
        let token = tokens.swap_remove(0);
        match token.shape {
            Shape::Group(Delim::Brace, inner) => return (Layout::Named, inner, token.span),
            Shape::Group(Delim::Paren, inner) => return (Layout::Unnamed, inner, token.span),
            _ => {},
        }
    }
    (Layout::Unit, new_stream(), place)
}

/// The fields that stand between delimiters.
fn read_fields(layout: Layout, inner: &TokenStream) -> (result: Result<Vec<Field>, Error>)
    ensures
        fields_read(layout, stream_tokens(*inner), seen_list(result)),
        result matches Ok(fields) ==> all_named(fields@),
{
    let parsed = match layout {
        Layout::Named => parse_named_fields(inner),
        Layout::Unnamed => parse_unnamed_fields(inner),
        Layout::Unit => {
            let none: Vec<FieldParts> = Vec::new();
            assert(views(none@) =~= Seq::empty());
            Ok(none)
        },
    };
    assert(fields_parsed(layout, stream_tokens(*inner), seen_list(parsed)));
    let parts = match parsed {
        Ok(parts) => parts,
        Err(error) => return Err(error),
    };
    let ghost all = parts@;
    let mut fields: Vec<Field> = Vec::new();
    for part in it: parts
        invariant
            it.seq() == all,
            forall|i: int|
                0 <= i < all.len() ==> ((#[trigger] all[i]).ident matches Some(ident)
                    ==> lone_ident(stream_tokens(ident))),
            fields_parsed(layout, stream_tokens(*inner), Ok(views(all))),
            fields.len() == it.index(),
            forall|i: int|
                0 <= i < it.index() ==> field_read(
                    all[i]@,
                    Ok::<_, ErrorView>((#[trigger] fields@[i])@),
                ),
            all_named(fields@),
    {
        let ghost i = it.index();
        assert(views(all)[i] == part@);
        match read_field(part) {
            Ok(field) => fields.push(field),
            Err(error) => {
                assert(field_read(views(all)[i], Err::<FieldView, _>(error@)));
                assert forall|k: int| 0 <= k < i implies field_readable(
                    #[trigger] views(all)[k],
                ) by {
                    assert(field_read(all[k]@, Ok::<_, ErrorView>(fields@[k]@)));
                }
                assert(each_field_read(views(all), Err(error@)));
                return Err(error);
            },
        }
    }
    proof {
        assert forall|i: int| 0 <= i < all.len() implies field_read(
            views(all)[i],
            Ok::<_, ErrorView>(#[trigger] views(fields@)[i]),
        ) by {
            assert(views(fields@)[i] == fields@[i]@);
        }
        assert(each_field_read(views(all), Ok(views(fields@))));
    }
    Ok(fields)
}

/// The struct item that the tokens are.
pub fn read_struct(stream: &TokenStream) -> (result: Result<ItemStruct, Error>)
    ensures
        item_read(stream_tokens(*stream), seen(result)),
        result matches Ok(item) ==> item.wf(),
{
    let parsed = parse_header(stream);
    assert(header_parsed(stream_tokens(*stream), seen(parsed)));
    let header = match parsed {
        Ok(header) => header,
        Err(error) => return Err(error),
    };
    let ghost parts = header@;
    let read = read_attributes(&header.attrs);
    assert(attrs_read(parts.attrs, seen_list(read)));
    let attrs = match read {
        Ok(attrs) => attrs,
        Err(error) => {
            assert(parts_read(parts, Err(error@)));
            return Err(error);
        },
    };
    let generics = parse_params(&header.generics);
    assert(params_read(parts.generics, seen_list(generics)));
    let params = match generics {
        Ok(params) => params,
        Err(error) => {
            assert(generics_read(parts, views(attrs@), Err(error@)));
            assert(parts_read(parts, Err(error@)));
            return Err(error);
        },
    };
    let ident = only_ident(&header.ident);
    let (layout, inner, body_at) = read_body(&header.fields, ident.span);
    let body = read_fields(layout, &inner);
    assert(header_fields_read(parts, seen_list(body)));
    let fields = match body {
        Ok(fields) => fields,
        Err(error) => {
            assert(body_read(parts, views(attrs@), views(params@), Err(error@)));
            assert(generics_read(parts, views(attrs@), Err(error@)));
            assert(parts_read(parts, Err(error@)));
            return Err(error);
        },
    };
    let item = ItemStruct {
        attrs,
        vis: header.vis,
        keyword: header.keyword,
        ident,
        generics: header.generics,
        params,
        where_clause: header.where_clause,
        layout,
        fields,
        body_at,
        semi: header.semi,
    };
    proof {
        assert(item@ == item_with(parts, views(attrs@), views(params@), views(fields@)));
        assert(body_read(parts, views(attrs@), views(params@), Ok(item@)));
        assert(generics_read(parts, views(attrs@), Ok(item@)));
        assert(parts_read(parts, Ok(item@)));
    }
    Ok(item)
}

/// The attributes that are deku's, or those that are not.
pub open spec fn kept_attrs(attrs: Seq<AttributeView>, deku: bool) -> Seq<AttributeView> {
    attrs.filter(|attr: AttributeView| deku_attr(attr) == deku)
}

/// A field with the attributes that are deku's, or with those that are not.
pub open spec fn kept_field(field: FieldView, deku: bool) -> FieldView {
    FieldView { attrs: kept_attrs(field.attrs, deku), ..field }
}

/// An item with the attributes that are deku's, or with those that are not, on
/// itself and on its fields.
pub open spec fn keeping(item: ItemView, deku: bool) -> ItemView {
    ItemView {
        attrs: kept_attrs(item.attrs, deku),
        fields: item.fields.map_values(|field: FieldView| kept_field(field, deku)),
        ..item
    }
}

/// The tokens of attributes.
pub open spec fn attrs_tokens(attrs: Seq<AttributeView>) -> Seq<Tree> {
    concat(attrs.map_values(|attr: AttributeView| attr.tokens))
}

/// The tokens of a field.
pub open spec fn field_tokens(field: FieldView) -> Seq<Tree> {
    let ident = match field.ident {
        Some(ident) => seq![ident],
        None => Seq::empty(),
    };
    attrs_tokens(field.attrs) + field.vis + ident + field.colon + field.ty + field.comma
}

/// The tokens of fields.
pub open spec fn fields_tokens(fields: Seq<FieldView>) -> Seq<Tree> {
    concat(fields.map_values(|field: FieldView| field_tokens(field)))
}

/// The tokens of an item.
pub open spec fn item_tokens(item: ItemView) -> Seq<Tree> {
    let head = attrs_tokens(item.attrs) + item.vis + item.keyword + seq![item.ident]
        + item.generics;
    let inner = fields_tokens(item.fields);
    let body = match item.layout {
        Layout::Named => item.where_clause + seq![
            Tree::Group { delim: Delim::Brace, inner, at: item.body_at },
        ],
        Layout::Unnamed => seq![Tree::Group { delim: Delim::Paren, inner, at: item.body_at }]
            + item.where_clause,
        Layout::Unit => item.where_clause,
    };
    head + body + item.semi
}

/// Adds the attributes that are deku's, or those that are not.
pub(crate) fn push_attrs(out: &mut TokenStream, attrs: &Vec<Attribute>, deku: bool)
    ensures
        stream_tokens(*final(out)) == stream_tokens(*old(out)) + attrs_tokens(
            kept_attrs(views(attrs@), deku),
        ),
{
    let ghost all = views(attrs@);
    let ghost keep = |attr: AttributeView| deku_attr(attr) == deku;
    let ghost tokens = |attr: AttributeView| attr.tokens;
    let ghost before = stream_tokens(*out);
    proof {
        reveal(Seq::filter);
        assert(all.take(0).filter(keep).map_values(tokens) =~= Seq::empty());
        assert(before + Seq::<Tree>::empty() =~= before);
    }
    for i in 0..attrs.len()
        invariant
            all == views(attrs@),
            keep == (|attr: AttributeView| deku_attr(attr) == deku),
            tokens == (|attr: AttributeView| attr.tokens),
            stream_tokens(*out) == before + concat(
                all.take(i as int).filter(keep).map_values(tokens),
            ),
    {
        let ghost was = all.take(i as int).filter(keep);
        proof {
            reveal(Seq::filter);
            assert(all.take(i + 1).drop_last() =~= all.take(i as int));
            assert(all.take(i + 1).last() == attrs@[i as int]@);
        }
        if is_deku(&attrs[i]) == deku {
            append(out, &attrs[i].tokens);
            proof {
                let next = was.push(attrs@[i as int]@).map_values(tokens);
                assert(next.drop_last() =~= was.map_values(tokens));
                assert(stream_tokens(*out) =~= before + concat(next));
            }
        }
    }
    assert(all.take(attrs.len() as int) =~= all);
}

/// Adds a field, with the attributes that are deku's, or with those that are
/// not.
fn push_field(out: &mut TokenStream, field: &Field, deku: bool)
    requires
        field.ident matches Some(ident) ==> ident.is_name(),
    ensures
        stream_tokens(*final(out)) == stream_tokens(*old(out)) + field_tokens(
            kept_field(field@, deku),
        ),
{
    let ghost before = stream_tokens(*out);
    push_attrs(out, &field.attrs, deku);
    append(out, &field.vis);
    match &field.ident {
        Some(ident) => append(out, &ident.alone),
        None => {},
    }
    append(out, &field.colon);
    append(out, &field.ty);
    append(out, &field.comma);
    assert(stream_tokens(*out) =~= before + field_tokens(kept_field(field@, deku)));
}

/// The tokens of an item, with the attributes that are deku's, or with those
/// that are not.
pub fn print_struct(item: &ItemStruct, deku: bool) -> (out: TokenStream)
    requires
        item.wf(),
    ensures
        stream_tokens(out) == item_tokens(keeping(item@, deku)),
{
    let ghost kept = keeping(item@, deku);
    let ghost all = kept.fields.map_values(|field: FieldView| field_tokens(field));
    let mut inner = new_stream();
    for i in 0..item.fields.len()
        invariant
            all_named(item.fields@),
            kept == keeping(item@, deku),
            all == kept.fields.map_values(|field: FieldView| field_tokens(field)),
            stream_tokens(inner) == concat(all.take(i as int)),
    {
        assert(all.take(i + 1).drop_last() =~= all.take(i as int));
        assert(all.take(i + 1).last() == field_tokens(kept_field(item.fields@[i as int]@, deku)));
        push_field(&mut inner, &item.fields[i], deku);
    }
    assert(all.take(item.fields.len() as int) =~= all);
    let mut out = new_stream();
    push_attrs(&mut out, &item.attrs, deku);
    append(&mut out, &item.vis);
    append(&mut out, &item.keyword);
    append(&mut out, &item.ident.alone);
    append(&mut out, &item.generics);
    match item.layout {
        Layout::Named => {
            append(&mut out, &item.where_clause);
            push_group(&mut out, Delim::Brace, &inner, item.body_at);
        },
        Layout::Unnamed => {
            push_group(&mut out, Delim::Paren, &inner, item.body_at);
            append(&mut out, &item.where_clause);
        },
        Layout::Unit => {
            append(&mut out, &item.where_clause);
        },
    }
    append(&mut out, &item.semi);
    assert(stream_tokens(out) =~= item_tokens(kept));
    out
}

} // verus!
