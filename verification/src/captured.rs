//! What holds of the struct that is printed, and of the macros that hand its
//! definition on.
use proc_macro2::Span;
use vstd::prelude::*;

use crate::bind::{path_reads, PathView};
use crate::code::{enclosed, fixed, mark};
use crate::emit::word;
use crate::entry::{
    after_punct, arg_reads, default_path, definition_read, each_path_reads, expands_with,
    first_modes, helper_call, impl_input_read, input_after, item_after, leftover, mod_path_split,
    modes_after, modes_of, name_read, named_modes, opened, option_modes, path_and_struct,
    path_split, paths_parsed, peeled, starts, struct_after, target_after, targets_read,
    text_path_read, tokens_path_read, ArgTokenView, AttrArgsView, ImplInputView,
};
use crate::error::{fits, report, spanning, ErrorView, Fail};
use crate::expand::{
    attribute_of, helper_macro, hidden_call, instancing, instantiated, Mode, RequestView,
    MACRO_ARGS, MACRO_ATTRS, MACRO_PATTERN, MACRO_USE,
};
use crate::generated::{
    attributes_are_printed, deku_tokens, group, in_order, joint, lemma_each_collected, name,
    other_tokens, parts_are_in_order, sign,
};
use crate::item::{
    attrs_tokens, body_of, body_read, each_field_read, field_read, field_tokens, field_with,
    fields_parsed, fields_read, generics_read, header_fields_read, header_parsed, item_read,
    item_tokens, item_with, keeping, kept_field, params_read, parts_read, FieldView, ItemView,
};
use crate::laws::handed_on;
use crate::outcome::collected;
use crate::setting::{
    attr_reads, attrs_parsed, attrs_read, code_read, each_attr_reads, each_printed, exprs_parsed,
    exprs_read, meta_reads, metas_parsed, metas_read, placed, settings_read, AttributeView,
    CodeView, MetaView,
};
use crate::stream::{respanned, unraw, Delim, Tree};
use crate::syntax::{
    lex_fails, lexes_as, prints_as, syn_attributes, syn_exprs, syn_fn_params, syn_generic_args,
    syn_generics, syn_ident, syn_item_struct, syn_metas, syn_mod_path, syn_named_fields, syn_path,
    syn_unnamed_fields, AttributePartsView, FieldPartsView, HeaderView, Layout, MetaPartsView,
    ParamView, PathPartsView,
};

verus! {

/// The deku attributes as they were written, or the others.
pub open spec fn attributes_kept(attrs: Seq<AttributeView>, deku: bool) -> Seq<Tree> {
    if deku {
        deku_tokens(attrs)
    } else {
        other_tokens(attrs)
    }
}

/// A field with the given attributes and all its other parts.
pub open spec fn whole_field(attrs: Seq<Tree>, parts: FieldPartsView) -> Seq<Tree> {
    let ident = match parts.ident {
        Some(ident) => seq![ident[0]],
        None => Seq::empty(),
    };
    attrs + parts.vis + ident + parts.colon + parts.ty + parts.comma
}

/// A struct with the given attributes and all its other parts, in the order in
/// which Rust has them: a where clause stands before fields with names, and
/// after others.
pub open spec fn whole_struct(
    attrs: Seq<Tree>,
    header: HeaderView,
    fields: Seq<Seq<Tree>>,
) -> Seq<Tree> {
    let (layout, _, at) = body_of(header.fields, header.ident[0].at());
    let inner = in_order(fields);
    let start = attrs + header.vis + header.keyword + seq![header.ident[0]] + header.generics;
    match layout {
        Layout::Named => start + header.where_clause + seq![group(Delim::Brace, inner, at)]
            + header.semi,
        Layout::Unnamed => start + seq![group(Delim::Paren, inner, at)] + header.where_clause
            + header.semi,
        Layout::Unit => start + header.where_clause + header.semi,
    }
}

/// Whether the struct is what its parts read as.
pub open spec fn read_from(
    item: ItemView,
    header: HeaderView,
    parts: Seq<FieldPartsView>,
) -> bool {
    let (layout, inner, _) = body_of(header.fields, header.ident[0].at());
    &&& fields_parsed(layout, inner, Ok(parts))
    &&& item.fields.len() == parts.len()
    &&& attrs_read(header.attrs, Ok(item.attrs))
    &&& params_read(header.generics, Ok(item.params))
    &&& forall|i: int|
        0 <= i < parts.len() ==> attrs_read((#[trigger] parts[i]).attrs, Ok(item.fields[i].attrs))
}

/// A field is printed with all its parts.
proof fn lemma_whole_field(field: FieldView, parts: FieldPartsView, deku: bool)
    requires
        field_read(parts, Ok(field)),
    ensures
        field_tokens(kept_field(field, deku)) == whole_field(
            attributes_kept(field.attrs, deku),
            parts,
        ),
        attrs_read(parts.attrs, Ok(field.attrs)),
{
    let attrs = choose|attrs: Result<Seq<AttributeView>, ErrorView>| #[trigger]
        attrs_read(parts.attrs, attrs) && match attrs {
            Ok(attrs) => Ok::<_, ErrorView>(field) == Ok::<_, ErrorView>(field_with(parts, attrs)),
            Err(error) => Ok::<_, ErrorView>(field) == Err::<FieldView, _>(error),
        };
    assert(attrs == Ok::<_, ErrorView>(field.attrs));
    attributes_are_printed(field.attrs);
    assert(field_tokens(kept_field(field, deku)) =~= whole_field(
        attributes_kept(field.attrs, deku),
        parts,
    ));
}

/// The parts of a struct that was read.
proof fn lemma_parts(trees: Seq<Tree>, item: ItemView) -> (found: (
    HeaderView,
    Seq<FieldPartsView>,
    Seq<ParamView>,
))
    requires
        item_read(trees, Ok(item)),
    ensures
        ({
            let (header, parts, params) = found;
            let (layout, inner, _) = body_of(header.fields, header.ident[0].at());
            &&& header_parsed(trees, Ok(header))
            &&& fields_parsed(layout, inner, Ok(parts))
            &&& each_field_read(parts, Ok(item.fields))
            &&& attrs_read(header.attrs, Ok(item.attrs))
            &&& params_read(header.generics, Ok(params))
            &&& item == item_with(header, item.attrs, params, item.fields)
        }),
{
    let read = choose|header: Result<HeaderView, ErrorView>| #[trigger]
        header_parsed(trees, header) && match header {
            Ok(header) => parts_read(header, Ok(item)),
            Err(error) => Ok::<_, ErrorView>(item) == Err::<ItemView, _>(error),
        };
    let header = read->Ok_0;
    let own = choose|attrs: Result<Seq<AttributeView>, ErrorView>| #[trigger]
        attrs_read(header.attrs, attrs) && match attrs {
            Ok(attrs) => generics_read(header, attrs, Ok(item)),
            Err(error) => Ok::<_, ErrorView>(item) == Err::<ItemView, _>(error),
        };
    let attrs = own->Ok_0;
    let generics = choose|params: Result<Seq<ParamView>, ErrorView>| #[trigger]
        params_read(header.generics, params) && match params {
            Ok(params) => body_read(header, attrs, params, Ok(item)),
            Err(error) => Ok::<_, ErrorView>(item) == Err::<ItemView, _>(error),
        };
    let params = generics->Ok_0;
    let body = choose|fields: Result<Seq<FieldView>, ErrorView>| #[trigger]
        header_fields_read(header, fields) && match fields {
            Ok(fields) => Ok::<_, ErrorView>(item) == Ok::<_, ErrorView>(
                item_with(header, attrs, params, fields),
            ),
            Err(error) => Ok::<_, ErrorView>(item) == Err::<ItemView, _>(error),
        };
    let (layout, inner, _) = body_of(header.fields, header.ident[0].at());
    assert(fields_read(layout, inner, body));
    let parsed = choose|parts: Result<Seq<FieldPartsView>, ErrorView>| #[trigger]
        fields_parsed(layout, inner, parts) && match parts {
            Ok(parts) => each_field_read(parts, body),
            Err(error) => body == Err::<Seq<FieldView>, _>(error),
        };
    (header, parsed->Ok_0, params)
}

/// Printing loses nothing but attributes: a struct that was read is printed with
/// every part of it that was read, in the order in which Rust has them, and with
/// its deku attributes or the others as they were written. So where it stands
/// next to its helper macro it is the same struct, and so it is where the helper
/// macro hands it on.
pub proof fn printing_keeps_every_part(trees: Seq<Tree>, item: ItemView, deku: bool) -> (found: (
    HeaderView,
    Seq<FieldPartsView>,
))
    requires
        item_read(trees, Ok(item)),
    ensures
        ({
            let (header, parts) = found;
            let fields = Seq::new(
                parts.len(),
                |i: int|
                    whole_field(attributes_kept(item.fields[i].attrs, deku), parts[i]),
            );
            &&& header_parsed(trees, Ok(header))
            &&& read_from(item, header, parts)
            &&& item_tokens(keeping(item, deku)) == whole_struct(
                attributes_kept(item.attrs, deku),
                header,
                fields,
            )
        }),
{
    let (header, parts, params) = lemma_parts(trees, item);
    let kept = keeping(item, deku);
    let fields = Seq::new(
        parts.len(),
        |i: int| whole_field(attributes_kept(item.fields[i].attrs, deku), parts[i]),
    );
    let printed = kept.fields.map_values(|field: FieldView| field_tokens(field));
    assert forall|i: int| 0 <= i < parts.len() implies printed[i] == fields[i] && attrs_read(
        (#[trigger] parts[i]).attrs,
        Ok(item.fields[i].attrs),
    ) by {
        assert(field_read(parts[i], Ok::<_, ErrorView>(item.fields[i])));
        lemma_whole_field(item.fields[i], parts[i], deku);
        assert(kept.fields[i] == kept_field(item.fields[i], deku));
    }
    assert forall|i: int| 0 <= i < parts.len() implies printed[i] == #[trigger] fields[i] by {
        assert(attrs_read(parts[i].attrs, Ok(item.fields[i].attrs)));
    }
    assert(printed =~= fields);
    parts_are_in_order(printed);
    attributes_are_printed(item.attrs);
    assert(item_tokens(kept) =~= whole_struct(
        attributes_kept(item.attrs, deku),
        header,
        fields,
    ));
    (header, parts)
}

/// Whether the tokens are made of those parts, without attributes.
pub open spec fn made_of(
    trees: Seq<Tree>,
    header: HeaderView,
    parts: Seq<FieldPartsView>,
) -> bool {
    let body = if header.fields.len() == 1 && (header.fields[0] matches Tree::Group {
        delim: Delim::Brace,
        inner: _,
        at: _,
    }) {
        header.where_clause + header.fields
    } else {
        header.fields + header.where_clause
    };
    let (layout, inner, _) = body_of(header.fields, header.ident[0].at());
    &&& trees == header.vis + header.keyword + header.ident + header.generics + body + header.semi
    &&& header.ident.len() == 1
    &&& layout == Layout::Unit ==> header.fields.len() == 0
    &&& inner == in_order(
        Seq::new(parts.len(), |i: int| whole_field(Seq::empty(), parts[i])),
    )
}

/// A struct without attributes is printed as it was written, whatever the kind
/// of its fields, where the parser has taken its tokens apart and left none out.
pub proof fn printing_gives_back_the_source(
    item: ItemView,
    header: HeaderView,
    parts: Seq<FieldPartsView>,
    params: Seq<ParamView>,
    trees: Seq<Tree>,
)
    requires
        made_of(trees, header, parts),
        each_field_read(parts, Ok(item.fields)),
        item == item_with(header, item.attrs, params, item.fields),
        item.attrs.len() == 0,
        forall|i: int| 0 <= i < item.fields.len() ==> (#[trigger] item.fields[i]).attrs.len() == 0,
    ensures
        item_tokens(item) == trees,
{
    let fields = Seq::new(parts.len(), |i: int| whole_field(Seq::empty(), parts[i]));
    let printed = item.fields.map_values(|field: FieldView| field_tokens(field));
    assert forall|i: int| 0 <= i < parts.len() implies printed[i] == #[trigger] fields[i] by {
        let field = item.fields[i];
        assert(field_read(parts[i], Ok::<_, ErrorView>(field)));
        lemma_whole_field(field, parts[i], false);
        assert(field.attrs =~= Seq::empty());
        assert(attrs_tokens(field.attrs) =~= Seq::empty());
        assert(field_tokens(field) =~= fields[i]);
    }
    assert(printed =~= fields);
    parts_are_in_order(printed);
    assert(attrs_tokens(item.attrs) =~= Seq::empty());
    assert(seq![header.ident[0]] =~= header.ident);
    assert(item_tokens(item) =~= trees);
}

/// Fields with names stand in braces and fields with positions in parentheses;
/// a struct without either has no fields.
pub proof fn kinds_of_fields_are_told_apart(inner: Seq<Tree>, at: Span, place: Span)
    ensures
        body_of(seq![group(Delim::Brace, inner, at)], place) == (Layout::Named, inner, at),
        body_of(seq![group(Delim::Paren, inner, at)], place) == (Layout::Unnamed, inner, at),
        body_of(Seq::empty(), place) == (Layout::Unit, Seq::<Tree>::empty(), place),
{
}

/// What a struct is read as has the name, the kind of fields, the parameters and
/// the where clause that the parser found in its tokens.
pub proof fn reading_keeps_every_part(trees: Seq<Tree>, item: ItemView) -> (found: (
    HeaderView,
    Seq<FieldPartsView>,
))
    requires
        item_read(trees, Ok(item)),
    ensures
        ({
            let (header, parts) = found;
            &&& header_parsed(trees, Ok(header))
            &&& read_from(item, header, parts)
            &&& item.ident == header.ident[0]
            &&& item.vis == header.vis
            &&& item.generics == header.generics
            &&& item.where_clause == header.where_clause
            &&& item.layout == body_of(header.fields, header.ident[0].at()).0
            &&& forall|i: int|
                0 <= i < parts.len() ==> item.fields[i].ty == (#[trigger] parts[i]).ty
                    && item.fields[i].vis == parts[i].vis && (item.fields[i].ident is Some
                    <==> parts[i].ident is Some) && (parts[i].ident matches Some(ident)
                    ==> item.fields[i].ident == Some(ident[0]))
        }),
{
    let (header, parts, params) = lemma_parts(trees, item);
    assert forall|i: int| 0 <= i < parts.len() implies item.fields[i].ty == (
    #[trigger] parts[i]).ty && item.fields[i].vis == parts[i].vis && (
    item.fields[i].ident is Some <==> parts[i].ident is Some) && (
    parts[i].ident matches Some(ident) ==> item.fields[i].ident == Some(ident[0]))
        && attrs_read(parts[i].attrs, Ok(item.fields[i].attrs)) by {
        assert(field_read(parts[i], Ok::<_, ErrorView>(item.fields[i])));
        lemma_whole_field(item.fields[i], parts[i], true);
        let attrs = choose|attrs: Result<Seq<AttributeView>, ErrorView>| #[trigger]
            attrs_read(parts[i].attrs, attrs) && match attrs {
                Ok(attrs) => Ok::<_, ErrorView>(item.fields[i]) == Ok::<_, ErrorView>(
                    field_with(parts[i], attrs),
                ),
                Err(error) => Ok::<_, ErrorView>(item.fields[i]) == Err::<FieldView, _>(error),
            };
    }
    (header, parts)
}

/// An error is reported by a call of `compile_error!` with its message, from
/// where the error starts to where it ends.
pub proof fn errors_are_reported(error: ErrorView)
    ensures
        ({
            let (start, end) = (error.start, error.end);
            let message = Tree::Str { value: error.message, suffix: Seq::empty(), at: end };
            report(error) == seq![
                joint(':', start),
                sign(':', start),
                name("core"@, start),
                joint(':', start),
                sign(':', start),
                name("compile_error"@, start),
                sign('!', start),
                group(Delim::Brace, seq![message], end),
            ]
        }),
{
}

/// An error about some tokens goes from the first to the last of them.
pub proof fn errors_span_their_tokens(
    first: Tree,
    between: Seq<Tree>,
    last: Tree,
    message: Seq<char>,
    site: Span,
)
    ensures
        spanning(seq![first], message, site) == (ErrorView {
            message,
            start: first.at(),
            end: first.at(),
        }),
        spanning(seq![first] + between + seq![last], message, site) == (ErrorView {
            message,
            start: first.at(),
            end: last.at(),
        }),
        spanning(Seq::empty(), message, site) == (ErrorView { message, start: site, end: site }),
{
    let all = seq![first] + between + seq![last];
    assert(all.first() == first && all.last() == last);
}

/// The helper macro of a struct: whatever it is called with, it calls the hidden
/// macro with that, with the path of the crate and with the struct.
pub open spec fn macro_item(
    helper: Tree,
    crate_path: Seq<Tree>,
    captured: Seq<Tree>,
    at: Span,
) -> Seq<Tree> {
    let handed = fixed(MACRO_ARGS@, at) + crate_path + seq![sign(';', at)] + captured;
    let call = crate_path + seq![
        joint(':', at),
        sign(':', at),
        name("__deku_generic_impl"@, at),
        sign('!', at),
        group(Delim::Brace, handed, at),
    ];
    let rule = fixed(MACRO_PATTERN@, at) + seq![group(Delim::Brace, call, at), sign(';', at)];
    fixed(MACRO_ATTRS@, at) + seq![
        name("macro_rules"@, at),
        sign('!', at),
        helper,
        group(Delim::Brace, rule, at),
    ] + fixed(MACRO_USE@, at) + seq![helper, sign(';', at)]
}

/// The helper macro is one.
proof fn lemma_macro_item(helper: Tree, crate_path: Seq<Tree>, captured: Seq<Tree>, at: Span)
    ensures
        helper_macro(seq![helper], crate_path, captured, at) == macro_item(
            helper,
            crate_path,
            captured,
            at,
        ),
{
    let handed = fixed(MACRO_ARGS@, at) + crate_path + seq![sign(';', at)] + captured;
    assert(fixed(MACRO_ARGS@, at) + crate_path + mark(';', at) + captured =~= handed);
    let call = crate_path + seq![
        joint(':', at),
        sign(':', at),
        name("__deku_generic_impl"@, at),
        sign('!', at),
        group(Delim::Brace, handed, at),
    ];
    assert(hidden_call(crate_path, captured, at) =~= call);
    let rule = fixed(MACRO_PATTERN@, at) + seq![group(Delim::Brace, call, at), sign(';', at)];
    assert(fixed(MACRO_PATTERN@, at) + enclosed(Delim::Brace, call, at) + mark(';', at) =~= rule);
    assert(helper_macro(seq![helper], crate_path, captured, at) =~= macro_item(
        helper,
        crate_path,
        captured,
        at,
    ));
}

/// What the attribute expands to: the struct without its deku attributes, the
/// macro that hands it on with nothing but these, and the impls of each request,
/// in the order of the requests.
pub proof fn attribute_expands(
    item: ItemView,
    requests: Seq<RequestView>,
    crate_path: Seq<Tree>,
    site: Span,
) -> (found: (Seq<char>, Seq<Seq<Tree>>))
    requires
        attribute_of(item, requests, crate_path, site) is Ok,
    ensures
        ({
            let (text, blocks) = found;
            let helper = name("__deku_generic_"@ + unraw(text), site);
            &&& item.ident matches Tree::Ident { text: own, at: _ } && own == text
            &&& blocks.len() == requests.len()
            &&& forall|i: int|
                0 <= i < requests.len() ==> instantiated(
                    (#[trigger] requests[i]).mode,
                    requests[i].target,
                    item,
                    crate_path,
                    site,
                ) == Ok::<_, Fail>(blocks[i])
            &&& attribute_of(item, requests, crate_path, site) == Ok::<_, Fail>(
                item_tokens(keeping(item, false)) + macro_item(
                    helper,
                    crate_path,
                    item_tokens(keeping(item, true)),
                    site,
                ) + in_order(blocks),
            )
        }),
{
    let text = item.ident->Ident_text;
    let helper = name("__deku_generic_"@ + unraw(text), site);
    let value = instancing(item, crate_path, site);
    let blocks = collected(requests, value)->Ok_0;
    lemma_each_collected(requests, Seq::empty(), value);
    assert forall|i: int| 0 <= i < requests.len() implies instantiated(
        (#[trigger] requests[i]).mode,
        requests[i].target,
        item,
        crate_path,
        site,
    ) == Ok::<_, Fail>(blocks[i]) by {
        assert(value(requests[i]) == Ok::<_, Fail>(blocks[i]));
    }
    parts_are_in_order(blocks);
    lemma_macro_item(helper, crate_path, item_tokens(keeping(item, true)), site);
    (text, blocks)
}

/// A request through `impl_deku_*!` calls the macro that stands next to the
/// struct, under the path by which the struct is reached and under the name that
/// the attribute gives it, with the mode and the path as it was written. That
/// macro hands these to the hidden macro, together with the path of the crate
/// and the struct.
pub proof fn requests_reach_the_hidden_macro(
    mode: Seq<char>,
    target: PathPartsView,
    text: Seq<char>,
    at: Span,
    crate_path: Seq<Tree>,
    captured: Seq<Tree>,
    site: Span,
)
    requires
        target.ident[0] == (Tree::Ident { text, at }),
        text.len() > 0 && text[0] != '$',
    ensures
        ({
            let helper = name("__deku_generic_"@ + unraw(text), site);
            let handed = seq![sign('@', site), name(mode, site)] + target.tokens;
            &&& helper_call(mode, Ok(target), site) == Ok::<_, Fail>(
                target.lead + seq![helper, sign('!', site), group(Delim::Brace, handed, site)],
            )
            &&& handed + seq![sign(';', site)] + crate_path + seq![sign(';', site)] + captured
                == handed_on(
                sign('@', site),
                name(mode, site),
                target.tokens,
                sign(';', site),
                crate_path,
                captured,
            )
        }),
{
    let helper = name("__deku_generic_"@ + unraw(text), site);
    let handed = seq![sign('@', site), name(mode, site)] + target.tokens;
    assert(mark('@', site) + word(mode, site) + target.tokens =~= handed);
    assert(helper_call(mode, Ok(target), site)->Ok_0 =~= target.lead + seq![
        helper,
        sign('!', site),
        group(Delim::Brace, handed, site),
    ]);
    assert(handed + seq![sign(';', site)] + crate_path + seq![sign(';', site)] + captured
        =~= handed_on(
        sign('@', site),
        name(mode, site),
        target.tokens,
        sign(';', site),
        crate_path,
        captured,
    ));
}

/// What the hidden macro reads, piece by piece.
pub struct Pieces {
    pub after_at: Seq<Tree>,
    pub option: Seq<char>,
    pub target: PathPartsView,
    pub after_target: Seq<Tree>,
    pub definition: Seq<Tree>,
    pub path: Seq<Tree>,
    pub after_path: Seq<Tree>,
    pub captured: Seq<Tree>,
}

/// What the hidden macro accepts is `@` and an option, a target, a semicolon, the
/// path of the crate, a semicolon and a struct, in this order, and each is what
/// it goes by: the option's modes, the target, the path, moved to the place of
/// the call, and the struct.
pub proof fn hidden_input_is_read_in_order(
    trees: Seq<Tree>,
    input: ImplInputView,
    site: Span,
) -> (found: Pieces)
    requires
        impl_input_read(trees, site, Ok(input)),
    ensures
        after_punct(trees, '@', site) == Ok::<_, Fail>(found.after_at),
        peeled(found.after_at).len() > 0,
        name_read(peeled(found.after_at)[0], Ok(found.option)),
        modes_of(found.option, peeled(found.after_at)[0].at()) == Ok::<_, Fail>(input.modes),
        path_split(peeled(found.after_at).skip(1), Ok((found.target, found.after_target))),
        path_reads(found.target, input.target),
        after_punct(found.after_target, ';', site) == Ok::<_, Fail>(found.definition),
        mod_path_split(found.definition, Ok((found.path, found.after_path))),
        input.crate_path == respanned(found.path, site),
        after_punct(found.after_path, ';', site) == Ok::<_, Fail>(found.captured),
        item_read(found.captured, Ok(input.item)),
{
    let outcome = Ok::<ImplInputView, Fail>(input);
    let after_at = after_punct(trees, '@', site)->Ok_0;
    assert(modes_after(after_at, site, outcome));
    let modes = choose|modes: Result<Seq<Mode>, Fail>| #[trigger]
        first_modes(after_at, site, modes) && match modes {
            Ok(modes) => target_after(peeled(after_at).skip(1), modes, site, outcome),
            Err(fail) => outcome == Err::<ImplInputView, _>(fail),
        };
    assert(named_modes(after_at, modes));
    let named = choose|named: Result<Seq<char>, ErrorView>| #[trigger]
        name_read(peeled(after_at)[0], named) && modes == option_modes(after_at, named);
    let wanted = modes->Ok_0;
    let split = choose|split: Result<(PathPartsView, Seq<Tree>), ErrorView>| #[trigger]
        path_split(peeled(after_at).skip(1), split) && match split {
            Ok((parts, rest)) => input_after(parts, rest, wanted, site, outcome),
            Err(error) => outcome == Err::<ImplInputView, _>(Fail::Own(error)),
        };
    let (target, after_target) = split->Ok_0;
    let (reading, defined) = choose|
        reading: PathView,
        defined: Result<(Seq<Tree>, ItemView), Fail>,
    | #[trigger]
        path_reads(target, reading) && #[trigger] definition_read(after_target, site, defined)
            && outcome == match defined {
            Ok((crate_path, item)) => Ok(
                ImplInputView { modes: wanted, target: reading, crate_path, item },
            ),
            Err(fail) => Err(fail),
        };
    let definition = after_punct(after_target, ';', site)->Ok_0;
    assert(path_and_struct(definition, site, defined));
    let halves = choose|split: Result<(Seq<Tree>, Seq<Tree>), ErrorView>| #[trigger]
        mod_path_split(definition, split) && match split {
            Ok((path, rest)) => struct_after(path, rest, site, defined),
            Err(error) => defined == Err::<(Seq<Tree>, ItemView), _>(Fail::Own(error)),
        };
    let (path, after_path) = halves->Ok_0;
    let captured = after_punct(after_path, ';', site)->Ok_0;
    assert(item_after(captured, respanned(path, site), defined));
    let read = choose|item: Result<ItemView, ErrorView>| #[trigger]
        item_read(captured, item) && defined == match item {
            Ok(item) => Ok((respanned(path, site), item)),
            Err(error) => Err(Fail::Own(error)),
        };
    Pieces {
        after_at,
        option: named->Ok_0,
        target,
        after_target,
        definition,
        path,
        after_path,
        captured,
    }
}

/// What the macro on a struct gives once its arguments are read: what they ask
/// for where that can be had, and otherwise the one error and the struct without
/// its deku attributes.
pub proof fn expansion_follows_the_arguments(
    trees: Seq<Tree>,
    item: ItemView,
    args: Result<AttrArgsView, Fail>,
    site: Span,
)
    requires
        expands_with(trees, item, args, site),
    ensures
        args matches Err(fail) ==> exists|error: ErrorView| #[trigger]
            fits(error, fail) && trees == report(error) + item_tokens(keeping(item, false)),
        args matches Ok(read) ==> match attribute_of(
            item,
            read.requests,
            crate_path_of(read.crate_path, site),
            site,
        ) {
            Ok(want) => trees == want,
            Err(fail) => exists|error: ErrorView| #[trigger]
                fits(error, fail) && trees == report(error) + item_tokens(keeping(item, false)),
        },
{
    assert(default_path(site) =~= seq![
        joint(':', site),
        sign(':', site),
        name("deku_generic"@, site),
    ]);
}

/// The path of the crate: the one that is given, or `::deku_generic`.
pub open spec fn crate_path_of(given: Option<Seq<Tree>>, site: Span) -> Seq<Tree> {
    match given {
        Some(path) => path,
        None => seq![joint(':', site), sign(':', site), name("deku_generic"@, site)],
    }
}

/// The targets in parentheses are all the paths there, in order.
pub proof fn all_targets_are_read(tree: Tree, targets: Seq<PathView>) -> (parts: Seq<
    PathPartsView,
>)
    requires
        targets_read(tree, Ok(targets)),
    ensures
        paths_parsed(seq![name("targets"@, tree.at()), tree], Ok(parts)),
        targets.len() == parts.len(),
        forall|i: int|
            0 <= i < parts.len() ==> (#[trigger] targets[i]).tokens == parts[i].tokens
                && targets[i].lead == parts[i].lead && targets[i].ident == parts[i].ident
                && targets[i].args == parts[i].args,
{
    let list = seq![name("targets"@, tree.at()), tree];
    assert(word("targets"@, tree.at()) + seq![tree] =~= list);
    let outcome = Ok::<Seq<PathView>, ErrorView>(targets);
    let found = choose|parts: Result<Seq<PathPartsView>, ErrorView>| #[trigger]
        paths_parsed(word("targets"@, tree.at()) + seq![tree], parts) && match parts {
            Ok(parts) => outcome matches Ok(paths) && each_path_reads(parts, paths),
            Err(error) => outcome == Err::<Seq<PathView>, _>(error),
        };
    let parts = found->Ok_0;
    assert forall|i: int| 0 <= i < parts.len() implies (#[trigger] targets[i]).tokens
        == parts[i].tokens && targets[i].lead == parts[i].lead && targets[i].ident
        == parts[i].ident && targets[i].args == parts[i].args by {
        assert(path_reads(parts[i], targets[i]));
    }
    parts
}

/// The tokens of the attribute are read one by one: each as an option, one in
/// parentheses as targets too, and a string as a path too.
pub proof fn tokens_are_read_one_by_one(tree: Tree, start: Tree, arg: ArgTokenView)
    requires
        arg_reads(tree, start, arg),
    ensures
        arg.tree == tree,
        arg.start == start,
        name_read(tree, arg.name),
        arg.targets is Some <==> (tree matches Tree::Group {
            delim: Delim::Paren,
            inner: _,
            at: _,
        }),
        arg.targets matches Some(targets) ==> targets_read(tree, targets),
        arg.path is Some <==> tree is Str,
        arg.path matches Some(path) ==> text_path_read(tree->Str_value, tree.at(), path),
{
}

/// Tokens without invisible delimiters stand for themselves, and nothing is left
/// after them.
pub proof fn plain_tokens_stand_for_themselves(trees: Seq<Tree>)
    requires
        forall|i: int|
            0 <= i < trees.len() ==> !(#[trigger] trees[i] matches Tree::Group {
                delim: Delim::Bare,
                inner: _,
                at: _,
            }),
    ensures
        opened(trees) == trees,
        starts(trees) == trees,
        leftover(trees) is None,
        peeled(trees) == trees,
    decreases trees.len(),
{
    if trees.len() > 0 {
        let before = trees.drop_last();
        assert forall|i: int| 0 <= i < before.len() implies !(
        #[trigger] before[i] matches Tree::Group { delim: Delim::Bare, inner: _, at: _ }) by {
            assert(before[i] == trees[i]);
        }
        plain_tokens_stand_for_themselves(before);
        assert(!(trees[trees.len() - 1] matches Tree::Group {
            delim: Delim::Bare,
            inner: _,
            at: _,
        }));
        assert(before.push(trees.last()) =~= trees);
        assert(!(trees[0] matches Tree::Group { delim: Delim::Bare, inner: _, at: _ }));
    } else {
        assert(opened(trees) =~= trees);
        assert(starts(trees) =~= trees);
    }
}

/// All attributes that the parser finds are read, in order.
pub proof fn all_attributes_are_read(tokens: Seq<Tree>, attrs: Seq<AttributeView>) -> (found: (
    Seq<AttributePartsView>,
    Seq<Span>,
))
    requires
        attrs_read(tokens, Ok(attrs)),
    ensures
        syn_attributes(tokens, found.1) == Ok::<_, ErrorView>(found.0),
        attrs.len() == found.0.len(),
        forall|i: int| 0 <= i < attrs.len() ==> attr_reads(found.0[i], #[trigger] attrs[i]),
{
    let outcome = Ok::<Seq<AttributeView>, ErrorView>(attrs);
    let parsed = choose|parts: Result<Seq<AttributePartsView>, ErrorView>| #[trigger]
        attrs_parsed(tokens, parts) && match parts {
            Ok(parts) => outcome matches Ok(attrs) && each_attr_reads(parts, attrs),
            Err(error) => outcome == Err::<Seq<AttributeView>, _>(error),
        };
    let places = choose|places: Seq<Span>| parsed == #[trigger] syn_attributes(tokens, places);
    (parsed->Ok_0, places)
}

/// All settings that the parser finds in a list are read, in order.
pub proof fn all_settings_are_read(list: Seq<Tree>, metas: Seq<MetaView>) -> (found: (
    Seq<MetaPartsView>,
    Seq<Span>,
))
    requires
        settings_read(list, Ok(metas)),
    ensures
        syn_metas(list, found.1) == Ok::<_, ErrorView>(found.0),
        metas.len() == found.0.len(),
        forall|i: int| 0 <= i < metas.len() ==> meta_reads(found.0[i], #[trigger] metas[i]),
{
    let outcome = Ok::<Seq<MetaView>, ErrorView>(metas);
    let parsed = choose|parts: Result<Seq<MetaPartsView>, ErrorView>| #[trigger]
        metas_parsed(list, parts) && match parts {
            Ok(parts) => outcome matches Ok(metas) && metas_read(parts, metas),
            Err(error) => outcome == Err::<Seq<MetaView>, _>(error),
        };
    let places = choose|places: Seq<Span>| parsed == #[trigger] syn_metas(list, places);
    (parsed->Ok_0, places)
}

/// The code of a text is made of the tokens that the text spells: these are its
/// tokens, and they are what its parameters and its expressions are read from. An
/// error about these stands where the text does.
pub proof fn code_is_made_of_the_text(value: Seq<char>, at: Span, code: CodeView) -> (found: (
    Seq<Span>,
    Seq<Span>,
))
    requires
        code_read(value, at, Ok(code)),
    ensures
        lexes_as(value, at, code.tokens),
        code.params matches Ok(params) ==> syn_fn_params(code.tokens, found.0) == Ok::<
            _,
            ErrorView,
        >(params),
        code.params matches Err(error) ==> (syn_fn_params(code.tokens, found.0) matches Err(inner)
            && error == (ErrorView { message: inner.message, start: at, end: at })),
        code.exprs matches Err(error) ==> (syn_exprs(code.tokens, found.1) matches Err(inner)
            && error == (ErrorView { message: inner.message, start: at, end: at })),
        code.exprs matches Ok(printed) ==> (syn_exprs(code.tokens, found.1) matches Ok(exprs)
            && exprs.len() == printed.len() && forall|i: int|
            0 <= i < printed.len() ==> (#[trigger] printed[i]).0 == exprs[i] && prints_as(
                exprs[i],
                printed[i].1,
            )),
{
    let first = choose|places: Seq<Span>|
        code.params == placed(#[trigger] syn_fn_params(code.tokens, places), at);
    assert(exprs_read(code.tokens, at, code.exprs));
    let exprs = choose|exprs: Result<Seq<Seq<Tree>>, ErrorView>| #[trigger]
        exprs_parsed(code.tokens, at, exprs) && match exprs {
            Ok(exprs) => code.exprs matches Ok(printed) && each_printed(exprs, printed),
            Err(error) => code.exprs == Err::<Seq<(Seq<Tree>, Seq<char>)>, _>(error),
        };
    let second = choose|places: Seq<Span>|
        exprs == placed(#[trigger] syn_exprs(code.tokens, places), at);
    (first, second)
}

/// What is read of a struct is what the parser finds in its tokens: its parts in
/// all of them, its parameters in those of its generics, and its fields between
/// its delimiters, with names or without.
pub proof fn structs_are_read_by_the_parser(
    trees: Seq<Tree>,
    header: HeaderView,
    params: Seq<ParamView>,
    inner: Seq<Tree>,
    fields: Seq<FieldPartsView>,
)
    ensures
        header_parsed(trees, Ok(header)) <==> exists|places: Seq<Span>| #[trigger]
            syn_item_struct(trees, places) == Ok::<_, ErrorView>(header),
        params_read(header.generics, Ok(params)) <==> exists|places: Seq<Span>| #[trigger]
            syn_generics(header.generics, places) == Ok::<_, ErrorView>(params),
        fields_parsed(Layout::Named, inner, Ok(fields)) <==> exists|places: Seq<Span>| #[trigger]
            syn_named_fields(inner, places) == Ok::<_, ErrorView>(fields),
        fields_parsed(Layout::Unnamed, inner, Ok(fields)) <==> exists|places: Seq<Span>| #[trigger]
            syn_unnamed_fields(inner, places) == Ok::<_, ErrorView>(fields),
        fields_parsed(Layout::Unit, inner, Ok(fields)) <==> fields.len() == 0,
{
    if fields.len() == 0 {
        assert(fields =~= Seq::empty());
    }
}

/// What is read of a path is what the parser finds in its tokens.
pub proof fn paths_are_read_by_the_parser(parts: PathPartsView, path: PathView) -> (places: Seq<
    Span,
>)
    requires
        path_reads(parts, path),
    ensures
        path.tokens == parts.tokens,
        path.lead == parts.lead,
        path.ident == parts.ident,
        path.args == parts.args,
        path.list == syn_generic_args(parts.args, places),
{
    choose|places: Seq<Span>| path.list == #[trigger] syn_generic_args(parts.args, places)
}

/// Options, targets and paths of the crate are what the parser finds at the start
/// of their tokens, and what it leaves is what follows.
pub proof fn pieces_are_read_by_the_parser(
    tree: Tree,
    text: Seq<char>,
    trees: Seq<Tree>,
    target: PathPartsView,
    path: Seq<Tree>,
    rest: Seq<Tree>,
)
    ensures
        name_read(tree, Ok(text)) <==> exists|places: Seq<Span>| #[trigger]
            syn_ident(seq![tree], places) == Ok::<_, ErrorView>(text),
        path_split(trees, Ok((target, rest))) <==> exists|places: Seq<Span>| #[trigger]
            syn_path(trees, places) == Ok::<_, ErrorView>((target, rest)),
        mod_path_split(trees, Ok((path, rest))) <==> exists|places: Seq<Span>| #[trigger]
            syn_mod_path(trees, places) == Ok::<_, ErrorView>((path, rest)),
{
}

/// The path of the crate in a string is what the parser finds at the start of the
/// tokens that the text spells, and an error about it stands where the string
/// does.
pub proof fn path_in_a_text_is_read(
    value: Seq<char>,
    at: Span,
    outcome: Result<(Seq<Tree>, Seq<Tree>), ErrorView>,
) -> (tokens: Seq<Tree>)
    requires
        text_path_read(value, at, outcome),
    ensures
        outcome matches Ok(parts) ==> lexes_as(value, at, tokens) && mod_path_split(
            tokens,
            Ok(parts),
        ),
        outcome matches Err(error) ==> lex_fails(value, at, error) || lexes_as(value, at, tokens)
            && error.start == at && error.end == at,
{
    if outcome matches Err(error) && lex_fails(value, at, error) {
        Seq::empty()
    } else {
        let tokens = choose|tokens: Seq<Tree>| #[trigger]
            lexes_as(value, at, tokens) && tokens_path_read(tokens, at, outcome);
        assert(tokens_path_read(tokens, at, outcome));
        let split = choose|split: Result<(Seq<Tree>, Seq<Tree>), ErrorView>| #[trigger]
            mod_path_split(tokens, split) && outcome == placed(split, at);
        tokens
    }
}

} // verus!
