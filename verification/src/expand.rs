//! Code generation.
//!
//! Each requested instantiation `Foo<A, B>` becomes an anonymous const block.
//! Inside of it the names of the generic parameters are bound to the concrete
//! arguments (`type T = A;`, `const N: usize = 4;`), so that the field types and
//! the expressions in the deku attributes can be copied as they are. There the
//! mirror of the struct and the impls for `Foo<A, B>` stand.
use proc_macro2::{Span, TokenStream};
use vstd::prelude::*;

use crate::attrs::{
    check_field_supported, field_supported, field_update, parse_struct_attrs, struct_attrs_of,
    update_of, MirrorKind, StructAttrs, StructAttrsView,
};
use crate::bind::{
    bind, bound_of, ident_text, lifetime_names, lifetime_params, lifetime_tokens, number_ident,
    numbered, read_ident_text, Bound, BoundView, Path, PathView,
};
use crate::code::{
    colons, enclose, enclosed, fixed, in_const, make_colons, make_const, make_fixed, make_mark,
    mark,
};
use crate::emit::{
    emit_read, emit_write, make_word, option_list, read_impls, stream_lists, word, write_impls,
    FieldInfo, FieldInfoView, Scope, ScopeView,
};
use crate::error::{fits, settles, settles_list, settles_tokens, Error, ErrorView, Fail};
use crate::item::{
    all_named, attrs_tokens, item_tokens, keeping, kept_attrs, print_struct, push_attrs, Field,
    FieldView, ItemStruct, ItemView,
};
use crate::mirror::{
    check_expressions, deku_with, exprs_spelled, make_deku, mirror_field_attrs, mirrored,
};
use crate::outcome::{collected, collecting, folded, lemma_folded_next};
use crate::setting::{Attribute, AttributeView, Meta, MetaView};
use crate::stream::{
    append, comma, comma_separated, concatenated, copied, decimal, new_stream, push_group,
    push_moved, push_prefixed, stream_list, stream_tokens, tokens_of, unraw, views, Delim, Shape,
    Token, Tree,
};
use crate::syntax::{last_segment, syn_last_segment, tokens_in};
use crate::text::{concat, decimal_text, joined, same, texts};

verus! {

/// Which impls are requested for an instantiation.
#[derive(Clone, Copy, PartialEq, Eq, Structural, Debug)]
pub enum Mode {
    Read,
    Write,
}

/// The name of the helper macro that stands next to a struct, through which
/// the struct's definition is reached. `$crate` names no struct.
pub open spec fn helper_of(ident: Tree, site: Span) -> Result<Tree, Fail> {
    match ident {
        Tree::Ident { text, at: _ } if text.len() > 0 && text[0] != '$' => Ok(
            Tree::Ident { text: "__deku_generic_"@ + unraw(text), at: site },
        ),
        _ => Err(
            Fail::Own(
                ErrorView {
                    message: "expected a type path such as `Foo<Bar>`"@,
                    start: site,
                    end: site,
                },
            ),
        ),
    }
}

/// The name of the helper macro that stands next to the struct `ident`.
pub fn helper_ident(ident: &Token, site: Span) -> (result: Result<TokenStream, Error>)
    requires
        ident.is_name(),
    ensures
        match result {
            Ok(stream) => helper_of(ident@, site) matches Ok(helper) && stream_tokens(stream)
                == seq![helper],
            Err(error) => helper_of(ident@, site) matches Err(fail) && fits(error@, fail),
        },
{
    match &ident.shape {
        Shape::Ident(text) => {
            if text.as_str().unicode_len() > 0 && text.as_str().get_char(0) != '$' {
                proof {
                    reveal_strlit("__deku_generic_");
                }
                let mut out = new_stream();
                push_prefixed(&mut out, "__deku_generic_", ident, site);
                assert(stream_tokens(out) =~= seq![
                    Tree::Ident { text: "__deku_generic_"@ + unraw(text@), at: site },
                ]);
                return Ok(out);
            }
        },
        _ => {},
    }
    Err(Error::at(site, String::from_str("expected a type path such as `Foo<Bar>`")))
}

/// Where the generated code finds deku: the copy that the crate re-exports, so
/// that the impls and the traits come from the same version of deku.
pub open spec fn deku_below(crate_path: Seq<Tree>, site: Span) -> Seq<Tree> {
    crate_path + colons(site) + word("__private"@, site) + colons(site) + word("deku"@, site)
}

/// The path of deku, below the path of the crate.
pub fn deku_path(crate_path: &TokenStream, site: Span) -> (out: TokenStream)
    ensures
        stream_tokens(out) == deku_below(stream_tokens(*crate_path), site),
{
    proof {
        reveal_strlit("__private");
        reveal_strlit("deku");
    }
    let mut out = copied(crate_path);
    append(&mut out, &make_colons(site));
    append(&mut out, &make_word("__private", site));
    append(&mut out, &make_colons(site));
    append(&mut out, &make_word("deku", site));
    out
}

/// Whether the trees are the type `PhantomData`, perhaps in parentheses.
pub open spec fn phantom(trees: Seq<Tree>) -> bool
    decreases trees,
{
    if trees.len() == 1 && (trees[0] matches Tree::Group { delim: Delim::Paren, .. } || trees[0]
        matches Tree::Group { delim: Delim::Bare, .. }) {
        phantom(trees[0]->Group_inner)
    } else {
        syn_last_segment(trees) == Some("PhantomData"@)
    }
}

/// Whether a type is `PhantomData`, perhaps in parentheses.
pub fn is_phantom_data(ty: &TokenStream) -> (yes: bool)
    ensures
        yes == phantom(stream_tokens(*ty)),
    decreases stream_tokens(*ty),
{
    let tokens = tokens_of(ty);
    let ghost trees = stream_tokens(*ty);
    assert(views(tokens@).len() == tokens.len());
    if tokens.len() == 1 {
        assert(views(tokens@)[0] == tokens@[0]@);
        match &tokens[0].shape {
            Shape::Group(delim, inner) => {
                if *delim == Delim::Paren || *delim == Delim::Bare {
                    assert(decreases_to!(trees => trees[0]));
                    assert(decreases_to!(trees[0] => trees[0]->Group_inner));
                    return is_phantom_data(inner);
                }
            },
            _ => {},
        }
    }
    match last_segment(ty) {
        Some(name) => same(name.as_str(), "PhantomData"),
        None => false,
    }
}

/// What deku's derive calls the `i`-th field inside of expressions: its name,
/// or `field_0` and so on.
pub open spec fn deku_name(field: FieldView, i: nat) -> Seq<char> {
    match field.ident {
        Some(ident) => ident_text(seq![ident]),
        None => "field_"@ + decimal(i),
    }
}

/// The names by which expressions can mention the fields.
pub open spec fn field_names(fields: Seq<FieldView>) -> Seq<Seq<char>> {
    Seq::new(fields.len(), |i: int| deku_name(fields[i], i as nat))
}

/// The names by which expressions can mention the fields.
fn list_names(fields: &Vec<Field>) -> (names: Vec<String>)
    ensures
        texts(names@) == field_names(views(fields@)),
{
    let ghost all = field_names(views(fields@));
    let mut names: Vec<String> = Vec::new();
    for i in 0..fields.len()
        invariant
            all == field_names(views(fields@)),
            texts(names@) =~= all.take(i as int),
    {
        let ghost was = names@;
        assert(views(fields@)[i as int] == fields@[i as int]@);
        let name = match &fields[i].ident {
            Some(ident) => match &ident.shape {
                Shape::Ident(text) => text.clone(),
                _ => String::new(),
            },
            None => {
                let mut name = String::from_str("field_");
                name.append(decimal_text(i).as_str());
                name
            },
        };
        names.push(name);
        assert(texts(names@) =~= texts(was).push(all[i as int]));
    }
    assert(texts(names@) =~= all);
    names
}

/// The name under which the generated conversion holds the `i`-th field.
pub open spec fn local_name(field: FieldView, i: nat, site: Span) -> Seq<Tree> {
    match field.ident {
        Some(ident) => seq![ident.moved(site)],
        None => numbered("__dg_field_"@, i, site),
    }
}

/// What the impls need to know of the `i`-th field.
pub open spec fn field_info(field: FieldView, i: nat, site: Span) -> FieldInfoView {
    FieldInfoView {
        ident: match field.ident {
            Some(ident) => Some(seq![ident]),
            None => None,
        },
        ty: field.ty,
        local: local_name(field, i, site),
    }
}

/// What the impls need to know of the fields.
pub open spec fn field_infos(fields: Seq<FieldView>, site: Span) -> Seq<FieldInfoView> {
    Seq::new(fields.len(), |i: int| field_info(fields[i], i as nat, site))
}

/// What the impls need to know of the fields.
fn list_infos(fields: &Vec<Field>, site: Span) -> (infos: Vec<FieldInfo>)
    requires
        all_named(fields@),
    ensures
        views(infos@) == field_infos(views(fields@), site),
{
    let ghost all = field_infos(views(fields@), site);
    let mut infos: Vec<FieldInfo> = Vec::new();
    for i in 0..fields.len()
        invariant
            all_named(fields@),
            all == field_infos(views(fields@), site),
            views(infos@) =~= all.take(i as int),
    {
        let ghost was = infos@;
        let field = &fields[i];
        assert(views(fields@)[i as int] == field@);
        proof {
            reveal_strlit("__dg_field_");
        }
        let (ident, local) = match &field.ident {
            Some(ident) => {
                let mut local = new_stream();
                push_moved(&mut local, ident, site);
                assert(stream_tokens(local) =~= seq![ident@.moved(site)]);
                (Some(copied(&ident.alone)), local)
            },
            None => (None, number_ident("__dg_field_", i, site)),
        };
        infos.push(FieldInfo { ident, ty: copied(&field.ty), local });
        assert(infos@.last()@ == all[i as int]);
        assert(views(infos@) =~= views(was).push(all[i as int]));
    }
    assert(views(infos@) =~= all);
    infos
}

/// `()`
pub open spec fn unit(site: Span) -> Seq<Tree> {
    seq![Tree::Group { delim: Delim::Paren, inner: Seq::empty(), at: site }]
}

/// The type of the context: that of the only argument, or a tuple.
pub open spec fn ctx_type(ctx: Option<Seq<Seq<Tree>>>, site: Span) -> Seq<Tree> {
    match ctx {
        None => unit(site),
        Some(types) => if types.len() == 1 {
            types[0]
        } else {
            seq![
                Tree::Group {
                    delim: Delim::Paren,
                    inner: joined(types, seq![comma(site)]),
                    at: site,
                },
            ]
        },
    }
}

/// The contexts for which there is an impl: as with deku's derive that of the
/// struct, and `()` where the struct has a default for its own.
pub open spec fn ctx_list(attrs: StructAttrsView, site: Span) -> Seq<Seq<Tree>> {
    if attrs.ctx is Some && attrs.ctx_default {
        seq![ctx_type(attrs.ctx, site), unit(site)]
    } else {
        seq![ctx_type(attrs.ctx, site)]
    }
}

/// Whether `()` is one of the contexts.
pub open spec fn has_unit_ctx(attrs: StructAttrsView) -> bool {
    attrs.ctx is None || attrs.ctx_default
}

/// The contexts for which there is an impl.
fn list_ctx(attrs: &StructAttrs, site: Span) -> (list: Vec<TokenStream>)
    ensures
        stream_list(list@) == ctx_list(attrs@, site),
{
    let mut nothing = new_stream();
    push_group(&mut nothing, Delim::Paren, &new_stream(), site);
    assert(stream_tokens(nothing) =~= unit(site));
    match &attrs.ctx {
        None => {
            let list = vec![nothing];
            assert(stream_list(list@) =~= ctx_list(attrs@, site));
            list
        },
        Some(types) => {
            assert(stream_list(types@).len() == types.len());
            let own = if types.len() == 1 {
                copied(&types[0])
            } else {
                let mut tuple = new_stream();
                push_group(&mut tuple, Delim::Paren, &comma_separated(types, site), site);
                tuple
            };
            assert(stream_tokens(own) =~= ctx_type(attrs@.ctx, site));
            let list = if attrs.ctx_default {
                vec![own, nothing]
            } else {
                vec![own]
            };
            assert(stream_list(list@) =~= ctx_list(attrs@, site));
            list
        },
    }
}

/// What the impls of an instantiation are made from.
pub open spec fn scope_of(
    item: ItemView,
    bound: BoundView,
    attrs: StructAttrsView,
    crate_path: Seq<Tree>,
    site: Span,
) -> ScopeView {
    ScopeView {
        deku: deku_below(crate_path, site),
        target: bound.target,
        where_clause: item.where_clause,
        lifetimes: lifetime_names(item.params),
        params: lifetime_params(item.params),
        attrs: attrs_tokens(kept_attrs(item.attrs, true)),
        ctx_list: ctx_list(attrs, site),
        unit_ctx: has_unit_ctx(attrs),
        layout: item.layout,
        fields: field_infos(item.fields, site),
    }
}

/// What the impls of an instantiation are made from.
fn make_scope(
    item: &ItemStruct,
    bound: &Bound,
    attrs: &StructAttrs,
    crate_path: &TokenStream,
    site: Span,
) -> (scope: Scope)
    requires
        item.wf(),
    ensures
        scope@ == scope_of(item@, bound@, attrs@, stream_tokens(*crate_path), site),
{
    let mut own = new_stream();
    push_attrs(&mut own, &item.attrs, true);
    let scope = Scope {
        deku: deku_path(crate_path, site),
        target: copied(&bound.target),
        where_clause: copied(&item.where_clause),
        lifetimes: lifetime_tokens(&item.params, false),
        params: lifetime_tokens(&item.params, true),
        attrs: own,
        ctx_list: list_ctx(attrs, site),
        unit_ctx: attrs.ctx.is_none() || attrs.ctx_default,
        layout: item.layout,
        fields: list_infos(&item.fields, site),
    };
    assert(stream_tokens(own) =~= attrs_tokens(kept_attrs(item@.attrs, true)));
    scope
}

/// The setting `skip`.
pub open spec fn skip_setting(site: Span) -> MetaView {
    MetaView {
        name: Some("skip"@),
        head: word("skip"@, site),
        text: None,
        tokens: word("skip"@, site),
    }
}

/// The attributes of a field for a mirror. deku has no impls for `PhantomData`,
/// so such a field without any setting of its own is skipped: nothing is read
/// or written for it.
pub open spec fn field_mirror(
    field: FieldView,
    kind: MirrorKind,
    names: Seq<Seq<char>>,
    site: Span,
) -> Result<Seq<AttributeView>, Fail> {
    match mirrored(field.attrs, kind, names, site) {
        Ok(attrs) => if attrs.len() == 0 && phantom(field.ty) {
            Ok(seq![deku_with(seq![skip_setting(site)], site)])
        } else {
            Ok(attrs)
        },
        Err(fail) => Err(fail),
    }
}

/// The attributes of a field for a mirror.
pub fn field_attrs_with_phantom(
    field: &Field,
    kind: MirrorKind,
    names: &Vec<String>,
    site: Span,
) -> (result: Result<Vec<Attribute>, Error>)
    ensures
        settles_list(result, field_mirror(field@, kind, texts(names@), site)),
{
    let mut out = match mirror_field_attrs(&field.attrs, kind, names, site) {
        Ok(out) => out,
        Err(error) => return Err(error),
    };
    assert(views(out@).len() == out.len());
    if out.len() == 0 && is_phantom_data(&field.ty) {
        proof {
            reveal_strlit("skip");
        }
        let skip = Meta {
            name: Some(String::from_str("skip")),
            head: make_word("skip", site),
            text: None,
            tokens: make_word("skip", site),
        };
        let metas = vec![skip];
        assert(views(metas@) =~= seq![skip_setting(site)]);
        out.push(make_deku(metas, site));
        assert(views(out@) =~= seq![deku_with(seq![skip_setting(site)], site)]);
    }
    Ok(out)
}

/// The tokens of each of the attributes.
pub open spec fn each_tokens(attrs: Seq<AttributeView>) -> Seq<Seq<Tree>> {
    attrs.map_values(|attr: AttributeView| attr.tokens)
}

/// The tokens of the attributes that [`field_mirror`] gives, as a function.
pub open spec fn mirroring(kind: MirrorKind, names: Seq<Seq<char>>, site: Span) -> spec_fn(
    FieldView,
) -> Result<Seq<Seq<Tree>>, Fail> {
    |field: FieldView|
        match field_mirror(field, kind, names, site) {
            Ok(attrs) => Ok(each_tokens(attrs)),
            Err(fail) => Err(fail),
        }
}

/// The attributes of the fields of a struct for a mirror.
pub open spec fn mirrors_of(fields: Seq<FieldView>, kind: MirrorKind, site: Span) -> Result<
    Seq<Seq<Seq<Tree>>>,
    Fail,
> {
    collected(fields, mirroring(kind, field_names(fields), site))
}

/// The tokens of each of the attributes.
fn list_tokens(attrs: &Vec<Attribute>) -> (out: Vec<TokenStream>)
    ensures
        stream_list(out@) == each_tokens(views(attrs@)),
{
    let ghost all = each_tokens(views(attrs@));
    let mut out: Vec<TokenStream> = Vec::new();
    for i in 0..attrs.len()
        invariant
            all == each_tokens(views(attrs@)),
            stream_list(out@) =~= all.take(i as int),
    {
        let ghost was = out@;
        assert(views(attrs@)[i as int] == attrs@[i as int]@);
        out.push(copied(&attrs[i].tokens));
        assert(stream_list(out@) =~= stream_list(was).push(all[i as int]));
    }
    assert(stream_list(out@) =~= all);
    out
}

/// The attributes of the fields of a struct for a mirror.
pub fn mirror_attrs(fields: &Vec<Field>, kind: MirrorKind, site: Span) -> (result: Result<
    Vec<Vec<TokenStream>>,
    Error,
>)
    ensures
        match result {
            Ok(out) => mirrors_of(views(fields@), kind, site) == Ok::<_, Fail>(stream_lists(out@)),
            Err(error) => mirrors_of(views(fields@), kind, site) matches Err(fail) && fits(
                error@,
                fail,
            ),
        },
        result matches Ok(out) ==> out.len() == fields.len(),
{
    let names = list_names(fields);
    let ghost all = views(fields@);
    let ghost step = collecting(mirroring(kind, field_names(all), site));
    let mut out: Vec<Vec<TokenStream>> = Vec::new();
    assert(stream_lists(out@) =~= Seq::empty());
    assert(all.skip(0) =~= all);
    for i in 0..fields.len()
        invariant
            all == views(fields@),
            texts(names@) == field_names(all),
            step == collecting(mirroring(kind, field_names(all), site)),
            mirrors_of(all, kind, site) == folded(all.skip(i as int), stream_lists(out@), step),
            out.len() == i,
    {
        proof {
            lemma_folded_next(all, i as int, stream_lists(out@), step);
            assert(all[i as int] == fields@[i as int]@);
        }
        let ghost was = out@;
        match field_attrs_with_phantom(&fields[i], kind, &names, site) {
            Ok(attrs) => {
                let tokens = list_tokens(&attrs);
                out.push(tokens);
                assert(stream_lists(out@) =~= stream_lists(was).push(stream_list(tokens@)));
            },
            Err(error) => return Err(error),
        }
    }
    assert(all.skip(all.len() as int) =~= Seq::empty());
    Ok(out)
}

/// [`update_of`] a field, as a function.
pub open spec fn updating(site: Span) -> spec_fn(FieldView) -> Result<Option<Seq<Tree>>, Fail> {
    |field: FieldView| update_of(field.attrs, site)
}

/// The expressions that bring the fields up to date.
fn list_updates(fields: &Vec<Field>, site: Span) -> (result: Result<
    Vec<Option<TokenStream>>,
    Error,
>)
    ensures
        match result {
            Ok(out) => collected(views(fields@), updating(site)) == Ok::<_, Fail>(
                option_list(out@),
            ),
            Err(error) => collected(views(fields@), updating(site)) matches Err(fail) && fits(
                error@,
                fail,
            ),
        },
        result matches Ok(out) ==> out.len() == fields.len(),
{
    let ghost all = views(fields@);
    let ghost step = collecting(updating(site));
    let mut out: Vec<Option<TokenStream>> = Vec::new();
    assert(all.skip(0) =~= all);
    assert(option_list(out@) =~= Seq::empty());
    for i in 0..fields.len()
        invariant
            all == views(fields@),
            step == collecting(updating(site)),
            collected(all, updating(site)) == folded(
                all.skip(i as int),
                option_list(out@),
                step,
            ),
            out.len() == i,
    {
        proof {
            lemma_folded_next(all, i as int, option_list(out@), step);
            assert(all[i as int] == fields@[i as int]@);
        }
        let ghost was = out@;
        match field_update(&fields[i].attrs, site) {
            Ok(expr) => {
                out.push(expr);
                assert(option_list(out@) =~= option_list(was).push(tokens_in(expr)));
            },
            Err(error) => return Err(error),
        }
    }
    assert(all.skip(all.len() as int) =~= Seq::empty());
    Ok(out)
}

/// All that the impls of one mode for an instantiation are made from.
pub struct Instance {
    pub bound: BoundView,
    pub scope: ScopeView,
    pub mirrors: Seq<Seq<Seq<Tree>>>,
    pub updates: Seq<Option<Seq<Tree>>>,
}

/// The mirror of a mode.
pub open spec fn kind_of(mode: Mode) -> MirrorKind {
    match mode {
        Mode::Read => MirrorKind::Read,
        Mode::Write => MirrorKind::Write,
    }
}

/// What the impls of `mode` for `target` are made from, or what is wrong with
/// the request or with the struct.
pub open spec fn instance_of(
    mode: Mode,
    target: PathView,
    item: ItemView,
    crate_path: Seq<Tree>,
    site: Span,
) -> Result<Instance, Fail> {
    match bound_of(target, ident_text(seq![item.ident]), item.params, site) {
        Err(fail) => Err(fail),
        Ok(bound) => match struct_attrs_of(item.attrs, site) {
            Err(fail) => Err(fail),
            Ok(attrs) => match mirrors_of(item.fields, kind_of(mode), site) {
                Err(fail) => Err(fail),
                Ok(mirrors) => {
                    let updates = if mode == Mode::Write {
                        collected(item.fields, updating(site))
                    } else {
                        Ok(Seq::empty())
                    };
                    match updates {
                        Err(fail) => Err(fail),
                        Ok(updates) => Ok(
                            Instance {
                                bound,
                                scope: scope_of(item, bound, attrs, crate_path, site),
                                mirrors,
                                updates,
                            },
                        ),
                    }
                },
            },
        },
    }
}

/// The block of an instantiation.
pub open spec fn block(mode: Mode, instance: Instance, site: Span) -> Seq<Tree> {
    let body = match mode {
        Mode::Read => read_impls(instance.scope, instance.mirrors, site),
        Mode::Write => write_impls(instance.scope, instance.mirrors, instance.updates, site),
    };
    in_const(instance.bound.outer + in_const(instance.bound.inner + body, site), site)
}

/// All impls of `mode` for `target`, or what is wrong with the request or with
/// the struct.
pub open spec fn instantiated(
    mode: Mode,
    target: PathView,
    item: ItemView,
    crate_path: Seq<Tree>,
    site: Span,
) -> Result<Seq<Tree>, Fail> {
    match instance_of(mode, target, item, crate_path, site) {
        Ok(instance) => Ok(block(mode, instance, site)),
        Err(fail) => Err(fail),
    }
}

/// Generates all impls of `mode` for the concrete type `target`.
pub fn instantiate(
    mode: Mode,
    target: &Path,
    item: &ItemStruct,
    crate_path: &TokenStream,
    site: Span,
) -> (result: Result<TokenStream, Error>)
    requires
        item.wf(),
    ensures
        settles_tokens(
            result,
            instantiated(mode, target@, item@, stream_tokens(*crate_path), site),
        ),
{
    let name = read_ident_text(&item.ident.alone);
    let bound = match bind(target, name.as_str(), &item.params, site) {
        Ok(bound) => bound,
        Err(error) => return Err(error),
    };
    let attrs = match parse_struct_attrs(&item.attrs, site) {
        Ok(attrs) => attrs,
        Err(error) => return Err(error),
    };
    let scope = make_scope(item, &bound, &attrs, crate_path, site);
    assert(views(scope.fields@).len() == item.fields.len());
    let body = match mode {
        Mode::Read => {
            let mirrors = match mirror_attrs(&item.fields, MirrorKind::Read, site) {
                Ok(mirrors) => mirrors,
                Err(error) => return Err(error),
            };
            emit_read(&scope, &mirrors, site)
        },
        Mode::Write => {
            let mirrors = match mirror_attrs(&item.fields, MirrorKind::Write, site) {
                Ok(mirrors) => mirrors,
                Err(error) => return Err(error),
            };
            let updates = match list_updates(&item.fields, site) {
                Ok(updates) => updates,
                Err(error) => return Err(error),
            };
            emit_write(&scope, &mirrors, &updates, site)
        },
    };
    let mut inner = bound.inner;
    append(&mut inner, &body);
    let mut outer = bound.outer;
    append(&mut outer, &make_const(&inner, site));
    Ok(make_const(&outer, site))
}

/// The struct with nothing but its deku attributes, from which the impls are
/// generated.
pub fn only_deku_attrs(item: &ItemStruct) -> (out: TokenStream)
    requires
        item.wf(),
    ensures
        stream_tokens(out) == item_tokens(keeping(item@, true)),
{
    print_struct(item, true)
}

/// The struct without its deku attributes, as it is compiled.
pub fn without_deku_attrs(item: &ItemStruct) -> (out: TokenStream)
    requires
        item.wf(),
    ensures
        stream_tokens(out) == item_tokens(keeping(item@, false)),
{
    print_struct(item, false)
}

/// What is left of a struct that is rejected: the struct without its deku
/// attributes, so that the rest of the program is still checked and one mistake
/// gives one error.
pub fn fallback(item: &ItemStruct) -> (out: TokenStream)
    requires
        item.wf(),
    ensures
        stream_tokens(out) == item_tokens(keeping(item@, false)),
{
    without_deku_attrs(item)
}

/// A request for the impls of a mode.
pub struct Request {
    pub mode: Mode,
    pub target: Path,
}

/// A [`Request`] as the contracts see it.
pub struct RequestView {
    pub mode: Mode,
    pub target: PathView,
}

impl View for Request {
    type V = RequestView;

    open spec fn view(&self) -> RequestView {
        RequestView { mode: self.mode, target: self.target@ }
    }
}

/// One more field is supported.
pub open spec fn supporting(site: Span) -> spec_fn((), FieldView) -> Result<(), Fail> {
    |_state: (), field: FieldView| field_supported(field.attrs, site)
}

/// The expressions of one more field are made of tokens.
pub open spec fn spelling(site: Span) -> spec_fn((), FieldView) -> Result<(), Fail> {
    |_state: (), field: FieldView| exprs_spelled(field.attrs, site)
}

/// Whether a struct can have impls at all: none of its fields is `temp`, its
/// own settings are those of a struct, and the expressions that are evaluated
/// while writing are made of tokens.
pub open spec fn struct_supported(item: ItemView, site: Span) -> Result<(), Fail> {
    match folded(item.fields, (), supporting(site)) {
        Err(fail) => Err(fail),
        Ok(_) => match struct_attrs_of(item.attrs, site) {
            Err(fail) => Err(fail),
            Ok(_) => folded(item.fields, (), spelling(site)),
        },
    }
}

/// Whether a struct can have impls at all.
fn check_struct(item: &ItemStruct, site: Span) -> (result: Result<(), Error>)
    ensures
        settles(result, struct_supported(item@, site)),
{
    let ghost all = views(item.fields@);
    let ghost owed = folded(all, (), supporting(site));
    assert(all.skip(0) =~= all);
    for i in 0..item.fields.len()
        invariant
            all == views(item.fields@),
            owed == folded(item@.fields, (), supporting(site)),
            owed == folded(all.skip(i as int), (), supporting(site)),
    {
        proof {
            lemma_folded_next(all, i as int, (), supporting(site));
            assert(all[i as int] == item.fields@[i as int]@);
        }
        match check_field_supported(&item.fields[i].attrs, site) {
            Ok(_) => {},
            Err(error) => return Err(error),
        }
    }
    assert(all.skip(all.len() as int) =~= Seq::empty());
    match parse_struct_attrs(&item.attrs, site) {
        Ok(_) => {},
        Err(error) => return Err(error),
    }
    let ghost spelled = folded(all, (), spelling(site));
    assert(all.skip(0) =~= all);
    for i in 0..item.fields.len()
        invariant
            all == views(item.fields@),
            spelled == struct_supported(item@, site),
            spelled == folded(all.skip(i as int), (), spelling(site)),
    {
        proof {
            lemma_folded_next(all, i as int, (), spelling(site));
            assert(all[i as int] == item.fields@[i as int]@);
        }
        match check_expressions(&item.fields[i].attrs, site) {
            Ok(_) => {},
            Err(error) => return Err(error),
        }
    }
    assert(all.skip(all.len() as int) =~= Seq::empty());
    Ok(())
}

/// [`instantiated`] for a request, as a function.
pub open spec fn instancing(item: ItemView, crate_path: Seq<Tree>, site: Span) -> spec_fn(
    RequestView,
) -> Result<Seq<Tree>, Fail> {
    |request: RequestView| instantiated(request.mode, request.target, item, crate_path, site)
}

/// What stands above the helper macro.
pub const MACRO_ATTRS: &'static str = "# [ doc ( hidden ) ] # [ allow ( unused_macros ) ]";

/// What the helper macro is called with.
pub const MACRO_PATTERN: &'static str = "( $ ( $ args : tt ) * ) =>";

/// All that the helper macro is called with, handed on.
pub const MACRO_ARGS: &'static str = "$ ( $ args ) * ;";

/// What stands above the import of the helper macro, and before its name.
pub const MACRO_USE: &'static str = "
    # [ doc ( hidden ) ]
    # [ allow ( unused_imports ) ]
    pub ( crate ) use
";

/// What the helper macro expands to: a call of the hidden macro, with all that
/// the helper macro is called with, the path of the crate and the struct.
pub open spec fn hidden_call(crate_path: Seq<Tree>, captured: Seq<Tree>, site: Span) -> Seq<Tree> {
    crate_path + colons(site) + word("__deku_generic_impl"@, site) + mark('!', site) + enclosed(
        Delim::Brace,
        fixed(MACRO_ARGS@, site) + crate_path + mark(';', site) + captured,
        site,
    )
}

/// The helper macro of a struct, which hands on the definition of the struct.
pub open spec fn helper_macro(
    helper: Seq<Tree>,
    crate_path: Seq<Tree>,
    captured: Seq<Tree>,
    site: Span,
) -> Seq<Tree> {
    let rule = fixed(MACRO_PATTERN@, site) + enclosed(
        Delim::Brace,
        hidden_call(crate_path, captured, site),
        site,
    ) + mark(';', site);
    fixed(MACRO_ATTRS@, site) + word("macro_rules"@, site) + mark('!', site) + helper + enclosed(
        Delim::Brace,
        rule,
        site,
    ) + fixed(MACRO_USE@, site) + helper + mark(';', site)
}

/// The helper macro of a struct.
fn make_helper_macro(
    helper: &TokenStream,
    crate_path: &TokenStream,
    captured: &TokenStream,
    site: Span,
) -> (out: TokenStream)
    ensures
        stream_tokens(out) == helper_macro(
            stream_tokens(*helper),
            stream_tokens(*crate_path),
            stream_tokens(*captured),
            site,
        ),
{
    proof {
        reveal_strlit("__deku_generic_impl");
        reveal_strlit("macro_rules");
    }
    let mut handed = make_fixed(MACRO_ARGS, site);
    append(&mut handed, crate_path);
    append(&mut handed, &make_mark(';', site));
    append(&mut handed, captured);
    let mut call = copied(crate_path);
    append(&mut call, &make_colons(site));
    append(&mut call, &make_word("__deku_generic_impl", site));
    append(&mut call, &make_mark('!', site));
    append(&mut call, &enclose(Delim::Brace, &handed, site));
    let mut rule = make_fixed(MACRO_PATTERN, site);
    append(&mut rule, &enclose(Delim::Brace, &call, site));
    append(&mut rule, &make_mark(';', site));
    let mut out = make_fixed(MACRO_ATTRS, site);
    append(&mut out, &make_word("macro_rules", site));
    append(&mut out, &make_mark('!', site));
    append(&mut out, helper);
    append(&mut out, &enclose(Delim::Brace, &rule, site));
    append(&mut out, &make_fixed(MACRO_USE, site));
    append(&mut out, helper);
    append(&mut out, &make_mark(';', site));
    out
}

/// The struct and its helper macro.
pub open spec fn definition(
    item: ItemView,
    helper: Tree,
    crate_path: Seq<Tree>,
    site: Span,
) -> Seq<Tree> {
    item_tokens(keeping(item, false)) + helper_macro(
        seq![helper],
        crate_path,
        item_tokens(keeping(item, true)),
        site,
    )
}

/// The impls that are requested, one request after another, or what is wrong
/// with the struct or with a request.
pub open spec fn requested(
    requests: Seq<RequestView>,
    item: ItemView,
    crate_path: Seq<Tree>,
    site: Span,
) -> Result<Seq<Tree>, Fail> {
    match collected(requests, instancing(item, crate_path, site)) {
        Ok(blocks) => Ok(concat(blocks)),
        Err(fail) => Err(fail),
    }
}

/// The expansion of the attribute on a struct: the struct, its helper macro and
/// the impls that are requested, or what is wrong with the struct or with a
/// request.
pub open spec fn attribute_of(
    item: ItemView,
    requests: Seq<RequestView>,
    crate_path: Seq<Tree>,
    site: Span,
) -> Result<Seq<Tree>, Fail> {
    match struct_supported(item, site) {
        Err(fail) => Err(fail),
        Ok(_) => match helper_of(item.ident, site) {
            Err(fail) => Err(fail),
            Ok(helper) => match requested(requests, item, crate_path, site) {
                Err(fail) => Err(fail),
                Ok(impls) => Ok(definition(item, helper, crate_path, site) + impls),
            },
        },
    }
}

/// The impls that are requested.
pub(crate) fn instantiate_all(
    item: &ItemStruct,
    requests: &Vec<Request>,
    crate_path: &TokenStream,
    site: Span,
) -> (result: Result<TokenStream, Error>)
    requires
        item.wf(),
    ensures
        settles_tokens(
            result,
            requested(views(requests@), item@, stream_tokens(*crate_path), site),
        ),
{
    let ghost all = views(requests@);
    let ghost value = instancing(item@, stream_tokens(*crate_path), site);
    let ghost step = collecting(value);
    let mut out: Vec<TokenStream> = Vec::new();
    assert(stream_list(out@) =~= Seq::empty());
    assert(all.skip(0) =~= all);
    for i in 0..requests.len()
        invariant
            item.wf(),
            all == views(requests@),
            value == instancing(item@, stream_tokens(*crate_path), site),
            step == collecting(value),
            collected(all, value) == folded(all.skip(i as int), stream_list(out@), step),
    {
        proof {
            lemma_folded_next(all, i as int, stream_list(out@), step);
            assert(all[i as int] == requests@[i as int]@);
        }
        let ghost was = out@;
        let request = &requests[i];
        match instantiate(request.mode, &request.target, item, crate_path, site) {
            Ok(stream) => {
                out.push(stream);
                assert(stream_list(out@) =~= stream_list(was).push(stream_tokens(stream)));
            },
            Err(error) => return Err(error),
        }
    }
    assert(all.skip(all.len() as int) =~= Seq::empty());
    Ok(concatenated(&out))
}

/// Expands the attribute on a struct, with the given requests.
pub fn attribute(
    item: &ItemStruct,
    requests: &Vec<Request>,
    crate_path: &TokenStream,
    site: Span,
) -> (result: Result<TokenStream, Error>)
    requires
        item.wf(),
    ensures
        settles_tokens(
            result,
            attribute_of(item@, views(requests@), stream_tokens(*crate_path), site),
        ),
{
    match check_struct(item, site) {
        Ok(_) => {},
        Err(error) => return Err(error),
    }
    let helper = match helper_ident(&item.ident, site) {
        Ok(helper) => helper,
        Err(error) => return Err(error),
    };
    let impls = match instantiate_all(item, requests, crate_path, site) {
        Ok(impls) => impls,
        Err(error) => return Err(error),
    };
    let mut out = without_deku_attrs(item);
    append(&mut out, &make_helper_macro(&helper, crate_path, &only_deku_attrs(item), site));
    append(&mut out, &impls);
    Ok(out)
}

} // verus!
