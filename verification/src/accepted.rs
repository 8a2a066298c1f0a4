//! Which requests and which arguments are accepted, and what they ask for.
use proc_macro2::Span;
use vstd::prelude::*;

use crate::attrs::{
    each_setting, field_supported, refusing_temp, setting_name, struct_attrs_of, update_in,
    update_of, MirrorKind,
};
use crate::bind::{
    adding_alias, adding_arg, arg_at, args_of, bound_of, ident_text, lifetimes_fit, names_match,
    sorted_args, value_for, AliasesView, GivenView, PathView,
};
use crate::entry::{
    adding_argument, adding_arguments, argument_len, arguments_of, modes_of, opened, requests_for,
    ArgTokenView, AttrArgsView,
};
use crate::error::{ErrorView, Fail};
use crate::expand::{
    attribute_of, field_names, instancing, instantiated, mirroring, phantom, spelling,
    struct_supported, supporting, updating, Mode, RequestView,
};
use crate::generated::{plain_args, stands_for};
use crate::item::ItemView;
use crate::mirror::{adding_mirrored, adding_rewrite, expr_spelled, exprs_spelled, rewriting};
use crate::outcome::{collecting, folded, lemma_folded_next};
use crate::rewritten::{
    all_held, any_called, called, first_called, held, lemma_nameless, lemma_readable_steps,
    lemma_update_add, other_fields_are_supported, readable, temporary_fields_are_refused,
};
use crate::setting::{write_expr, ArgsView, AttributeView, MetaView};
use crate::stream::{Delim, Tree};
use crate::syntax::{syn_last_segment, ArgView, ParamView};

verus! {

/// The lifetimes among the arguments.
pub open spec fn given_lifetimes(args: Seq<ArgView>) -> Seq<ArgView> {
    args.filter(|arg: ArgView| arg is Lifetime)
}

/// The lifetimes among the parameters.
pub open spec fn lifetime_params_of(params: Seq<ParamView>) -> Seq<ParamView> {
    params.filter(|param: ParamView| param is Lifetime)
}

/// Whether the lifetimes that are given are those of the struct, in order, or
/// `'_`; or none is given.
pub open spec fn lifetimes_agree(args: Seq<ArgView>, params: Seq<ParamView>) -> bool {
    let given = given_lifetimes(args);
    let own = lifetime_params_of(params);
    given.len() > 0 ==> given.len() == own.len() && forall|i: int|
        0 <= i < given.len() ==> (#[trigger] given[i])->Lifetime_name == "_"@
            || given[i]->Lifetime_name == own[i]->Lifetime_name
}

/// Whether something stands for the parameter.
pub open spec fn has_value(param: ParamView, args: Seq<ArgView>, i: int) -> bool {
    exists|value: Seq<Tree>| #[trigger] stands_for(value, param, args, i)
}

/// Whether a request is for the struct of that name and has what its parameters
/// need: types for its types, types or consts for its consts, defaults for what
/// is left out, and no lifetimes but the struct's own.
pub open spec fn request_fits(
    target: PathView,
    struct_name: Seq<char>,
    params: Seq<ParamView>,
    site: Span,
) -> bool {
    let plain = params.filter(|param: ParamView| !(param is Lifetime));
    &&& ident_text(target.ident) == struct_name
    &&& args_of(target, site) matches Ok(args) && {
        &&& forall|i: int| 0 <= i < args.len() ==> !(#[trigger] args[i] is Other)
        &&& lifetimes_agree(args, params)
        &&& plain_args(args).len() <= plain.len()
        &&& forall|i: int|
            0 <= i < plain.len() ==> has_value(#[trigger] plain[i], plain_args(args), i)
    }
}

/// The arguments by kind.
pub proof fn lemma_sorted(args: Seq<ArgView>, start: GivenView, site: Span)
    ensures
        folded(args, start, adding_arg(site)) is Ok <==> forall|i: int|
            0 <= i < args.len() ==> !(#[trigger] args[i] is Other),
        folded(args, start, adding_arg(site)) matches Ok(given) ==> {
            &&& given.others == start.others + plain_args(args)
            &&& given.lifetimes == start.lifetimes + given_lifetimes(args).map_values(
                |arg: ArgView| (arg->Lifetime_name, arg->Lifetime_tokens),
            )
        },
    decreases args.len(),
{
    let keep = |arg: ArgView| !(arg is Lifetime);
    let drop = |arg: ArgView| arg is Lifetime;
    let pair = |arg: ArgView| (arg->Lifetime_name, arg->Lifetime_tokens);
    reveal(Seq::filter);
    if args.len() == 0 {
        assert(start.others + plain_args(args) =~= start.others);
        assert(start.lifetimes + given_lifetimes(args).map_values(pair) =~= start.lifetimes);
    } else {
        let rest = args.skip(1);
        let one = seq![args[0]];
        assert(one + rest =~= args);
        assert forall|i: int| 0 <= i < rest.len() implies #[trigger] rest[i] == args[i + 1] by {}
        if let Ok(next) = adding_arg(site)(start, args[0]) {
            lemma_sorted(rest, next, site);
            Seq::filter_distributes_over_add(one, rest, keep);
            Seq::filter_distributes_over_add(one, rest, drop);
            assert(one.drop_last() =~= Seq::empty());
            reveal_with_fuel(Seq::filter, 2);
            if keep(args[0]) {
                assert(one.filter(keep) =~= one);
                assert(one.filter(drop) =~= Seq::empty());
            } else {
                assert(one.filter(keep) =~= Seq::empty());
                assert(one.filter(drop) =~= one);
            }
            if folded(args, start, adding_arg(site)) is Ok {
                let given = folded(args, start, adding_arg(site))->Ok_0;
                assert(given.others =~= start.others + plain_args(args));
                assert(given.lifetimes =~= start.lifetimes + given_lifetimes(args).map_values(
                    pair,
                ));
                assert forall|i: int| 0 <= i < args.len() implies !(
                #[trigger] args[i] is Other) by {
                    if i > 0 {
                        assert(args[i] == rest[i - 1]);
                    }
                }
            }
            if forall|i: int| 0 <= i < args.len() ==> !(#[trigger] args[i] is Other) {
                assert forall|i: int| 0 <= i < rest.len() implies !(
                #[trigger] rest[i] is Other) by {
                    assert(!(args[i + 1] is Other));
                }
            }
        } else {
            assert(args[0] is Other);
        }
    }
}

/// The names of lifetimes match.
proof fn lemma_names_match(
    given: Seq<(Seq<char>, Seq<Tree>)>,
    params: Seq<ParamView>,
    from: int,
    site: Span,
)
    requires
        0 <= from,
        given.len() == params.len(),
    ensures
        names_match(given, params, from, site) is Ok <==> forall|i: int|
            from <= i < given.len() ==> (#[trigger] given[i]).0 == "_"@ || given[i].0
                == params[i]->Lifetime_name,
    decreases given.len() - from,
{
    if from < given.len() {
        lemma_names_match(given, params, from + 1, site);
        if forall|i: int|
            from <= i < given.len() ==> (#[trigger] given[i]).0 == "_"@ || given[i].0
                == params[i]->Lifetime_name {
            assert(given[from].0 == "_"@ || given[from].0 == params[from]->Lifetime_name);
        }
    }
}

/// Something stands for a parameter exactly where it has a value.
pub proof fn lemma_value(
    param: ParamView,
    args: Seq<ArgView>,
    i: int,
    last: Seq<Tree>,
    site: Span,
)
    requires
        !(param is Lifetime),
        0 <= i,
    ensures
        value_for(param, arg_at(args, i), last, site) is Ok <==> has_value(param, args, i),
{
    if let Ok(value) = value_for(param, arg_at(args, i), last, site) {
        assert(stands_for(value, param, args, i));
    }
    if has_value(param, args, i) {
        let value = choose|value: Seq<Tree>| #[trigger] stands_for(value, param, args, i);
        assert(stands_for(value, param, args, i));
    }
}

/// All parameters have aliases exactly where all have values.
proof fn lemma_aliases(
    params: Seq<ParamView>,
    from: int,
    start: AliasesView,
    args: Seq<ArgView>,
    last: Seq<Tree>,
    site: Span,
)
    requires
        0 <= from <= params.len(),
        start.next == from,
        forall|k: int| 0 <= k < params.len() ==> !(#[trigger] params[k] is Lifetime),
    ensures
        folded(params.skip(from), start, adding_alias(args, last, site)) is Ok <==> forall|i: int|
            from <= i < params.len() ==> has_value(#[trigger] params[i], args, i),
    decreases params.len() - from,
{
    if from < params.len() {
        let step = adding_alias(args, last, site);
        lemma_folded_next(params, from, start, step);
        lemma_value(params[from], args, from, last, site);
        if let Ok(next) = step(start, params[from]) {
            lemma_aliases(params, from + 1, next, args, last, site);
        } else {
            assert(!has_value(params[from], args, from));
        }
    }
}

/// A request is accepted exactly where it fits the struct.
pub proof fn fitting_requests_are_accepted(
    target: PathView,
    struct_name: Seq<char>,
    params: Seq<ParamView>,
    site: Span,
)
    ensures
        bound_of(target, struct_name, params, site) is Ok <==> request_fits(
            target,
            struct_name,
            params,
            site,
        ),
{
    let plain = params.filter(|param: ParamView| !(param is Lifetime));
    let own = lifetime_params_of(params);
    assert forall|k: int| 0 <= k < plain.len() implies !(#[trigger] plain[k] is Lifetime) by {
        params.lemma_filter_pred(|param: ParamView| !(param is Lifetime), k);
    }
    assert(plain.skip(0) =~= plain);
    if let Ok(args) = args_of(target, site) {
        let none = GivenView { lifetimes: Seq::empty(), others: Seq::empty() };
        lemma_sorted(args, none, site);
        if let Ok(given) = sorted_args(args, site) {
            let names = given_lifetimes(args);
            assert(given.others =~= plain_args(args));
            assert(given.lifetimes.len() == names.len());
            assert forall|i: int| 0 <= i < names.len() implies (
            #[trigger] given.lifetimes[i]).0 == names[i]->Lifetime_name by {}
            if given.lifetimes.len() == own.len() {
                lemma_names_match(given.lifetimes, own, 0, site);
                if lifetimes_agree(args, params) && names.len() > 0 {
                    assert forall|i: int| 0 <= i < names.len() implies (
                    #[trigger] given.lifetimes[i]).0 == "_"@ || given.lifetimes[i].0
                        == own[i]->Lifetime_name by {
                        assert(names[i]->Lifetime_name == given.lifetimes[i].0);
                    }
                }
                if names_match(given.lifetimes, own, 0, site) is Ok {
                    assert forall|i: int| 0 <= i < names.len() implies (
                    #[trigger] names[i])->Lifetime_name == "_"@ || names[i]->Lifetime_name
                        == own[i]->Lifetime_name by {
                        assert(given.lifetimes[i].0 == names[i]->Lifetime_name);
                    }
                }
            }
            let last = target.ident + target.args;
            assert(lifetimes_fit(given.lifetimes, own, struct_name, last, site) is Ok
                <==> lifetimes_agree(args, params));
            let start = AliasesView { next: 0, outer: Seq::empty(), inner: Seq::empty() };
            lemma_aliases(plain, 0, start, given.others, last, site);
        }
    }
}

/// What the read mirror needs of an attribute.
proof fn lemma_read_settings_ok(
    metas: Seq<MetaView>,
    start: Seq<MetaView>,
    fields: Seq<Seq<char>>,
)
    ensures
        folded(metas, start, adding_rewrite(MirrorKind::Read, fields)) is Ok,
    decreases metas.len(),
{
    if metas.len() > 0 {
        let next = adding_rewrite(MirrorKind::Read, fields)(start, metas[0])->Ok_0;
        lemma_read_settings_ok(metas.skip(1), next, fields);
    }
}

/// A field has a read mirror exactly where its settings can be read.
proof fn lemma_readable(
    attrs: Seq<AttributeView>,
    start: Seq<AttributeView>,
    fields: Seq<Seq<char>>,
    site: Span,
)
    ensures
        folded(attrs, start, adding_mirrored(MirrorKind::Read, fields, site)) is Ok <==> readable(
            attrs,
        ),
    decreases attrs.len(),
{
    if attrs.len() > 0 {
        let step = adding_mirrored(MirrorKind::Read, fields, site);
        let rest = attrs.skip(1);
        lemma_read_settings_ok(held(attrs[0]), Seq::empty(), fields);
        assert(readable(attrs) <==> readable(rest) && (attrs[0].name == Some("deku"@) ==> (
        attrs[0].args matches ArgsView::List(Ok(_))))) by {
            if readable(attrs) {
                assert forall|i: int|
                    0 <= i < rest.len() && (#[trigger] rest[i]).name == Some("deku"@) implies (
                rest[i].args matches ArgsView::List(Ok(_))) by {
                    assert(rest[i] == attrs[i + 1]);
                }
            }
            if readable(rest) {
                assert forall|i: int|
                    1 <= i < attrs.len() && (#[trigger] attrs[i]).name == Some("deku"@) implies (
                attrs[i].args matches ArgsView::List(Ok(_))) by {
                    assert(rest[i - 1] == attrs[i]);
                }
            }
        }
        if let Ok(next) = step(start, attrs[0]) {
            lemma_readable(rest, next, fields, site);
        }
    }
}

/// Values are collected exactly where all items have one.
proof fn lemma_all_collected<A, B>(
    items: Seq<A>,
    before: Seq<B>,
    value: spec_fn(A) -> Result<B, Fail>,
)
    ensures
        folded(items, before, collecting(value)) is Ok <==> forall|i: int|
            0 <= i < items.len() ==> value(#[trigger] items[i]) is Ok,
    decreases items.len(),
{
    if items.len() > 0 {
        if let Ok(next) = value(items[0]) {
            let rest = items.skip(1);
            lemma_all_collected(rest, before.push(next), value);
            if forall|i: int| 0 <= i < items.len() ==> value(#[trigger] items[i]) is Ok {
                assert forall|i: int| 0 <= i < rest.len() implies value(#[trigger] rest[i])
                    is Ok by {
                    assert(rest[i] == items[i + 1]);
                }
            }
            if forall|i: int| 0 <= i < rest.len() ==> value(#[trigger] rest[i]) is Ok {
                assert forall|i: int| 1 <= i < items.len() implies value(#[trigger] items[i])
                    is Ok by {
                    assert(rest[i - 1] == items[i]);
                }
            }
        }
    }
}

/// A request for reading is answered exactly where it fits the struct, the
/// struct's own settings are accepted and those of its fields can be read.
pub proof fn reading_is_answered(
    target: PathView,
    item: ItemView,
    crate_path: Seq<Tree>,
    site: Span,
)
    ensures
        instantiated(Mode::Read, target, item, crate_path, site) is Ok <==> {
            &&& request_fits(target, ident_text(seq![item.ident]), item.params, site)
            &&& struct_attrs_of(item.attrs, site) is Ok
            &&& forall|i: int|
                0 <= i < item.fields.len() ==> readable((#[trigger] item.fields[i]).attrs)
        },
{
    let names = field_names(item.fields);
    let value = mirroring(MirrorKind::Read, names, site);
    fitting_requests_are_accepted(target, ident_text(seq![item.ident]), item.params, site);
    lemma_all_collected(item.fields, Seq::empty(), value);
    assert forall|i: int| 0 <= i < item.fields.len() implies (value(
        #[trigger] item.fields[i],
    ) is Ok <==> readable(item.fields[i].attrs)) by {
        lemma_readable(item.fields[i].attrs, Seq::empty(), names, site);
    }
}

/// A request for writing is answered exactly where one for reading is, each
/// setting of each field can be rewritten, and each first `update` is a text of
/// tokens.
pub proof fn writing_is_answered(
    target: PathView,
    item: ItemView,
    crate_path: Seq<Tree>,
    site: Span,
)
    ensures
        instantiated(Mode::Write, target, item, crate_path, site) is Ok <==> {
            &&& instantiated(Mode::Read, target, item, crate_path, site) is Ok
            &&& forall|i: int|
                0 <= i < item.fields.len() ==> rewritable(
                    (#[trigger] item.fields[i]).attrs,
                ) && update_of(item.fields[i].attrs, site) is Ok
        },
{
    let names = field_names(item.fields);
    let read = mirroring(MirrorKind::Read, names, site);
    let write = mirroring(MirrorKind::Write, names, site);
    let expr = updating(site);
    lemma_all_collected(item.fields, Seq::empty(), read);
    lemma_all_collected(item.fields, Seq::empty(), write);
    lemma_all_collected(item.fields, Seq::empty(), expr);
    assert forall|i: int| 0 <= i < item.fields.len() implies (write(
        #[trigger] item.fields[i],
    ) is Ok <==> read(item.fields[i]) is Ok && rewritable(item.fields[i].attrs)) by {
        let attrs = item.fields[i].attrs;
        lemma_readable(attrs, Seq::empty(), names, site);
        lemma_rewritable(attrs, Seq::empty(), names, site);
    }
    let all = item.fields;
    if forall|i: int| 0 <= i < all.len() ==> write(#[trigger] all[i]) is Ok {
        assert forall|i: int| 0 <= i < all.len() implies read(#[trigger] all[i])
            is Ok && rewritable(all[i].attrs) by {
            assert(write(all[i]) is Ok);
        }
    }
    if forall|i: int| 0 <= i < all.len() ==> expr(#[trigger] all[i]) is Ok {
        assert forall|i: int| 0 <= i < all.len() implies update_of(
            (#[trigger] all[i]).attrs,
            site,
        ) is Ok by {
            assert(expr(all[i]) is Ok);
        }
    }
    if forall|i: int|
        0 <= i < all.len() ==> rewritable((#[trigger] all[i]).attrs) && update_of(
            all[i].attrs,
            site,
        ) is Ok {
        assert forall|i: int| 0 <= i < all.len() implies expr(#[trigger] all[i]) is Ok by {
            assert(update_of(all[i].attrs, site) is Ok);
        }
    }
}

/// Whether each setting, other than `update`, of each deku attribute can be
/// rewritten for writing.
pub open spec fn rewritable(attrs: Seq<AttributeView>) -> bool {
    forall|i: int|
        0 <= i < attrs.len() ==> settings_rewritable(held(#[trigger] attrs[i]))
}

/// Whether each setting, other than `update`, can be rewritten for writing.
pub open spec fn settings_rewritable(metas: Seq<MetaView>) -> bool {
    forall|j: int|
        0 <= j < metas.len() && !called(#[trigger] metas[j], "update"@) ==> spells_code(metas[j])
}

/// Whether the text of a setting, where it is evaluated while writing, is made
/// of tokens; that of a `ctx` is a list of expressions, and has no suffix.
pub open spec fn spells_code(meta: MetaView) -> bool {
    match (meta.text, meta.name) {
        (Some(literal), Some(own)) => if own == "ctx"@ {
            literal.suffix.len() == 0 && match literal.code {
                Some(Ok(code)) => code.exprs is Ok,
                Some(Err(_)) => false,
                None => true,
            }
        } else if write_expr(own) || own == "assert_eq"@ || (own == "endian"@ && literal.value
            != "big"@ && literal.value != "little"@) {
            !(literal.code matches Some(Err(_)))
        } else {
            true
        },
        _ => true,
    }
}

/// A setting can be rewritten exactly where its text is such code.
proof fn lemma_spells_code(meta: MetaView, fields: Seq<Seq<char>>)
    ensures
        rewriting(meta, fields) is Ok <==> spells_code(meta),
{
    reveal_strlit("endian");
    reveal_strlit("assert_eq");
    reveal_strlit("ctx");
    assert("endian"@.len() == 6 && "assert_eq"@.len() == 9 && "ctx"@.len() == 3);
    lemma_nameless(setting_name(meta));
    lemma_ctx_is_no_write_expr();
}

/// A `ctx` is rewritten in its own way.
proof fn lemma_ctx_is_no_write_expr()
    ensures
        !write_expr("ctx"@),
{
    reveal_strlit("ctx");
    reveal_strlit("writer");
    reveal_strlit("cond");
    reveal_strlit("assert");
    reveal_strlit("bits");
    reveal_strlit("bytes");
    reveal_strlit("pad_bits_before");
    reveal_strlit("pad_bytes_before");
    reveal_strlit("pad_bits_after");
    reveal_strlit("pad_bytes_after");
    reveal_strlit("seek_from_current");
    reveal_strlit("seek_from_end");
    reveal_strlit("seek_from_start");
    assert("ctx"@.len() == 3 && "writer"@.len() == 6 && "cond"@.len() == 4 && "assert"@.len() == 6);
    assert("bits"@.len() == 4 && "bytes"@.len() == 5 && "pad_bits_before"@.len() == 15);
    assert("pad_bytes_before"@.len() == 16 && "pad_bits_after"@.len() == 14);
    assert("pad_bytes_after"@.len() == 15 && "seek_from_current"@.len() == 17);
    assert("seek_from_end"@.len() == 13 && "seek_from_start"@.len() == 15);
}

/// The settings of an attribute are rewritten exactly where each can be.
proof fn lemma_settings_rewritable(
    metas: Seq<MetaView>,
    start: Seq<MetaView>,
    fields: Seq<Seq<char>>,
)
    ensures
        folded(metas, start, adding_rewrite(MirrorKind::Write, fields)) is Ok
            <==> settings_rewritable(metas),
    decreases metas.len(),
{
    reveal_strlit("update");
    if metas.len() > 0 {
        let rest = metas.skip(1);
        let first = called(metas[0], "update"@) || spells_code(metas[0]);
        lemma_spells_code(metas[0], fields);
        assert(settings_rewritable(metas) <==> first && settings_rewritable(
            rest,
        )) by {
            if settings_rewritable(metas) {
                assert forall|j: int|
                    0 <= j < rest.len() && !called(
                        #[trigger] rest[j],
                        "update"@,
                    ) implies spells_code(rest[j]) by {
                    assert(rest[j] == metas[j + 1]);
                }
            }
            if settings_rewritable(rest) {
                assert forall|j: int|
                    1 <= j < metas.len() && !called(
                        #[trigger] metas[j],
                        "update"@,
                    ) implies spells_code(metas[j]) by {
                    assert(rest[j - 1] == metas[j]);
                }
            }
        }
        if let Ok(next) = adding_rewrite(MirrorKind::Write, fields)(start, metas[0]) {
            lemma_settings_rewritable(rest, next, fields);
        }
    }
}

/// A field has a write mirror exactly where its settings can be read and
/// rewritten.
proof fn lemma_rewritable(
    attrs: Seq<AttributeView>,
    start: Seq<AttributeView>,
    fields: Seq<Seq<char>>,
    site: Span,
)
    ensures
        folded(attrs, start, adding_mirrored(MirrorKind::Write, fields, site)) is Ok <==> readable(
            attrs,
        ) && rewritable(attrs),
    decreases attrs.len(),
{
    if attrs.len() > 0 {
        let step = adding_mirrored(MirrorKind::Write, fields, site);
        let rest = attrs.skip(1);
        lemma_settings_rewritable(held(attrs[0]), Seq::empty(), fields);
        let plain = attrs[0].name == Some("deku"@) ==> (attrs[0].args matches ArgsView::List(
            Ok(_),
        ));
        assert(readable(attrs) <==> readable(rest) && plain) by {
            if readable(attrs) {
                assert forall|i: int|
                    0 <= i < rest.len() && (#[trigger] rest[i]).name == Some("deku"@) implies (
                rest[i].args matches ArgsView::List(Ok(_))) by {
                    assert(rest[i] == attrs[i + 1]);
                }
            }
            if readable(rest) {
                assert forall|i: int|
                    1 <= i < attrs.len() && (#[trigger] attrs[i]).name == Some("deku"@) implies (
                attrs[i].args matches ArgsView::List(Ok(_))) by {
                    assert(rest[i - 1] == attrs[i]);
                }
            }
        }
        assert(rewritable(attrs) <==> rewritable(rest) && settings_rewritable(
            held(attrs[0]),
        )) by {
            if rewritable(attrs) {
                assert forall|i: int| 0 <= i < rest.len() implies settings_rewritable(
                    held(#[trigger] rest[i]),
                ) by {
                    assert(rest[i] == attrs[i + 1]);
                }
            }
            if rewritable(rest) {
                assert forall|i: int| 1 <= i < attrs.len() implies settings_rewritable(
                    held(#[trigger] attrs[i]),
                ) by {
                    assert(rest[i - 1] == attrs[i]);
                }
            }
        }
        if let Ok(next) = step(start, attrs[0]) {
            lemma_rewritable(rest, next, fields, site);
        }
    }
}

/// The options are `read`, `write` and `read_write`, and no others.
pub proof fn there_are_three_options(option: Seq<char>, place: Span)
    ensures
        modes_of(option, place) is Ok <==> option == "read"@ || option == "write"@ || option
            == "read_write"@,
        modes_of("read"@, place) == Ok::<_, Fail>(seq![Mode::Read]),
        modes_of("write"@, place) == Ok::<_, Fail>(seq![Mode::Write]),
        modes_of("read_write"@, place) == Ok::<_, Fail>(seq![Mode::Read, Mode::Write]),
{
    reveal_strlit("read");
    reveal_strlit("write");
    reveal_strlit("read_write");
    assert("read"@.len() == 4 && "write"@.len() == 5 && "read_write"@.len() == 10);
}

/// What one argument of the attribute asks for.
pub enum Argument {
    /// `read(Foo<A>, Foo<B>)`
    Ask(Seq<Mode>, Seq<PathView>),
    /// `crate = "path"`
    Path(Seq<Tree>),
}

/// How many tokens an argument has.
pub open spec fn width(argument: Argument) -> int {
    match argument {
        Argument::Ask(_, _) => 2,
        Argument::Path(_) => 3,
    }
}

/// Whether a token is the word `crate`.
pub open spec fn is_crate(token: ArgTokenView) -> bool {
    token.tree matches Tree::Ident { text, at: _ } && text == "crate"@
}

/// Whether a token is that character.
pub open spec fn is_sign(token: ArgTokenView, wanted: char) -> bool {
    token.tree matches Tree::Punct { ch, joint: _, at: _ } && ch == wanted
}

/// Whether the tokens are that argument.
pub open spec fn is_argument(tokens: Seq<ArgTokenView>, argument: Argument) -> bool {
    &&& tokens.len() == width(argument)
    &&& match argument {
        Argument::Ask(modes, targets) => {
            &&& !is_crate(tokens[0])
            &&& tokens[0].name matches Ok(option) && {
                ||| option == "read"@ && modes == seq![Mode::Read]
                ||| option == "write"@ && modes == seq![Mode::Write]
                ||| option == "read_write"@ && modes == seq![Mode::Read, Mode::Write]
            }
            &&& tokens[1].targets == Some(Ok::<_, ErrorView>(targets))
        },
        Argument::Path(path) => {
            &&& is_crate(tokens[0])
            &&& is_sign(tokens[1], '=')
            &&& tokens[2].tree matches Tree::Str { value: _, suffix, at: _ } && suffix.len() == 0
            &&& tokens[2].path matches Some(Ok((own, rest))) && own == path && opened(rest).len()
                == 0
        },
    }
}

/// Whether the tokens are those arguments, with commas between them and perhaps
/// one at the end.
pub open spec fn are_arguments(tokens: Seq<ArgTokenView>, arguments: Seq<Argument>) -> bool
    decreases arguments.len(),
{
    if arguments.len() == 0 {
        tokens.len() == 0
    } else {
        let n = width(arguments[0]);
        &&& tokens.len() >= n && is_argument(tokens.take(n), arguments[0])
        &&& if tokens.len() == n {
            arguments.len() == 1
        } else {
            is_sign(tokens[n], ',') && are_arguments(tokens.skip(n + 1), arguments.skip(1))
        }
    }
}

/// A request for each target, in order, and for each of the modes.
pub open spec fn asked(modes: Seq<Mode>, targets: Seq<PathView>) -> Seq<RequestView>
    decreases targets.len(),
{
    if targets.len() == 0 {
        Seq::empty()
    } else {
        Seq::new(modes.len(), |k: int| RequestView { mode: modes[k], target: targets[0] }) + asked(
            modes,
            targets.skip(1),
        )
    }
}

/// What the arguments ask for, one after another.
pub open spec fn all_asked(arguments: Seq<Argument>) -> Seq<RequestView>
    decreases arguments.len(),
{
    if arguments.len() == 0 {
        Seq::empty()
    } else {
        match arguments[0] {
            Argument::Ask(modes, targets) => asked(modes, targets) + all_asked(arguments.skip(1)),
            Argument::Path(_) => all_asked(arguments.skip(1)),
        }
    }
}

/// The paths of the crate that the arguments give.
pub open spec fn given_paths(arguments: Seq<Argument>) -> Seq<Seq<Tree>>
    decreases arguments.len(),
{
    if arguments.len() == 0 {
        Seq::empty()
    } else {
        match arguments[0] {
            Argument::Ask(_, _) => given_paths(arguments.skip(1)),
            Argument::Path(path) => seq![path] + given_paths(arguments.skip(1)),
        }
    }
}

/// One more target.
proof fn lemma_asked_push(modes: Seq<Mode>, targets: Seq<PathView>, last: PathView)
    ensures
        asked(modes, targets.push(last)) == asked(modes, targets) + Seq::new(
            modes.len(),
            |k: int| RequestView { mode: modes[k], target: last },
        ),
    decreases targets.len(),
{
    reveal_with_fuel(asked, 2);
    let all = targets.push(last);
    if targets.len() == 0 {
        assert(all.skip(1) =~= Seq::empty());
    } else {
        assert(all.skip(1) =~= targets.skip(1).push(last));
        lemma_asked_push(modes, targets.skip(1), last);
    }
    assert(asked(modes, all) =~= asked(modes, targets) + Seq::new(
        modes.len(),
        |k: int| RequestView { mode: modes[k], target: last },
    ));
}

/// A group asks for each of its targets, in order.
pub proof fn groups_ask_for_each_target(modes: Seq<Mode>, targets: Seq<PathView>)
    ensures
        requests_for(modes, targets) == asked(modes, targets),
    decreases targets.len(),
{
    let each = |target: PathView| modes.map_values(|mode: Mode| RequestView { mode, target });
    if targets.len() > 0 {
        let before = targets.drop_last();
        let last = targets.last();
        groups_ask_for_each_target(modes, before);
        lemma_asked_push(modes, before, last);
        assert(before.push(last) =~= targets);
        assert(targets.map_values(each).drop_last() =~= before.map_values(each));
        assert(each(last) =~= Seq::new(
            modes.len(),
            |k: int| RequestView { mode: modes[k], target: last },
        ));
    }
}

/// One argument is added to those before it.
proof fn lemma_argument(
    done: AttrArgsView,
    tokens: Seq<ArgTokenView>,
    argument: Argument,
    site: Span,
)
    requires
        tokens.len() >= width(argument),
        is_argument(tokens.take(width(argument)), argument),
        argument is Path ==> done.crate_path is None,
    ensures
        argument_len(tokens) == width(argument),
        adding_argument(done, tokens, None, site) == Ok::<_, Fail>(
            match argument {
                Argument::Ask(modes, targets) => AttrArgsView {
                    requests: done.requests + asked(modes, targets),
                    crate_path: done.crate_path,
                },
                Argument::Path(path) => AttrArgsView {
                    requests: done.requests,
                    crate_path: Some(path),
                },
            },
        ),
{
    let part = tokens.take(width(argument));
    assert(part[0] == tokens[0] && part[1] == tokens[1]);
    assert(tokens.skip(1)[0] == tokens[1]);
    match argument {
        Argument::Ask(modes, targets) => {
            there_are_three_options(tokens[0].name->Ok_0, tokens[0].tree.at());
            groups_ask_for_each_target(modes, targets);
        },
        Argument::Path(_) => {
            assert(part[2] == tokens[2]);
            assert(tokens.skip(2)[0] == tokens[2]);
        },
    }
}

/// Arguments are added to those before them.
proof fn lemma_arguments(
    done: AttrArgsView,
    tokens: Seq<ArgTokenView>,
    arguments: Seq<Argument>,
    site: Span,
)
    requires
        are_arguments(tokens, arguments),
        given_paths(arguments).len() <= if done.crate_path is Some {
            0int
        } else {
            1int
        },
    ensures
        adding_arguments(done, tokens, None, site) == Ok::<_, Fail>(
            AttrArgsView {
                requests: done.requests + all_asked(arguments),
                crate_path: if given_paths(arguments).len() > 0 {
                    Some(given_paths(arguments)[0])
                } else {
                    done.crate_path
                },
            },
        ),
    decreases arguments.len(),
{
    if arguments.len() == 0 {
        assert(done.requests + all_asked(arguments) =~= done.requests);
    } else {
        let first = arguments[0];
        let n = width(first);
        lemma_argument(done, tokens, first, site);
        let next = adding_argument(done, tokens, None, site)->Ok_0;
        let rest = arguments.skip(1);
        let after = tokens.skip(n);
        if tokens.len() == n {
            reveal_with_fuel(all_asked, 2);
            reveal_with_fuel(given_paths, 2);
            assert(rest =~= Seq::empty());
            assert(next.requests =~= done.requests + all_asked(arguments));
        } else {
            assert(after[0] == tokens[n]);
            assert(after.skip(1) =~= tokens.skip(n + 1));
            lemma_arguments(next, tokens.skip(n + 1), rest, site);
            assert(next.requests + all_asked(rest) =~= done.requests + all_asked(arguments));
            if let Argument::Path(path) = first {
                assert(given_paths(rest) =~= Seq::empty());
            }
        }
    }
}

/// What the attribute is asked for is what each of its arguments asks for, in
/// order: each group for its targets, and at most one for the path of the crate.
pub proof fn arguments_add_up(tokens: Seq<ArgTokenView>, arguments: Seq<Argument>, site: Span)
    requires
        are_arguments(tokens, arguments),
        given_paths(arguments).len() <= 1,
    ensures
        arguments_of(tokens, None, site) == Ok::<_, Fail>(
            AttrArgsView {
                requests: all_asked(arguments),
                crate_path: if given_paths(arguments).len() > 0 {
                    Some(given_paths(arguments)[0])
                } else {
                    None
                },
            },
        ),
{
    let none = AttrArgsView { requests: Seq::empty(), crate_path: None };
    lemma_arguments(none, tokens, arguments, site);
    assert(none.requests + all_asked(arguments) =~= all_asked(arguments));
}

/// An argument that is added is one.
proof fn lemma_is_argument(done: AttrArgsView, tokens: Seq<ArgTokenView>, site: Span) -> (argument:
    Argument)
    requires
        tokens.len() > 0,
        adding_argument(done, tokens, None, site) is Ok,
    ensures
        tokens.len() >= width(argument),
        is_argument(tokens.take(width(argument)), argument),
        argument is Path ==> done.crate_path is None,
        adding_argument(done, tokens, None, site)->Ok_0.crate_path is Some <==> argument is Path
            || done.crate_path is Some,
{
    assert(tokens.len() > 1 ==> tokens.skip(1)[0] == tokens[1]);
    assert(tokens.len() > 2 ==> tokens.skip(2)[0] == tokens[2]);
    if is_crate(tokens[0]) {
        let (path, rest) = tokens.skip(2)[0].path->0->Ok_0;
        let argument = Argument::Path(path);
        assert(is_argument(tokens.take(3), argument));
        argument
    } else {
        let option = tokens[0].name->Ok_0;
        let place = tokens[0].tree.at();
        there_are_three_options(option, place);
        let argument = Argument::Ask(
            modes_of(option, place)->Ok_0,
            tokens.skip(1)[0].targets->0->Ok_0,
        );
        assert(is_argument(tokens.take(2), argument));
        argument
    }
}

/// Tokens that are accepted are arguments.
proof fn lemma_are_arguments(done: AttrArgsView, tokens: Seq<ArgTokenView>, site: Span) -> (
    arguments: Seq<Argument>)
    requires
        adding_arguments(done, tokens, None, site) is Ok,
    ensures
        are_arguments(tokens, arguments),
        given_paths(arguments).len() <= if done.crate_path is Some {
            0int
        } else {
            1int
        },
    decreases tokens.len(),
{
    if tokens.len() == 0 {
        return Seq::empty();
    }
    let first = lemma_is_argument(done, tokens, site);
    let n = width(first);
    lemma_argument(done, tokens, first, site);
    let next = adding_argument(done, tokens, None, site)->Ok_0;
    if tokens.len() == n {
        let one = seq![first];
        assert(one.skip(1) =~= Seq::empty());
        reveal_with_fuel(given_paths, 2);
        return one;
    }
    let after = tokens.skip(n);
    assert(after[0] == tokens[n]);
    assert(after.skip(1) =~= tokens.skip(n + 1));
    let rest = lemma_are_arguments(next, tokens.skip(n + 1), site);
    let all = seq![first] + rest;
    assert(all.skip(1) =~= rest);
    assert(all[0] == first);
    all
}

/// What the attribute accepts are such arguments, and nothing else.
pub proof fn only_arguments_are_accepted(tokens: Seq<ArgTokenView>, site: Span) -> (arguments: Seq<
    Argument,
>)
    requires
        arguments_of(tokens, None, site) is Ok,
    ensures
        are_arguments(tokens, arguments),
        given_paths(arguments).len() <= 1,
{
    let none = AttrArgsView { requests: Seq::empty(), crate_path: None };
    lemma_are_arguments(none, tokens, site)
}

/// Whatever is left in invisible delimiters after the arguments is refused.
pub proof fn leftovers_are_refused(tokens: Seq<ArgTokenView>, rest: Tree, site: Span)
    ensures
        arguments_of(tokens, Some(rest), site) is Err,
{
    let none = AttrArgsView { requests: Seq::empty(), crate_path: None };
    lemma_leftover(none, tokens, rest, site);
}

/// Such a rest is refused after any arguments.
proof fn lemma_leftover(done: AttrArgsView, tokens: Seq<ArgTokenView>, rest: Tree, site: Span)
    ensures
        adding_arguments(done, tokens, Some(rest), site) is Err,
    decreases tokens.len(),
{
    if tokens.len() > argument_len(tokens) {
        if let Ok(next) = adding_argument(done, tokens, Some(rest), site) {
            let after = tokens.skip(argument_len(tokens));
            lemma_leftover(next, after.skip(1), rest, site);
        }
    }
}

/// A type is `PhantomData` where its path ends so, in whatever parentheses or
/// invisible delimiters it stands.
pub proof fn parentheses_hide_no_phantom(ty: Seq<Tree>, place: Span)
    ensures
        phantom(seq![Tree::Group { delim: Delim::Paren, inner: ty, at: place }]) == phantom(ty),
        phantom(seq![Tree::Group { delim: Delim::Bare, inner: ty, at: place }]) == phantom(ty),
        (forall|i: int| 0 <= i < ty.len() ==> !(#[trigger] ty[i] is Group)) ==> (phantom(ty)
            <==> syn_last_segment(ty) == Some("PhantomData"@)),
{
    if ty.len() == 1 {
        assert(!(ty[0] is Group) ==> (phantom(ty) <==> syn_last_segment(ty) == Some(
            "PhantomData"@,
        )));
    }
}

/// Whether a setting gives an expression: a text of tokens, without a suffix.
pub open spec fn gives_expression(meta: MetaView) -> bool {
    meta.text matches Some(literal) && literal.suffix.len() == 0 && !(
    literal.code matches Some(Err(_)))
}

/// An `update` is accepted where it gives an expression; only the first one
/// counts.
pub proof fn updates_are_accepted(attrs: Seq<AttributeView>, site: Span)
    requires
        readable(attrs),
    ensures
        update_of(attrs, site) is Ok <==> forall|i: int| #[trigger]
            first_called(all_held(attrs), i, "update"@) ==> gives_expression(all_held(attrs)[i]),
{
    lemma_update_everywhere(attrs, site);
    lemma_update_accepted(all_held(attrs), site);
}

/// The first `update` is looked for in all settings.
pub proof fn lemma_update_everywhere(attrs: Seq<AttributeView>, site: Span)
    requires
        readable(attrs),
    ensures
        update_of(attrs, site) == update_in(all_held(attrs), site),
    decreases attrs.len(),
{
    if attrs.len() > 0 {
        let rest = attrs.skip(1);
        assert forall|i: int|
            0 <= i < rest.len() && (#[trigger] rest[i]).name == Some("deku"@) implies (
        rest[i].args matches ArgsView::List(Ok(_))) by {
            assert(rest[i] == attrs[i + 1]);
        }
        assert(attrs[0].name == Some("deku"@) ==> (attrs[0].args matches ArgsView::List(Ok(_))));
        lemma_update_everywhere(rest, site);
        lemma_update_add(held(attrs[0]), all_held(rest), site);
        if attrs[0].name != Some("deku"@) {
            assert(held(attrs[0]) =~= Seq::empty());
        }
    }
}

/// The first `update` among some settings is accepted or not.
proof fn lemma_update_accepted(metas: Seq<MetaView>, site: Span)
    ensures
        update_in(metas, site) is Ok <==> forall|i: int| #[trigger]
            first_called(metas, i, "update"@) ==> gives_expression(metas[i]),
    decreases metas.len(),
{
    reveal_strlit("update");
    if metas.len() > 0 {
        let rest = metas.skip(1);
        if called(metas[0], "update"@) {
            assert(first_called(metas, 0, "update"@));
            assert forall|i: int| #[trigger] first_called(metas, i, "update"@) implies i == 0 by {
                assert(i > 0 ==> !called(metas[0], "update"@));
            }
        } else {
            lemma_update_accepted(rest, site);
            assert forall|i: int| #[trigger] first_called(rest, i, "update"@) implies first_called(
                metas,
                i + 1,
                "update"@,
            ) by {
                assert forall|k: int| 0 <= k < i + 1 implies !called(
                    #[trigger] metas[k],
                    "update"@,
                ) by {
                    if k > 0 {
                        assert(rest[k - 1] == metas[k]);
                    }
                }
            }
            assert forall|i: int| #[trigger] first_called(metas, i, "update"@) implies first_called(
                rest,
                i - 1,
                "update"@,
            ) by {
                assert forall|k: int| 0 <= k < i - 1 implies !called(
                    #[trigger] rest[k],
                    "update"@,
                ) by {
                    assert(rest[k] == metas[k + 1]);
                }
            }
            if forall|i: int| #[trigger]
                first_called(metas, i, "update"@) ==> gives_expression(metas[i]) {
                assert forall|i: int| #[trigger]
                    first_called(rest, i, "update"@) implies gives_expression(rest[i]) by {
                    assert(first_called(metas, i + 1, "update"@));
                }
            }
        }
    }
}

/// Whether the text of a setting, where it is evaluated while writing, is made
/// of tokens.
pub open spec fn spells_tokens(meta: MetaView) -> bool {
    match (meta.text, meta.name) {
        (Some(literal), Some(own)) => (write_expr(own) || own == "assert_eq"@ || own == "ctx"@ || (
        own == "endian"@ && literal.value != "big"@ && literal.value != "little"@)) ==> !(
        literal.code matches Some(Err(_))),
        _ => true,
    }
}

/// Whether all settings are so.
pub open spec fn all_spell_tokens(metas: Seq<MetaView>) -> bool {
    forall|i: int| 0 <= i < metas.len() ==> spells_tokens(#[trigger] metas[i])
}

/// The texts are looked at one after another.
proof fn lemma_all_spell(metas: Seq<MetaView>)
    ensures
        folded(metas, (), expr_spelled()) is Ok <==> all_spell_tokens(metas),
    decreases metas.len(),
{
    if metas.len() > 0 {
        let rest = metas.skip(1);
        lemma_all_spell(rest);
        lemma_nameless(setting_name(metas[0]));
        reveal_strlit("endian");
        reveal_strlit("assert_eq");
        reveal_strlit("ctx");
        assert("endian"@.len() == 6 && "assert_eq"@.len() == 9 && "ctx"@.len() == 3);
        assert(expr_spelled()((), metas[0]) is Ok <==> spells_tokens(metas[0]));
        if all_spell_tokens(metas) {
            assert forall|i: int| 0 <= i < rest.len() implies spells_tokens(
                #[trigger] rest[i],
            ) by {
                assert(rest[i] == metas[i + 1]);
            }
            assert(spells_tokens(metas[0]));
        }
        if all_spell_tokens(rest) {
            assert forall|i: int| 1 <= i < metas.len() implies spells_tokens(
                #[trigger] metas[i],
            ) by {
                assert(rest[i - 1] == metas[i]);
            }
        }
    }
}

/// Whether a field can be kept: its settings can be read, none is `temp`, and
/// what is evaluated while writing is made of tokens.
pub open spec fn field_fits(attrs: Seq<AttributeView>) -> bool {
    &&& readable(attrs)
    &&& !any_called(all_held(attrs), "temp"@)
    &&& all_spell_tokens(all_held(attrs))
}

/// Steps that succeed for each item.
proof fn lemma_all_pass<A>(items: Seq<A>, step: spec_fn((), A) -> Result<(), Fail>)
    ensures
        folded(items, (), step) is Ok <==> forall|i: int|
            0 <= i < items.len() ==> step((), #[trigger] items[i]) is Ok,
    decreases items.len(),
{
    if items.len() > 0 {
        let rest = items.skip(1);
        lemma_all_pass(rest, step);
        if step((), items[0]) is Ok {
            assert(step((), items[0])->Ok_0 == ());
            if forall|i: int| 0 <= i < items.len() ==> step((), #[trigger] items[i]) is Ok {
                assert forall|i: int| 0 <= i < rest.len() implies step((), #[trigger] rest[i])
                    is Ok by {
                    assert(rest[i] == items[i + 1]);
                }
            }
            if forall|i: int| 0 <= i < rest.len() ==> step((), #[trigger] rest[i]) is Ok {
                assert forall|i: int| 1 <= i < items.len() implies step((), #[trigger] items[i])
                    is Ok by {
                    assert(rest[i - 1] == items[i]);
                }
            }
        }
    }
}

/// Only settings that can be read are stepped through.
proof fn lemma_steps_need_readable(
    attrs: Seq<AttributeView>,
    step: spec_fn((), MetaView) -> Result<(), Fail>,
    site: Span,
)
    requires
        folded(attrs, (), each_setting(step, site)) is Ok,
    ensures
        readable(attrs),
    decreases attrs.len(),
{
    if attrs.len() > 0 {
        let rest = attrs.skip(1);
        lemma_steps_need_readable(rest, step, site);
        assert forall|i: int|
            1 <= i < attrs.len() && (#[trigger] attrs[i]).name == Some("deku"@) implies (
        attrs[i].args matches ArgsView::List(Ok(_))) by {
            assert(rest[i - 1] == attrs[i]);
        }
    }
}

/// The attribute accepts a struct exactly where each of its fields can be kept
/// and its own settings are accepted.
pub proof fn fitting_structs_are_accepted(item: ItemView, site: Span)
    ensures
        struct_supported(item, site) is Ok <==> {
            &&& struct_attrs_of(item.attrs, site) is Ok
            &&& forall|i: int|
                0 <= i < item.fields.len() ==> field_fits((#[trigger] item.fields[i]).attrs)
        },
{
    let fields = item.fields;
    let (kept, spelled) = (supporting(site), spelling(site));
    lemma_all_pass(fields, kept);
    lemma_all_pass(fields, spelled);
    assert forall|i: int| 0 <= i < fields.len() implies (field_fits((#[trigger] fields[i]).attrs)
        <==> kept((), fields[i]) is Ok && spelled((), fields[i]) is Ok) by {
        lemma_field_fits(fields[i].attrs, site);
    }
    if struct_supported(item, site) is Ok {
        assert forall|i: int| 0 <= i < fields.len() implies field_fits(
            (#[trigger] fields[i]).attrs,
        ) by {
            assert(kept((), fields[i]) is Ok && spelled((), fields[i]) is Ok);
        }
    }
    if forall|i: int| 0 <= i < fields.len() ==> field_fits((#[trigger] fields[i]).attrs) {
        assert forall|i: int| 0 <= i < fields.len() implies kept((), #[trigger] fields[i]) is Ok
            && spelled((), fields[i]) is Ok by {
            assert(field_fits(fields[i].attrs));
        }
    }
}

/// A field can be kept exactly where it passes both checks.
proof fn lemma_field_fits(attrs: Seq<AttributeView>, site: Span)
    ensures
        field_fits(attrs) <==> field_supported(attrs, site) is Ok && exprs_spelled(attrs, site)
            is Ok,
{
    lemma_all_spell(all_held(attrs));
    if readable(attrs) {
        lemma_readable_steps(attrs, (), refusing_temp(site), site);
        lemma_readable_steps(attrs, (), expr_spelled(), site);
        temporary_fields_are_refused(attrs, site);
        if !any_called(all_held(attrs), "temp"@) {
            other_fields_are_supported(attrs, site);
        }
    } else if field_supported(attrs, site) is Ok {
        lemma_steps_need_readable(attrs, refusing_temp(site), site);
    }
}

/// The attribute expands exactly where the struct is accepted, its name is one,
/// and each request is answered.
pub proof fn attribute_is_answered(
    item: ItemView,
    requests: Seq<RequestView>,
    crate_path: Seq<Tree>,
    site: Span,
)
    ensures
        attribute_of(item, requests, crate_path, site) is Ok <==> {
            &&& struct_supported(item, site) is Ok
            &&& item.ident matches Tree::Ident { text, at: _ } && text.len() > 0 && text[0] != '$'
            &&& forall|i: int|
                0 <= i < requests.len() ==> instantiated(
                    (#[trigger] requests[i]).mode,
                    requests[i].target,
                    item,
                    crate_path,
                    site,
                ) is Ok
        },
{
    let value = instancing(item, crate_path, site);
    lemma_all_collected(requests, Seq::empty(), value);
    assert forall|i: int| 0 <= i < requests.len() implies value(#[trigger] requests[i])
        == instantiated(requests[i].mode, requests[i].target, item, crate_path, site) by {}
    if forall|i: int| 0 <= i < requests.len() ==> value(#[trigger] requests[i]) is Ok {
        assert forall|i: int| 0 <= i < requests.len() implies instantiated(
            (#[trigger] requests[i]).mode,
            requests[i].target,
            item,
            crate_path,
            site,
        ) is Ok by {
            assert(value(requests[i]) is Ok);
        }
    }
}

/// A path has generic arguments exactly where it has none written, or a list of
/// them in angle brackets that can be read.
pub proof fn arguments_of_a_path(target: PathView, site: Span)
    ensures
        target.args.len() == 0 ==> args_of(target, site) == Ok::<_, Fail>(Seq::<ArgView>::empty()),
        target.args.len() > 0 && !(target.args[0] is Group) ==> (match target.list {
            Ok(args) => args_of(target, site) == Ok::<_, Fail>(args),
            Err(_) => args_of(target, site) is Err,
        }),
        target.args.len() > 0 && (target.args[0] matches Tree::Group {
            delim: Delim::Paren,
            inner: _,
            at: _,
        }) ==> args_of(target, site) is Err,
{
}

/// Invisible delimiters are looked through, wherever they stand.
pub proof fn invisible_delimiters_are_opened(
    before: Seq<Tree>,
    inner: Seq<Tree>,
    after: Seq<Tree>,
    place: Span,
)
    ensures
        opened(
            before + seq![Tree::Group { delim: Delim::Bare, inner, at: place }] + after,
        ) == opened(before) + opened(inner) + opened(after),
        (forall|i: int|
            0 <= i < before.len() ==> !(#[trigger] before[i] matches Tree::Group {
                delim: Delim::Bare,
                inner: _,
                at: _,
            })) ==> opened(before) == before,
    decreases after.len(), before.len(),
{
    let one = Tree::Group { delim: Delim::Bare, inner, at: place };
    let all = before + seq![one] + after;
    if after.len() == 0 {
        assert(all.drop_last() =~= before);
        assert(all.last() == one);
        assert(opened(all) =~= opened(before) + opened(inner) + opened(after));
    } else {
        let fewer = after.drop_last();
        invisible_delimiters_are_opened(before, inner, fewer, place);
        assert(all.drop_last() =~= before + seq![one] + fewer);
        assert(all.last() == after.last());
        assert(opened(all) =~= opened(before) + opened(inner) + opened(after));
    }
    if before.len() > 0 && after.len() == 0 {
        invisible_delimiters_are_opened(before.drop_last(), inner, after, place);
        if forall|i: int|
            0 <= i < before.len() ==> !(#[trigger] before[i] matches Tree::Group {
                delim: Delim::Bare,
                inner: _,
                at: _,
            }) {
            assert forall|i: int| 0 <= i < before.drop_last().len() implies !(
            #[trigger] before.drop_last()[i] matches Tree::Group {
                delim: Delim::Bare,
                inner: _,
                at: _,
            }) by {
                assert(before.drop_last()[i] == before[i]);
            }
            assert(!(before[before.len() - 1] matches Tree::Group {
                delim: Delim::Bare,
                inner: _,
                at: _,
            }));
            assert(before.drop_last().push(before.last()) =~= before);
        }
    }
}

} // verus!
