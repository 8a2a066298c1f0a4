//! What is refused, and what is said of it and where.
use proc_macro2::Span;
use vstd::prelude::*;

use crate::accepted::{
    given_lifetimes, has_value, is_crate, is_sign, lemma_sorted, lemma_update_everywhere,
    lemma_value,
};
use crate::attrs::{
    adding_setting, adding_type, ctx_types, field_supported, refusing_temp, settings,
    struct_attrs_of, update_in, update_of, StructAttrsView,
};
use crate::bind::{
    adding_alias, adding_arg, args_of, bound_of, ident_text, names_match, sorted_args, AliasesView,
    BoundView, GivenView, PathView,
};
use crate::captured::plain_tokens_stand_for_themselves;
use crate::entry::{
    adding_arguments, after_punct, leftover, modes_of, opened, own, path_split, peeled, starts,
    target_read, ticked, used_up, ArgTokenView, AttrArgsView,
};
use crate::error::{spanning, ErrorView, Fail};
use crate::expand::Mode;
use crate::generated::{as_given, plain_args};
use crate::outcome::{folded, lemma_folded_next};
use crate::rewritten::{
    all_held, called, first_called, has_types, lemma_readable_steps, lemma_types_accepted,
    readable, types_of,
};
use crate::setting::{ArgsView, AttributeView, MetaView};
use crate::stream::{decimal, respanned, Delim, Tree};
use crate::syntax::{ArgView, FnParamView, ParamView, PathPartsView};

verus! {

/// A refusal, with what is said and the tokens of which it is said.
pub open spec fn refusal<V>(tokens: Seq<Tree>, message: Seq<char>, site: Span) -> Result<V, Fail> {
    Err(Fail::Own(spanning(tokens, message, site)))
}

/// A request for a struct of another name is refused.
pub proof fn other_names_are_refused(
    target: PathView,
    struct_name: Seq<char>,
    params: Seq<ParamView>,
    site: Span,
)
    requires
        ident_text(target.ident) != struct_name,
    ensures
        bound_of(target, struct_name, params, site) == refusal::<BoundView>(
            target.ident,
            "expected `"@ + struct_name + "`, found `"@ + ident_text(target.ident) + "`"@,
            site,
        ),
{
}

/// The first argument that is neither a lifetime nor a type nor a const.
proof fn lemma_first_other(args: Seq<ArgView>, i: int, start: GivenView, site: Span)
    requires
        0 <= i < args.len(),
        args[i] is Other,
        forall|k: int| 0 <= k < i ==> !(#[trigger] args[k] is Other),
    ensures
        folded(args, start, adding_arg(site)) == refusal::<GivenView>(
            as_given(args[i]),
            "unsupported generic argument"@,
            site,
        ),
    decreases i,
{
    if i > 0 {
        assert(!(args[0] is Other));
        let rest = args.skip(1);
        assert forall|k: int| 0 <= k < i - 1 implies !(#[trigger] rest[k] is Other) by {
            assert(rest[k] == args[k + 1]);
        }
        assert(rest[i - 1] == args[i]);
        let next = adding_arg(site)(start, args[0])->Ok_0;
        lemma_first_other(rest, i - 1, next, site);
    }
}

/// A request with a binding or a bound of an associated item is refused.
pub proof fn other_arguments_are_refused(
    target: PathView,
    struct_name: Seq<char>,
    params: Seq<ParamView>,
    args: Seq<ArgView>,
    i: int,
    site: Span,
)
    requires
        ident_text(target.ident) == struct_name,
        args_of(target, site) == Ok::<_, Fail>(args),
        0 <= i < args.len(),
        args[i] is Other,
        forall|k: int| 0 <= k < i ==> !(#[trigger] args[k] is Other),
    ensures
        bound_of(target, struct_name, params, site) == refusal::<BoundView>(
            as_given(args[i]),
            "unsupported generic argument"@,
            site,
        ),
{
    let none = GivenView { lifetimes: Seq::empty(), others: Seq::empty() };
    lemma_first_other(args, i, none, site);
}

/// What is said where the number of arguments is not that of the parameters.
pub open spec fn wrong_count(
    struct_name: Seq<char>,
    kind: Seq<char>,
    wanted: nat,
    given: nat,
) -> Seq<char> {
    "`"@ + struct_name + "` has "@ + decimal(wanted) + " "@ + kind + " parameter(s), but "@
        + decimal(given) + " were given"@
}

/// Lifetimes are given all or none, and not more than the struct has.
pub proof fn other_counts_of_lifetimes_are_refused(
    target: PathView,
    struct_name: Seq<char>,
    params: Seq<ParamView>,
    args: Seq<ArgView>,
    site: Span,
)
    requires
        ident_text(target.ident) == struct_name,
        args_of(target, site) == Ok::<_, Fail>(args),
        forall|k: int| 0 <= k < args.len() ==> !(#[trigger] args[k] is Other),
        given_lifetimes(args).len() > 0,
        given_lifetimes(args).len() != params.filter(|param: ParamView| param is Lifetime).len(),
    ensures
        bound_of(target, struct_name, params, site) == refusal::<BoundView>(
            target.ident + target.args,
            wrong_count(
                struct_name,
                "lifetime"@,
                params.filter(|param: ParamView| param is Lifetime).len(),
                given_lifetimes(args).len(),
            ),
            site,
        ),
{
    let none = GivenView { lifetimes: Seq::empty(), others: Seq::empty() };
    lemma_sorted(args, none, site);
}

/// The first lifetime that is not the struct's own.
proof fn lemma_first_mismatch(
    given: Seq<(Seq<char>, Seq<Tree>)>,
    params: Seq<ParamView>,
    from: int,
    i: int,
    site: Span,
)
    requires
        given.len() == params.len(),
        0 <= from <= i < given.len(),
        given[i].0 != "_"@ && given[i].0 != params[i]->Lifetime_name,
        forall|k: int|
            from <= k < i ==> (#[trigger] given[k]).0 == "_"@ || given[k].0
                == params[k]->Lifetime_name,
    ensures
        names_match(given, params, from, site) == refusal::<()>(
            given[i].1,
            "lifetime must be written as `'"@ + params[i]->Lifetime_name
                + "` (the struct's own name) or `'_`, or omitted"@,
            site,
        ),
    decreases i - from,
{
    if from < i {
        assert(given[from].0 == "_"@ || given[from].0 == params[from]->Lifetime_name);
        lemma_first_mismatch(given, params, from + 1, i, site);
    }
}

/// A lifetime by another name than the struct's own is refused.
pub proof fn other_lifetimes_are_refused(
    target: PathView,
    struct_name: Seq<char>,
    params: Seq<ParamView>,
    args: Seq<ArgView>,
    i: int,
    site: Span,
)
    requires
        ident_text(target.ident) == struct_name,
        args_of(target, site) == Ok::<_, Fail>(args),
        forall|k: int| 0 <= k < args.len() ==> !(#[trigger] args[k] is Other),
        ({
            let given = given_lifetimes(args);
            let own = params.filter(|param: ParamView| param is Lifetime);
            &&& given.len() == own.len()
            &&& 0 <= i < given.len()
            &&& given[i]->Lifetime_name != "_"@
            &&& given[i]->Lifetime_name != own[i]->Lifetime_name
            &&& forall|k: int|
                0 <= k < i ==> (#[trigger] given[k])->Lifetime_name == "_"@
                    || given[k]->Lifetime_name == own[k]->Lifetime_name
        }),
    ensures
        bound_of(target, struct_name, params, site) == refusal::<BoundView>(
            given_lifetimes(args)[i]->Lifetime_tokens,
            "lifetime must be written as `'"@ + params.filter(
                |param: ParamView| param is Lifetime,
            )[i]->Lifetime_name + "` (the struct's own name) or `'_`, or omitted"@,
            site,
        ),
{
    let none = GivenView { lifetimes: Seq::empty(), others: Seq::empty() };
    lemma_sorted(args, none, site);
    let sorted = sorted_args(args, site)->Ok_0;
    let given = given_lifetimes(args);
    let own = params.filter(|param: ParamView| param is Lifetime);
    let pairs = given.map_values(
        |arg: ArgView| (arg->Lifetime_name, arg->Lifetime_tokens),
    );
    assert(sorted.lifetimes =~= pairs);
    assert forall|k: int| 0 <= k < i implies (#[trigger] pairs[k]).0 == "_"@ || pairs[k].0
        == own[k]->Lifetime_name by {
        assert(given[k]->Lifetime_name == pairs[k].0);
    }
    lemma_first_mismatch(pairs, own, 0, i, site);
}

/// More types and consts than the struct has parameters are refused.
pub proof fn too_many_arguments_are_refused(
    target: PathView,
    struct_name: Seq<char>,
    params: Seq<ParamView>,
    args: Seq<ArgView>,
    site: Span,
)
    requires
        ident_text(target.ident) == struct_name,
        args_of(target, site) == Ok::<_, Fail>(args),
        forall|k: int| 0 <= k < args.len() ==> !(#[trigger] args[k] is Other),
        given_lifetimes(args).len() == 0,
        plain_args(args).len() > params.filter(|param: ParamView| !(param is Lifetime)).len(),
    ensures
        bound_of(target, struct_name, params, site) == refusal::<BoundView>(
            target.ident + target.args,
            wrong_count(
                struct_name,
                "type/const"@,
                params.filter(|param: ParamView| !(param is Lifetime)).len(),
                plain_args(args).len(),
            ),
            site,
        ),
{
    let none = GivenView { lifetimes: Seq::empty(), others: Seq::empty() };
    lemma_sorted(args, none, site);
    let sorted = sorted_args(args, site)->Ok_0;
    assert(sorted.lifetimes =~= Seq::empty());
    assert(sorted.others =~= plain_args(args));
}

/// What is said of a parameter that nothing stands for, and of which tokens: of
/// the argument where that is of another kind, or of the path where there is
/// none.
pub open spec fn without_value<V>(
    param: ParamView,
    args: Seq<ArgView>,
    i: int,
    last: Seq<Tree>,
    site: Span,
) -> Result<V, Fail> {
    match param {
        ParamView::Type { ident, default: _ } => if i < args.len() {
            refusal(
                as_given(args[i]),
                "expected a type for parameter `"@ + ident_text(ident) + "`"@,
                site,
            )
        } else {
            refusal(
                last,
                "missing argument for type parameter `"@ + ident_text(ident) + "`"@,
                site,
            )
        },
        ParamView::Const { ident, ty: _, default: _ } => if i < args.len() {
            refusal(
                as_given(args[i]),
                "expected a const for parameter `"@ + ident_text(ident) + "`"@,
                site,
            )
        } else {
            refusal(
                last,
                "missing argument for const parameter `"@ + ident_text(ident) + "`"@,
                site,
            )
        },
        ParamView::Lifetime { .. } => refusal(last, Seq::empty(), site),
    }
}

/// The first parameter that nothing stands for.
proof fn lemma_first_without(
    params: Seq<ParamView>,
    from: int,
    i: int,
    start: AliasesView,
    args: Seq<ArgView>,
    last: Seq<Tree>,
    site: Span,
)
    requires
        0 <= from <= i < params.len(),
        start.next == from,
        forall|k: int| 0 <= k < params.len() ==> !(#[trigger] params[k] is Lifetime),
        !has_value(params[i], args, i),
        forall|k: int| from <= k < i ==> has_value(#[trigger] params[k], args, k),
    ensures
        folded(params.skip(from), start, adding_alias(args, last, site)) == without_value::<
            AliasesView,
        >(params[i], args, i, last, site),
    decreases i - from,
{
    let step = adding_alias(args, last, site);
    lemma_folded_next(params, from, start, step);
    lemma_value(params[from], args, from, last, site);
    if from < i {
        assert(has_value(params[from], args, from));
        let next = step(start, params[from])->Ok_0;
        lemma_first_without(params, from + 1, i, next, args, last, site);
    } else {
        assert(!(params[i] is Lifetime));
    }
}

/// A request that leaves a parameter without a value is refused, and the first
/// such parameter is named.
pub proof fn parameters_without_values_are_refused(
    target: PathView,
    struct_name: Seq<char>,
    params: Seq<ParamView>,
    args: Seq<ArgView>,
    i: int,
    site: Span,
)
    requires
        ident_text(target.ident) == struct_name,
        args_of(target, site) == Ok::<_, Fail>(args),
        forall|k: int| 0 <= k < args.len() ==> !(#[trigger] args[k] is Other),
        given_lifetimes(args).len() == 0,
        ({
            let plain = params.filter(|param: ParamView| !(param is Lifetime));
            &&& plain_args(args).len() <= plain.len()
            &&& 0 <= i < plain.len()
            &&& !has_value(plain[i], plain_args(args), i)
            &&& forall|k: int|
                0 <= k < i ==> has_value(#[trigger] plain[k], plain_args(args), k)
        }),
    ensures
        bound_of(target, struct_name, params, site) == without_value::<BoundView>(
            params.filter(|param: ParamView| !(param is Lifetime))[i],
            plain_args(args),
            i,
            target.ident + target.args,
            site,
        ),
{
    let none = GivenView { lifetimes: Seq::empty(), others: Seq::empty() };
    lemma_sorted(args, none, site);
    let sorted = sorted_args(args, site)->Ok_0;
    assert(sorted.lifetimes =~= Seq::empty());
    assert(sorted.others =~= plain_args(args));
    let plain = params.filter(|param: ParamView| !(param is Lifetime));
    assert forall|k: int| 0 <= k < plain.len() implies !(#[trigger] plain[k] is Lifetime) by {
        params.lemma_filter_pred(|param: ParamView| !(param is Lifetime), k);
    }
    assert(plain.skip(0) =~= plain);
    let start = AliasesView { next: 0, outer: Seq::empty(), inner: Seq::empty() };
    let last = target.ident + target.args;
    lemma_first_without(plain, 0, i, start, plain_args(args), last, site);
}

/// A deku attribute without a list of settings is refused.
pub proof fn attributes_without_settings_are_refused(attr: AttributeView, at: Span, site: Span)
    ensures
        attr.args is Bare ==> settings(attr, site) == refusal::<Seq<MetaView>>(
            attr.path,
            "expected attribute arguments in parentheses: #[deku(...)]"@,
            site,
        ),
        attr.args == ArgsView::Value(at) ==> settings(attr, site) == own::<Seq<MetaView>>(
            "expected parentheses: #[deku(...)]"@,
            at,
        ),
        attr.args matches ArgsView::List(Ok(metas)) ==> settings(attr, site) == Ok::<_, Fail>(
            metas,
        ),
        attr.args matches ArgsView::List(Err(error)) ==> settings(attr, site) == Err::<
            Seq<MetaView>,
            _,
        >(Fail::Own(error)),
{
}

/// The first `temp` is what a field is refused for.
pub proof fn the_first_temp_is_refused(attrs: Seq<AttributeView>, i: int, site: Span)
    requires
        readable(attrs),
        first_called(all_held(attrs), i, "temp"@),
    ensures
        field_supported(attrs, site) == refusal::<()>(
            all_held(attrs)[i].tokens,
            "`#[deku(temp)]` fields are not supported by deku_generic"@,
            site,
        ),
{
    lemma_readable_steps(attrs, (), refusing_temp(site), site);
    lemma_first_temp(all_held(attrs), i, site);
}

/// The first `temp` among some settings.
proof fn lemma_first_temp(metas: Seq<MetaView>, i: int, site: Span)
    requires
        first_called(metas, i, "temp"@),
    ensures
        folded(metas, (), refusing_temp(site)) == refusal::<()>(
            metas[i].tokens,
            "`#[deku(temp)]` fields are not supported by deku_generic"@,
            site,
        ),
    decreases i,
{
    reveal_strlit("temp");
    if i > 0 {
        assert(!called(metas[0], "temp"@));
        lemma_first_later(metas, i, "temp"@);
        lemma_first_temp(metas.skip(1), i - 1, site);
    }
}

/// The first of a name is the first among the later ones too.
proof fn lemma_first_later(metas: Seq<MetaView>, i: int, text: Seq<char>)
    requires
        first_called(metas, i, text),
        i > 0,
    ensures
        first_called(metas.skip(1), i - 1, text),
{
    let rest = metas.skip(1);
    assert forall|k: int| 0 <= k < i - 1 implies !called(#[trigger] rest[k], text) by {
        assert(rest[k] == metas[k + 1]);
    }
}

/// Whether a setting of a struct is accepted.
pub open spec fn setting_fits(meta: MetaView) -> bool {
    &&& !called(meta, "id"@)
    &&& !called(meta, "id_type"@)
    &&& called(meta, "ctx"@) ==> has_types(meta)
}

/// The settings of enums are refused: the first that is not accepted is named.
pub proof fn settings_of_enums_are_refused(attrs: Seq<AttributeView>, i: int, site: Span)
    requires
        readable(attrs),
        0 <= i < all_held(attrs).len(),
        called(all_held(attrs)[i], "id"@) || called(all_held(attrs)[i], "id_type"@),
        forall|k: int| 0 <= k < i ==> setting_fits(#[trigger] all_held(attrs)[k]),
    ensures
        struct_attrs_of(attrs, site) == refusal::<StructAttrsView>(
            all_held(attrs)[i].tokens,
            "deku_generic only supports structs; enum attributes are not allowed"@,
            site,
        ),
{
    let start = StructAttrsView { ctx: None, ctx_default: false };
    lemma_readable_steps(attrs, start, adding_setting(site), site);
    lemma_first_enum(all_held(attrs), i, start, site);
}

/// The first setting of an enum among some settings.
proof fn lemma_first_enum(metas: Seq<MetaView>, i: int, start: StructAttrsView, site: Span)
    requires
        0 <= i < metas.len(),
        called(metas[i], "id"@) || called(metas[i], "id_type"@),
        forall|k: int| 0 <= k < i ==> setting_fits(#[trigger] metas[k]),
    ensures
        folded(metas, start, adding_setting(site)) == refusal::<StructAttrsView>(
            metas[i].tokens,
            "deku_generic only supports structs; enum attributes are not allowed"@,
            site,
        ),
    decreases i,
{
    reveal_strlit("ctx");
    reveal_strlit("ctx_default");
    reveal_strlit("id");
    reveal_strlit("id_type");
    assert("ctx"@.len() == 3 && "ctx_default"@.len() == 11 && "id"@.len() == 2 && "id_type"@.len()
        == 7);
    if i > 0 {
        assert(setting_fits(metas[0]));
        let rest = metas.skip(1);
        assert forall|k: int| 0 <= k < i - 1 implies setting_fits(#[trigger] rest[k]) by {
            assert(rest[k] == metas[k + 1]);
        }
        assert(rest[i - 1] == metas[i]);
        if called(metas[0], "ctx"@) {
            lemma_setting_accepted(metas[0], start, site);
        }
        let next = adding_setting(site)(start, metas[0])->Ok_0;
        lemma_first_enum(rest, i - 1, next, site);
    }
}

/// A context with types is accepted.
proof fn lemma_setting_accepted(meta: MetaView, start: StructAttrsView, site: Span)
    requires
        called(meta, "ctx"@),
        has_types(meta),
    ensures
        adding_setting(site)(start, meta) is Ok,
{
    reveal_strlit("ctx");
    let types = choose|types: Seq<Seq<Tree>>| #[trigger] types_of(meta, types);
    if let Some(Ok(code)) = meta.text->0.code {
        lemma_types_accepted(code.params->Ok_0, Seq::empty(), site);
    } else {
        lemma_types_accepted(Seq::empty(), Seq::empty(), site);
    }
}

/// A context is a text of parameters with types.
pub proof fn other_contexts_are_refused(
    meta: MetaView,
    params: Seq<FnParamView>,
    i: int,
    site: Span,
)
    ensures
        meta.text is None ==> ctx_types(meta, site) == refusal::<Seq<Seq<Tree>>>(
            meta.tokens,
            "`ctx` expects a string"@,
            site,
        ),
        meta.text matches Some(literal) && literal.suffix.len() == 0 && (
        literal.code matches Some(Ok(code)) && code.params == Ok::<_, ErrorView>(params)) && 0 <= i
            < params.len() && params[i] is Receiver && (forall|k: int|
            0 <= k < i ==> #[trigger] params[k] is Typed) ==> ctx_types(meta, site) == refusal::<
            Seq<Seq<Tree>>,
        >(params[i]->Receiver_0, "`self` is not allowed in a deku `ctx`"@, site),
{
    if 0 <= i < params.len() && params[i] is Receiver && (forall|k: int|
        0 <= k < i ==> #[trigger] params[k] is Typed) {
        lemma_first_receiver(params, i, Seq::empty(), site);
    }
}

/// The first receiver among some parameters.
proof fn lemma_first_receiver(
    params: Seq<FnParamView>,
    i: int,
    start: Seq<Seq<Tree>>,
    site: Span,
)
    requires
        0 <= i < params.len(),
        params[i] is Receiver,
        forall|k: int| 0 <= k < i ==> #[trigger] params[k] is Typed,
    ensures
        folded(params, start, adding_type(site)) == refusal::<Seq<Seq<Tree>>>(
            params[i]->Receiver_0,
            "`self` is not allowed in a deku `ctx`"@,
            site,
        ),
    decreases i,
{
    if i > 0 {
        assert(params[0] is Typed);
        let rest = params.skip(1);
        assert forall|k: int| 0 <= k < i - 1 implies #[trigger] rest[k] is Typed by {
            assert(rest[k] == params[k + 1]);
        }
        assert(rest[i - 1] == params[i]);
        let next = adding_type(site)(start, params[0])->Ok_0;
        lemma_first_receiver(rest, i - 1, next, site);
    }
}

/// An `update` without a text is refused, and so is one with a suffix.
pub proof fn other_updates_are_refused(attrs: Seq<AttributeView>, i: int, site: Span)
    requires
        readable(attrs),
        first_called(all_held(attrs), i, "update"@),
    ensures
        all_held(attrs)[i].text is None ==> update_of(attrs, site) == refusal::<Option<Seq<Tree>>>(
            all_held(attrs)[i].tokens,
            "`update` expects a string"@,
            site,
        ),
        all_held(attrs)[i].text matches Some(literal) && literal.suffix.len() > 0 && !(
        literal.code matches Some(Err(_))) ==> update_of(attrs, site) == own::<Option<Seq<Tree>>>(
            "unexpected suffix `"@ + all_held(attrs)[i].text->0.suffix + "` on string literal"@,
            all_held(attrs)[i].text->0.at,
        ),
        all_held(attrs)[i].text matches Some(literal) && (
        literal.code matches Some(Err(_))) ==> update_of(attrs, site) == Err::<
            Option<Seq<Tree>>,
            _,
        >(Fail::Own(all_held(attrs)[i].text->0.code->0->Err_0)),
{
    lemma_update_everywhere(attrs, site);
    lemma_update_refused(all_held(attrs), i, site);
    reveal_strlit("update");
    assert(seq![all_held(attrs)[i]][0] == all_held(attrs)[i]);
}

/// The first `update` among some settings decides.
proof fn lemma_update_refused(metas: Seq<MetaView>, i: int, site: Span)
    requires
        first_called(metas, i, "update"@),
    ensures
        update_in(metas, site) == update_in(seq![metas[i]], site),
        called(metas[i], "update"@),
    decreases i,
{
    reveal_strlit("update");
    if i > 0 {
        assert(!called(metas[0], "update"@));
        lemma_first_later(metas, i, "update"@);
        lemma_update_refused(metas.skip(1), i - 1, site);
    } else {
        assert(seq![metas[0]][0] == metas[0]);
    }
}

/// An option that there is not is refused, and so is a second path of the crate.
pub proof fn other_options_are_refused(
    option: Seq<char>,
    place: Span,
    done: AttrArgsView,
    tokens: Seq<ArgTokenView>,
    rest: Option<Tree>,
    site: Span,
)
    ensures
        option != "read"@ && option != "write"@ && option != "read_write"@ ==> modes_of(
            option,
            place,
        ) == own::<Seq<Mode>>(
            "unknown option `"@ + option
                + "`; expected `read`, `write`, `read_write` or `crate = \"..\"`"@,
            place,
        ),
        tokens.len() > 0 && is_crate(tokens[0]) && done.crate_path is Some ==> adding_arguments(
            done,
            tokens,
            rest,
            site,
        ) == own::<AttrArgsView>("`crate` given more than once"@, tokens[0].tree.at()),
{
}

/// Nothing may follow the target of a request.
pub proof fn nothing_follows_a_target(trees: Seq<Tree>, target: PathPartsView) -> (rest: Seq<Tree>)
    requires
        target_read(trees, Ok(target)),
    ensures
        path_split(trees, Ok((target, rest))),
        opened(rest).len() == 0,
{
    let split = choose|split: Result<(PathPartsView, Seq<Tree>), ErrorView>| #[trigger]
        path_split(trees, split) && Ok::<_, Fail>(target) == match split {
            Err(error) => Err(Fail::Own(error)),
            Ok((path, rest)) => match used_up(rest) {
                Err(fail) => Err(fail),
                Ok(_) => Ok(path),
            },
        };
    split->Ok_0.1
}

/// What comes first is taken out of invisible delimiters, and nothing is lost.
proof fn lemma_peeled(trees: Seq<Tree>)
    ensures
        opened(peeled(trees)) == opened(trees),
        peeled(trees).len() > 0 ==> !(peeled(trees)[0] matches Tree::Group {
            delim: Delim::Bare,
            inner: _,
            at: _,
        }),
        peeled(trees).len() == 0 ==> opened(trees).len() == 0,
    decreases trees,
{
    if trees.len() > 0 {
        let rest = trees.skip(1);
        if let Tree::Group { delim: Delim::Bare, inner, at: _ } = trees[0] {
            assert(decreases_to!(trees => trees[0]));
            assert(decreases_to!(trees[0] => trees[0]->Group_inner));
            lemma_peeled(inner);
            let none = Seq::<Tree>::empty();
            lemma_opened_add(seq![trees[0]], rest);
            assert(seq![trees[0]] + rest =~= trees);
            reveal_with_fuel(opened, 2);
            assert(seq![trees[0]].drop_last() =~= none);
            assert(opened(seq![trees[0]]) =~= opened(inner));
            if peeled(inner).len() > 0 {
                lemma_opened_add(peeled(inner), rest);
            } else {
                lemma_peeled(rest);
                assert(opened(inner) =~= none);
                assert(none + opened(rest) =~= opened(rest));
            }
        }
    }
}

/// Trees are opened one after another.
proof fn lemma_opened_add(first: Seq<Tree>, second: Seq<Tree>)
    ensures
        opened(first + second) == opened(first) + opened(second),
    decreases second.len(),
{
    let all = first + second;
    if second.len() == 0 {
        assert(all =~= first);
        assert(opened(first) + opened(second) =~= opened(first));
    } else {
        assert(all.drop_last() =~= first + second.drop_last());
        lemma_opened_add(first, second.drop_last());
        assert(opened(all) =~= opened(first) + opened(second));
    }
}

/// A character is taken where it comes first, whatever invisible delimiters it
/// stands in, and nothing else is; what follows is left.
pub proof fn characters_are_taken(trees: Seq<Tree>, ch: char, site: Span)
    ensures
        after_punct(trees, ch, site) is Ok <==> opened(trees).len() > 0 && (
        opened(trees)[0] matches Tree::Punct { ch: found, joint: _, at: _ } && found == ch),
        after_punct(trees, ch, site) matches Ok(rest) ==> opened(trees) == seq![
            opened(trees)[0],
        ] + opened(rest),
{
    lemma_peeled(trees);
    let out = peeled(trees);
    if out.len() > 0 {
        let rest = out.skip(1);
        assert(seq![out[0]] + rest =~= out);
        lemma_opened_add(seq![out[0]], rest);
        reveal_with_fuel(opened, 2);
        assert(seq![out[0]].drop_last() =~= Seq::empty());
        assert(opened(seq![out[0]]) =~= seq![out[0]]);
    }
}

/// Whether two sequences of trees are the same but for places, and the second
/// stands all at one place.
pub open spec fn moved_to(trees: Seq<Tree>, moved: Seq<Tree>, place: Span) -> bool
    decreases trees,
{
    &&& trees.len() == moved.len()
    &&& trees.len() > 0 ==> {
        &&& match (trees[0], moved[0]) {
            (Tree::Ident { text, at: _ }, Tree::Ident { text: other, at }) => text == other && at
                == place,
            (
                Tree::Punct { ch, joint, at: _ },
                Tree::Punct { ch: other, joint: also, at },
            ) => ch == other && joint == also && at == place,
            (
                Tree::Str { value, suffix, at: _ },
                Tree::Str { value: other, suffix: also, at },
            ) => value == other && suffix == also && at == place,
            (Tree::Literal { text, at: _ }, Tree::Literal { text: other, at }) => text == other
                && at == place,
            (
                Tree::Group { delim, inner, at: _ },
                Tree::Group { delim: other, inner: within, at },
            ) => delim == other && moved_to(inner, within, place) && at == place,
            _ => false,
        }
        &&& moved_to(trees.skip(1), moved.skip(1), place)
    }
}

/// One more tree is moved.
proof fn lemma_moved_push(
    trees: Seq<Tree>,
    moved: Seq<Tree>,
    last: Tree,
    there: Tree,
    place: Span,
)
    requires
        moved_to(trees, moved, place),
        moved_to(seq![last], seq![there], place),
    ensures
        moved_to(trees.push(last), moved.push(there), place),
    decreases trees.len(),
{
    let (all, others) = (trees.push(last), moved.push(there));
    if trees.len() == 0 {
        assert(all =~= seq![last]);
        assert(others =~= seq![there]);
    } else {
        assert(all.skip(1) =~= trees.skip(1).push(last));
        assert(others.skip(1) =~= moved.skip(1).push(there));
        lemma_moved_push(trees.skip(1), moved.skip(1), last, there, place);
    }
}

/// Tokens that are moved are the same tokens, all of them at the new place and
/// what is inside of groups too.
pub proof fn respan_moves_every_token(trees: Seq<Tree>, place: Span)
    ensures
        moved_to(trees, respanned(trees, place), place),
    decreases trees,
{
    if trees.len() > 0 {
        let (before, last) = (trees.drop_last(), trees.last());
        respan_moves_every_token(before, place);
        let there = respanned(trees, place).last();
        if let Tree::Group { delim: _, inner, at: _ } = last {
            assert(decreases_to!(trees => trees[trees.len() - 1]));
            assert(decreases_to!(last => last->Group_inner));
            respan_moves_every_token(inner, place);
        }
        reveal_with_fuel(moved_to, 2);
        assert(moved_to(seq![last], seq![there], place)) by {
            assert(seq![last].skip(1) =~= Seq::empty());
            assert(seq![there].skip(1) =~= Seq::empty());
        }
        lemma_moved_push(before, respanned(before, place), last, there, place);
        assert(before.push(last) =~= trees);
    }
}

/// An error about what stands in the place of something else: where it starts,
/// which for a group is where its delimiters open.
pub open spec fn instead<V>(message: Seq<char>, found: Tree) -> Result<V, Fail> {
    match found {
        Tree::Group { .. } => Err(Fail::Opening(message, found)),
        other => Err(Fail::Own(ErrorView { message, start: other.at(), end: other.at() })),
    }
}

/// An error about what is missing where the input ends.
pub open spec fn nowhere<V>(message: Seq<char>, site: Span) -> Result<V, Fail> {
    Err(Fail::Own(ErrorView { message, start: site, end: site }))
}

/// A character that is missing is named, at what stands in its place or where
/// the input ends.
pub proof fn missing_characters_are_named(trees: Seq<Tree>, ch: char, site: Span)
    ensures
        trees.len() == 0 ==> after_punct(trees, ch, site) == nowhere::<Seq<Tree>>(
            "expected "@ + ("`"@.push(ch) + "`"@),
            site,
        ),
        trees.len() > 0 && after_punct(trees, ch, site) is Err ==> after_punct(trees, ch, site)
            == instead::<Seq<Tree>>("expected "@ + ("`"@.push(ch) + "`"@), trees[0]),
{
    lemma_ticked(ch);
}

/// A character between backticks.
proof fn lemma_ticked(ch: char)
    ensures
        ticked(ch) == "`"@.push(ch) + "`"@,
{
    reveal_strlit("`");
    assert(ticked(ch) =~= "`"@.push(ch) + "`"@);
}

/// What an argument of the attribute lacks is named: the equals sign or the
/// string after `crate`, and the parentheses after an option.
pub proof fn missing_parts_are_named(
    done: AttrArgsView,
    tokens: Seq<ArgTokenView>,
    option: Seq<char>,
    site: Span,
)
    requires
        tokens.len() > 0,
    ensures
        is_crate(tokens[0]) && done.crate_path is None ==> {
            &&& tokens.len() == 1 ==> adding_arguments(done, tokens, None, site) == nowhere::<
                AttrArgsView,
            >("expected "@ + ("`"@.push('=') + "`"@), site)
            &&& tokens.len() > 1 && !is_sign(tokens[1], '=') ==> adding_arguments(
                done,
                tokens,
                None,
                site,
            ) == instead::<AttrArgsView>(
                "expected "@ + ("`"@.push('=') + "`"@),
                tokens[1].start,
            )
            &&& tokens.len() == 2 && is_sign(tokens[1], '=') ==> adding_arguments(
                done,
                tokens,
                None,
                site,
            ) == nowhere::<AttrArgsView>(
                "unexpected end of input, expected "@ + "string literal"@,
                site,
            )
            &&& tokens.len() > 2 && is_sign(tokens[1], '=') && !(tokens[2].tree is Str)
                ==> adding_arguments(done, tokens, None, site) == instead::<AttrArgsView>(
                "expected "@ + "string literal"@,
                tokens[2].start,
            )
        },
        !is_crate(tokens[0]) && tokens[0].name == Ok::<_, ErrorView>(option) && modes_of(
            option,
            tokens[0].tree.at(),
        ) is Ok ==> {
            &&& tokens.len() == 1 ==> adding_arguments(done, tokens, None, site) == nowhere::<
                AttrArgsView,
            >("unexpected end of input, expected "@ + "parentheses"@, site)
            &&& tokens.len() > 1 && tokens[1].targets is None ==> adding_arguments(
                done,
                tokens,
                None,
                site,
            ) == instead::<AttrArgsView>("expected "@ + "parentheses"@, tokens[1].start)
        },
{
    lemma_ticked('=');
    assert(tokens.len() > 1 ==> tokens.skip(1)[0] == tokens[1]);
    assert(tokens.len() > 2 ==> tokens.skip(2)[0] == tokens[2]);
}

/// Where invisible delimiters surround a token, what is said of it is said of
/// them; and where they surround nothing at the end, they are what is left.
pub proof fn errors_stand_at_invisible_delimiters(before: Seq<Tree>, one: Tree, place: Span)
    requires
        forall|i: int|
            0 <= i < before.len() ==> !(#[trigger] before[i] matches Tree::Group {
                delim: Delim::Bare,
                inner: _,
                at: _,
            }),
        !(one matches Tree::Group { delim: Delim::Bare, inner: _, at: _ }),
    ensures
        ({
            let around = Tree::Group { delim: Delim::Bare, inner: seq![one], at: place };
            let nothing = Tree::Group { delim: Delim::Bare, inner: Seq::empty(), at: place };
            &&& opened(before.push(around)) == before.push(one)
            &&& starts(before.push(around)) == before.push(around)
            &&& leftover(before.push(around)) is None
            &&& opened(before.push(nothing)) == before
            &&& starts(before.push(nothing)) == before
            &&& leftover(before.push(nothing)) == Some(nothing)
            &&& starts(before.push(nothing).push(one)) == before.push(nothing)
            &&& leftover(before.push(nothing).push(nothing)) == Some(nothing)
        }),
{
    let around = Tree::Group { delim: Delim::Bare, inner: seq![one], at: place };
    let nothing = Tree::Group { delim: Delim::Bare, inner: Seq::empty(), at: place };
    plain_tokens_stand_for_themselves(before);
    assert forall|i: int| 0 <= i < seq![one].len() implies !(
    #[trigger] seq![one][i] matches Tree::Group { delim: Delim::Bare, inner: _, at: _ }) by {}
    plain_tokens_stand_for_themselves(seq![one]);
    let with = before.push(around);
    assert(with.drop_last() =~= before);
    assert(seq![one].update(0, around) =~= seq![around]);
    assert(before + seq![one] =~= before.push(one));
    assert(before + seq![around] =~= with);
    let hollow = before.push(nothing);
    assert(hollow.drop_last() =~= before);
    assert(opened(Seq::<Tree>::empty()) =~= Seq::empty());
    assert(before + Seq::<Tree>::empty() =~= before);
    assert(opened(with) =~= before.push(one));
    assert(starts(with) =~= with);
    assert(leftover(with) is None);
    assert(opened(hollow) =~= before);
    assert(starts(hollow) =~= before);
    assert(leftover(hollow) == Some(nothing));
    let after = hollow.push(one);
    assert(after.drop_last() =~= hollow);
    assert(after.last() == one);
    assert(starts(after) =~= hollow);
    let twice = hollow.push(nothing);
    assert(twice.drop_last() =~= hollow);
    assert(leftover(twice) == Some(nothing));
}

} // verus!
