//! What holds of the macros as a whole.
use proc_macro2::Span;
use vstd::prelude::*;

use crate::attrs::{
    adding_setting, deku_attr, each_setting, field_supported, setting_name, settings, update_of,
    MirrorKind, StructAttrsView,
};
use crate::bind::{
    adding_alias, adding_arg, arg_at, args_of, bound_of, given_of, ident_text, lifetime_names,
    lifetimes_fit, lifetimes_in, names_match, normalized, others_in, path_reads, sorted_args,
    value_for, AliasesView, BoundView, GivenView, PathView,
};
use crate::emit::word;
use crate::entry::{
    after_punct, arguments_read, chosen_path, definition_read, expands, expands_attribute,
    expands_impl, expands_struct, expands_with, first_modes, impl_input_read, input_after,
    input_expansion, item_after, mod_path_split, modes_after, modes_of, name_read, named_modes,
    path_and_struct, path_split, peeled, requests_for, struct_after, target_after, AttrArgsView,
    ImplInputView,
};
use crate::error::{report, ErrorView, Fail};
use crate::expand::{
    attribute_of, definition, field_infos, field_mirror, field_names, helper_of, instance_of,
    instancing, instantiated, kind_of, mirroring, mirrors_of, phantom, requested, skip_setting,
    struct_supported, supporting, updating, Mode, RequestView,
};
use crate::item::{item_read, item_tokens, keeping, kept_attrs, kept_field, FieldView, ItemView};
use crate::mirror::{
    adding_mirrored, adding_rewrite, deku_list, deku_with, idents, mentioned, metas_tokens,
    mirrored, rewriting, wrapped,
};
use crate::outcome::{collected, collecting, folded, lemma_folded_next};
use crate::setting::{write_expr, AttributeView, MetaView};
use crate::stream::{comma, respanned, Tree};
use crate::syntax::{ArgView, ParamView, PathPartsView};
use crate::text::{concat, joined};

verus! {

/// The first item of a sequence is kept by a filter or not.
proof fn lemma_filter_front<A>(items: Seq<A>, keep: spec_fn(A) -> bool)
    requires
        items.len() > 0,
    ensures
        items.filter(keep) == if keep(items[0]) {
            seq![items[0]] + items.skip(1).filter(keep)
        } else {
            items.skip(1).filter(keep)
        },
{
    reveal_with_fuel(Seq::filter, 2);
    let one = items.take(1);
    assert(one + items.skip(1) =~= items);
    assert(one.drop_last() =~= Seq::empty());
    Seq::filter_distributes_over_add(one, items.skip(1), keep);
    if keep(items[0]) {
        assert(one.filter(keep) =~= seq![items[0]]);
    } else {
        assert(one.filter(keep) =~= Seq::empty());
        assert(Seq::<A>::empty() + items.skip(1).filter(keep) =~= items.skip(1).filter(keep));
    }
}

/// Items that change nothing can be left out.
proof fn lemma_folded_filter<A, S>(
    items: Seq<A>,
    keep: spec_fn(A) -> bool,
    start: S,
    step: spec_fn(S, A) -> Result<S, Fail>,
)
    requires
        forall|state: S, item: A|
            !keep(item) ==> #[trigger] step(state, item) == Ok::<S, Fail>(state),
    ensures
        folded(items.filter(keep), start, step) == folded(items, start, step),
    decreases items.len(),
{
    if items.len() == 0 {
        reveal(Seq::filter);
        assert(items.filter(keep) =~= items);
    } else {
        lemma_filter_front(items, keep);
        let rest = items.skip(1);
        if keep(items[0]) {
            let kept = seq![items[0]] + rest.filter(keep);
            assert(kept.skip(1) =~= rest.filter(keep));
            if let Ok(next) = step(start, items[0]) {
                lemma_folded_filter(rest, keep, next, step);
            }
        } else {
            lemma_folded_filter(rest, keep, start, step);
        }
    }
}

/// Items can be replaced by others of the same value.
proof fn lemma_collected_map<A, B>(
    items: Seq<A>,
    change: spec_fn(A) -> A,
    start: Seq<B>,
    value: spec_fn(A) -> Result<B, Fail>,
)
    requires
        forall|item: A| value(#[trigger] change(item)) == value(item),
    ensures
        folded(items.map_values(change), start, collecting(value)) == folded(
            items,
            start,
            collecting(value),
        ),
    decreases items.len(),
{
    if items.len() > 0 {
        let changed = items.map_values(change);
        assert(changed[0] == change(items[0]));
        assert(changed.skip(1) =~= items.skip(1).map_values(change));
        if let Ok(next) = value(items[0]) {
            lemma_collected_map(items.skip(1), change, start.push(next), value);
        }
    }
}

/// Only the deku attributes of a field count for its `update`.
proof fn lemma_update_kept(attrs: Seq<AttributeView>, site: Span)
    ensures
        update_of(kept_attrs(attrs, true), site) == update_of(attrs, site),
    decreases attrs.len(),
{
    let keep = |attr: AttributeView| deku_attr(attr) == true;
    if attrs.len() == 0 {
        reveal(Seq::filter);
        assert(attrs.filter(keep) =~= attrs);
    } else {
        lemma_filter_front(attrs, keep);
        lemma_update_kept(attrs.skip(1), site);
        if deku_attr(attrs[0]) {
            assert(kept_attrs(attrs, true).skip(1) =~= kept_attrs(attrs.skip(1), true));
        }
    }
}

/// Only the deku attributes of a field count for its mirrors.
proof fn lemma_mirror_kept(
    field: FieldView,
    kind: MirrorKind,
    names: Seq<Seq<char>>,
    site: Span,
)
    ensures
        field_mirror(kept_field(field, true), kind, names, site) == field_mirror(
            field,
            kind,
            names,
            site,
        ),
{
    let keep = |attr: AttributeView| deku_attr(attr) == true;
    lemma_folded_filter(field.attrs, keep, Seq::empty(), adding_mirrored(kind, names, site));
}

/// The impls are generated from the deku attributes alone: what the helper
/// macro hands on, the struct with nothing but these, gives the same impls as
/// the struct itself. So a request on the attribute and one through
/// `impl_deku_*!` mean the same.
pub proof fn captured_is_enough(
    mode: Mode,
    target: PathView,
    item: ItemView,
    crate_path: Seq<Tree>,
    site: Span,
)
    ensures
        instance_of(mode, target, keeping(item, true), crate_path, site) == instance_of(
            mode,
            target,
            item,
            crate_path,
            site,
        ),
        instantiated(mode, target, keeping(item, true), crate_path, site) == instantiated(
            mode,
            target,
            item,
            crate_path,
            site,
        ),
{
    let kept = keeping(item, true);
    let keep = |attr: AttributeView| deku_attr(attr) == true;
    let change = |field: FieldView| kept_field(field, true);
    lemma_folded_filter(
        item.attrs,
        keep,
        StructAttrsView { ctx: None, ctx_default: false },
        each_setting(adding_setting(site), site),
    );
    assert(kept.fields =~= item.fields.map_values(change));
    assert(field_names(kept.fields) =~= field_names(item.fields));
    let kind = kind_of(mode);
    let value = mirroring(kind, field_names(item.fields), site);
    assert forall|field: FieldView| value(#[trigger] change(field)) == value(field) by {
        lemma_mirror_kept(field, kind, field_names(item.fields), site);
    }
    lemma_collected_map(item.fields, change, Seq::empty(), value);
    let expr = updating(site);
    assert forall|field: FieldView| expr(#[trigger] change(field)) == expr(field) by {
        lemma_update_kept(field.attrs, site);
    }
    lemma_collected_map(item.fields, change, Seq::empty(), expr);
    assert(kept_attrs(kept.attrs, true) =~= kept.attrs) by {
        lemma_filter_twice(item.attrs, keep);
    }
    assert(field_infos(kept.fields, site) =~= field_infos(
        item.fields,
        site,
    ));
}

/// What is filtered once is not changed by the same filter.
proof fn lemma_filter_twice<A>(items: Seq<A>, keep: spec_fn(A) -> bool)
    ensures
        items.filter(keep).filter(keep) == items.filter(keep),
    decreases items.len(),
{
    reveal(Seq::filter);
    if items.len() > 0 {
        let rest = items.drop_last();
        lemma_filter_twice(rest, keep);
        if keep(items.last()) {
            let kept = rest.filter(keep).push(items.last());
            assert(kept.drop_last() =~= rest.filter(keep));
        }
    }
}

/// The requests for one target are one for each mode.
proof fn lemma_requests_for_one(modes: Seq<Mode>, target: PathView)
    ensures
        requests_for(modes, seq![target]) == modes.map_values(
            |mode: Mode| RequestView { mode, target },
        ),
{
    let each = |target: PathView| modes.map_values(|mode: Mode| RequestView { mode, target });
    let lists = seq![target].map_values(each);
    assert(lists.drop_last() =~= Seq::empty());
    assert(concat(lists.drop_last()) =~= Seq::empty());
    assert(requests_for(modes, seq![target]) =~= each(target));
}

/// `read_write` is short for `read` followed by `write`.
pub proof fn read_write_is_both(place: Span)
    ensures
        modes_of("read"@, place) matches Ok(read) && modes_of("write"@, place) matches Ok(write)
            && modes_of("read_write"@, place) == Ok::<_, Fail>(read + write),
{
    reveal_strlit("read");
    reveal_strlit("write");
    reveal_strlit("read_write");
    assert("read"@.len() != "write"@.len());
    assert("read"@.len() != "read_write"@.len());
    assert("write"@.len() != "read_write"@.len());
    assert(seq![Mode::Read, Mode::Write] =~= seq![Mode::Read] + seq![Mode::Write]);
}

/// A run of steps goes through one part of the items and then the other.
proof fn lemma_folded_add<A, S>(
    first: Seq<A>,
    second: Seq<A>,
    start: S,
    step: spec_fn(S, A) -> Result<S, Fail>,
)
    ensures
        folded(first + second, start, step) == (match folded(first, start, step) {
            Ok(state) => folded(second, state, step),
            Err(fail) => Err(fail),
        }),
    decreases first.len(),
{
    if first.len() == 0 {
        assert(first + second =~= second);
    } else {
        assert((first + second).skip(1) =~= first.skip(1) + second);
        if let Ok(next) = step(start, first[0]) {
            lemma_folded_add(first.skip(1), second, next, step);
        }
    }
}

/// Values are collected after those that are there.
proof fn lemma_collected_behind<A, B>(
    items: Seq<A>,
    before: Seq<B>,
    values: Seq<B>,
    value: spec_fn(A) -> Result<B, Fail>,
)
    ensures
        folded(items, before + values, collecting(value)) == (match folded(
            items,
            values,
            collecting(value),
        ) {
            Ok(more) => Ok(before + more),
            Err(fail) => Err(fail),
        }),
    decreases items.len(),
{
    if items.len() > 0 {
        if let Ok(next) = value(items[0]) {
            assert((before + values).push(next) =~= before + values.push(next));
            lemma_collected_behind(items.skip(1), before, values.push(next), value);
        }
    }
}

/// Parts are put together one after another.
proof fn lemma_concat_add(first: Seq<Seq<Tree>>, second: Seq<Seq<Tree>>)
    ensures
        concat(first + second) == concat(first) + concat(second),
    decreases second.len(),
{
    if second.len() == 0 {
        assert(first + second =~= first);
        assert(concat(first) + concat(second) =~= concat(first));
    } else {
        let all = first + second;
        assert(all.drop_last() =~= first + second.drop_last());
        lemma_concat_add(first, second.drop_last());
        assert(concat(all) =~= concat(first) + concat(second));
    }
}

/// What comes of two expansions that are owed one after the other: both, or the
/// error of the first that fails and no impl.
pub open spec fn in_turn(first: Result<Seq<Tree>, Fail>, second: Result<Seq<Tree>, Fail>) -> Result<
    Seq<Tree>,
    Fail,
> {
    match (first, second) {
        (Ok(one), Ok(two)) => Ok(one + two),
        (Ok(_), Err(fail)) => Err(fail),
        (Err(fail), _) => Err(fail),
    }
}

/// Requests expand one after another: those that come first have their
/// expansion before that of the others, and neither changes the other. Where
/// some fail, the error is that of the first.
pub proof fn requests_expand_in_turn(
    first: Seq<RequestView>,
    second: Seq<RequestView>,
    item: ItemView,
    crate_path: Seq<Tree>,
    site: Span,
)
    ensures
        requested(first + second, item, crate_path, site) == in_turn(
            requested(first, item, crate_path, site),
            requested(second, item, crate_path, site),
        ),
{
    let value = instancing(item, crate_path, site);
    let none = Seq::<Seq<Tree>>::empty();
    lemma_folded_add(first, second, none, collecting(value));
    if let Ok(one) = collected(first, value) {
        lemma_collected_behind(second, one, none, value);
        assert(one + none =~= one);
        if let Ok(two) = collected(second, value) {
            lemma_concat_add(one, two);
        }
    }
}

/// The same outcome for other modes.
pub open spec fn for_modes(outcome: Result<ImplInputView, Fail>, modes: Seq<Mode>) -> Result<
    ImplInputView,
    Fail,
> {
    match outcome {
        Ok(parts) => Ok(ImplInputView { modes, ..parts }),
        Err(fail) => Err(fail),
    }
}

/// How the tokens after the modes are read does not depend on the modes.
proof fn lemma_other_modes(
    trees: Seq<Tree>,
    modes: Seq<Mode>,
    others: Seq<Mode>,
    site: Span,
    outcome: Result<ImplInputView, Fail>,
)
    requires
        target_after(trees, modes, site, outcome),
    ensures
        target_after(trees, others, site, for_modes(outcome, others)),
        outcome matches Ok(parts) ==> parts.modes == modes,
{
    let split = choose|split: Result<(PathPartsView, Seq<Tree>), ErrorView>| #[trigger]
        path_split(trees, split) && match split {
            Ok((parts, rest)) => input_after(parts, rest, modes, site, outcome),
            Err(error) => outcome == Err::<ImplInputView, _>(Fail::Own(error)),
        };
    if let Ok((parts, rest)) = split {
        let (target, definition) = choose|
            target: PathView,
            definition: Result<(Seq<Tree>, ItemView), Fail>,
        | #[trigger]
            path_reads(parts, target) && #[trigger] definition_read(rest, site, definition)
                && outcome == match definition {
                Ok((crate_path, item)) => Ok(ImplInputView { modes, target, crate_path, item }),
                Err(fail) => Err(fail),
            };
        assert(path_reads(parts, target) && definition_read(rest, site, definition));
        assert(input_after(parts, rest, others, site, for_modes(outcome, others)));
    }
}

/// What the hidden macro makes of `@read_write` is what it makes of `@read`
/// followed by what it makes of `@write`, where the same tokens come after the
/// modes: however these can be read for both modes, they can be read for either,
/// with the same syntax error if there is one. Where one of the two fails there
/// is a single error, that of the first that does, and no impl.
pub proof fn read_write_is_read_then_write(
    trees: Seq<Tree>,
    both: Result<ImplInputView, Fail>,
    site: Span,
)
    requires
        target_after(trees, seq![Mode::Read, Mode::Write], site, both),
    ensures
        target_after(trees, seq![Mode::Read], site, for_modes(both, seq![Mode::Read])),
        target_after(trees, seq![Mode::Write], site, for_modes(both, seq![Mode::Write])),
        input_expansion(both, site) == in_turn(
            input_expansion(for_modes(both, seq![Mode::Read]), site),
            input_expansion(for_modes(both, seq![Mode::Write]), site),
        ),
{
    let modes = seq![Mode::Read, Mode::Write];
    lemma_other_modes(trees, modes, seq![Mode::Read], site, both);
    lemma_other_modes(trees, modes, seq![Mode::Write], site, both);
    if let Ok(parts) = both {
        groups_ask_in_order(parts.target);
        requests_expand_in_turn(
            requests_for(seq![Mode::Read], seq![parts.target]),
            requests_for(seq![Mode::Write], seq![parts.target]),
            parts.item,
            parts.crate_path,
            site,
        );
    }
}

/// Whether a setting of that name stands among the deku attributes.
pub open spec fn has_setting(attrs: Seq<AttributeView>, name: Seq<char>, site: Span) -> bool {
    exists|i: int, j: int| #[trigger] setting_at(attrs, i, j, name, site)
}

/// Whether the `j`-th setting of the `i`-th attribute, which is deku's, has
/// that name.
pub open spec fn setting_at(
    attrs: Seq<AttributeView>,
    i: int,
    j: int,
    name: Seq<char>,
    site: Span,
) -> bool {
    &&& 0 <= i < attrs.len()
    &&& deku_attr(attrs[i])
    &&& settings(attrs[i], site) matches Ok(metas) && 0 <= j < metas.len() && setting_name(
        metas[j],
    ) == name
}

/// Whether a setting has that name.
pub open spec fn some_called(metas: Seq<MetaView>, name: Seq<char>) -> bool {
    exists|j: int| 0 <= j < metas.len() && setting_name(#[trigger] metas[j]) == name
}

/// What the settings of one attribute change.
proof fn lemma_settings_seen(metas: Seq<MetaView>, start: StructAttrsView, site: Span)
    ensures
        folded(metas, start, adding_setting(site)) matches Ok(end) ==> {
            &&& end.ctx is Some <==> start.ctx is Some || some_called(metas, "ctx"@)
            &&& end.ctx_default <==> start.ctx_default || some_called(metas, "ctx_default"@)
        },
    decreases metas.len(),
{
    reveal_strlit("ctx");
    reveal_strlit("ctx_default");
    assert("ctx"@.len() != "ctx_default"@.len());
    if metas.len() > 0 {
        let rest = metas.skip(1);
        if let Ok(next) = adding_setting(site)(start, metas[0]) {
            lemma_settings_seen(rest, next, site);
            assert forall|name: Seq<char>| #[trigger]
                some_called(metas, name) <==> (setting_name(metas[0]) == name || some_called(
                    rest,
                    name,
                )) by {
                if some_called(metas, name) {
                    let j = choose|j: int|
                        0 <= j < metas.len() && setting_name(#[trigger] metas[j]) == name;
                    if j > 0 {
                        assert(rest[j - 1] == metas[j]);
                    }
                }
                if some_called(rest, name) {
                    let j = choose|j: int|
                        0 <= j < rest.len() && setting_name(#[trigger] rest[j]) == name;
                    assert(metas[j + 1] == rest[j]);
                }
            }
        }
    }
}

/// What the attributes of a struct change.
proof fn lemma_attrs_seen(attrs: Seq<AttributeView>, start: StructAttrsView, site: Span)
    ensures
        folded(attrs, start, each_setting(adding_setting(site), site)) matches Ok(end) ==> {
            &&& end.ctx is Some <==> start.ctx is Some || has_setting(attrs, "ctx"@, site)
            &&& end.ctx_default <==> start.ctx_default || has_setting(
                attrs,
                "ctx_default"@,
                site,
            )
        },
    decreases attrs.len(),
{
    let step = each_setting(adding_setting(site), site);
    if attrs.len() > 0 {
        let rest = attrs.skip(1);
        if let Ok(next) = step(start, attrs[0]) {
            lemma_attrs_seen(rest, next, site);
            let first = deku_attr(attrs[0]);
            let metas = settings(attrs[0], site)->Ok_0;
            if first {
                lemma_settings_seen(metas, start, site);
            }
            assert forall|name: Seq<char>| #[trigger]
                has_setting(attrs, name, site) <==> ((first && some_called(metas, name))
                    || has_setting(rest, name, site)) by {
                if has_setting(attrs, name, site) {
                    let (i, j) = choose|i: int, j: int| #[trigger]
                        setting_at(attrs, i, j, name, site);
                    if i > 0 {
                        assert(setting_at(rest, i - 1, j, name, site));
                    }
                }
                if has_setting(rest, name, site) {
                    let (i, j) = choose|i: int, j: int| #[trigger]
                        setting_at(rest, i, j, name, site);
                    assert(setting_at(attrs, i + 1, j, name, site));
                }
                if first && some_called(metas, name) {
                    let j = choose|j: int|
                        0 <= j < metas.len() && setting_name(#[trigger] metas[j]) == name;
                    assert(setting_at(attrs, 0, j, name, site));
                }
            }
        }
    }
}

/// The container impls and the conversions to and from bytes are generated when
/// the struct has no `ctx`, or when it has a `ctx_default`, and only then.
pub proof fn containers_need_no_ctx_or_a_default(
    mode: Mode,
    target: PathView,
    item: ItemView,
    crate_path: Seq<Tree>,
    site: Span,
)
    ensures
        instance_of(mode, target, item, crate_path, site) matches Ok(instance) ==> (
        instance.scope.unit_ctx <==> !has_setting(item.attrs, "ctx"@, site) || has_setting(
            item.attrs,
            "ctx_default"@,
            site,
        )),
{
    lemma_attrs_seen(item.attrs, StructAttrsView { ctx: None, ctx_default: false }, site);
}

/// Where one argument gives a value, the other gives the same.
spec fn agree(
    param: ParamView,
    arg: Option<ArgView>,
    other: Option<ArgView>,
    last: Seq<Tree>,
    other_last: Seq<Tree>,
    site: Span,
) -> bool {
    value_for(param, arg, last, site) is Ok ==> value_for(param, other, other_last, site)
        == value_for(param, arg, last, site)
}

/// Arguments of the same values make the same aliases.
proof fn lemma_same_aliases(
    params: Seq<ParamView>,
    i: int,
    start: AliasesView,
    some: Seq<ArgView>,
    others: Seq<ArgView>,
    last: Seq<Tree>,
    other_last: Seq<Tree>,
    site: Span,
)
    requires
        0 <= i <= params.len(),
        start.next == i,
        folded(params.skip(i), start, adding_alias(some, last, site)) is Ok,
        forall|k: int|
            i <= k < params.len() ==> #[trigger] agree(
                params[k],
                arg_at(some, k),
                arg_at(others, k),
                last,
                other_last,
                site,
            ),
    ensures
        folded(params.skip(i), start, adding_alias(others, other_last, site)) == folded(
            params.skip(i),
            start,
            adding_alias(some, last, site),
        ),
    decreases params.len() - i,
{
    if i < params.len() {
        lemma_folded_next(params, i, start, adding_alias(some, last, site));
        lemma_folded_next(params, i, start, adding_alias(others, other_last, site));
        assert(agree(params[i], arg_at(some, i), arg_at(others, i), last, other_last, site));
        let next = adding_alias(some, last, site)(start, params[i])->Ok_0;
        lemma_same_aliases(params, i + 1, next, some, others, last, other_last, site);
    }
}

/// The arguments that are no lifetimes.
pub open spec fn without_lifetimes(args: Seq<ArgView>) -> Seq<ArgView> {
    args.filter(|arg: ArgView| !(arg is Lifetime))
}

/// Lifetimes are sorted apart.
proof fn lemma_sorted_without(args: Seq<ArgView>, start: GivenView, bare: GivenView, site: Span)
    requires
        bare.others == start.others,
    ensures
        folded(without_lifetimes(args), bare, adding_arg(site)) == (match folded(
            args,
            start,
            adding_arg(site),
        ) {
            Ok(given) => Ok(GivenView { lifetimes: bare.lifetimes, others: given.others }),
            Err(fail) => Err(fail),
        }),
    decreases args.len(),
{
    let keep = |arg: ArgView| !(arg is Lifetime);
    if args.len() == 0 {
        reveal(Seq::filter);
        assert(args.filter(keep) =~= Seq::empty());
    } else {
        lemma_filter_front(args, keep);
        let rest = args.skip(1);
        if keep(args[0]) {
            assert(without_lifetimes(args).skip(1) =~= without_lifetimes(rest));
            assert(without_lifetimes(args)[0] == args[0]);
            if let Ok(next) = adding_arg(site)(start, args[0]) {
                let bare_next = GivenView { lifetimes: bare.lifetimes, others: next.others };
                lemma_sorted_without(rest, next, bare_next, site);
            }
        } else {
            let next = adding_arg(site)(start, args[0])->Ok_0;
            lemma_sorted_without(rest, next, bare, site);
        }
    }
}

/// The message of a failure.
pub open spec fn message_of(fail: Fail) -> Seq<char> {
    match fail {
        Fail::Own(error) => error.message,
        Fail::Opening(message, _) => message,
    }
}

/// Whether two outcomes are the same, but for the place of an error.
pub open spec fn alike<V>(one: Result<V, Fail>, other: Result<V, Fail>) -> bool {
    match (one, other) {
        (Ok(a), Ok(b)) => a == b,
        (Err(f), Err(g)) => message_of(f) == message_of(g),
        _ => false,
    }
}

/// Aliases do not depend on what an error would be about.
proof fn lemma_aliases_elsewhere(
    params: Seq<ParamView>,
    start: AliasesView,
    others: Seq<ArgView>,
    last: Seq<Tree>,
    other_last: Seq<Tree>,
    site: Span,
)
    ensures
        alike(
            folded(params, start, adding_alias(others, last, site)),
            folded(params, start, adding_alias(others, other_last, site)),
        ),
    decreases params.len(),
{
    if params.len() > 0 {
        let one = adding_alias(others, last, site)(start, params[0]);
        let other = adding_alias(others, other_last, site)(start, params[0]);
        assert(alike(one, other));
        if let Ok(next) = one {
            lemma_aliases_elsewhere(params.skip(1), next, others, last, other_last, site);
        }
    }
}

/// What the arguments come to does not depend on lifetimes that fit.
proof fn lemma_bound_without(
    written: PathView,
    omitted: PathView,
    args: Seq<ArgView>,
    name: Seq<char>,
    params: Seq<ParamView>,
    site: Span,
)
    requires
        omitted.lead == written.lead,
        omitted.ident == written.ident,
        args_of(written, site) == Ok::<_, Fail>(args),
        args_of(omitted, site) == Ok::<_, Fail>(without_lifetimes(args)),
        own_lifetimes(args, name, params, written.ident + written.args, site),
    ensures
        alike(bound_of(written, name, params, site), bound_of(omitted, name, params, site)),
{
    if ident_text(written.ident) == name {
        let none = GivenView { lifetimes: Seq::empty(), others: Seq::empty() };
        lemma_sorted_without(args, none, none, site);
        let last = written.ident + written.args;
        let other_last = omitted.ident + omitted.args;
        if let Ok(given) = sorted_args(args, site) {
            let start = AliasesView { next: 0, outer: Seq::empty(), inner: Seq::empty() };
            lemma_aliases_elsewhere(
                others_in(params),
                start,
                given.others,
                last,
                other_last,
                site,
            );
            let bare = GivenView { lifetimes: Seq::empty(), others: given.others };
            assert(sorted_args(without_lifetimes(args), site) == Ok::<_, Fail>(bare));
            assert(names_match(bare.lifetimes, lifetimes_in(params), 0, site) is Ok);
        }
    }
}

/// Whether the lifetimes among the arguments, if there are any, are those of the
/// struct or `'_`.
pub open spec fn own_lifetimes(
    args: Seq<ArgView>,
    name: Seq<char>,
    params: Seq<ParamView>,
    last: Seq<Tree>,
    site: Span,
) -> bool {
    sorted_args(args, site) matches Ok(given) ==> lifetimes_fit(
        given.lifetimes,
        lifetimes_in(params),
        name,
        last,
        site,
    ) is Ok
}

/// Lifetimes may be written or left out: `Foo<'a, X>`, `Foo<'_, X>` and `Foo<X>`
/// mean the same thing. Either all are accepted, with the same impls, or all are
/// refused, with the same message.
pub proof fn lifetimes_may_be_omitted(
    written: PathView,
    omitted: PathView,
    args: Seq<ArgView>,
    mode: Mode,
    item: ItemView,
    crate_path: Seq<Tree>,
    site: Span,
)
    requires
        omitted.lead == written.lead,
        omitted.ident == written.ident,
        args_of(written, site) == Ok::<_, Fail>(args),
        args_of(omitted, site) == Ok::<_, Fail>(without_lifetimes(args)),
        own_lifetimes(
            args,
            ident_text(seq![item.ident]),
            item.params,
            written.ident + written.args,
            site,
        ),
    ensures
        alike(
            instance_of(mode, written, item, crate_path, site),
            instance_of(mode, omitted, item, crate_path, site),
        ),
        alike(
            instantiated(mode, written, item, crate_path, site),
            instantiated(mode, omitted, item, crate_path, site),
        ),
        instance_of(mode, written, item, crate_path, site) matches Ok(instance)
            ==> instance.scope.target == normalized(
            omitted,
            lifetime_names(item.params),
            sorted_args(args, site)->Ok_0.others,
            site,
        ),
{
    lemma_bound_without(
        written,
        omitted,
        args,
        ident_text(seq![item.ident]),
        item.params,
        site,
    );
}

/// The default of a parameter, as an argument.
pub open spec fn default_of(param: ParamView) -> Option<ArgView> {
    match param {
        ParamView::Type { ident: _, default: Some(ty) } => Some(ArgView::Type(ty)),
        ParamView::Const { ident: _, ty: _, default: Some(expr) } => Some(ArgView::Const(expr)),
        _ => None,
    }
}

/// One more argument is sorted behind the others.
proof fn lemma_sorted_push(args: Seq<ArgView>, arg: ArgView, start: GivenView, site: Span)
    requires
        folded(args, start, adding_arg(site)) is Ok,
        arg is Type || arg is Const,
    ensures
        folded(args.push(arg), start, adding_arg(site)) == Ok::<_, Fail>(
            GivenView {
                lifetimes: folded(args, start, adding_arg(site))->Ok_0.lifetimes,
                others: folded(args, start, adding_arg(site))->Ok_0.others.push(arg),
            },
        ),
    decreases args.len(),
{
    if args.len() == 0 {
        reveal_with_fuel(folded, 2);
        assert(args.push(arg).skip(1) =~= Seq::empty());
    } else {
        assert(args.push(arg).skip(1) =~= args.skip(1).push(arg));
        let next = adding_arg(site)(start, args[0])->Ok_0;
        lemma_sorted_push(args.skip(1), arg, next, site);
    }
}

/// An argument that is left out is the parameter's default: the names are bound
/// to the same as where the default is written.
pub proof fn defaults_are_honoured(
    omitted: PathView,
    written: PathView,
    args: Seq<ArgView>,
    name: Seq<char>,
    params: Seq<ParamView>,
    site: Span,
)
    requires
        omitted.ident == written.ident,
        args_of(omitted, site) == Ok::<_, Fail>(args),
        sorted_args(args, site) matches Ok(given) && given.others.len() < others_in(params).len()
            && (default_of(others_in(params)[given.others.len() as int]) matches Some(default)
            && args_of(written, site) == Ok::<_, Fail>(args.push(default))),
    ensures
        bound_of(omitted, name, params, site) matches Ok(short) ==> (bound_of(
            written,
            name,
            params,
            site,
        ) matches Ok(long) && long.outer == short.outer && long.inner == short.inner),
{
    if bound_of(omitted, name, params, site) is Ok {
        let given = sorted_args(args, site)->Ok_0;
        let all = others_in(params);
        let count = given.others.len() as int;
        let default = default_of(all[count])->0;
        let more = given.others.push(default);
        let none = GivenView { lifetimes: Seq::empty(), others: Seq::empty() };
        lemma_sorted_push(args, default, none, site);
        let last = omitted.ident + omitted.args;
        let other_last = written.ident + written.args;
        let start = AliasesView { next: 0, outer: Seq::empty(), inner: Seq::empty() };
        assert(all.skip(0) =~= all);
        assert forall|k: int| 0 <= k < all.len() implies #[trigger] agree(
            all[k],
            arg_at(given.others, k),
            arg_at(more, k),
            last,
            other_last,
            site,
        ) by {
            if k != count {
                assert(arg_at(more, k) == arg_at(given.others, k));
            }
        }
        lemma_same_aliases(all, 0, start, given.others, more, last, other_last, site);
        let lifetimes = given_of(omitted, name, params, site)->Ok_0.lifetimes;
        lemma_lifetimes_elsewhere(
            lifetimes,
            lifetimes_in(params),
            name,
            last,
            other_last,
            site,
        );
    }
}

/// Whether lifetimes fit does not depend on what an error would be about.
proof fn lemma_lifetimes_elsewhere(
    given: Seq<(Seq<char>, Seq<Tree>)>,
    params: Seq<ParamView>,
    name: Seq<char>,
    last: Seq<Tree>,
    other_last: Seq<Tree>,
    site: Span,
)
    ensures
        lifetimes_fit(given, params, name, last, site) is Ok <==> lifetimes_fit(
            given,
            params,
            name,
            other_last,
            site,
        ) is Ok,
{
}

/// Attributes none of which is deku's leave nothing for a mirror.
proof fn lemma_nothing_mirrored(
    attrs: Seq<AttributeView>,
    kind: MirrorKind,
    names: Seq<Seq<char>>,
    site: Span,
)
    requires
        forall|i: int| 0 <= i < attrs.len() ==> !deku_attr(#[trigger] attrs[i]),
    ensures
        mirrored(attrs, kind, names, site) == Ok::<_, Fail>(Seq::<AttributeView>::empty()),
    decreases attrs.len(),
{
    if attrs.len() > 0 {
        assert(!deku_attr(attrs[0]));
        assert forall|i: int| 0 <= i < attrs.skip(1).len() implies !deku_attr(
            #[trigger] attrs.skip(1)[i],
        ) by {
            assert(attrs.skip(1)[i] == attrs[i + 1]);
        }
        lemma_nothing_mirrored(attrs.skip(1), kind, names, site);
    }
}

/// A `PhantomData` field with no deku attribute is treated as `#[deku(skip)]`,
/// in either mirror: that is its one attribute there. Any other field with no
/// deku attribute has none there either.
pub proof fn phantom_data_is_skipped(
    field: FieldView,
    kind: MirrorKind,
    names: Seq<Seq<char>>,
    site: Span,
)
    requires
        forall|i: int| 0 <= i < field.attrs.len() ==> !deku_attr(#[trigger] field.attrs[i]),
    ensures
        field_mirror(field, kind, names, site) == Ok::<_, Fail>(
            if phantom(field.ty) {
                seq![deku_with(seq![skip_setting(site)], site)]
            } else {
                Seq::<AttributeView>::empty()
            },
        ),
        deku_with(seq![skip_setting(site)], site).tokens == deku_list(word("skip"@, site), site),
{
    lemma_nothing_mirrored(field.attrs, kind, names, site);
    let parts = metas_tokens(seq![skip_setting(site)]);
    assert(parts =~= seq![word("skip"@, site)]);
    assert(joined(parts, seq![comma(site)]) == word("skip"@, site));
}

/// Exactly the fields that an expression mentions are rebound.
pub proof fn mentioned_fields_are_rebound(
    trees: Seq<Tree>,
    names: Seq<Seq<char>>,
    name: Seq<char>,
)
    ensures
        mentioned(trees, names).contains(name) <==> names.contains(name) && idents(trees).contains(
            name,
        ),
{
    let keep = |name: Seq<char>| idents(trees).contains(name);
    if mentioned(trees, names).contains(name) {
        let i = choose|i: int|
            0 <= i < mentioned(trees, names).len() && mentioned(trees, names)[i] == name;
        names.lemma_filter_pred(keep, i);
        names.lemma_filter_contains_rev(keep, name);
    }
    if names.contains(name) && idents(trees).contains(name) {
        let i = choose|i: int| 0 <= i < names.len() && names[i] == name;
        names.lemma_filter_contains(keep, i);
    }
}

/// An expression that mentions no field is left as it is.
pub proof fn other_expressions_are_untouched(
    expr: Seq<char>,
    trees: Seq<Tree>,
    names: Seq<Seq<char>>,
    prefix: Seq<char>,
)
    requires
        forall|i: int| 0 <= i < names.len() ==> !idents(trees).contains(#[trigger] names[i]),
    ensures
        wrapped(expr, mentioned(trees, names), prefix) == expr,
{
    let fields = mentioned(trees, names);
    if fields.len() > 0 {
        mentioned_fields_are_rebound(trees, names, fields[0]);
        assert(fields.contains(fields[0]));
        let i = choose|i: int| 0 <= i < names.len() && names[i] == fields[0];
        assert(!idents(trees).contains(names[i]));
    }
}

/// A setting that holds no expression for writing is kept as it is in the write
/// mirror.
pub proof fn other_settings_are_kept(meta: MetaView, names: Seq<Seq<char>>)
    requires
        meta.text is None || !(write_expr(setting_name(meta)) || setting_name(meta)
            == "assert_eq"@ || setting_name(meta) == "endian"@ || setting_name(meta) == "ctx"@),
    ensures
        rewriting(meta, names) == Ok::<_, Fail>(meta),
{
}

/// The settings other than `update`.
pub open spec fn without_update(metas: Seq<MetaView>) -> Seq<MetaView> {
    metas.filter(|meta: MetaView| setting_name(meta) != "update"@)
}

/// What a read mirror has of some settings.
proof fn lemma_read_settings(
    metas: Seq<MetaView>,
    start: Seq<MetaView>,
    names: Seq<Seq<char>>,
)
    ensures
        folded(metas, start, adding_rewrite(MirrorKind::Read, names)) == Ok::<_, Fail>(
            start + without_update(metas),
        ),
    decreases metas.len(),
{
    let keep = |meta: MetaView| setting_name(meta) != "update"@;
    if metas.len() == 0 {
        reveal(Seq::filter);
        assert(metas.filter(keep) =~= Seq::empty());
        assert(start + metas.filter(keep) =~= start);
    } else {
        lemma_filter_front(metas, keep);
        let rest = metas.skip(1);
        if keep(metas[0]) {
            lemma_read_settings(rest, start.push(metas[0]), names);
            assert(start + without_update(metas) =~= start.push(metas[0]) + without_update(rest));
        } else {
            lemma_read_settings(rest, start, names);
        }
    }
}

/// The read mirror keeps every setting of an attribute as it was written, in
/// order, but for `update`, which it never has.
pub proof fn read_mirror_keeps_settings(metas: Seq<MetaView>, names: Seq<Seq<char>>)
    ensures
        folded(metas, Seq::empty(), adding_rewrite(MirrorKind::Read, names)) == Ok::<_, Fail>(
            without_update(metas),
        ),
{
    lemma_read_settings(metas, Seq::empty(), names);
    assert(Seq::empty() + without_update(metas) =~= without_update(metas));
}

/// What a write mirror has of some settings.
proof fn lemma_write_settings(
    metas: Seq<MetaView>,
    start: Seq<MetaView>,
    names: Seq<Seq<char>>,
)
    ensures
        folded(metas, start, adding_rewrite(MirrorKind::Write, names)) == folded(
            without_update(metas),
            start,
            collecting(|meta: MetaView| rewriting(meta, names)),
        ),
    decreases metas.len(),
{
    let keep = |meta: MetaView| setting_name(meta) != "update"@;
    let value = |meta: MetaView| rewriting(meta, names);
    if metas.len() == 0 {
        reveal(Seq::filter);
        assert(metas.filter(keep) =~= Seq::empty());
    } else {
        lemma_filter_front(metas, keep);
        let rest = metas.skip(1);
        if keep(metas[0]) {
            assert(without_update(metas).skip(1) =~= without_update(rest));
            if let Ok(next) = value(metas[0]) {
                lemma_write_settings(rest, start.push(next), names);
            }
        } else {
            lemma_write_settings(rest, start, names);
        }
    }
}

/// The write mirror has each setting of an attribute rewritten, in order, but
/// for `update`, which it never has.
pub proof fn write_mirror_rewrites_settings(metas: Seq<MetaView>, names: Seq<Seq<char>>)
    ensures
        folded(metas, Seq::empty(), adding_rewrite(MirrorKind::Write, names)) == collected(
            without_update(metas),
            |meta: MetaView| rewriting(meta, names),
        ),
{
    lemma_write_settings(metas, Seq::empty(), names);
}

/// The macro that is called for a struct is the one that stands next to it:
/// the name of the helper depends on nothing but the name of the struct.
pub proof fn helper_is_found(defined: Tree, called: Tree, site: Span)
    requires
        defined is Ident,
        called is Ident,
        defined->Ident_text == called->Ident_text,
    ensures
        helper_of(defined, site) == helper_of(called, site),
{
}

/// Tokens can be moved again and again: only the last place counts. They keep
/// their number and their identifiers.
pub proof fn respan_keeps_tokens(trees: Seq<Tree>, first: Span, second: Span)
    ensures
        respanned(respanned(trees, first), second) == respanned(trees, second),
        respanned(trees, first).len() == trees.len(),
        idents(respanned(trees, first)) == idents(trees),
    decreases trees,
{
    if trees.len() > 0 {
        let rest = trees.drop_last();
        let last = trees.last();
        respan_keeps_tokens(rest, first, second);
        let moved = respanned(trees, first);
        assert(moved.drop_last() =~= respanned(rest, first));
        if let Tree::Group { delim, inner, at } = last {
            assert(decreases_to!(trees => trees[trees.len() - 1]));
            assert(decreases_to!(last => last->Group_inner));
            respan_keeps_tokens(inner, first, second);
            assert(moved.last() == Tree::Group {
                delim,
                inner: respanned(inner, first),
                at: first,
            });
        }
        assert(respanned(moved, second) =~= respanned(trees, second));
        assert(idents(moved) =~= idents(trees));
    }
}

/// Each attribute is deku's or another: those that are captured and those that
/// stay on the struct are together all of them, and none is both.
pub proof fn attributes_are_split(attrs: Seq<AttributeView>, attr: AttributeView)
    ensures
        kept_attrs(attrs, true).contains(attr) <==> attrs.contains(attr) && deku_attr(attr),
        kept_attrs(attrs, false).contains(attr) <==> attrs.contains(attr) && !deku_attr(attr),
        kept_attrs(attrs, true).len() + kept_attrs(attrs, false).len() == attrs.len(),
    decreases attrs.len(),
{
    let deku = |attr: AttributeView| deku_attr(attr) == true;
    let other = |attr: AttributeView| deku_attr(attr) == false;
    reveal(Seq::filter);
    if attrs.len() > 0 {
        attributes_are_split(attrs.drop_last(), attr);
        let kept = kept_attrs(attrs.drop_last(), deku_attr(attrs.last()));
        assert(attrs.contains(attr) <==> attrs.drop_last().contains(attr) || attrs.last()
            == attr) by {
            if attrs.contains(attr) {
                let i = choose|i: int| 0 <= i < attrs.len() && attrs[i] == attr;
                if i < attrs.len() - 1 {
                    assert(attrs.drop_last()[i] == attr);
                }
            }
            if attrs.drop_last().contains(attr) {
                let i = choose|i: int|
                    0 <= i < attrs.drop_last().len() && attrs.drop_last()[i] == attr;
                assert(attrs[i] == attr);
            }
            assert(attrs[attrs.len() - 1] == attrs.last());
        }
        assert(kept.push(attrs.last()).contains(attr) <==> kept.contains(attr) || attrs.last()
            == attr) by {
            let more = kept.push(attrs.last());
            if more.contains(attr) {
                let i = choose|i: int| 0 <= i < more.len() && more[i] == attr;
                if i < kept.len() {
                    assert(kept[i] == attr);
                }
            }
            if kept.contains(attr) {
                let i = choose|i: int| 0 <= i < kept.len() && kept[i] == attr;
                assert(more[i] == attr);
            }
            assert(more[kept.len() as int] == attrs.last());
        }
    }
}

/// Whether the trees hold the struct without its deku attributes: before what is
/// generated for it, or after one error and with nothing behind it.
pub open spec fn emits(trees: Seq<Tree>, item: ItemView) -> bool {
    let plain = item_tokens(keeping(item, false));
    ||| exists|after: Seq<Tree>| trees == #[trigger] (plain + after)
    ||| exists|error: ErrorView| trees == #[trigger] report(error) + plain
}

/// A struct is always emitted without its deku attributes and otherwise as it
/// is, and a rejected one after one error. What is no struct comes back as it
/// is, after one error.
pub proof fn struct_is_always_emitted(
    trees: Seq<Tree>,
    attr: Seq<Tree>,
    item: Seq<Tree>,
    site: Span,
)
    requires
        expands_attribute(trees, attr, item, site),
    ensures
        exists|read: Result<ItemView, ErrorView>| #[trigger]
            item_read(item, read) && match read {
                Ok(parsed) => emits(trees, parsed),
                Err(error) => trees == report(error) + item,
            },
{
    let read = choose|read: Result<ItemView, ErrorView>| #[trigger]
        item_read(item, read) && match read {
            Ok(parsed) => expands_struct(trees, attr, parsed, site),
            Err(error) => trees == report(error) + item,
        };
    if let Ok(parsed) = read {
        let args = choose|args: Result<AttrArgsView, Fail>| #[trigger]
            arguments_read(attr, site, args) && expands_with(trees, parsed, args, site);
        lemma_emits(trees, parsed, args, site);
    }
}

/// Whatever the arguments are, the struct is emitted.
proof fn lemma_emits(
    trees: Seq<Tree>,
    item: ItemView,
    args: Result<AttrArgsView, Fail>,
    site: Span,
)
    requires
        expands_with(trees, item, args, site),
    ensures
        emits(trees, item),
{
    let plain = item_tokens(keeping(item, false));
    if let Ok(args) = args {
        let crate_path = chosen_path(args.crate_path, site);
        if attribute_of(item, args.requests, crate_path, site) is Ok {
            let helper = helper_of(item.ident, site)->Ok_0;
            let impls = requested(args.requests, item, crate_path, site)->Ok_0;
            let defined = definition(item, helper, crate_path, site);
            let after = defined.skip(plain.len() as int) + impls;
            assert(trees =~= plain + after);
        }
    }
}

/// Attributes whose settings can be read can be kept for reading.
proof fn lemma_read_mirror(
    attrs: Seq<AttributeView>,
    mirrors: Seq<AttributeView>,
    names: Seq<Seq<char>>,
    site: Span,
)
    requires
        field_supported(attrs, site) is Ok,
    ensures
        folded(attrs, mirrors, adding_mirrored(MirrorKind::Read, names, site)) is Ok,
    decreases attrs.len(),
{
    if attrs.len() > 0 {
        if deku_attr(attrs[0]) {
            read_mirror_keeps_settings(settings(attrs[0], site)->Ok_0, names);
        }
        let next = adding_mirrored(MirrorKind::Read, names, site)(mirrors, attrs[0])->Ok_0;
        lemma_read_mirror(attrs.skip(1), next, names, site);
    }
}

/// Fields whose settings can be read can be kept for reading.
proof fn lemma_read_mirrors(
    fields: Seq<FieldView>,
    mirrors: Seq<Seq<Seq<Tree>>>,
    names: Seq<Seq<char>>,
    site: Span,
)
    requires
        folded(fields, (), supporting(site)) is Ok,
    ensures
        folded(fields, mirrors, collecting(mirroring(MirrorKind::Read, names, site))) is Ok,
    decreases fields.len(),
{
    if fields.len() > 0 {
        lemma_read_mirror(fields[0].attrs, Seq::empty(), names, site);
        let one = mirroring(MirrorKind::Read, names, site)(fields[0])->Ok_0;
        lemma_read_mirrors(fields.skip(1), mirrors.push(one), names, site);
    }
}

/// Of a struct that the attribute accepts, a request for reading fails only on
/// the request itself, and one for writing on the request, on a setting that
/// cannot be rewritten or on an `update`: what else can be wrong with the struct
/// is said where it is defined.
pub proof fn accepted_struct_can_be_requested(
    mode: Mode,
    target: PathView,
    item: ItemView,
    crate_path: Seq<Tree>,
    site: Span,
)
    requires
        struct_supported(item, site) is Ok,
    ensures
        instance_of(mode, target, item, crate_path, site) matches Err(fail) ==> {
            ||| bound_of(target, ident_text(seq![item.ident]), item.params, site) == Err::<
                BoundView,
                _,
            >(fail)
            ||| mode == Mode::Write && mirrors_of(item.fields, MirrorKind::Write, site) == Err::<
                Seq<Seq<Seq<Tree>>>,
                _,
            >(fail)
            ||| mode == Mode::Write && collected(item.fields, updating(site)) == Err::<
                Seq<Option<Seq<Tree>>>,
                _,
            >(fail)
        },
{
    lemma_read_mirrors(item.fields, Seq::empty(), field_names(item.fields), site);
}

/// `update` makes no difference to a mirror.
proof fn lemma_update_dropped(metas: Seq<MetaView>, kind: MirrorKind, names: Seq<Seq<char>>)
    ensures
        folded(without_update(metas), Seq::empty(), adding_rewrite(kind, names)) == folded(
            metas,
            Seq::empty(),
            adding_rewrite(kind, names),
        ),
{
    let keep = |meta: MetaView| setting_name(meta) != "update"@;
    lemma_folded_filter(metas, keep, Seq::empty(), adding_rewrite(kind, names));
}

/// What a read mirror adds to the attributes that are there, and what another
/// mirror makes of it.
proof fn lemma_mirrored_again(
    attrs: Seq<AttributeView>,
    read: Seq<AttributeView>,
    start: Seq<AttributeView>,
    kind: MirrorKind,
    names: Seq<Seq<char>>,
    site: Span,
) -> (added: Seq<AttributeView>)
    requires
        folded(attrs, read, adding_mirrored(MirrorKind::Read, names, site)) is Ok,
    ensures
        folded(attrs, read, adding_mirrored(MirrorKind::Read, names, site)) == Ok::<_, Fail>(
            read + added,
        ),
        folded(added, start, adding_mirrored(kind, names, site)) == folded(
            attrs,
            start,
            adding_mirrored(kind, names, site),
        ),
    decreases attrs.len(),
{
    if attrs.len() == 0 {
        assert(read + Seq::empty() =~= read);
        return Seq::empty();
    }
    let rest = attrs.skip(1);
    if !deku_attr(attrs[0]) {
        return lemma_mirrored_again(rest, read, start, kind, names, site);
    }
    let metas = settings(attrs[0], site)->Ok_0;
    let kept = without_update(metas);
    read_mirror_keeps_settings(metas, names);
    lemma_update_dropped(metas, kind, names);
    if kept.len() == 0 {
        return lemma_mirrored_again(rest, read, start, kind, names, site);
    }
    let one = deku_with(kept, site);
    let step = adding_mirrored(kind, names, site);
    assert(step(start, one) == step(start, attrs[0]));
    let next = match step(start, one) {
        Ok(next) => next,
        Err(_) => start,
    };
    let more = lemma_mirrored_again(rest, read.push(one), next, kind, names, site);
    let added = seq![one] + more;
    assert(read.push(one) + more =~= read + added);
    assert(added.skip(1) =~= more);
    added
}

/// Mirroring once more changes nothing: the attributes of the read mirror of a
/// field are their own read mirror, and have the write mirror of the field.
pub proof fn mirroring_again_changes_nothing(
    attrs: Seq<AttributeView>,
    read: Seq<AttributeView>,
    names: Seq<Seq<char>>,
    site: Span,
)
    requires
        mirrored(attrs, MirrorKind::Read, names, site) == Ok::<_, Fail>(read),
    ensures
        mirrored(read, MirrorKind::Read, names, site) == Ok::<_, Fail>(read),
        mirrored(read, MirrorKind::Write, names, site) == mirrored(
            attrs,
            MirrorKind::Write,
            names,
            site,
        ),
{
    let none = Seq::empty();
    let first = lemma_mirrored_again(attrs, none, none, MirrorKind::Read, names, site);
    assert(none + first =~= first);
    let second = lemma_mirrored_again(attrs, none, none, MirrorKind::Write, names, site);
    assert(none + second =~= second);
}

/// What a group of the attribute asks for comes in the order of its targets,
/// each for reading before it is for writing: `read_write(X)` asks for what
/// `read(X)` and `write(X)` do.
pub proof fn groups_ask_in_order(target: PathView)
    ensures
        requests_for(seq![Mode::Read, Mode::Write], seq![target]) == requests_for(
            seq![Mode::Read],
            seq![target],
        ) + requests_for(seq![Mode::Write], seq![target]),
{
    lemma_requests_for_one(seq![Mode::Read], target);
    lemma_requests_for_one(seq![Mode::Write], target);
    lemma_requests_for_one(seq![Mode::Read, Mode::Write], target);
    assert(requests_for(seq![Mode::Read, Mode::Write], seq![target]) =~= requests_for(
        seq![Mode::Read],
        seq![target],
    ) + requests_for(seq![Mode::Write], seq![target]));
}

/// The targets of a group come one after another.
pub proof fn targets_come_in_order(
    modes: Seq<Mode>,
    before: Seq<PathView>,
    target: PathView,
)
    ensures
        requests_for(modes, before.push(target)) == requests_for(modes, before) + requests_for(
            modes,
            seq![target],
        ),
{
    let each = |target: PathView| modes.map_values(|mode: Mode| RequestView { mode, target });
    let lists = before.push(target).map_values(each);
    assert(lists.drop_last() =~= before.map_values(each));
    lemma_requests_for_one(modes, target);
    assert(requests_for(modes, before.push(target)) =~= requests_for(modes, before) + each(target));
}

/// The values can be had from another function that gives the same.
proof fn lemma_collected_same<A, B>(
    items: Seq<A>,
    before: Seq<B>,
    value: spec_fn(A) -> Result<B, Fail>,
    other: spec_fn(A) -> Result<B, Fail>,
)
    requires
        forall|item: A| #[trigger] value(item) == other(item),
    ensures
        folded(items, before, collecting(value)) == folded(items, before, collecting(other)),
    decreases items.len(),
{
    if items.len() > 0 {
        assert(value(items[0]) == other(items[0]));
        if let Ok(next) = value(items[0]) {
            lemma_collected_same(items.skip(1), before.push(next), value, other);
        }
    }
}

/// What the hidden macro makes of a request, as a function.
pub open spec fn handing_on(item: ItemView, crate_path: Seq<Tree>, site: Span) -> spec_fn(
    RequestView,
) -> Result<Seq<Tree>, Fail> {
    |request: RequestView| input_expansion(Ok(captured_input(request, item, crate_path)), site)
}

/// One request is one block.
proof fn lemma_one_request(request: RequestView, item: ItemView, crate_path: Seq<Tree>, site: Span)
    ensures
        requested(seq![request], item, crate_path, site) == instancing(item, crate_path, site)(
            request,
        ),
{
    reveal_with_fuel(folded, 2);
    reveal_with_fuel(concat, 2);
    let one = seq![request];
    assert(one.skip(1) =~= Seq::empty());
    if let Ok(block) = instancing(item, crate_path, site)(request) {
        let blocks = Seq::empty().push(block);
        assert(blocks.drop_last() =~= Seq::empty());
        assert(concat(blocks) =~= block);
    }
}

/// What the hidden macro makes of a request is its block.
proof fn lemma_handed_on(request: RequestView, item: ItemView, crate_path: Seq<Tree>, site: Span)
    ensures
        handing_on(item, crate_path, site)(request) == instancing(item, crate_path, site)(request),
{
    let captured = keeping(item, true);
    lemma_requests_for_one(seq![request.mode], request.target);
    assert(requests_for(seq![request.mode], seq![request.target]) =~= seq![request]);
    lemma_one_request(request, captured, crate_path, site);
    captured_is_enough(request.mode, request.target, item, crate_path, site);
}

/// A request on the attribute gives what the same request through the hidden
/// macro gives, of the struct that was captured: the attribute gives what it
/// does without requests and after it the expansion of each request, in order,
/// and where one of these fails, the attribute fails with its error.
pub proof fn attribute_form_is_macro_form(
    item: ItemView,
    requests: Seq<RequestView>,
    crate_path: Seq<Tree>,
    site: Span,
)
    ensures
        attribute_of(item, requests, crate_path, site) == (match attribute_of(
            item,
            Seq::empty(),
            crate_path,
            site,
        ) {
            Err(fail) => Err(fail),
            Ok(alone) => match collected(requests, handing_on(item, crate_path, site)) {
                Err(fail) => Err(fail),
                Ok(blocks) => Ok(alone + concat(blocks)),
            },
        }),
{
    let value = instancing(item, crate_path, site);
    let other = handing_on(item, crate_path, site);
    assert forall|request: RequestView| #[trigger] value(request) == other(request) by {
        lemma_handed_on(request, item, crate_path, site);
    }
    lemma_collected_same(requests, Seq::empty(), value, other);
    if let Ok(helper) = helper_of(item.ident, site) {
        let alone = definition(item, helper, crate_path, site);
        assert(requested(Seq::empty(), item, crate_path, site) == Ok::<_, Fail>(
            Seq::<Tree>::empty(),
        ));
        assert(alone + Seq::<Tree>::empty() =~= alone);
    }
}

/// The tokens that the helper macro hands on: `@`, the option and the target
/// that it was called with, the path of the crate and the struct.
pub open spec fn handed_on(
    at_sign: Tree,
    option: Tree,
    target: Seq<Tree>,
    semi: Tree,
    crate_path: Seq<Tree>,
    captured: Seq<Tree>,
) -> Seq<Tree> {
    seq![at_sign] + (seq![option] + (target + (seq![semi] + (crate_path + (seq![semi]
        + captured)))))
}

/// A request through the hidden macro gives what the attribute gives for it,
/// where what was printed reads back: the option, the target, the path of the
/// crate and the captured struct, each as it was.
pub proof fn macro_form_is_attribute_form(
    trees: Seq<Tree>,
    request: RequestView,
    item: ItemView,
    at_sign: Tree,
    option: Tree,
    target: PathPartsView,
    semi: Tree,
    crate_path: Seq<Tree>,
    site: Span,
)
    requires
        at_sign matches Tree::Punct { ch: '@', joint: _, at: _ },
        semi matches Tree::Punct { ch: ';', joint: _, at: _ },
        option matches Tree::Ident { text, at } && name_read(option, Ok(text)) && modes_of(text, at)
            == Ok::<_, Fail>(seq![request.mode]),
        ({
            let captured = item_tokens(keeping(item, true));
            let rest = crate_path + (seq![semi] + captured);
            &&& path_split(target.tokens + (seq![semi] + rest), Ok((target, seq![semi] + rest)))
            &&& path_reads(target, request.target)
            &&& mod_path_split(rest, Ok((crate_path, seq![semi] + captured)))
            &&& item_read(captured, Ok(keeping(item, true)))
        }),
        expands(trees, requested(seq![request], item, respanned(crate_path, site), site)),
    ensures
        expands_impl(
            trees,
            handed_on(
                at_sign,
                option,
                target.tokens,
                semi,
                crate_path,
                item_tokens(keeping(item, true)),
            ),
            site,
        ),
{
    let path = respanned(crate_path, site);
    let captured = item_tokens(keeping(item, true));
    let defined = seq![semi] + captured;
    let rest = seq![semi] + (crate_path + defined);
    let after_option = target.tokens + rest;
    let after_at = seq![option] + after_option;
    let input = seq![at_sign] + after_at;
    let item_outcome = Ok::<_, Fail>((path, keeping(item, true)));
    let outcome = Ok::<_, Fail>(captured_input(request, item, path));
    lemma_after_punct(semi, captured, ';', site);
    lemma_after_punct(semi, crate_path + defined, ';', site);
    lemma_after_punct(at_sign, after_at, '@', site);
    assert(item_after(captured, path, item_outcome));
    assert(struct_after(crate_path, defined, site, item_outcome));
    assert(path_and_struct(crate_path + defined, site, item_outcome));
    assert(definition_read(rest, site, item_outcome));
    assert(input_after(target, rest, seq![request.mode], site, outcome));
    assert(target_after(after_option, seq![request.mode], site, outcome));
    lemma_option_first(option, after_option, request.mode, site);
    assert(peeled(after_at).skip(1) =~= after_option);
    assert(modes_after(after_at, site, outcome));
    assert(impl_input_read(input, site, outcome));
    lemma_handed_on(request, item, path, site);
    lemma_one_request(request, item, path, site);
    assert(expands(trees, input_expansion(outcome, site)));
}

/// What follows a character is found.
proof fn lemma_after_punct(punct: Tree, rest: Seq<Tree>, ch: char, site: Span)
    requires
        punct matches Tree::Punct { ch: found, joint: _, at: _ } && found == ch,
    ensures
        after_punct(seq![punct] + rest, ch, site) == Ok::<_, Fail>(rest),
{
    let trees = seq![punct] + rest;
    assert(trees[0] == punct);
    assert(peeled(trees) == trees);
    assert(trees.skip(1) =~= rest);
}

/// The option is found.
proof fn lemma_option_first(option: Tree, rest: Seq<Tree>, mode: Mode, site: Span)
    requires
        option matches Tree::Ident { text, at } && name_read(option, Ok(text)) && modes_of(text, at)
            == Ok::<_, Fail>(seq![mode]),
    ensures
        peeled(seq![option] + rest) == seq![option] + rest,
        first_modes(seq![option] + rest, site, Ok(seq![mode])),
{
    let trees = seq![option] + rest;
    assert(trees[0] == option);
    assert(peeled(trees) == trees);
    assert(named_modes(trees, Ok(seq![mode])));
}

/// What the helper macro hands on for a request.
pub open spec fn captured_input(
    request: RequestView,
    item: ItemView,
    crate_path: Seq<Tree>,
) -> ImplInputView {
    ImplInputView {
        modes: seq![request.mode],
        target: request.target,
        crate_path,
        item: keeping(item, true),
    }
}

} // verus!
