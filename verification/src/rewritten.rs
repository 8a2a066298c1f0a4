//! What holds of the deku attributes, setting by setting.
use proc_macro2::Span;
use vstd::prelude::*;

use crate::attrs::{
    adding_setting, adding_type, deku_attr, each_setting, field_supported, refusing_temp,
    setting_name, struct_attrs_of, update_in, update_of, MirrorKind, StructAttrsView,
};
use crate::error::Fail;
use crate::expand::each_tokens;
use crate::generated::{commas_make_a_list, group, listed, name, sign};
use crate::mirror::{
    adding_mirrored, adding_rewrite, deku_with, idents, mentioned, metas_tokens, mirrored, rebind,
    rewriting, wrapped, wrapped_forms,
};
use crate::outcome::folded;
use crate::setting::{attr_reads, meta_reads, write_expr, ArgsView, AttributeView, MetaView};
use crate::stream::{Delim, Tree};
use crate::syntax::{
    lex_fails, lexes_as, ArgsPartsView, AttributePartsView, FnParamView, MetaPartsView,
};
use crate::text::joined;

verus! {

/// The settings of a deku attribute; none of any other, nor where they cannot be
/// read.
pub open spec fn held(attr: AttributeView) -> Seq<MetaView> {
    match (attr.name, attr.args) {
        (Some(path), ArgsView::List(Ok(metas))) if path == "deku"@ => metas,
        _ => Seq::empty(),
    }
}

/// The settings of all the attributes, in order.
pub open spec fn all_held(attrs: Seq<AttributeView>) -> Seq<MetaView>
    decreases attrs.len(),
{
    if attrs.len() == 0 {
        Seq::empty()
    } else {
        held(attrs[0]) + all_held(attrs.skip(1))
    }
}

/// Whether a setting has that name.
pub open spec fn called(meta: MetaView, text: Seq<char>) -> bool {
    match meta.name {
        Some(own) => own == text,
        None => text.len() == 0,
    }
}

/// Whether one of the settings has that name.
pub open spec fn any_called(metas: Seq<MetaView>, text: Seq<char>) -> bool {
    exists|i: int| 0 <= i < metas.len() && called(#[trigger] metas[i], text)
}

/// Whether the `i`-th setting is the last of that name.
pub open spec fn last_called(metas: Seq<MetaView>, i: int, text: Seq<char>) -> bool {
    &&& 0 <= i < metas.len() && called(metas[i], text)
    &&& forall|k: int| i < k < metas.len() ==> !called(#[trigger] metas[k], text)
}

/// Whether the `i`-th setting is the first of that name.
pub open spec fn first_called(metas: Seq<MetaView>, i: int, text: Seq<char>) -> bool {
    &&& 0 <= i < metas.len() && called(metas[i], text)
    &&& forall|k: int| 0 <= k < i ==> !called(#[trigger] metas[k], text)
}

/// A step for each setting of each attribute is a step for each of all the
/// settings.
proof fn lemma_all_steps<S>(
    attrs: Seq<AttributeView>,
    start: S,
    step: spec_fn(S, MetaView) -> Result<S, Fail>,
    site: Span,
)
    ensures
        folded(attrs, start, each_setting(step, site)) matches Ok(end) ==> folded(
            all_held(attrs),
            start,
            step,
        ) == Ok::<S, Fail>(end),
    decreases attrs.len(),
{
    if attrs.len() > 0 {
        if let Ok(next) = each_setting(step, site)(start, attrs[0]) {
            lemma_all_steps(attrs.skip(1), next, step, site);
            lemma_steps_add(held(attrs[0]), all_held(attrs.skip(1)), start, step);
        }
    }
}

/// Steps go through one part of the items and then the other.
proof fn lemma_steps_add<A, S>(
    first: Seq<A>,
    second: Seq<A>,
    start: S,
    step: spec_fn(S, A) -> Result<S, Fail>,
)
    ensures
        folded(first + second, start, step) == (match folded(first, start, step) {
            Ok(state) => folded(second, state, step),
            Err(fail) => Err(fail),
        }),
    decreases first.len(),
{
    if first.len() == 0 {
        assert(first + second =~= second);
    } else {
        assert((first + second).skip(1) =~= first.skip(1) + second);
        if let Ok(next) = step(start, first[0]) {
            lemma_steps_add(first.skip(1), second, next, step);
        }
    }
}

/// Whether the types are those of the parameters in the text of a setting, in
/// order, none of which is a receiver.
pub open spec fn types_of(meta: MetaView, types: Seq<Seq<Tree>>) -> bool {
    meta.text matches Some(literal) && match literal.code {
        Some(Ok(code)) => code.params matches Ok(params) && types.len() == params.len() && (
        forall|k: int|
            0 <= k < params.len() ==> #[trigger] params[k] == FnParamView::Typed(types[k])),
        Some(Err(_)) => false,
        None => types.len() == 0,
    }
}

/// The types of parameters.
proof fn lemma_types(params: Seq<FnParamView>, start: Seq<Seq<Tree>>, site: Span)
    ensures
        folded(params, start, adding_type(site)) matches Ok(types) ==> {
            &&& types.len() == start.len() + params.len()
            &&& forall|k: int| 0 <= k < start.len() ==> types[k] == #[trigger] start[k]
            &&& forall|k: int|
                0 <= k < params.len() ==> #[trigger] params[k] == FnParamView::Typed(
                    types[start.len() + k],
                )
        },
    decreases params.len(),
{
    if params.len() > 0 {
        if let Ok(next) = adding_type(site)(start, params[0]) {
            lemma_types(params.skip(1), next, site);
            if let Ok(types) = folded(params, start, adding_type(site)) {
                assert forall|k: int| 0 <= k < start.len() implies types[k]
                    == #[trigger] start[k] by {
                    assert(next[k] == start[k]);
                }
                assert(types[start.len() as int] == next[start.len() as int]);
                assert forall|k: int| 0 <= k < params.len() implies #[trigger] params[k]
                    == FnParamView::Typed(types[start.len() + k]) by {
                    if k > 0 {
                        assert(params.skip(1)[k - 1] == params[k]);
                    }
                }
            }
        }
    }
}

/// What the settings change.
proof fn lemma_struct_settings(metas: Seq<MetaView>, start: StructAttrsView, site: Span)
    ensures
        folded(metas, start, adding_setting(site)) matches Ok(end) ==> {
            &&& end.ctx_default <==> start.ctx_default || any_called(metas, "ctx_default"@)
            &&& !any_called(metas, "id"@) && !any_called(metas, "id_type"@)
            &&& !any_called(metas, "ctx"@) ==> end.ctx == start.ctx
            &&& forall|i: int| #[trigger]
                last_called(metas, i, "ctx"@) ==> end.ctx is Some && types_of(
                    metas[i],
                    end.ctx->0,
                )
        },
    decreases metas.len(),
{
    reveal_strlit("ctx");
    reveal_strlit("ctx_default");
    reveal_strlit("id");
    reveal_strlit("id_type");
    assert("ctx"@.len() == 3 && "ctx_default"@.len() == 11 && "id"@.len() == 2 && "id_type"@.len()
        == 7);
    if metas.len() > 0 {
        let rest = metas.skip(1);
        if let Ok(next) = adding_setting(site)(start, metas[0]) {
            lemma_struct_settings(rest, next, site);
            assert forall|text: Seq<char>| #[trigger]
                any_called(metas, text) <==> called(metas[0], text) || any_called(rest, text) by {
                lemma_any_called(metas, text);
            }
            if let Ok(end) = folded(metas, start, adding_setting(site)) {
                assert forall|i: int| #[trigger] last_called(metas, i, "ctx"@) implies end.ctx
                    is Some && types_of(metas[i], end.ctx->0) by {
                    if i > 0 {
                        assert forall|k: int| i - 1 < k < rest.len() implies !called(
                            #[trigger] rest[k],
                            "ctx"@,
                        ) by {
                            assert(rest[k] == metas[k + 1]);
                        }
                        assert(last_called(rest, i - 1, "ctx"@));
                    } else {
                        assert(!any_called(rest, "ctx"@)) by {
                            if any_called(rest, "ctx"@) {
                                let k = choose|k: int|
                                    0 <= k < rest.len() && called(#[trigger] rest[k], "ctx"@);
                                assert(called(metas[k + 1], "ctx"@));
                            }
                        }
                        let literal = metas[0].text->0;
                        if let Some(Ok(code)) = literal.code {
                            lemma_types(code.params->Ok_0, Seq::empty(), site);
                        } else {
                            lemma_types(Seq::empty(), Seq::empty(), site);
                        }
                    }
                }
            }
        }
    }
}

/// The first setting or a later one.
proof fn lemma_any_called(metas: Seq<MetaView>, text: Seq<char>)
    requires
        metas.len() > 0,
    ensures
        any_called(metas, text) <==> called(metas[0], text) || any_called(metas.skip(1), text),
{
    let rest = metas.skip(1);
    if any_called(metas, text) {
        let i = choose|i: int| 0 <= i < metas.len() && called(#[trigger] metas[i], text);
        if i > 0 {
            assert(rest[i - 1] == metas[i]);
        }
    }
    if any_called(rest, text) {
        let i = choose|i: int| 0 <= i < rest.len() && called(#[trigger] rest[i], text);
        assert(metas[i + 1] == rest[i]);
    }
}

/// What a struct's attributes say: its context has the types in its last `ctx`,
/// wherever that stands, and it has a default for it where one of its settings
/// is a `ctx_default`. No setting is that of an enum.
pub proof fn struct_settings_are_read(attrs: Seq<AttributeView>, site: Span)
    ensures
        struct_attrs_of(attrs, site) matches Ok(read) ==> {
            &&& read.ctx_default <==> any_called(all_held(attrs), "ctx_default"@)
            &&& read.ctx is Some <==> any_called(all_held(attrs), "ctx"@)
            &&& forall|i: int| #[trigger]
                last_called(all_held(attrs), i, "ctx"@) ==> types_of(
                    all_held(attrs)[i],
                    read.ctx->0,
                )
            &&& !any_called(all_held(attrs), "id"@) && !any_called(all_held(attrs), "id_type"@)
        },
{
    let start = StructAttrsView { ctx: None, ctx_default: false };
    let metas = all_held(attrs);
    lemma_all_steps(attrs, start, adding_setting(site), site);
    lemma_struct_settings(metas, start, site);
    if struct_attrs_of(attrs, site) is Ok && any_called(metas, "ctx"@) {
        let i = lemma_last_called(metas, "ctx"@);
        assert(last_called(metas, i, "ctx"@));
    }
}

/// Where one has the name, one is the last.
proof fn lemma_last_called(metas: Seq<MetaView>, text: Seq<char>) -> (i: int)
    requires
        any_called(metas, text),
    ensures
        last_called(metas, i, text),
    decreases metas.len(),
{
    let n = metas.len() - 1;
    let i = choose|i: int| 0 <= i < metas.len() && called(#[trigger] metas[i], text);
    if called(metas[n], text) {
        n
    } else {
        let before = metas.drop_last();
        assert(before[i] == metas[i]);
        let k = lemma_last_called(before, text);
        assert forall|j: int| k < j < metas.len() implies !called(#[trigger] metas[j], text) by {
            if j < n {
                assert(before[j] == metas[j]);
            }
        }
        k
    }
}

/// A field is supported only where none of its settings is `temp`.
pub proof fn temporary_fields_are_refused(attrs: Seq<AttributeView>, site: Span)
    ensures
        field_supported(attrs, site) is Ok ==> !any_called(all_held(attrs), "temp"@),
{
    lemma_all_steps(attrs, (), refusing_temp(site), site);
    lemma_no_temp(all_held(attrs), site);
}

/// No setting is `temp`.
proof fn lemma_no_temp(metas: Seq<MetaView>, site: Span)
    ensures
        folded(metas, (), refusing_temp(site)) is Ok ==> !any_called(metas, "temp"@),
    decreases metas.len(),
{
    reveal_strlit("temp");
    if metas.len() > 0 {
        lemma_no_temp(metas.skip(1), site);
        lemma_any_called(metas, "temp"@);
    }
}

/// The first `update` among some settings.
proof fn lemma_update_in(metas: Seq<MetaView>, site: Span)
    ensures
        update_in(metas, site) == Ok::<_, Fail>(None::<Seq<Tree>>) <==> !any_called(
            metas,
            "update"@,
        ),
        forall|i: int| #[trigger]
            first_called(metas, i, "update"@) ==> (update_in(metas, site) matches Ok(expr)
                ==> expr == Some(expression(metas[i]))),
    decreases metas.len(),
{
    reveal_strlit("update");
    if metas.len() > 0 {
        let rest = metas.skip(1);
        lemma_update_in(rest, site);
        lemma_any_called(metas, "update"@);
        assert forall|i: int| #[trigger] first_called(metas, i, "update"@) implies (update_in(
            metas,
            site,
        ) matches Ok(expr) ==> expr == Some(expression(metas[i]))) by {
            if i > 0 {
                assert(!called(metas[0], "update"@));
                assert forall|k: int| 0 <= k < i - 1 implies !called(
                    #[trigger] rest[k],
                    "update"@,
                ) by {
                    assert(rest[k] == metas[k + 1]);
                }
                assert(first_called(rest, i - 1, "update"@));
            }
        }
    }
}

/// The tokens that the text of a setting spells.
pub open spec fn expression(meta: MetaView) -> Seq<Tree> {
    match meta.text {
        Some(literal) => match literal.code {
            Some(Ok(code)) => code.tokens,
            _ => Seq::empty(),
        },
        None => Seq::empty(),
    }
}

/// A field is brought up to date by the first `update` of its attributes,
/// whichever attribute that stands in, and by nothing where there is none.
pub proof fn first_update_counts(attrs: Seq<AttributeView>, site: Span)
    ensures
        update_of(attrs, site) matches Ok(expr) ==> {
            &&& expr is None <==> !any_called(all_held(attrs), "update"@)
            &&& forall|i: int| #[trigger]
                first_called(all_held(attrs), i, "update"@) ==> expr == Some(
                    expression(all_held(attrs)[i]),
                )
        },
{
    lemma_update_among_all(attrs, site);
    lemma_update_in(all_held(attrs), site);
}

/// The first `update` of some attributes is the first of all their settings.
proof fn lemma_update_among_all(attrs: Seq<AttributeView>, site: Span)
    ensures
        update_of(attrs, site) matches Ok(expr) ==> update_in(all_held(attrs), site) == Ok::<
            _,
            Fail,
        >(expr),
    decreases attrs.len(),
{
    if attrs.len() > 0 {
        lemma_update_among_all(attrs.skip(1), site);
        lemma_update_add(held(attrs[0]), all_held(attrs.skip(1)), site);
        if held(attrs[0]).len() == 0 {
            assert(held(attrs[0]) =~= Seq::empty());
        }
    }
}

/// The first `update` is looked for in one part of the settings and then in the
/// other.
pub proof fn lemma_update_add(first: Seq<MetaView>, second: Seq<MetaView>, site: Span)
    ensures
        update_in(first + second, site) == (match update_in(first, site) {
            Ok(None) => update_in(second, site),
            outcome => outcome,
        }),
    decreases first.len(),
{
    if first.len() == 0 {
        assert(first + second =~= second);
    } else {
        assert((first + second).skip(1) =~= first.skip(1) + second);
        lemma_update_add(first.skip(1), second, site);
    }
}

/// Whether the trees mention an identifier, at any depth.
pub open spec fn mentions(trees: Seq<Tree>, text: Seq<char>) -> bool
    decreases trees,
{
    trees.len() > 0 && {
        ||| match trees[0] {
            Tree::Ident { text: own, at: _ } => own == text,
            Tree::Group { delim: _, inner, at: _ } => mentions(inner, text),
            _ => false,
        }
        ||| mentions(trees.skip(1), text)
    }
}

/// One more tree at the end.
proof fn lemma_mentions_push(trees: Seq<Tree>, last: Tree, text: Seq<char>)
    ensures
        mentions(trees.push(last), text) <==> mentions(trees, text) || (match last {
            Tree::Ident { text: own, at: _ } => own == text,
            Tree::Group { delim: _, inner, at: _ } => mentions(inner, text),
            _ => false,
        }),
    decreases trees.len(),
{
    reveal_with_fuel(mentions, 2);
    let all = trees.push(last);
    if trees.len() == 0 {
        assert(all.skip(1) =~= Seq::empty());
    } else {
        assert(all.skip(1) =~= trees.skip(1).push(last));
        lemma_mentions_push(trees.skip(1), last, text);
    }
}

/// The identifiers that are collected are those that are mentioned.
pub proof fn all_mentions_are_found(trees: Seq<Tree>, text: Seq<char>)
    ensures
        idents(trees).contains(text) <==> mentions(trees, text),
    decreases trees,
{
    if trees.len() > 0 {
        let (before, last) = (trees.drop_last(), trees.last());
        let found = idents(before);
        all_mentions_are_found(before, text);
        lemma_mentions_push(before, last, text);
        assert(before.push(last) =~= trees);
        match last {
            Tree::Ident { text: own, at: _ } => {
                let more = found.push(own);
                if found.contains(text) {
                    let i = choose|i: int| 0 <= i < found.len() && found[i] == text;
                    assert(more[i] == text);
                }
                if own == text {
                    assert(more[found.len() as int] == text);
                }
                if more.contains(text) {
                    let i = choose|i: int| 0 <= i < more.len() && more[i] == text;
                    assert(i < found.len() ==> found[i] == text);
                }
            },
            Tree::Group { delim: _, inner, at: _ } => {
                assert(decreases_to!(trees => trees[trees.len() - 1]));
                assert(decreases_to!(last => last->Group_inner));
                all_mentions_are_found(inner, text);
                let deep = idents(inner);
                let more = found + deep;
                if found.contains(text) {
                    let i = choose|i: int| 0 <= i < found.len() && found[i] == text;
                    assert(more[i] == text);
                }
                if deep.contains(text) {
                    let i = choose|i: int| 0 <= i < deep.len() && deep[i] == text;
                    assert(more[found.len() + i] == text);
                }
                if more.contains(text) {
                    let i = choose|i: int| 0 <= i < more.len() && more[i] == text;
                    if i < found.len() {
                        assert(found[i] == text);
                    } else {
                        assert(deep[i - found.len()] == text);
                    }
                }
            },
            _ => {},
        }
    } else {
        assert(!idents(trees).contains(text));
    }
}

/// The texts, first to last, with a separator after each but the last.
pub open spec fn between(parts: Seq<Seq<char>>, separator: Seq<char>) -> Seq<char>
    decreases parts.len(),
{
    if parts.len() == 0 {
        Seq::empty()
    } else if parts.len() == 1 {
        parts[0]
    } else {
        parts[0] + separator + between(parts.skip(1), separator)
    }
}

/// One more text at the end.
proof fn lemma_between_push(parts: Seq<Seq<char>>, last: Seq<char>, separator: Seq<char>)
    requires
        parts.len() > 0,
    ensures
        between(parts.push(last), separator) == between(parts, separator) + separator + last,
    decreases parts.len(),
{
    reveal_with_fuel(between, 3);
    let all = parts.push(last);
    if parts.len() == 1 {
        assert(all.skip(1) =~= seq![last]);
    } else {
        assert(all.skip(1) =~= parts.skip(1).push(last));
        lemma_between_push(parts.skip(1), last, separator);
    }
    assert(between(all, separator) =~= between(parts, separator) + separator + last);
}

/// Texts that are joined have the separator between each two of them.
pub proof fn joined_texts_are_separated(parts: Seq<Seq<char>>, separator: Seq<char>)
    ensures
        joined(parts, separator) == between(parts, separator),
    decreases parts.len(),
{
    if parts.len() > 1 {
        let before = parts.drop_last();
        joined_texts_are_separated(before, separator);
        lemma_between_push(before, parts.last(), separator);
        assert(before.push(parts.last()) =~= parts);
    }
}

/// An expression for the write mirror: where it mentions fields it stands in a
/// block that first makes each of these, in the order of the fields, what its
/// reference points to.
pub open spec fn dereferenced(
    expr: Seq<char>,
    tokens: Seq<Tree>,
    fields: Seq<Seq<char>>,
) -> Seq<char> {
    let used = fields.filter(|field: Seq<char>| mentions(tokens, field));
    if used.len() == 0 {
        expr
    } else {
        "{ "@ + between(
            used.map_values(|field: Seq<char>| "let "@ + field + " = *"@ + field + ";"@),
            " "@,
        ) + " ("@ + expr + ") }"@
    }
}

/// An expression that is wrapped has the fields that it mentions dereferenced.
proof fn lemma_dereferenced(expr: Seq<char>, tokens: Seq<Tree>, fields: Seq<Seq<char>>)
    ensures
        wrapped(expr, mentioned(tokens, fields), ""@) == dereferenced(expr, tokens, fields),
{
    let keep = |field: Seq<char>| mentions(tokens, field);
    let kept = |field: Seq<char>| idents(tokens).contains(field);
    assert forall|field: Seq<char>| #[trigger] keep(field) == kept(field) by {
        all_mentions_are_found(tokens, field);
    }
    lemma_same_filter(fields, keep, kept);
    let used = fields.filter(keep);
    let lets = used.map_values(|field: Seq<char>| "let "@ + field + " = *"@ + field + ";"@);
    assert(lets =~= used.map_values(|field: Seq<char>| rebind(field)));
    joined_texts_are_separated(lets, " "@);
    reveal_strlit("");
    assert(""@ + "{ "@ =~= "{ "@);
}

/// Filters that agree keep the same.
proof fn lemma_same_filter<A>(items: Seq<A>, one: spec_fn(A) -> bool, other: spec_fn(A) -> bool)
    requires
        forall|item: A| #[trigger] one(item) == other(item),
    ensures
        items.filter(one) == items.filter(other),
    decreases items.len(),
{
    reveal(Seq::filter);
    if items.len() > 0 {
        lemma_same_filter(items.drop_last(), one, other);
        assert(one(items.last()) == other(items.last()));
    }
}

/// A setting for a mirror. For reading it is as it was written. For writing, the
/// expressions in its text have the fields that they mention dereferenced; the
/// value of an `assert_eq` becomes a reference, and what the text of any other
/// setting says stays.
pub open spec fn setting_for(kind: MirrorKind, meta: MetaView, fields: Seq<Seq<char>>) -> Seq<
    Tree,
> {
    match (kind, meta.text, meta.name) {
        (MirrorKind::Write, Some(literal), Some(own)) => {
            let one = dereferenced(literal.value, expression(meta), fields);
            let text = |value: Seq<char>|
                Tree::Str { value, suffix: Seq::empty(), at: literal.at };
            if write_expr(own) {
                meta.head.push(text(one))
            } else if own == "endian"@ && literal.value != "big"@ && literal.value
                != "little"@ {
                meta.head.push(text(one))
            } else if own == "assert_eq"@ {
                meta.head.push(text("&("@ + one + ")"@))
            } else if own == "ctx"@ {
                meta.head.push(
                    text(
                        between(
                            printed(meta).map_values(
                                |expr: (Seq<Tree>, Seq<char>)|
                                    dereferenced(expr.1, expr.0, fields),
                            ),
                            ", "@,
                        ),
                    ),
                )
            } else {
                meta.tokens
            }
        },
        _ => meta.tokens,
    }
}

/// The expressions in the text of a setting, each with its printed form.
pub open spec fn printed(meta: MetaView) -> Seq<(Seq<Tree>, Seq<char>)> {
    match meta.text {
        Some(literal) => match literal.code {
            Some(Ok(code)) => match code.exprs {
                Ok(exprs) => exprs,
                Err(_) => Seq::empty(),
            },
            _ => Seq::empty(),
        },
        None => Seq::empty(),
    }
}

/// A setting without a name is none that is evaluated while writing.
pub proof fn lemma_nameless(text: Seq<char>)
    ensures
        text.len() == 0 ==> !write_expr(text),
{
    reveal_strlit("writer");
    reveal_strlit("cond");
    reveal_strlit("assert");
    reveal_strlit("bits");
    reveal_strlit("bytes");
    reveal_strlit("pad_bits_before");
    reveal_strlit("pad_bytes_before");
    reveal_strlit("pad_bits_after");
    reveal_strlit("pad_bytes_after");
    reveal_strlit("seek_from_current");
    reveal_strlit("seek_from_end");
    reveal_strlit("seek_from_start");
}

/// A setting that is rewritten is that for the write mirror.
proof fn lemma_setting_rewritten(meta: MetaView, fields: Seq<Seq<char>>)
    ensures
        rewriting(meta, fields) matches Ok(rewritten) ==> rewritten.tokens == setting_for(
            MirrorKind::Write,
            meta,
            fields,
        ),
{
    if let Ok(rewritten) = rewriting(meta, fields) {
        if let Some(literal) = meta.text {
            lemma_dereferenced(literal.value, expression(meta), fields);
            let exprs = printed(meta);
            let forms = exprs.map_values(
                |expr: (Seq<Tree>, Seq<char>)| dereferenced(expr.1, expr.0, fields),
            );
            assert forall|i: int| 0 <= i < exprs.len() implies wrapped_forms(exprs, fields)[i]
                == #[trigger] forms[i] by {
                lemma_dereferenced(exprs[i].1, exprs[i].0, fields);
            }
            assert(wrapped_forms(exprs, fields) =~= forms);
            joined_texts_are_separated(forms, ", "@);
            reveal_strlit("endian");
            reveal_strlit("assert_eq");
            reveal_strlit("ctx");
            lemma_nameless(setting_name(meta));
        }
    }
}

/// The settings other than `update`.
pub open spec fn mirrored_settings(metas: Seq<MetaView>) -> Seq<MetaView> {
    metas.filter(|meta: MetaView| !called(meta, "update"@))
}

/// What is left of an attribute in a mirror: `#[deku(..)]` with its settings
/// other than `update`, or nothing where there are no others or the attribute is
/// not deku's.
pub open spec fn attribute_for(
    kind: MirrorKind,
    attr: AttributeView,
    fields: Seq<Seq<char>>,
    at: Span,
) -> Seq<Seq<Tree>> {
    let metas = mirrored_settings(held(attr));
    if metas.len() == 0 {
        Seq::empty()
    } else {
        let inner = listed(
            metas.map_values(|meta: MetaView| setting_for(kind, meta, fields)),
            at,
        );
        seq![
            seq![
                sign('#', at),
                group(
                    Delim::Bracket,
                    seq![name("deku"@, at), group(Delim::Paren, inner, at)],
                    at,
                ),
            ],
        ]
    }
}

/// What is left of attributes in a mirror, in order.
pub open spec fn attributes_for(
    kind: MirrorKind,
    attrs: Seq<AttributeView>,
    fields: Seq<Seq<char>>,
    at: Span,
) -> Seq<Seq<Tree>>
    decreases attrs.len(),
{
    if attrs.len() == 0 {
        Seq::empty()
    } else {
        attribute_for(kind, attrs[0], fields, at) + attributes_for(kind, attrs.skip(1), fields, at)
    }
}

/// The settings of an attribute for a mirror.
proof fn lemma_settings_for(
    metas: Seq<MetaView>,
    start: Seq<MetaView>,
    kind: MirrorKind,
    fields: Seq<Seq<char>>,
)
    ensures
        folded(metas, start, adding_rewrite(kind, fields)) matches Ok(out) ==> metas_tokens(out)
            == metas_tokens(start) + mirrored_settings(metas).map_values(
            |meta: MetaView| setting_for(kind, meta, fields),
        ),
    decreases metas.len(),
{
    let keep = |meta: MetaView| !called(meta, "update"@);
    let one = |meta: MetaView| setting_for(kind, meta, fields);
    reveal_strlit("update");
    reveal(Seq::filter);
    if metas.len() == 0 {
        assert(metas_tokens(start) + mirrored_settings(metas).map_values(one) =~= metas_tokens(
            start,
        ));
    } else if let Ok(next) = adding_rewrite(kind, fields)(start, metas[0]) {
        let rest = metas.skip(1);
        lemma_settings_for(rest, next, kind, fields);
        lemma_setting_rewritten(metas[0], fields);
        assert(seq![metas[0]] + rest =~= metas);
        Seq::filter_distributes_over_add(seq![metas[0]], rest, keep);
        reveal_with_fuel(Seq::filter, 2);
        assert(seq![metas[0]].drop_last() =~= Seq::empty());
        assert(called(metas[0], "update"@) <==> setting_name(metas[0]) == "update"@);
        if keep(metas[0]) {
            assert(seq![metas[0]].filter(keep) =~= seq![metas[0]]);
            assert(metas_tokens(next) =~= metas_tokens(start).push(one(metas[0])));
        } else {
            assert(seq![metas[0]].filter(keep) =~= Seq::empty());
        }
        if let Ok(out) = folded(metas, start, adding_rewrite(kind, fields)) {
            assert(metas_tokens(out) =~= metas_tokens(start) + mirrored_settings(metas).map_values(
                one,
            ));
        }
    }
}

/// An attribute with settings is written out.
proof fn lemma_deku_with(metas: Seq<MetaView>, at: Span)
    ensures
        deku_with(metas, at).tokens == seq![
            sign('#', at),
            group(
                Delim::Bracket,
                seq![
                    name("deku"@, at),
                    group(Delim::Paren, listed(metas_tokens(metas), at), at),
                ],
                at,
            ),
        ],
{
    commas_make_a_list(metas_tokens(metas), at);
}

/// The attributes of a field for a mirror, after those that are there.
proof fn lemma_attributes_for(
    attrs: Seq<AttributeView>,
    start: Seq<AttributeView>,
    kind: MirrorKind,
    fields: Seq<Seq<char>>,
    site: Span,
)
    ensures
        folded(attrs, start, adding_mirrored(kind, fields, site)) matches Ok(out) ==> each_tokens(
            out,
        ) == each_tokens(start) + attributes_for(kind, attrs, fields, site),
    decreases attrs.len(),
{
    let step = adding_mirrored(kind, fields, site);
    if attrs.len() == 0 {
        assert(each_tokens(start) + attributes_for(kind, attrs, fields, site) =~= each_tokens(
            start,
        ));
    } else if let Ok(next) = step(start, attrs[0]) {
        lemma_attributes_for(attrs.skip(1), next, kind, fields, site);
        let metas = held(attrs[0]);
        let one = attribute_for(kind, attrs[0], fields, site);
        lemma_settings_for(metas, Seq::empty(), kind, fields);
        if deku_attr(attrs[0]) {
            let kept = folded(metas, Seq::empty(), adding_rewrite(kind, fields))->Ok_0;
            lemma_deku_with(kept, site);
            let tokens = mirrored_settings(metas).map_values(
                |meta: MetaView| setting_for(kind, meta, fields),
            );
            assert(metas_tokens(kept) =~= tokens);
            assert(kept.len() == mirrored_settings(metas).len());
            if kept.len() > 0 {
                assert(each_tokens(next) =~= each_tokens(start) + one);
            } else {
                assert(each_tokens(next) =~= each_tokens(start) + one);
            }
        } else {
            assert(metas =~= Seq::empty());
            reveal(Seq::filter);
            assert(each_tokens(next) =~= each_tokens(start) + one);
        }
        if let Ok(out) = folded(attrs, start, step) {
            assert(each_tokens(out) =~= each_tokens(start) + attributes_for(
                kind,
                attrs,
                fields,
                site,
            ));
        }
    }
}

/// A mirror has every setting of every deku attribute of a field, in order, but
/// for `update`: as it was written for reading, and with the fields that it
/// mentions dereferenced for writing. It has nothing else.
pub proof fn mirrors_have_all_settings(
    attrs: Seq<AttributeView>,
    kind: MirrorKind,
    fields: Seq<Seq<char>>,
    site: Span,
)
    ensures
        mirrored(attrs, kind, fields, site) matches Ok(out) ==> each_tokens(out) == attributes_for(
            kind,
            attrs,
            fields,
            site,
        ),
{
    lemma_attributes_for(attrs, Seq::empty(), kind, fields, site);
    if let Ok(out) = mirrored(attrs, kind, fields, site) {
        assert(each_tokens(out) =~= attributes_for(kind, attrs, fields, site));
    }
}

/// Whether the settings of each deku attribute can be read.
pub open spec fn readable(attrs: Seq<AttributeView>) -> bool {
    forall|i: int|
        0 <= i < attrs.len() && (#[trigger] attrs[i]).name == Some("deku"@) ==> (
        attrs[i].args matches ArgsView::List(Ok(_)))
}

/// Steps on settings that can be read are those on all of them.
pub proof fn lemma_readable_steps<S>(
    attrs: Seq<AttributeView>,
    start: S,
    step: spec_fn(S, MetaView) -> Result<S, Fail>,
    site: Span,
)
    requires
        readable(attrs),
    ensures
        folded(attrs, start, each_setting(step, site)) == folded(all_held(attrs), start, step),
    decreases attrs.len(),
{
    if attrs.len() > 0 {
        lemma_steps_add(held(attrs[0]), all_held(attrs.skip(1)), start, step);
        assert(attrs[0].name == Some("deku"@) ==> (attrs[0].args matches ArgsView::List(Ok(_))));
        assert forall|i: int|
            0 <= i < attrs.skip(1).len() && (#[trigger] attrs.skip(1)[i]).name == Some(
                "deku"@,
            ) implies (attrs.skip(1)[i].args matches ArgsView::List(Ok(_))) by {
            assert(attrs.skip(1)[i] == attrs[i + 1]);
        }
        if let Ok(next) = each_setting(step, site)(start, attrs[0]) {
            lemma_readable_steps(attrs.skip(1), next, step, site);
        }
    }
}

/// A field whose settings can be read, none of which is `temp`, is supported.
pub proof fn other_fields_are_supported(attrs: Seq<AttributeView>, site: Span)
    requires
        readable(attrs),
        !any_called(all_held(attrs), "temp"@),
    ensures
        field_supported(attrs, site) is Ok,
{
    lemma_readable_steps(attrs, (), refusing_temp(site), site);
    lemma_temp_free(all_held(attrs), site);
}

/// Settings none of which is `temp` are accepted.
proof fn lemma_temp_free(metas: Seq<MetaView>, site: Span)
    requires
        !any_called(metas, "temp"@),
    ensures
        folded(metas, (), refusing_temp(site)) is Ok,
    decreases metas.len(),
{
    reveal_strlit("temp");
    if metas.len() > 0 {
        lemma_any_called(metas, "temp"@);
        assert(!called(metas[0], "temp"@));
        lemma_temp_free(metas.skip(1), site);
    }
}

/// The settings of a struct are accepted where they can be read, none is that of
/// an enum, and each `ctx` has types and no suffix.
pub proof fn other_structs_are_supported(attrs: Seq<AttributeView>, site: Span)
    requires
        readable(attrs),
        !any_called(all_held(attrs), "id"@),
        !any_called(all_held(attrs), "id_type"@),
        forall|i: int|
            0 <= i < all_held(attrs).len() && called(#[trigger] all_held(attrs)[i], "ctx"@)
                ==> has_types(all_held(attrs)[i]),
    ensures
        struct_attrs_of(attrs, site) is Ok,
{
    let start = StructAttrsView { ctx: None, ctx_default: false };
    lemma_readable_steps(attrs, start, adding_setting(site), site);
    lemma_struct_accepted(all_held(attrs), start, site);
}

/// Whether a setting has a text of parameters with types, and no suffix.
pub open spec fn has_types(meta: MetaView) -> bool {
    &&& exists|types: Seq<Seq<Tree>>| #[trigger] types_of(meta, types)
    &&& meta.text matches Some(literal) && literal.suffix.len() == 0
}

/// Parameters with types have types.
pub proof fn lemma_types_accepted(params: Seq<FnParamView>, start: Seq<Seq<Tree>>, site: Span)
    requires
        forall|k: int| 0 <= k < params.len() ==> #[trigger] params[k] is Typed,
    ensures
        folded(params, start, adding_type(site)) is Ok,
    decreases params.len(),
{
    if params.len() > 0 {
        assert(params[0] is Typed);
        assert forall|k: int| 0 <= k < params.skip(1).len() implies #[trigger] params.skip(1)[k]
            is Typed by {
            assert(params.skip(1)[k] == params[k + 1]);
        }
        let next = adding_type(site)(start, params[0])->Ok_0;
        lemma_types_accepted(params.skip(1), next, site);
    }
}

/// Such settings are accepted one after another.
proof fn lemma_struct_accepted(metas: Seq<MetaView>, start: StructAttrsView, site: Span)
    requires
        !any_called(metas, "id"@),
        !any_called(metas, "id_type"@),
        forall|i: int|
            0 <= i < metas.len() && called(#[trigger] metas[i], "ctx"@) ==> has_types(metas[i]),
    ensures
        folded(metas, start, adding_setting(site)) is Ok,
    decreases metas.len(),
{
    reveal_strlit("ctx");
    reveal_strlit("ctx_default");
    reveal_strlit("id");
    reveal_strlit("id_type");
    if metas.len() > 0 {
        lemma_any_called(metas, "id"@);
        lemma_any_called(metas, "id_type"@);
        assert(!called(metas[0], "id"@) && !called(metas[0], "id_type"@));
        if called(metas[0], "ctx"@) {
            assert(has_types(metas[0]));
            let types = choose|types: Seq<Seq<Tree>>| #[trigger] types_of(metas[0], types);
            if let Some(Ok(code)) = metas[0].text->0.code {
                lemma_types_accepted(code.params->Ok_0, Seq::empty(), site);
            } else {
                lemma_types_accepted(Seq::empty(), Seq::empty(), site);
            }
        }
        assert forall|i: int|
            0 <= i < metas.skip(1).len() && called(
                #[trigger] metas.skip(1)[i],
                "ctx"@,
            ) implies has_types(metas.skip(1)[i]) by {
            assert(metas.skip(1)[i] == metas[i + 1]);
        }
        let next = adding_setting(site)(start, metas[0])->Ok_0;
        lemma_struct_accepted(metas.skip(1), next, site);
    }
}

/// A setting is read as it is written: with its name and its tokens, and where
/// its value is one string literal with the value, the suffix and the place of
/// that. The text is looked at as code where it is evaluated while writing or is
/// an `update`, and then it is that text which spells the tokens.
pub proof fn settings_are_read_as_written(parts: MetaPartsView, meta: MetaView)
    requires
        meta_reads(parts, meta),
    ensures
        meta.name == parts.name,
        meta.head == parts.head,
        meta.tokens == parts.tokens,
        meta.text is Some <==> (parts.value matches Some(trees) && trees.len() == 1
            && trees[0] is Str),
        meta.text matches Some(literal) ==> {
            &&& parts.value->0[0] == (Tree::Str {
                value: literal.value,
                suffix: literal.suffix,
                at: literal.at,
            })
            &&& parts.name matches Some(own) ==> (literal.code is Some <==> write_expr(own) || own
                == "assert_eq"@ || own == "ctx"@ || own == "update"@ || (own == "endian"@
                && literal.value != "big"@ && literal.value != "little"@))
            &&& literal.code matches Some(Ok(code)) ==> lexes_as(
                literal.value,
                literal.at,
                code.tokens,
            )
            &&& literal.code matches Some(Err(error)) ==> lex_fails(
                literal.value,
                literal.at,
                error,
            )
        },
{
}

/// An attribute is read as it is written. Its settings are looked at where it is
/// deku's, and only there.
pub proof fn attributes_are_read_as_written(parts: AttributePartsView, attr: AttributeView)
    requires
        attr_reads(parts, attr),
    ensures
        attr.name == parts.name,
        attr.path == parts.path,
        attr.tokens == parts.tokens,
        attr.args is List <==> parts.args is List && parts.name == Some("deku"@),
        attr.args is Unread <==> parts.args is List && parts.name != Some("deku"@),
        attr.args is Bare <==> parts.args is Bare,
        parts.args matches ArgsPartsView::Value(at) ==> attr.args == ArgsView::Value(at),
{
}

} // verus!
