//! What the generated code says, token by token, whatever the struct and the
//! request.
//!
//! The forms of Rust items that stand here are written out on their own: a law
//! says that what is generated has them.
use proc_macro2::Span;
use vstd::prelude::*;

use crate::attrs::{deku_attr, struct_attrs_of, update_of, MirrorKind};
use crate::bind::{
    adding_alias, adding_arg, alias, angled, arg_at, arg_tokens, args_of, bound_of, given_of,
    ident_text, lifetime_names, lifetime_params, neutral_name, param_name, param_type, value_for,
    AliasesView, GivenView, PathView, CONST_LINTS, TYPE_LINTS,
};
use crate::code::{attribute_with, colons, derived_impl, enclosed, fixed, in_const};
use crate::emit::{
    access, assignment, binding, borrow, byte_slice, construction, conversion, ctx_impl,
    deku_trait, derives, mirror_field, mirror_fields, mirror_of, read_container, read_impls,
    read_slots, reader, reader_body, reader_generics, reader_lifetime, update_body, updater, word,
    write_container, write_generics, write_impls, writer, writer_body, FieldInfoView, ScopeView,
    ALLOC, BYTES, CONVERTED, MIRROR_LINTS, READER_CALL, READER_SIGNATURE, READ_BYTES,
    READ_CONTAINER, RESULT_OK, TRY_FROM, UPDATE_SIGNATURE, UPDATE_USES, WRITER_CALL,
    WRITER_SIGNATURE, WRITE_BYTES,
};
use crate::error::Fail;
use crate::expand::{
    ctx_list, deku_below, each_tokens, field_info, field_infos, field_mirror, field_names,
    has_unit_ctx, instance_of, instantiated, mirroring, mirrors_of, phantom, skip_setting,
    updating, Mode,
};
use crate::item::{attrs_tokens, kept_attrs, FieldView, ItemView};
use crate::mirror::{deku_with, metas_tokens, mirrored};
use crate::outcome::{collected, collecting, folded, lemma_folded_next};
use crate::rewritten::{
    all_held, any_called, attributes_for, expression, first_called, first_update_counts,
    last_called, mirrors_have_all_settings, struct_settings_are_read, types_of,
};
use crate::setting::{AttributeView, MetaView};
use crate::stream::{comma, decimal, Delim, Tree};
use crate::syntax::{ArgView, Layout, ParamView};
use crate::template::filled;
use crate::text::{concat, joined};

verus! {

/// An identifier.
pub open spec fn name(text: Seq<char>, at: Span) -> Tree {
    Tree::Ident { text, at }
}

/// A punctuation character by itself.
pub open spec fn sign(ch: char, at: Span) -> Tree {
    Tree::Punct { ch, joint: false, at }
}

/// A punctuation character that is joined to the next token.
pub open spec fn joint(ch: char, at: Span) -> Tree {
    Tree::Punct { ch, joint: true, at }
}

/// A group.
pub open spec fn group(delim: Delim, inner: Seq<Tree>, at: Span) -> Tree {
    Tree::Group { delim, inner, at }
}

/// The parts, first to last.
pub open spec fn in_order(parts: Seq<Seq<Tree>>) -> Seq<Tree>
    decreases parts.len(),
{
    if parts.len() == 0 {
        Seq::empty()
    } else {
        parts[0] + in_order(parts.skip(1))
    }
}

/// The parts, first to last, with a comma after each but the last.
pub open spec fn listed(parts: Seq<Seq<Tree>>, at: Span) -> Seq<Tree>
    decreases parts.len(),
{
    if parts.len() == 0 {
        Seq::empty()
    } else if parts.len() == 1 {
        parts[0]
    } else {
        parts[0] + seq![sign(',', at)] + listed(parts.skip(1), at)
    }
}

/// `<A, B>`, or nothing where there are no parts.
pub open spec fn bracketed(parts: Seq<Seq<Tree>>, at: Span) -> Seq<Tree> {
    if parts.len() == 0 {
        Seq::empty()
    } else {
        seq![sign('<', at)] + listed(parts, at) + seq![sign('>', at)]
    }
}

/// One more part at the end.
pub proof fn lemma_in_order_push(parts: Seq<Seq<Tree>>, last: Seq<Tree>)
    ensures
        in_order(parts.push(last)) == in_order(parts) + last,
    decreases parts.len(),
{
    reveal_with_fuel(in_order, 2);
    let all = parts.push(last);
    if parts.len() == 0 {
        assert(all.skip(1) =~= Seq::empty());
        assert(in_order(all) =~= in_order(parts) + last);
    } else {
        assert(all.skip(1) =~= parts.skip(1).push(last));
        lemma_in_order_push(parts.skip(1), last);
        assert(in_order(all) =~= in_order(parts) + last);
    }
}

/// Parts that are put together stand first to last.
pub proof fn parts_are_in_order(parts: Seq<Seq<Tree>>)
    ensures
        concat(parts) == in_order(parts),
    decreases parts.len(),
{
    if parts.len() > 0 {
        let before = parts.drop_last();
        parts_are_in_order(before);
        lemma_in_order_push(before, parts.last());
        assert(before.push(parts.last()) =~= parts);
    }
}

/// One more part at the end of a list.
proof fn lemma_listed_push(parts: Seq<Seq<Tree>>, last: Seq<Tree>, at: Span)
    requires
        parts.len() > 0,
    ensures
        listed(parts.push(last), at) == listed(parts, at) + seq![sign(',', at)] + last,
    decreases parts.len(),
{
    reveal_with_fuel(listed, 3);
    let all = parts.push(last);
    if parts.len() == 1 {
        assert(all.skip(1) =~= seq![last]);
        assert(listed(all, at) =~= listed(parts, at) + seq![sign(',', at)] + last);
    } else {
        assert(all.skip(1) =~= parts.skip(1).push(last));
        lemma_listed_push(parts.skip(1), last, at);
        assert(listed(all, at) =~= listed(parts, at) + seq![sign(',', at)] + last);
    }
}

/// Parts that are joined by commas are a list.
pub proof fn commas_make_a_list(parts: Seq<Seq<Tree>>, at: Span)
    ensures
        joined(parts, seq![comma(at)]) == listed(parts, at),
    decreases parts.len(),
{
    if parts.len() > 1 {
        let before = parts.drop_last();
        commas_make_a_list(before, at);
        lemma_listed_push(before, parts.last(), at);
        assert(before.push(parts.last()) =~= parts);
    }
}

/// Arguments in angle brackets are a list.
pub proof fn angles_hold_a_list(parts: Seq<Seq<Tree>>, at: Span)
    ensures
        angled(parts, at) == bracketed(parts, at),
{
    commas_make_a_list(parts, at);
}

/// A number has digits.
proof fn lemma_decimal_len(number: nat)
    ensures
        decimal(number).len() > 0,
        number >= 10 ==> decimal(number).len() > 1,
    decreases number,
{
    if number >= 10 {
        lemma_decimal_len(number / 10);
    }
}

/// Numbers with the same digits are the same.
pub proof fn digits_tell_numbers_apart(a: nat, b: nat)
    requires
        decimal(a) == decimal(b),
    ensures
        a == b,
    decreases a,
{
    lemma_decimal_len(a);
    lemma_decimal_len(b);
    assert(decimal(a).last() == ('0' as u32 + a % 10) as char);
    assert(decimal(b).last() == ('0' as u32 + b % 10) as char);
    assert(a % 10 == b % 10);
    if a >= 10 {
        assert(decimal(a).drop_last() =~= decimal(a / 10));
        assert(decimal(b).drop_last() =~= decimal(b / 10));
        digits_tell_numbers_apart(a / 10, b / 10);
    }
}

/// The number that some digits are.
pub open spec fn number_of(digits: Seq<char>) -> int
    decreases digits.len(),
{
    if digits.len() == 0 {
        0
    } else {
        10 * number_of(digits.drop_last()) + (digits.last() as u32 - '0' as u32)
    }
}

/// A number is written in its decimal digits, without a leading zero.
pub proof fn digits_spell_the_number(number: nat)
    ensures
        number_of(decimal(number)) == number,
        decimal(number).len() > 1 ==> decimal(number)[0] != '0',
        forall|i: int| 0 <= i < decimal(number).len() ==> '0' <= #[trigger] decimal(number)[i]
            <= '9',
    decreases number,
{
    let digit = ('0' as u32 + number % 10) as char;
    reveal_with_fuel(number_of, 2);
    if number < 10 {
        assert(decimal(number).drop_last() =~= Seq::empty());
    } else {
        let before = decimal(number / 10);
        digits_spell_the_number(number / 10);
        lemma_decimal_len(number / 10);
        assert(decimal(number) == before.push(digit));
        assert(decimal(number).drop_last() =~= before);
        if before.len() == 1 {
            reveal_with_fuel(decimal, 2);
            assert(number / 10 > 0);
            if number / 10 >= 10 {
                lemma_decimal_len(number / 10);
            }
        }
    }
}

/// The arguments that are no lifetimes.
pub open spec fn plain_args(args: Seq<ArgView>) -> Seq<ArgView> {
    args.filter(|arg: ArgView| !(arg is Lifetime))
}

/// The arguments of a request are types and consts, in the order in which they
/// are given, besides lifetimes.
proof fn lemma_others(args: Seq<ArgView>, start: GivenView, site: Span)
    ensures
        folded(args, start, adding_arg(site)) matches Ok(given) ==> {
            &&& given.others == start.others + plain_args(args)
            &&& forall|i: int| 0 <= i < args.len() ==> !(#[trigger] args[i] is Other)
        },
    decreases args.len(),
{
    let keep = |arg: ArgView| !(arg is Lifetime);
    reveal(Seq::filter);
    if args.len() == 0 {
        assert(start.others + plain_args(args) =~= start.others);
    } else if let Ok(next) = adding_arg(site)(start, args[0]) {
        let rest = args.skip(1);
        lemma_others(rest, next, site);
        assert(seq![args[0]] + rest =~= args);
        Seq::filter_distributes_over_add(seq![args[0]], rest, keep);
        assert(seq![args[0]].drop_last() =~= Seq::empty());
        reveal_with_fuel(Seq::filter, 2);
        if let Ok(given) = folded(args, start, adding_arg(site)) {
            if keep(args[0]) {
                assert(seq![args[0]].filter(keep) =~= seq![args[0]]);
            } else {
                assert(seq![args[0]].filter(keep) =~= Seq::empty());
            }
            assert(given.others =~= start.others + plain_args(args));
            assert forall|i: int| 0 <= i < args.len() implies !(#[trigger] args[i] is Other) by {
                if i > 0 {
                    assert(args[i] == rest[i - 1]);
                }
            }
        }
    }
}

/// Whether the tokens are what a parameter stands for: the argument in its
/// place, or else its default. The argument of a type parameter is a type.
pub open spec fn stands_for(
    value: Seq<Tree>,
    param: ParamView,
    args: Seq<ArgView>,
    i: int,
) -> bool {
    if i < args.len() {
        match (param, args[i]) {
            (ParamView::Type { .. }, ArgView::Type(ty)) => value == ty,
            (ParamView::Const { .. }, ArgView::Const(expr)) => value == expr,
            (ParamView::Const { .. }, ArgView::Type(path)) => value == path,
            _ => false,
        }
    } else {
        match param {
            ParamView::Type { ident: _, default } => default == Some(value),
            ParamView::Const { ident: _, ty: _, default } => default == Some(value),
            _ => false,
        }
    }
}

/// Whether two items bind a parameter: the outer one gives `neutral` the value,
/// and the inner one gives the parameter's name what `neutral` is.
pub open spec fn binds(
    outer: Seq<Tree>,
    inner: Seq<Tree>,
    neutral: Tree,
    param: ParamView,
    value: Seq<Tree>,
    at: Span,
) -> bool {
    match param {
        ParamView::Type { ident, default: _ } => {
            &&& outer == fixed(TYPE_LINTS@, at) + seq![name("type"@, at), neutral, sign('=', at)]
                + value + seq![sign(';', at)]
            &&& inner == fixed(TYPE_LINTS@, at) + seq![name("type"@, at)] + ident + seq![
                sign('=', at),
                neutral,
                sign(';', at),
            ]
        },
        ParamView::Const { ident, ty, default: _ } => {
            &&& outer == fixed(CONST_LINTS@, at) + seq![name("const"@, at), neutral, sign(':', at)]
                + ty + seq![sign('=', at)] + value + seq![sign(';', at)]
            &&& inner == fixed(CONST_LINTS@, at) + seq![name("const"@, at)] + ident + seq![
                sign(':', at),
            ] + ty + seq![sign('=', at), neutral, sign(';', at)]
        },
        ParamView::Lifetime { .. } => false,
    }
}

/// Items that bind parameters, and the neutral names that they use.
pub struct Bindings {
    pub outer: Seq<Seq<Tree>>,
    pub inner: Seq<Seq<Tree>>,
    pub neutral: Seq<Tree>,
    pub values: Seq<Seq<Tree>>,
}

impl Bindings {
    /// Whether the items bind the first so many of the parameters to the
    /// arguments, in order.
    pub open spec fn bind_first(
        self,
        count: int,
        params: Seq<ParamView>,
        args: Seq<ArgView>,
        at: Span,
    ) -> bool {
        &&& self.outer.len() == count
        &&& self.inner.len() == count
        &&& self.neutral.len() == count
        &&& self.values.len() == count
        &&& forall|i: int|
            0 <= i < count ==> binds(
                self.outer[i],
                self.inner[i],
                #[trigger] self.neutral[i],
                params[i],
                self.values[i],
                at,
            ) && stands_for(self.values[i], params[i], args, i)
    }

    /// Whether no two of the neutral names are the same.
    pub open spec fn names_apart(self) -> bool {
        &&& forall|i: int| 0 <= i < self.neutral.len() ==> #[trigger] self.neutral[i] is Ident
        &&& forall|i: int, j: int|
            0 <= i < j < self.neutral.len() ==> (#[trigger] self.neutral[i])->Ident_text != (
            #[trigger] self.neutral[j])->Ident_text
    }
}

/// Neutral names for different places are different.
proof fn lemma_names_apart(one: ParamView, other: ParamView, i: nat, j: nat, site: Span)
    requires
        i != j,
    ensures
        neutral_name(one, i, site)[0]->Ident_text != neutral_name(other, j, site)[0]->Ident_text,
{
    reveal_strlit("__DekuGenericArg");
    reveal_strlit("__DEKU_GENERIC_ARG_");
    let a = neutral_name(one, i, site)[0]->Ident_text;
    let b = neutral_name(other, j, site)[0]->Ident_text;
    let (ty, value) = ("__DekuGenericArg"@, "__DEKU_GENERIC_ARG_"@);
    assert(ty[3] != value[3]);
    if (one is Const) == (other is Const) {
        let prefix = if one is Const {
            value
        } else {
            ty
        };
        if a == b {
            assert(a.skip(prefix.len() as int) =~= decimal(i));
            assert(b.skip(prefix.len() as int) =~= decimal(j));
            digits_tell_numbers_apart(i, j);
        }
    } else {
        assert(a[3] != b[3]);
    }
}

/// The aliases of a parameter bind it.
proof fn lemma_alias_binds(
    param: ParamView,
    i: nat,
    args: Seq<ArgView>,
    last: Seq<Tree>,
    value: Seq<Tree>,
    site: Span,
)
    requires
        !(param is Lifetime),
        forall|k: int| 0 <= k < args.len() ==> #[trigger] args[k] is Type || args[k] is Const,
        value_for(param, arg_at(args, i as int), last, site) == Ok::<_, Fail>(value),
    ensures
        binds(
            alias(neutral_name(param, i, site), param_type(param), value, site),
            alias(param_name(param), param_type(param), neutral_name(param, i, site), site),
            neutral_name(param, i, site)[0],
            param,
            value,
            site,
        ),
        stands_for(value, param, args, i as int),
{
    let neutral = neutral_name(param, i, site);
    let outer = alias(neutral, param_type(param), value, site);
    let inner = alias(param_name(param), param_type(param), neutral, site);
    match param {
        ParamView::Type { ident, default: _ } => {
            let lints = fixed(TYPE_LINTS@, site);
            assert(outer =~= lints + seq![name("type"@, site), neutral[0], sign('=', site)] + value
                + seq![sign(';', site)]);
            assert(inner =~= lints + seq![name("type"@, site)] + ident + seq![
                sign('=', site),
                neutral[0],
                sign(';', site),
            ]);
        },
        ParamView::Const { ident, ty, default: _ } => {
            let lints = fixed(CONST_LINTS@, site);
            assert(outer =~= lints + seq![name("const"@, site), neutral[0], sign(':', site)] + ty
                + seq![sign('=', site)] + value + seq![sign(';', site)]);
            assert(inner =~= lints + seq![name("const"@, site)] + ident + seq![sign(':', site)] + ty
                + seq![sign('=', site), neutral[0], sign(';', site)]);
        },
        _ => {},
    }
}

/// The aliases of the parameters after the first `count`.
proof fn lemma_bindings(
    params: Seq<ParamView>,
    count: int,
    done: Bindings,
    start: AliasesView,
    args: Seq<ArgView>,
    last: Seq<Tree>,
    site: Span,
) -> (all: Bindings)
    requires
        0 <= count <= params.len(),
        forall|k: int| 0 <= k < params.len() ==> !(#[trigger] params[k] is Lifetime),
        forall|k: int| 0 <= k < args.len() ==> #[trigger] args[k] is Type || args[k] is Const,
        done.bind_first(count, params, args, site),
        forall|k: int|
            0 <= k < count ==> #[trigger] done.neutral[k] == neutral_name(
                params[k],
                k as nat,
                site,
            )[0],
        start.next == count,
        start.outer == in_order(done.outer),
        start.inner == in_order(done.inner),
        folded(params.skip(count), start, adding_alias(args, last, site)) is Ok,
    ensures
        all.bind_first(params.len() as int, params, args, site),
        all.names_apart(),
        folded(params.skip(count), start, adding_alias(args, last, site))->Ok_0.outer == in_order(
            all.outer,
        ),
        folded(params.skip(count), start, adding_alias(args, last, site))->Ok_0.inner == in_order(
            all.inner,
        ),
    decreases params.len() - count,
{
    if count == params.len() {
        assert forall|i: int, j: int| 0 <= i < j < count implies (
        #[trigger] done.neutral[i])->Ident_text != (#[trigger] done.neutral[j])->Ident_text by {
            lemma_names_apart(params[i], params[j], i as nat, j as nat, site);
        }
        return done;
    }
    let step = adding_alias(args, last, site);
    lemma_folded_next(params, count, start, step);
    let param = params[count];
    let value = value_for(param, arg_at(args, count), last, site)->Ok_0;
    let neutral = neutral_name(param, count as nat, site);
    lemma_alias_binds(param, count as nat, args, last, value, site);
    let outer = alias(neutral, param_type(param), value, site);
    let inner = alias(param_name(param), param_type(param), neutral, site);
    let more = Bindings {
        outer: done.outer.push(outer),
        inner: done.inner.push(inner),
        neutral: done.neutral.push(neutral[0]),
        values: done.values.push(value),
    };
    lemma_in_order_push(done.outer, outer);
    lemma_in_order_push(done.inner, inner);
    assert forall|i: int| 0 <= i < count + 1 implies binds(
        more.outer[i],
        more.inner[i],
        #[trigger] more.neutral[i],
        params[i],
        more.values[i],
        site,
    ) && stands_for(more.values[i], params[i], args, i) by {
        if i < count {
            assert(more.neutral[i] == done.neutral[i]);
        }
    }
    let next = step(start, param)->Ok_0;
    lemma_bindings(params, count + 1, more, next, args, last, site)
}

/// The lifetimes of a struct, in order.
pub open spec fn own_lifetimes(params: Seq<ParamView>) -> Seq<Seq<Tree>> {
    params.filter(|param: ParamView| param is Lifetime).map_values(
        |param: ParamView| param->Lifetime_lifetime,
    )
}

/// A type or const argument.
pub open spec fn as_given(arg: ArgView) -> Seq<Tree> {
    match arg {
        ArgView::Type(ty) => ty,
        ArgView::Const(expr) => expr,
        ArgView::Lifetime { name: _, tokens } => tokens,
        ArgView::Other(tokens) => tokens,
    }
}

/// What an instantiation binds: each type or const parameter of the struct, in
/// order, to the argument in its place or to its default. The alias items
/// outside give the values names of their own, no two the same, and those inside
/// give each parameter's name the very name that holds its value. The type that
/// the impls are for has the struct's lifetimes and the arguments as they were
/// given.
pub proof fn parameters_are_bound(
    target: PathView,
    struct_name: Seq<char>,
    params: Seq<ParamView>,
    site: Span,
) -> (all: Bindings)
    requires
        bound_of(target, struct_name, params, site) is Ok,
    ensures
        ({
            let bound = bound_of(target, struct_name, params, site)->Ok_0;
            let plain = params.filter(|param: ParamView| !(param is Lifetime));
            let args = plain_args(args_of(target, site)->Ok_0);
            &&& args_of(target, site) is Ok
            &&& args.len() <= plain.len()
            &&& all.bind_first(plain.len() as int, plain, args, site)
            &&& all.names_apart()
            &&& bound.outer == in_order(all.outer)
            &&& bound.inner == in_order(all.inner)
            &&& bound.target == target.lead + target.ident + bracketed(
                own_lifetimes(params) + args.map_values(|arg: ArgView| as_given(arg)),
                site,
            )
        }),
{
    let plain = params.filter(|param: ParamView| !(param is Lifetime));
    let given = given_of(target, struct_name, params, site)->Ok_0;
    let all_args = args_of(target, site)->Ok_0;
    let none = GivenView { lifetimes: Seq::empty(), others: Seq::empty() };
    lemma_others(all_args, none, site);
    let args = plain_args(all_args);
    assert(given.others =~= args);
    assert forall|k: int| 0 <= k < args.len() implies #[trigger] args[k] is Type
        || args[k] is Const by {
        let keep = |arg: ArgView| !(arg is Lifetime);
        all_args.lemma_filter_pred(keep, k);
        assert(all_args.filter(keep).contains(args[k]));
        all_args.lemma_filter_contains_rev(keep, args[k]);
        let i = choose|i: int| 0 <= i < all_args.len() && all_args[i] == args[k];
        assert(!(all_args[i] is Other));
    }
    assert forall|k: int| 0 <= k < plain.len() implies !(#[trigger] plain[k] is Lifetime) by {
        params.lemma_filter_pred(|param: ParamView| !(param is Lifetime), k);
    }
    let done = Bindings {
        outer: Seq::empty(),
        inner: Seq::empty(),
        neutral: Seq::empty(),
        values: Seq::empty(),
    };
    let start = AliasesView { next: 0, outer: Seq::empty(), inner: Seq::empty() };
    assert(plain.skip(0) =~= plain);
    let last = target.ident + target.args;
    let tokens = args.map_values(|arg: ArgView| as_given(arg));
    assert(tokens =~= args.map_values(|arg: ArgView| arg_tokens(arg)));
    assert(own_lifetimes(params) =~= lifetime_names(params));
    angles_hold_a_list(own_lifetimes(params) + tokens, site);
    lemma_bindings(plain, 0, done, start, args, last, site)
}

/// The path of deku below that of the crate.
pub open spec fn deku_in(crate_path: Seq<Tree>, at: Span) -> Seq<Tree> {
    crate_path + seq![
        joint(':', at),
        sign(':', at),
        name("__private"@, at),
        joint(':', at),
        sign(':', at),
        name("deku"@, at),
    ]
}

/// `deku::Name<..>`
pub open spec fn trait_of(
    deku: Seq<Tree>,
    text: Seq<char>,
    args: Seq<Seq<Tree>>,
    at: Span,
) -> Seq<Tree> {
    deku + seq![joint(':', at), sign(':', at), name(text, at)] + bracketed(args, at)
}

/// `#[automatically_derived] impl<..> Trait for Type where .. { body }`
pub open spec fn impl_item(
    generics: Seq<Tree>,
    of: Seq<Tree>,
    ty: Seq<Tree>,
    where_clause: Seq<Tree>,
    body: Seq<Tree>,
    at: Span,
) -> Seq<Tree> {
    seq![
        sign('#', at),
        group(Delim::Bracket, seq![name("automatically_derived"@, at)], at),
        name("impl"@, at),
    ] + generics + of + seq![name("for"@, at)] + ty + where_clause + seq![
        group(Delim::Brace, body, at),
    ]
}

/// `const _: () = { inner };`
pub open spec fn block_item(inner: Seq<Tree>, at: Span) -> Seq<Tree> {
    seq![
        name("const"@, at),
        name("_"@, at),
        sign(':', at),
        group(Delim::Paren, Seq::empty(), at),
        sign('=', at),
        group(Delim::Brace, inner, at),
        sign(';', at),
    ]
}

/// The tokens of those attributes that are deku's, as they were written.
pub open spec fn deku_tokens(attrs: Seq<AttributeView>) -> Seq<Tree>
    decreases attrs.len(),
{
    if attrs.len() == 0 {
        Seq::empty()
    } else if attrs[0].name == Some("deku"@) {
        attrs[0].tokens + deku_tokens(attrs.skip(1))
    } else {
        deku_tokens(attrs.skip(1))
    }
}

/// The tokens of those attributes that are not deku's, as they were written.
pub open spec fn other_tokens(attrs: Seq<AttributeView>) -> Seq<Tree>
    decreases attrs.len(),
{
    if attrs.len() == 0 {
        Seq::empty()
    } else if attrs[0].name != Some("deku"@) {
        attrs[0].tokens + other_tokens(attrs.skip(1))
    } else {
        other_tokens(attrs.skip(1))
    }
}

/// The deku attributes that are kept are printed as they were written, in order,
/// and so are the others.
pub proof fn attributes_are_printed(attrs: Seq<AttributeView>)
    ensures
        attrs_tokens(kept_attrs(attrs, true)) == deku_tokens(attrs),
        attrs_tokens(kept_attrs(attrs, false)) == other_tokens(attrs),
    decreases attrs.len(),
{
    let deku = |attr: AttributeView| deku_attr(attr) == true;
    let other = |attr: AttributeView| deku_attr(attr) == false;
    let tokens = |attr: AttributeView| attr.tokens;
    reveal(Seq::filter);
    parts_are_in_order(kept_attrs(attrs, true).map_values(tokens));
    parts_are_in_order(kept_attrs(attrs, false).map_values(tokens));
    if attrs.len() > 0 {
        let rest = attrs.skip(1);
        attributes_are_printed(rest);
        lemma_front(attrs, deku);
        lemma_front(attrs, other);
        parts_are_in_order(kept_attrs(rest, true).map_values(tokens));
        parts_are_in_order(kept_attrs(rest, false).map_values(tokens));
        let kept = kept_attrs(rest, deku_attr(attrs[0])).map_values(tokens);
        let all = kept_attrs(attrs, deku_attr(attrs[0])).map_values(tokens);
        assert(all.skip(1) =~= kept);
        assert(all[0] == attrs[0].tokens);
    }
}

/// The first item is kept by a filter or not.
proof fn lemma_front<A>(items: Seq<A>, keep: spec_fn(A) -> bool)
    requires
        items.len() > 0,
    ensures
        items.filter(keep) == if keep(items[0]) {
            seq![items[0]] + items.skip(1).filter(keep)
        } else {
            items.skip(1).filter(keep)
        },
{
    reveal_with_fuel(Seq::filter, 2);
    let one = seq![items[0]];
    assert(one + items.skip(1) =~= items);
    assert(one.drop_last() =~= Seq::empty());
    Seq::filter_distributes_over_add(one, items.skip(1), keep);
    if keep(items[0]) {
        assert(one.filter(keep) =~= one);
    } else {
        assert(one.filter(keep) =~= Seq::empty());
        assert(Seq::<A>::empty() + items.skip(1).filter(keep) =~= items.skip(1).filter(keep));
    }
}

/// A mirror: a struct of the same kind of fields and with the same where clause,
/// on which deku's derive and the struct's own deku attributes stand, whatever
/// the kind of its fields.
pub open spec fn mirror_item(
    deku: Seq<Tree>,
    derive: Seq<char>,
    item: ItemView,
    text: Seq<char>,
    generics: Seq<Tree>,
    fields: Seq<Seq<Tree>>,
    at: Span,
) -> Seq<Tree> {
    let derives = seq![
        name("derive"@, at),
        group(Delim::Paren, deku + seq![joint(':', at), sign(':', at), name(derive, at)], at),
    ];
    let inner = in_order(fields);
    seq![sign('#', at), group(Delim::Bracket, derives, at)] + deku_tokens(item.attrs) + fixed(
        MIRROR_LINTS@,
        at,
    ) + seq![name("struct"@, at), name(text, at)] + generics + match item.layout {
        Layout::Named => item.where_clause + seq![group(Delim::Brace, inner, at)],
        Layout::Unnamed => seq![group(Delim::Paren, inner, at)] + item.where_clause + seq![
            sign(';', at),
        ],
        Layout::Unit => item.where_clause + seq![sign(';', at)],
    }
}

/// The names by which expressions mention the fields: their own, or `field_0`
/// and so on.
pub open spec fn mention_names(fields: Seq<FieldView>) -> Seq<Seq<char>> {
    Seq::new(
        fields.len(),
        |i: int|
            match fields[i].ident {
                Some(Tree::Ident { text, at: _ }) => text,
                Some(_) => Seq::empty(),
                None => "field_"@ + decimal(i as nat),
            },
    )
}

/// The attributes of a field of a mirror: what is left of its own, or
/// `#[deku(skip)]` where nothing is and the field is a `PhantomData`.
pub open spec fn field_attributes(
    kind: MirrorKind,
    field: FieldView,
    names: Seq<Seq<char>>,
    at: Span,
) -> Seq<Seq<Tree>> {
    let own = attributes_for(kind, field.attrs, names, at);
    if own.len() == 0 && phantom(field.ty) {
        seq![
            seq![
                sign('#', at),
                group(
                    Delim::Bracket,
                    seq![
                        name("deku"@, at),
                        group(Delim::Paren, seq![name("skip"@, at)], at),
                    ],
                    at,
                ),
            ],
        ]
    } else {
        own
    }
}

/// A field of a mirror: its attributes, its name if it has one, and its type, of
/// which the write mirror holds a reference.
pub open spec fn field_item(
    kind: MirrorKind,
    field: FieldView,
    names: Seq<Seq<char>>,
    at: Span,
) -> Seq<Tree> {
    let own = match field.ident {
        Some(ident) => seq![ident, sign(':', at)],
        None => Seq::empty(),
    };
    let reference = match kind {
        MirrorKind::Read => Seq::empty(),
        MirrorKind::Write => seq![sign('&', at), joint('\'', at), name("__dg_ref"@, at)],
    };
    in_order(field_attributes(kind, field, names, at)) + own + reference + field.ty + seq![
        sign(',', at),
    ]
}

/// The fields of a mirror, one for each field of the struct.
pub open spec fn field_items(kind: MirrorKind, fields: Seq<FieldView>, at: Span) -> Seq<Seq<Tree>> {
    Seq::new(fields.len(), |i: int| field_item(kind, fields[i], mention_names(fields), at))
}

/// The attributes of a field of a mirror.
proof fn lemma_field_attributes(
    kind: MirrorKind,
    field: FieldView,
    names: Seq<Seq<char>>,
    at: Span,
)
    ensures
        field_mirror(field, kind, names, at) matches Ok(attrs) ==> each_tokens(attrs)
            == field_attributes(kind, field, names, at),
{
    mirrors_have_all_settings(field.attrs, kind, names, at);
    if let Ok(attrs) = mirrored(field.attrs, kind, names, at) {
        assert(each_tokens(attrs).len() == attrs.len());
        let skip = seq![deku_with(seq![skip_setting(at)], at)];
        let parts = metas_tokens(seq![skip_setting(at)]);
        assert(parts =~= seq![seq![name("skip"@, at)]]);
        commas_make_a_list(parts, at);
        if attrs.len() == 0 && phantom(field.ty) {
            assert(each_tokens(skip)[0] =~= field_attributes(kind, field, names, at)[0]);
            assert(each_tokens(skip) =~= field_attributes(kind, field, names, at));
        }
    }
}

/// The values are those of the items, one for one, after those that were there.
pub proof fn lemma_each_collected<A, B>(
    items: Seq<A>,
    before: Seq<B>,
    value: spec_fn(A) -> Result<B, Fail>,
)
    ensures
        folded(items, before, collecting(value)) matches Ok(values) ==> {
            &&& values.len() == before.len() + items.len()
            &&& forall|i: int| 0 <= i < before.len() ==> values[i] == #[trigger] before[i]
            &&& forall|i: int|
                0 <= i < items.len() ==> value(#[trigger] items[i]) == Ok::<B, Fail>(
                    values[before.len() + i],
                )
        },
    decreases items.len(),
{
    if items.len() > 0 {
        if let Ok(next) = value(items[0]) {
            let more = before.push(next);
            lemma_each_collected(items.skip(1), more, value);
            if let Ok(values) = folded(items, before, collecting(value)) {
                assert(values[before.len() as int] == more[before.len() as int]);
                assert forall|i: int| 0 <= i < before.len() implies values[i]
                    == #[trigger] before[i] by {
                    assert(values[i] == more[i]);
                }
                assert forall|i: int| 0 <= i < items.len() implies value(#[trigger] items[i])
                    == Ok::<B, Fail>(values[before.len() + i]) by {
                    if i > 0 {
                        assert(items.skip(1)[i - 1] == items[i]);
                    }
                }
            }
        }
    }
}

/// The fields of a mirror.
proof fn lemma_field_items(
    kind: MirrorKind,
    fields: Seq<FieldView>,
    mirrors: Seq<Seq<Seq<Tree>>>,
    at: Span,
)
    requires
        mirrors_of(fields, kind, at) == Ok::<_, Fail>(mirrors),
    ensures
        mirror_fields(field_infos(fields, at), mirrors, kind == MirrorKind::Write, at) == in_order(
            field_items(kind, fields, at),
        ),
{
    let borrowed = kind == MirrorKind::Write;
    let names = field_names(fields);
    assert(names =~= mention_names(fields));
    let value = mirroring(kind, names, at);
    lemma_each_collected(fields, Seq::empty(), value);
    let infos = field_infos(fields, at);
    let all = Seq::new(infos.len(), |i: int| mirror_field(infos[i], mirrors[i], borrowed, at));
    let want = field_items(kind, fields, at);
    assert forall|i: int| 0 <= i < all.len() implies all[i] == #[trigger] want[i] by {
        assert(value(fields[i]) == Ok::<_, Fail>(mirrors[i]));
        lemma_field_attributes(kind, fields[i], names, at);
        parts_are_in_order(mirrors[i]);
        assert(all[i] =~= want[i]);
    }
    assert(all =~= want);
    parts_are_in_order(all);
}

/// What is generated for a mirror is a mirror.
proof fn lemma_mirror_item(
    scope: ScopeView,
    derive: Seq<char>,
    item: ItemView,
    text: Seq<char>,
    generics: Seq<Tree>,
    fields: Seq<Seq<Tree>>,
    at: Span,
)
    requires
        scope.attrs == attrs_tokens(kept_attrs(item.attrs, true)),
        scope.where_clause == item.where_clause,
        scope.layout == item.layout,
    ensures
        mirror_of(scope, derive, text, generics, in_order(fields), at) == mirror_item(
            scope.deku,
            derive,
            item,
            text,
            generics,
            fields,
            at,
        ),
{
    attributes_are_printed(item.attrs);
    let path = scope.deku + seq![joint(':', at), sign(':', at), name(derive, at)];
    assert(scope.deku + colons(at) + word(derive, at) =~= path);
    let derives_inner = seq![name("derive"@, at), group(Delim::Paren, path, at)];
    assert(word("derive"@, at) + enclosed(Delim::Paren, path, at) =~= derives_inner);
    assert(derives(scope.deku, derive, at) =~= seq![
        sign('#', at),
        group(Delim::Bracket, derives_inner, at),
    ]);
    assert(mirror_of(scope, derive, text, generics, in_order(fields), at) =~= mirror_item(
        scope.deku,
        derive,
        item,
        text,
        generics,
        fields,
        at,
    ));
}

/// `()`
pub open spec fn unit_type(at: Span) -> Seq<Tree> {
    seq![group(Delim::Paren, Seq::empty(), at)]
}

/// Whether that is the type of the context with the parameters in a setting:
/// that of the only one, or a tuple.
pub open spec fn context_of(meta: MetaView, ctx: Seq<Tree>, at: Span) -> bool {
    exists|types: Seq<Seq<Tree>>| #[trigger]
        types_of(meta, types) && ctx == if types.len() == 1 {
            types[0]
        } else {
            seq![group(Delim::Paren, listed(types, at), at)]
        }
}

/// Whether the contexts are those of a struct with these attributes: that of its
/// last `ctx`, and `()` where it has none or a `ctx_default`.
pub open spec fn contexts_fit(
    contexts: Seq<Seq<Tree>>,
    attrs: Seq<AttributeView>,
    at: Span,
) -> bool {
    let metas = all_held(attrs);
    if !any_called(metas, "ctx"@) {
        contexts == seq![unit_type(at)]
    } else {
        &&& forall|i: int| #[trigger]
            last_called(metas, i, "ctx"@) ==> contexts.len() > 0 && context_of(
                metas[i],
                contexts[0],
                at,
            )
        &&& if any_called(metas, "ctx_default"@) {
            contexts.len() == 2 && contexts[1] == unit_type(at)
        } else {
            contexts.len() == 1
        }
    }
}

/// Whether a struct with these attributes can be read and written without a
/// context: it has no `ctx`, or a `ctx_default`.
pub open spec fn needs_no_context(attrs: Seq<AttributeView>) -> bool {
    !any_called(all_held(attrs), "ctx"@) || any_called(all_held(attrs), "ctx_default"@)
}

/// The contexts of a struct.
proof fn lemma_contexts(attrs: Seq<AttributeView>, site: Span)
    ensures
        struct_attrs_of(attrs, site) matches Ok(read) ==> {
            &&& contexts_fit(ctx_list(read, site), attrs, site)
            &&& has_unit_ctx(read) <==> needs_no_context(attrs)
        },
{
    struct_settings_are_read(attrs, site);
    if let Ok(read) = struct_attrs_of(attrs, site) {
        let metas = all_held(attrs);
        let contexts = ctx_list(read, site);
        if any_called(metas, "ctx"@) {
            let types = read.ctx->0;
            commas_make_a_list(types, site);
            assert forall|i: int| #[trigger] last_called(metas, i, "ctx"@) implies context_of(
                metas[i],
                contexts[0],
                site,
            ) by {
                assert(types_of(metas[i], types));
            }
        } else {
            assert(contexts =~= seq![unit_type(site)]);
        }
    }
}

/// The lifetimes of a struct with their bounds, in order.
pub open spec fn bounded_lifetimes(params: Seq<ParamView>) -> Seq<Seq<Tree>> {
    params.filter(|param: ParamView| param is Lifetime).map_values(
        |param: ParamView| param->Lifetime_tokens,
    )
}

/// The lifetime of the reader: the first of the struct, or `'__deku`.
pub open spec fn reading_lifetime(params: Seq<ParamView>, at: Span) -> Seq<Tree> {
    if own_lifetimes(params).len() > 0 {
        own_lifetimes(params)[0]
    } else {
        seq![joint('\'', at), name("__deku"@, at)]
    }
}

/// The parameters of the impls for reading: the struct's lifetimes, or `'__deku`.
pub open spec fn reading_generics(params: Seq<ParamView>, at: Span) -> Seq<Tree> {
    if own_lifetimes(params).len() > 0 {
        bracketed(bounded_lifetimes(params), at)
    } else {
        bracketed(seq![reading_lifetime(params, at)], at)
    }
}

/// The type that the impls are for.
pub open spec fn concrete_type(target: PathView, params: Seq<ParamView>, at: Span) -> Seq<Tree> {
    let args = plain_args(args_of(target, at)->Ok_0);
    target.lead + target.ident + bracketed(
        own_lifetimes(params) + args.map_values(|arg: ArgView| as_given(arg)),
        at,
    )
}

/// What the templates for reading name.
pub open spec fn reading_slots(deku: Seq<Tree>, params: Seq<ParamView>, at: Span) -> Seq<
    (Seq<char>, Seq<Tree>),
> {
    let mirror = seq![name("__DekuGenericRead"@, at)] + bracketed(own_lifetimes(params), at);
    let too_much = Tree::Str { value: "Too much data"@, suffix: Seq::empty(), at };
    let lengths = Tree::Str {
        value: "Read {} but total length was {}"@,
        suffix: Seq::empty(),
        at,
    };
    seq![
        ("deku"@, deku),
        ("reader_lt"@, reading_lifetime(params, at)),
        ("mirror_ty"@, mirror),
        ("too_much"@, seq![too_much]),
        ("lengths"@, seq![lengths]),
    ]
}

/// The names under which a struct's fields are held while it is made: their own,
/// at the place of the macro, or `__dg_field_0` and so on.
pub open spec fn local_names(fields: Seq<FieldView>, at: Span) -> Seq<Seq<Tree>> {
    Seq::new(
        fields.len(),
        |i: int|
            match fields[i].ident {
                Some(ident) => seq![ident.moved(at)],
                None => seq![name("__dg_field_"@ + decimal(i as nat), at)],
            },
    )
}

/// The read mirror is taken apart and the struct put together, with every field
/// in its place.
pub open spec fn taken_over(item: ItemView, at: Span) -> Seq<Tree> {
    let all = listed(local_names(item.fields, at), at);
    let (mirror, own) = (name("__DekuGenericRead"@, at), name("Self"@, at));
    let (mirrored, end) = (name("__dg_mirror"@, at), sign(';', at));
    match item.layout {
        Layout::Named => seq![
            name("let"@, at),
            mirror,
            group(Delim::Brace, all, at),
            sign('=', at),
            mirrored,
            end,
            own,
            group(Delim::Brace, all, at),
        ],
        Layout::Unnamed => seq![
            name("let"@, at),
            mirror,
            group(Delim::Paren, all, at),
            sign('=', at),
            mirrored,
            end,
            own,
            group(Delim::Paren, all, at),
        ],
        Layout::Unit => seq![name("let"@, at), name("_"@, at), sign('=', at), mirrored, end, own],
    }
}

/// `DekuReader` for a context: the mirror is read and taken over.
pub open spec fn reader_item(
    deku: Seq<Tree>,
    ty: Seq<Tree>,
    item: ItemView,
    ctx: Seq<Tree>,
    at: Span,
) -> Seq<Tree> {
    let slots = reading_slots(deku, item.params, at).push(("ctx"@, ctx));
    let made = group(
        Delim::Paren,
        seq![group(Delim::Brace, taken_over(item, at), at)],
        at,
    );
    impl_item(
        reading_generics(item.params, at),
        trait_of(deku, "DekuReader"@, seq![reading_lifetime(item.params, at), ctx], at),
        ty,
        item.where_clause,
        filled(READER_SIGNATURE@, slots, at) + seq![
            group(
                Delim::Brace,
                filled(READER_CALL@, slots, at) + fixed(RESULT_OK@, at) + seq![made],
                at,
            ),
        ],
        at,
    )
}

/// `DekuContainerRead`.
pub open spec fn container_read_item(
    deku: Seq<Tree>,
    ty: Seq<Tree>,
    item: ItemView,
    at: Span,
) -> Seq<Tree> {
    impl_item(
        reading_generics(item.params, at),
        trait_of(deku, "DekuContainerRead"@, seq![reading_lifetime(item.params, at)], at),
        ty,
        item.where_clause,
        filled(READ_CONTAINER@, reading_slots(deku, item.params, at), at),
        at,
    )
}

/// `TryFrom<&[u8]>`.
pub open spec fn from_bytes_item(
    deku: Seq<Tree>,
    ty: Seq<Tree>,
    item: ItemView,
    at: Span,
) -> Seq<Tree> {
    let bytes = seq![sign('&', at)] + reading_lifetime(item.params, at) + seq![
        group(Delim::Bracket, seq![name("u8"@, at)], at),
    ];
    impl_item(
        reading_generics(item.params, at),
        fixed(TRY_FROM@, at) + bracketed(seq![bytes], at),
        ty,
        item.where_clause,
        filled(READ_BYTES@, reading_slots(deku, item.params, at), at),
        at,
    )
}

/// An impl is one.
proof fn lemma_impl_item(
    generics: Seq<Tree>,
    of: Seq<Tree>,
    ty: Seq<Tree>,
    where_clause: Seq<Tree>,
    body: Seq<Tree>,
    at: Span,
)
    ensures
        derived_impl(generics, of, ty, where_clause, body, at) == impl_item(
            generics,
            of,
            ty,
            where_clause,
            body,
            at,
        ),
{
    assert(attribute_with(word("automatically_derived"@, at), at) =~= seq![
        sign('#', at),
        group(Delim::Bracket, seq![name("automatically_derived"@, at)], at),
    ]);
    assert(derived_impl(generics, of, ty, where_clause, body, at) =~= impl_item(
        generics,
        of,
        ty,
        where_clause,
        body,
        at,
    ));
}

/// A trait of deku is one.
proof fn lemma_trait_of(deku: Seq<Tree>, text: Seq<char>, args: Seq<Seq<Tree>>, at: Span)
    ensures
        deku_trait(deku, text, args, at) == trait_of(deku, text, args, at),
{
    angles_hold_a_list(args, at);
    assert(deku_trait(deku, text, args, at) =~= trait_of(deku, text, args, at));
}

/// Whether the scope is made from the struct and the type.
spec fn scope_fits(
    scope: ScopeView,
    deku: Seq<Tree>,
    ty: Seq<Tree>,
    item: ItemView,
    at: Span,
) -> bool {
    &&& scope.deku == deku
    &&& scope.target == ty
    &&& scope.where_clause == item.where_clause
    &&& scope.lifetimes == own_lifetimes(item.params)
    &&& scope.params == bounded_lifetimes(item.params)
    &&& scope.attrs == attrs_tokens(kept_attrs(item.attrs, true))
    &&& scope.layout == item.layout
    &&& scope.fields == field_infos(item.fields, at)
}

/// What reading names.
proof fn lemma_reading_parts(
    scope: ScopeView,
    deku: Seq<Tree>,
    ty: Seq<Tree>,
    item: ItemView,
    at: Span,
)
    requires
        scope_fits(scope, deku, ty, item, at),
    ensures
        reader_lifetime(scope, at) == reading_lifetime(item.params, at),
        reader_generics(scope, at) == reading_generics(item.params, at),
        read_slots(scope, at) == reading_slots(deku, item.params, at),
        conversion(scope, at) == taken_over(item, at),
{
    assert(reader_lifetime(scope, at) =~= reading_lifetime(item.params, at));
    angles_hold_a_list(scope.params, at);
    angles_hold_a_list(scope.lifetimes, at);
    angles_hold_a_list(seq![reading_lifetime(item.params, at)], at);
    assert(read_slots(scope, at) =~= reading_slots(deku, item.params, at));
    let locals = scope.fields.map_values(|field: FieldInfoView| field.local);
    assert(locals =~= local_names(item.fields, at));
    commas_make_a_list(locals, at);
    assert(conversion(scope, at) =~= taken_over(item, at));
}

/// What is generated for a context is a reader.
proof fn lemma_reader_item(
    scope: ScopeView,
    deku: Seq<Tree>,
    ty: Seq<Tree>,
    item: ItemView,
    ctx: Seq<Tree>,
    at: Span,
)
    requires
        scope_fits(scope, deku, ty, item, at),
    ensures
        reader(scope, ctx, at) == reader_item(deku, ty, item, ctx, at),
{
    lemma_reading_parts(scope, deku, ty, item, at);
    let args = seq![reading_lifetime(item.params, at), ctx];
    lemma_trait_of(deku, "DekuReader"@, args, at);
    lemma_impl_item(
        reader_generics(scope, at),
        trait_of(deku, "DekuReader"@, args, at),
        ty,
        item.where_clause,
        reader_body(scope, ctx, at),
        at,
    );
}

/// What is generated for reading without a context.
proof fn lemma_read_container(
    scope: ScopeView,
    deku: Seq<Tree>,
    ty: Seq<Tree>,
    item: ItemView,
    at: Span,
)
    requires
        scope_fits(scope, deku, ty, item, at),
    ensures
        read_container(scope, at) == container_read_item(deku, ty, item, at) + from_bytes_item(
            deku,
            ty,
            item,
            at,
        ),
{
    lemma_reading_parts(scope, deku, ty, item, at);
    let lifetime = reading_lifetime(item.params, at);
    let slots = reading_slots(deku, item.params, at);
    lemma_trait_of(deku, "DekuContainerRead"@, seq![lifetime], at);
    lemma_impl_item(
        reader_generics(scope, at),
        trait_of(deku, "DekuContainerRead"@, seq![lifetime], at),
        ty,
        item.where_clause,
        filled(READ_CONTAINER@, slots, at),
        at,
    );
    let bytes = seq![sign('&', at)] + lifetime + seq![
        group(Delim::Bracket, seq![name("u8"@, at)], at),
    ];
    assert(byte_slice(lifetime, at) =~= bytes);
    angles_hold_a_list(seq![bytes], at);
    lemma_impl_item(
        reader_generics(scope, at),
        fixed(TRY_FROM@, at) + bracketed(seq![bytes], at),
        ty,
        item.where_clause,
        filled(READ_BYTES@, slots, at),
        at,
    );
}

/// What a request for reading generates, whatever the kind of the struct's
/// fields: inside of the items that bind its parameters, the mirror with the
/// struct's deku attributes and each of its fields; `DekuReader` for each of its
/// contexts; and `DekuContainerRead` and `TryFrom<&[u8]>` exactly where it needs
/// no context. All impls are for the requested type.
pub proof fn reading_is_generated(
    target: PathView,
    item: ItemView,
    crate_path: Seq<Tree>,
    site: Span,
) -> (parts: (Bindings, Seq<Seq<Tree>>))
    requires
        instantiated(Mode::Read, target, item, crate_path, site) is Ok,
    ensures
        ({
            let (bindings, contexts) = parts;
            let plain = item.params.filter(|param: ParamView| !(param is Lifetime));
            let args = plain_args(args_of(target, site)->Ok_0);
            let deku = deku_in(crate_path, site);
            let ty = concrete_type(target, item.params, site);
            let mirror = mirror_item(
                deku,
                "DekuRead"@,
                item,
                "__DekuGenericRead"@,
                bracketed(bounded_lifetimes(item.params), site),
                field_items(MirrorKind::Read, item.fields, site),
                site,
            );
            let readers = in_order(
                contexts.map_values(|ctx: Seq<Tree>| reader_item(deku, ty, item, ctx, site)),
            );
            let containers = if needs_no_context(item.attrs) {
                container_read_item(deku, ty, item, site) + from_bytes_item(deku, ty, item, site)
            } else {
                Seq::empty()
            };
            &&& bindings.bind_first(plain.len() as int, plain, args, site)
            &&& bindings.names_apart()
            &&& contexts_fit(contexts, item.attrs, site)
            &&& instantiated(Mode::Read, target, item, crate_path, site) == Ok::<_, Fail>(
                block_item(
                    in_order(bindings.outer) + block_item(
                        in_order(bindings.inner) + (mirror + readers + containers),
                        site,
                    ),
                    site,
                ),
            )
        }),
{
    let struct_name = ident_text(seq![item.ident]);
    let bindings = parameters_are_bound(target, struct_name, item.params, site);
    lemma_contexts(item.attrs, site);
    let instance = instance_of(Mode::Read, target, item, crate_path, site)->Ok_0;
    let scope = instance.scope;
    let deku = deku_in(crate_path, site);
    let ty = concrete_type(target, item.params, site);
    lemma_scope_fits(target, item, crate_path, site);
    let contexts = scope.ctx_list;
    lemma_field_items(MirrorKind::Read, item.fields, instance.mirrors, site);
    angles_hold_a_list(scope.params, site);
    lemma_mirror_item(
        scope,
        "DekuRead"@,
        item,
        "__DekuGenericRead"@,
        bracketed(bounded_lifetimes(item.params), site),
        field_items(MirrorKind::Read, item.fields, site),
        site,
    );
    let some = contexts.map_values(
        |ctx: Seq<Tree>| ctx_impl(scope, MirrorKind::Read, ctx, site),
    );
    let want = contexts.map_values(|ctx: Seq<Tree>| reader_item(deku, ty, item, ctx, site));
    assert forall|i: int| 0 <= i < contexts.len() implies some[i] == #[trigger] want[i] by {
        lemma_reader_item(scope, deku, ty, item, contexts[i], site);
    }
    assert(some =~= want);
    parts_are_in_order(want);
    lemma_read_container(scope, deku, ty, item, site);
    let body = read_impls(scope, instance.mirrors, site);
    lemma_block_item(instance.bound.inner + body, site);
    lemma_block_item(
        instance.bound.outer + block_item(instance.bound.inner + body, site),
        site,
    );
    (bindings, contexts)
}

/// A block is one.
proof fn lemma_block_item(inner: Seq<Tree>, at: Span)
    ensures
        in_const(inner, at) == block_item(inner, at),
{
    assert(in_const(inner, at) =~= block_item(inner, at));
}

/// The scope of an instantiation is made from the struct and the type.
proof fn lemma_scope_fits(target: PathView, item: ItemView, crate_path: Seq<Tree>, site: Span)
    ensures
        forall|mode: Mode|
            (#[trigger] instance_of(mode, target, item, crate_path, site)) matches Ok(instance)
                ==> scope_fits(
                instance.scope,
                deku_in(crate_path, site),
                concrete_type(target, item.params, site),
                item,
                site,
            ),
{
    assert(deku_below(crate_path, site) =~= deku_in(crate_path, site));
    assert(lifetime_names(item.params) =~= own_lifetimes(item.params));
    assert(lifetime_params(item.params) =~= bounded_lifetimes(item.params));
    let struct_name = ident_text(seq![item.ident]);
    if bound_of(target, struct_name, item.params, site) is Ok {
        let bindings = parameters_are_bound(target, struct_name, item.params, site);
    }
}

/// How a field is reached: by its name or by its position.
pub open spec fn reached_by(field: FieldView, i: nat, at: Span) -> Seq<Tree> {
    match field.ident {
        Some(ident) => seq![ident],
        None => seq![Tree::Literal { text: decimal(i), at }],
    }
}

/// A reference to each field of the struct, with the name of the field where
/// fields have names.
pub open spec fn references(item: ItemView, at: Span) -> Seq<Seq<Tree>> {
    Seq::new(
        item.fields.len(),
        |i: int|
            {
                let field = reached_by(item.fields[i], i as nat, at);
                let reference = seq![sign('&', at), name("self"@, at), sign('.', at)] + field;
                if item.layout == Layout::Named {
                    field + seq![sign(':', at)] + reference
                } else {
                    reference
                }
            },
    )
}

/// The write mirror of a struct, which holds a reference to every field.
pub open spec fn referred_to(item: ItemView, at: Span) -> Seq<Tree> {
    let all = listed(references(item, at), at);
    match item.layout {
        Layout::Named => seq![name("__DekuGenericWrite"@, at), group(Delim::Brace, all, at)],
        Layout::Unnamed => seq![name("__DekuGenericWrite"@, at), group(Delim::Paren, all, at)],
        Layout::Unit => seq![name("__DekuGenericWrite"@, at)],
    }
}

/// `DekuWriter` for a context: the mirror is made from the struct and written.
pub open spec fn writer_item(
    deku: Seq<Tree>,
    ty: Seq<Tree>,
    item: ItemView,
    ctx: Seq<Tree>,
    at: Span,
) -> Seq<Tree> {
    let slots = seq![("deku"@, deku), ("target"@, ty)].push(("ctx"@, ctx));
    impl_item(
        bracketed(bounded_lifetimes(item.params), at),
        trait_of(deku, "DekuWriter"@, seq![ctx], at),
        ty,
        item.where_clause,
        filled(WRITER_SIGNATURE@, slots, at) + seq![
            group(
                Delim::Brace,
                seq![name("let"@, at), name("__dg_mirror"@, at), sign('=', at)] + referred_to(
                    item,
                    at,
                ) + seq![sign(';', at)] + filled(WRITER_CALL@, slots, at),
                at,
            ),
        ],
        at,
    )
}

/// The fields that are brought up to date, and what each is set to.
pub struct Updates {
    pub fields: Seq<int>,
    pub exprs: Seq<Seq<Tree>>,
}

impl Updates {
    /// Whether these are exactly the fields that have an `update`, in order, and
    /// each is set to what its first `update` says.
    pub open spec fn fit(self, fields: Seq<FieldView>) -> bool {
        &&& self.fields.len() == self.exprs.len()
        &&& forall|i: int|
            0 <= i < fields.len() ==> (any_called(
                all_held((#[trigger] fields[i]).attrs),
                "update"@,
            ) <==> self.fields.contains(i))
        &&& forall|k: int|
            0 <= k < self.fields.len() ==> 0 <= #[trigger] self.fields[k] < fields.len()
        &&& forall|j: int, k: int|
            0 <= j < k < self.fields.len() ==> #[trigger] self.fields[j] < #[trigger] self.fields[k]
        &&& forall|k: int, m: int|
            0 <= k < self.fields.len() && #[trigger] first_called(
                all_held(fields[self.fields[k]].attrs),
                m,
                "update"@,
            ) ==> #[trigger] self.exprs[k] == expression(
                all_held(fields[self.fields[k]].attrs)[m],
            )
    }

    /// An assignment to each of the fields.
    pub open spec fn assigned(self, fields: Seq<FieldView>, at: Span) -> Seq<Seq<Tree>> {
        Seq::new(
            self.fields.len(),
            |k: int|
                seq![name("self"@, at), sign('.', at)] + reached_by(
                    fields[self.fields[k]],
                    self.fields[k] as nat,
                    at,
                ) + seq![sign('=', at), group(Delim::Paren, self.exprs[k], at)] + fixed(
                    CONVERTED@,
                    at,
                ),
        )
    }
}

/// `DekuUpdate`: the fields are assigned one after another.
pub open spec fn update_item(
    deku: Seq<Tree>,
    ty: Seq<Tree>,
    item: ItemView,
    updates: Updates,
    at: Span,
) -> Seq<Tree> {
    let slots = seq![("deku"@, deku), ("target"@, ty)];
    impl_item(
        bracketed(bounded_lifetimes(item.params), at),
        trait_of(deku, "DekuUpdate"@, Seq::empty(), at),
        ty,
        item.where_clause,
        filled(UPDATE_SIGNATURE@, slots, at) + seq![
            group(
                Delim::Brace,
                fixed(UPDATE_USES@, at) + in_order(updates.assigned(item.fields, at)) + fixed(
                    RESULT_OK@,
                    at,
                ) + seq![group(Delim::Paren, unit_type(at), at)],
                at,
            ),
        ],
        at,
    )
}

/// `DekuContainerWrite`.
pub open spec fn container_write_item(
    deku: Seq<Tree>,
    ty: Seq<Tree>,
    item: ItemView,
    at: Span,
) -> Seq<Tree> {
    impl_item(
        bracketed(bounded_lifetimes(item.params), at),
        trait_of(deku, "DekuContainerWrite"@, Seq::empty(), at),
        ty,
        item.where_clause,
        Seq::empty(),
        at,
    )
}

/// `TryFrom` into bytes.
pub open spec fn into_bytes_item(
    deku: Seq<Tree>,
    ty: Seq<Tree>,
    item: ItemView,
    at: Span,
) -> Seq<Tree> {
    let slots = seq![("deku"@, deku), ("target"@, ty)];
    block_item(
        fixed(ALLOC@, at) + impl_item(
            bracketed(bounded_lifetimes(item.params), at),
            fixed(TRY_FROM@, at) + bracketed(seq![ty], at),
            fixed(BYTES@, at),
            item.where_clause,
            filled(WRITE_BYTES@, slots, at),
            at,
        ),
        at,
    )
}

/// The write mirror holds a reference to every field.
proof fn lemma_referred_to(scope: ScopeView, item: ItemView, at: Span)
    requires
        scope.layout == item.layout,
        scope.fields == field_infos(item.fields, at),
    ensures
        construction(scope, at) == referred_to(item, at),
{
    let all = Seq::new(
        scope.fields.len(),
        |i: int| borrow(scope.layout, scope.fields[i], i as nat, at),
    );
    let want = references(item, at);
    assert forall|i: int| 0 <= i < all.len() implies all[i] == #[trigger] want[i] by {
        let field = reached_by(item.fields[i], i as nat, at);
        assert(access(scope.fields[i], i as nat, at) =~= field);
        assert(all[i] =~= want[i]);
    }
    assert(all =~= want);
    commas_make_a_list(all, at);
    assert(construction(scope, at) =~= referred_to(item, at));
}

/// What is generated for a context is a writer.
proof fn lemma_writer_item(
    scope: ScopeView,
    deku: Seq<Tree>,
    ty: Seq<Tree>,
    item: ItemView,
    ctx: Seq<Tree>,
    at: Span,
)
    requires
        scope_fits(scope, deku, ty, item, at),
    ensures
        writer(scope, ctx, at) == writer_item(deku, ty, item, ctx, at),
{
    lemma_referred_to(scope, item, at);
    lemma_trait_of(deku, "DekuWriter"@, seq![ctx], at);
    angles_hold_a_list(scope.params, at);
    let slots = seq![("deku"@, deku), ("target"@, ty)].push(("ctx"@, ctx));
    let inner = binding(word("__dg_mirror"@, at), construction(scope, at), at) + filled(
        WRITER_CALL@,
        slots,
        at,
    );
    assert(inner =~= seq![name("let"@, at), name("__dg_mirror"@, at), sign('=', at)] + referred_to(
        item,
        at,
    ) + seq![sign(';', at)] + filled(WRITER_CALL@, slots, at));
    lemma_impl_item(
        angled(scope.params, at),
        trait_of(deku, "DekuWriter"@, seq![ctx], at),
        ty,
        item.where_clause,
        writer_body(scope, ctx, at),
        at,
    );
}

/// The assignments to the first so many fields.
proof fn lemma_updates(
    fields: Seq<FieldView>,
    exprs: Seq<Option<Seq<Tree>>>,
    count: int,
    at: Span,
) -> (updates: Updates)
    requires
        0 <= count <= fields.len(),
        exprs.len() == fields.len(),
        forall|i: int|
            0 <= i < fields.len() ==> update_of((#[trigger] fields[i]).attrs, at) == Ok::<_, Fail>(
                exprs[i],
            ),
    ensures
        updates.fit(fields.take(count)),
        in_order(updates.assigned(fields, at)) == concat(
            Seq::new(
                count as nat,
                |i: int| assignment(field_info(fields[i], i as nat, at), exprs[i], i as nat, at),
            ),
        ),
    decreases count,
{
    let all = Seq::new(
        count as nat,
        |i: int| assignment(field_info(fields[i], i as nat, at), exprs[i], i as nat, at),
    );
    if count == 0 {
        let none = Updates { fields: Seq::empty(), exprs: Seq::empty() };
        assert(none.assigned(fields, at) =~= Seq::empty());
        return none;
    }
    let last = count - 1;
    let before = lemma_updates(fields, exprs, last, at);
    let some = Seq::new(
        last as nat,
        |i: int| assignment(field_info(fields[i], i as nat, at), exprs[i], i as nat, at),
    );
    assert(all.drop_last() =~= some);
    let field = fields[last];
    let had = fields.take(last);
    let have = fields.take(count);
    assert(update_of(field.attrs, at) == Ok::<_, Fail>(exprs[last]));
    first_update_counts(field.attrs, at);
    let done = before.assigned(fields, at);
    match exprs[last] {
        None => {
            assert(all.last() =~= Seq::empty());
            assert(concat(all) =~= concat(some));
            lemma_updates_fit(before, before, fields, last);
            before
        },
        Some(expr) => {
            let more = Updates {
                fields: before.fields.push(last),
                exprs: before.exprs.push(expr),
            };
            let access_tokens = access(field_info(field, last as nat, at), last as nat, at);
            assert(access_tokens =~= reached_by(field, last as nat, at));
            let one = seq![name("self"@, at), sign('.', at)] + reached_by(field, last as nat, at)
                + seq![sign('=', at), group(Delim::Paren, expr, at)] + fixed(CONVERTED@, at);
            assert(all.last() =~= one);
            assert(more.assigned(fields, at) =~= done.push(one));
            lemma_in_order_push(done, one);
            assert(more.exprs.drop_last() =~= before.exprs);
            lemma_updates_fit(before, more, fields, last);
            more
        },
    }
}

/// One more field is brought up to date, or not.
proof fn lemma_updates_fit(before: Updates, after: Updates, fields: Seq<FieldView>, last: int)
    requires
        0 <= last < fields.len(),
        before.fit(fields.take(last)),
        any_called(all_held(fields[last].attrs), "update"@) ==> {
            &&& after.fields == before.fields.push(last)
            &&& after.exprs.len() == before.exprs.len() + 1
            &&& after.exprs.drop_last() == before.exprs
            &&& forall|m: int| #[trigger]
                first_called(all_held(fields[last].attrs), m, "update"@) ==> after.exprs.last()
                    == expression(all_held(fields[last].attrs)[m])
        },
        !any_called(all_held(fields[last].attrs), "update"@) ==> after == before,
    ensures
        after.fit(fields.take(last + 1)),
{
    let had = fields.take(last);
    let have = fields.take(last + 1);
    let chosen = any_called(all_held(fields[last].attrs), "update"@);
    assert forall|i: int| 0 <= i < have.len() implies (any_called(
        all_held((#[trigger] have[i]).attrs),
        "update"@,
    ) <==> after.fields.contains(i)) by {
        if i < last {
            assert(have[i] == had[i]);
            if before.fields.contains(i) {
                let k = choose|k: int| 0 <= k < before.fields.len() && before.fields[k] == i;
                assert(after.fields[k] == i);
            }
            if after.fields.contains(i) {
                let k = choose|k: int| 0 <= k < after.fields.len() && after.fields[k] == i;
                assert(before.fields[k] == i);
            }
        } else {
            if chosen {
                assert(after.fields[before.fields.len() as int] == last);
            } else if after.fields.contains(i) {
                let k = choose|k: int| 0 <= k < after.fields.len() && after.fields[k] == i;
                assert(before.fields[k] < had.len());
            }
        }
    }
    assert forall|k: int| 0 <= k < after.fields.len() implies 0 <= #[trigger] after.fields[k]
        < have.len() by {
        if k < before.fields.len() {
            assert(after.fields[k] == before.fields[k]);
        }
    }
    assert forall|j: int, k: int| 0 <= j < k < after.fields.len() implies #[trigger] after.fields[j]
        < #[trigger] after.fields[k] by {
        assert(after.fields[j] == before.fields[j]);
        if k < before.fields.len() {
            assert(after.fields[k] == before.fields[k]);
        }
    }
    assert forall|k: int, m: int|
        0 <= k < after.fields.len() && #[trigger] first_called(
            all_held(have[after.fields[k]].attrs),
            m,
            "update"@,
        ) implies #[trigger] after.exprs[k] == expression(
        all_held(have[after.fields[k]].attrs)[m],
    ) by {
        if k < before.fields.len() {
            let i = before.fields[k];
            assert(after.fields[k] == i);
            assert(had[i] == have[i]);
            assert(first_called(all_held(had[before.fields[k]].attrs), m, "update"@));
            assert(before.exprs[k] == expression(all_held(had[i].attrs)[m]));
            if chosen {
                assert(after.exprs.drop_last()[k] == after.exprs[k]);
            }
        }
    }
}

/// What is generated to bring the fields up to date.
proof fn lemma_update_item(
    scope: ScopeView,
    deku: Seq<Tree>,
    ty: Seq<Tree>,
    item: ItemView,
    exprs: Seq<Option<Seq<Tree>>>,
    at: Span,
) -> (updates: Updates)
    requires
        scope_fits(scope, deku, ty, item, at),
        collected(item.fields, updating(at)) == Ok::<_, Fail>(exprs),
    ensures
        updates.fit(item.fields),
        updater(scope, exprs, at) == update_item(deku, ty, item, updates, at),
{
    let fields = item.fields;
    let expr = updating(at);
    lemma_each_collected(fields, Seq::empty(), expr);
    assert forall|i: int| 0 <= i < fields.len() implies update_of(
        (#[trigger] fields[i]).attrs,
        at,
    ) == Ok::<_, Fail>(exprs[i]) by {
        assert(expr(fields[i]) == Ok::<_, Fail>(exprs[i]));
    }
    let updates = lemma_updates(fields, exprs, fields.len() as int, at);
    assert(fields.take(fields.len() as int) =~= fields);
    assert(Seq::new(
        fields.len(),
        |i: int| assignment(field_info(fields[i], i as nat, at), exprs[i], i as nat, at),
    ) =~= Seq::new(
        scope.fields.len(),
        |i: int| assignment(scope.fields[i], exprs[i], i as nat, at),
    ));
    lemma_trait_of(deku, "DekuUpdate"@, Seq::empty(), at);
    angles_hold_a_list(scope.params, at);
    lemma_impl_item(
        angled(scope.params, at),
        trait_of(deku, "DekuUpdate"@, Seq::empty(), at),
        ty,
        item.where_clause,
        update_body(scope, exprs, at),
        at,
    );
    updates
}

/// What is generated for writing without a context.
proof fn lemma_write_container(
    scope: ScopeView,
    deku: Seq<Tree>,
    ty: Seq<Tree>,
    item: ItemView,
    at: Span,
)
    requires
        scope_fits(scope, deku, ty, item, at),
    ensures
        write_container(scope, at) == container_write_item(deku, ty, item, at) + into_bytes_item(
            deku,
            ty,
            item,
            at,
        ),
{
    let slots = seq![("deku"@, deku), ("target"@, ty)];
    angles_hold_a_list(scope.params, at);
    angles_hold_a_list(seq![ty], at);
    lemma_trait_of(deku, "DekuContainerWrite"@, Seq::empty(), at);
    lemma_impl_item(
        angled(scope.params, at),
        trait_of(deku, "DekuContainerWrite"@, Seq::empty(), at),
        ty,
        item.where_clause,
        Seq::empty(),
        at,
    );
    let conversion_impl = derived_impl(
        angled(scope.params, at),
        fixed(TRY_FROM@, at) + bracketed(seq![ty], at),
        fixed(BYTES@, at),
        item.where_clause,
        filled(WRITE_BYTES@, slots, at),
        at,
    );
    lemma_impl_item(
        angled(scope.params, at),
        fixed(TRY_FROM@, at) + bracketed(seq![ty], at),
        fixed(BYTES@, at),
        item.where_clause,
        filled(WRITE_BYTES@, slots, at),
        at,
    );
    lemma_block_item(fixed(ALLOC@, at) + conversion_impl, at);
}

/// What a request for writing generates, whatever the kind of the struct's
/// fields: inside of the items that bind its parameters, the mirror with the
/// struct's deku attributes and a reference to each of its fields; `DekuWriter`
/// for each of its contexts; `DekuUpdate`, which assigns to each field that has
/// an `update`; and `DekuContainerWrite` and `TryFrom` into bytes exactly where
/// it needs no context. All impls are for the requested type.
pub proof fn writing_is_generated(
    target: PathView,
    item: ItemView,
    crate_path: Seq<Tree>,
    site: Span,
) -> (parts: (Bindings, Seq<Seq<Tree>>, Updates))
    requires
        instantiated(Mode::Write, target, item, crate_path, site) is Ok,
    ensures
        ({
            let (bindings, contexts, updates) = parts;
            let plain = item.params.filter(|param: ParamView| !(param is Lifetime));
            let args = plain_args(args_of(target, site)->Ok_0);
            let deku = deku_in(crate_path, site);
            let ty = concrete_type(target, item.params, site);
            let generics = seq![
                sign('<', site),
                joint('\'', site),
                name("__dg_ref"@, site),
                sign(',', site),
            ] + listed(bounded_lifetimes(item.params), site) + seq![sign('>', site)];
            let mirror = mirror_item(
                deku,
                "DekuWrite"@,
                item,
                "__DekuGenericWrite"@,
                generics,
                field_items(MirrorKind::Write, item.fields, site),
                site,
            );
            let writers = in_order(
                contexts.map_values(|ctx: Seq<Tree>| writer_item(deku, ty, item, ctx, site)),
            );
            let containers = if needs_no_context(item.attrs) {
                container_write_item(deku, ty, item, site) + into_bytes_item(deku, ty, item, site)
            } else {
                Seq::empty()
            };
            &&& bindings.bind_first(plain.len() as int, plain, args, site)
            &&& bindings.names_apart()
            &&& contexts_fit(contexts, item.attrs, site)
            &&& updates.fit(item.fields)
            &&& instantiated(Mode::Write, target, item, crate_path, site) == Ok::<_, Fail>(
                block_item(
                    in_order(bindings.outer) + block_item(
                        in_order(bindings.inner) + (mirror + writers + update_item(
                            deku,
                            ty,
                            item,
                            updates,
                            site,
                        ) + containers),
                        site,
                    ),
                    site,
                ),
            )
        }),
{
    let struct_name = ident_text(seq![item.ident]);
    let bindings = parameters_are_bound(target, struct_name, item.params, site);
    lemma_contexts(item.attrs, site);
    let instance = instance_of(Mode::Write, target, item, crate_path, site)->Ok_0;
    let scope = instance.scope;
    let deku = deku_in(crate_path, site);
    let ty = concrete_type(target, item.params, site);
    lemma_scope_fits(target, item, crate_path, site);
    let contexts = scope.ctx_list;
    lemma_field_items(MirrorKind::Write, item.fields, instance.mirrors, site);
    commas_make_a_list(scope.params, site);
    let generics = seq![
        sign('<', site),
        joint('\'', site),
        name("__dg_ref"@, site),
        sign(',', site),
    ] + listed(bounded_lifetimes(item.params), site) + seq![sign('>', site)];
    assert(write_generics(scope.params, site) =~= generics);
    lemma_mirror_item(
        scope,
        "DekuWrite"@,
        item,
        "__DekuGenericWrite"@,
        generics,
        field_items(MirrorKind::Write, item.fields, site),
        site,
    );
    let some = contexts.map_values(
        |ctx: Seq<Tree>| ctx_impl(scope, MirrorKind::Write, ctx, site),
    );
    let want = contexts.map_values(|ctx: Seq<Tree>| writer_item(deku, ty, item, ctx, site));
    assert forall|i: int| 0 <= i < contexts.len() implies some[i] == #[trigger] want[i] by {
        lemma_writer_item(scope, deku, ty, item, contexts[i], site);
    }
    assert(some =~= want);
    parts_are_in_order(want);
    let updates = lemma_update_item(scope, deku, ty, item, instance.updates, site);
    lemma_write_container(scope, deku, ty, item, site);
    let body = write_impls(scope, instance.mirrors, instance.updates, site);
    lemma_block_item(instance.bound.inner + body, site);
    lemma_block_item(
        instance.bound.outer + block_item(instance.bound.inner + body, site),
        site,
    );
    (bindings, contexts, updates)
}

} // verus!
