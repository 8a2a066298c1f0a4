//! The `#[deku(...)]` attributes: what they say of a struct, and how those of a
//! field are rewritten for its mirrors.
use proc_macro2::{Span, TokenStream};
use vstd::prelude::*;

use crate::error::{fits, owed, settles, settles_tokens, spanning, Error, ErrorView, Fail};
use crate::outcome::{folded, lemma_folded_next};
use crate::setting::{
    deku_name, name_of, Args, ArgsView, Attribute, AttributeView, CodeView, Meta, MetaView, StrLit,
    StrLitView,
};
use crate::stream::{copied, new_stream, stream_list, stream_tokens, views, Tree};
use crate::syntax::{tokens_in, FnParam, FnParamView};
use crate::text::same;

verus! {

/// Whether a mirror is used for reading (it owns its fields) or for writing
/// (its fields are shared references into the real struct).
#[derive(Clone, Copy, PartialEq, Eq, Structural, Debug)]
pub enum MirrorKind {
    Read,
    Write,
}

/// Whether an attribute is deku's.
pub open spec fn deku_attr(attr: AttributeView) -> bool {
    deku_name(attr.name)
}

/// Whether `attr` is one of deku's.
pub fn is_deku(attr: &Attribute) -> (yes: bool)
    ensures
        yes == deku_attr(attr@),
{
    match &attr.name {
        Some(name) => same(name.as_str(), "deku"),
        None => false,
    }
}

/// The settings in a deku attribute, which is a list in delimiters.
pub open spec fn settings(attr: AttributeView, site: Span) -> Result<Seq<MetaView>, Fail> {
    match attr.args {
        ArgsView::Bare | ArgsView::Unread => Err(
            Fail::Own(
                spanning(
                    attr.path,
                    "expected attribute arguments in parentheses: #[deku(...)]"@,
                    site,
                ),
            ),
        ),
        ArgsView::Value(at) => Err(
            Fail::Own(
                ErrorView { message: "expected parentheses: #[deku(...)]"@, start: at, end: at },
            ),
        ),
        ArgsView::List(outcome) => owed(outcome),
    }
}

/// The settings in a deku attribute.
pub(crate) fn parse_metas(attr: &Attribute, site: Span) -> (result: Result<&Vec<Meta>, Error>)
    requires
        deku_attr(attr@),
    ensures
        match result {
            Ok(metas) => settings(attr@, site) == Ok::<_, Fail>(views(metas@)),
            Err(error) => settings(attr@, site) matches Err(fail) && fits(error@, fail),
        },
{
    match &attr.args {
        Args::Bare | Args::Unread => Err(
            Error::spanning(
                &attr.path,
                String::from_str("expected attribute arguments in parentheses: #[deku(...)]"),
                site,
            ),
        ),
        Args::Value(at) => Err(
            Error::at(*at, String::from_str("expected parentheses: #[deku(...)]")),
        ),
        Args::List(Ok(metas)) => Ok(metas),
        Args::List(Err(error)) => Err(error.copied()),
    }
}

/// The name of a setting; empty where its path is longer than one identifier.
pub open spec fn setting_name(meta: MetaView) -> Seq<char> {
    name_of(meta.name)
}

/// The name of a setting; empty where its path is longer than one identifier.
pub(crate) fn meta_name(meta: &Meta) -> (name: String)
    ensures
        name@ == setting_name(meta@),
{
    match &meta.name {
        Some(name) => name.clone(),
        None => String::new(),
    }
}

/// Whether the setting is called `name`.
pub(crate) fn is_called(meta: &Meta, name: &str) -> (yes: bool)
    ensures
        yes == (setting_name(meta@) == name@),
{
    same(meta_name(meta).as_str(), name)
}

/// The string literal that stands after `name =`.
pub(crate) fn str_value(meta: &Meta) -> (literal: Option<&StrLit>)
    ensures
        match literal {
            Some(literal) => meta@.text == Some(literal@),
            None => meta@.text is None,
        },
{
    match &meta.text {
        Some(literal) => Some(literal),
        None => None,
    }
}

/// What the text of a literal is as code; nothing where it is not looked at as
/// such.
pub open spec fn code_of(literal: StrLitView) -> Result<CodeView, Fail> {
    match literal.code {
        Some(code) => owed(code),
        None => Ok(
            CodeView {
                tokens: Seq::empty(),
                params: Ok(Seq::empty()),
                exprs: Ok(Seq::empty()),
            },
        ),
    }
}

/// The tokens that the text of a literal spells.
pub open spec fn spelled(literal: StrLitView) -> Result<Seq<Tree>, Fail> {
    match code_of(literal) {
        Ok(code) => Ok(code.tokens),
        Err(fail) => Err(fail),
    }
}

/// The tokens that the text of a literal spells.
pub(crate) fn spell(literal: &StrLit) -> (result: Result<TokenStream, Error>)
    ensures
        settles_tokens(result, spelled(literal@)),
{
    match &literal.code {
        Some(Ok(code)) => Ok(copied(&code.tokens)),
        Some(Err(error)) => Err(error.copied()),
        None => Ok(new_stream()),
    }
}

/// A literal whose text is code has no suffix.
pub open spec fn unsuffixed(suffix: Seq<char>, at: Span) -> Result<(), Fail> {
    if suffix.len() == 0 {
        Ok(())
    } else {
        Err(
            Fail::Own(
                ErrorView {
                    message: "unexpected suffix `"@ + suffix + "` on string literal"@,
                    start: at,
                    end: at,
                },
            ),
        )
    }
}

/// A literal whose text is code has no suffix.
pub(crate) fn check_suffix(suffix: &str, at: Span) -> (result: Result<(), Error>)
    ensures
        settles(result, unsuffixed(suffix@, at)),
{
    if suffix.unicode_len() == 0 {
        return Ok(());
    }
    let mut message = String::from_str("unexpected suffix `");
    message.append(suffix);
    message.append("` on string literal");
    Err(Error::at(at, message))
}

/// Struct-level settings that change the shape of the generated impls.
pub struct StructAttrs {
    /// Types of the `ctx = "a: A, b: B"` arguments, if any.
    pub ctx: Option<Vec<TokenStream>>,
    /// Whether `ctx_default = "..."` is present.
    pub ctx_default: bool,
}

/// [`StructAttrs`] as the contracts see them.
pub struct StructAttrsView {
    pub ctx: Option<Seq<Seq<Tree>>>,
    pub ctx_default: bool,
}

impl View for StructAttrs {
    type V = StructAttrsView;

    open spec fn view(&self) -> StructAttrsView {
        StructAttrsView {
            ctx: match self.ctx {
                Some(types) => Some(stream_list(types@)),
                None => None,
            },
            ctx_default: self.ctx_default,
        }
    }
}

/// The types of a list of parameters, none of which is a receiver.
pub open spec fn param_types(params: Seq<FnParamView>, site: Span) -> Result<Seq<Seq<Tree>>, Fail> {
    folded(params, Seq::empty(), adding_type(site))
}

/// One more parameter for [`param_types`].
pub open spec fn adding_type(site: Span) -> spec_fn(Seq<Seq<Tree>>, FnParamView) -> Result<
    Seq<Seq<Tree>>,
    Fail,
> {
    |types: Seq<Seq<Tree>>, param: FnParamView|
        match param {
            FnParamView::Typed(ty) => Ok(types.push(ty)),
            FnParamView::Receiver(tokens) => Err(
                Fail::Own(spanning(tokens, "`self` is not allowed in a deku `ctx`"@, site)),
            ),
        }
}

/// The types in `ctx = "a: A, b: B"`.
pub open spec fn ctx_types(meta: MetaView, site: Span) -> Result<Seq<Seq<Tree>>, Fail> {
    match meta.text {
        None => Err(Fail::Own(spanning(meta.tokens, "`ctx` expects a string"@, site))),
        Some(literal) => match code_of(literal) {
            Err(fail) => Err(fail),
            Ok(code) => match owed(code.params) {
                Err(fail) => Err(fail),
                Ok(params) => match unsuffixed(literal.suffix, literal.at) {
                    Err(fail) => Err(fail),
                    Ok(_) => param_types(params, site),
                },
            },
        },
    }
}

/// The types in `ctx = "a: A, b: B"`.
fn read_ctx_types(meta: &Meta, site: Span) -> (result: Result<Vec<TokenStream>, Error>)
    ensures
        match result {
            Ok(types) => ctx_types(meta@, site) == Ok::<_, Fail>(stream_list(types@)),
            Err(error) => ctx_types(meta@, site) matches Err(fail) && fits(error@, fail),
        },
{
    let literal = match str_value(meta) {
        Some(literal) => literal,
        None => return Err(
            Error::spanning(&meta.tokens, String::from_str("`ctx` expects a string"), site),
        ),
    };
    let none: Vec<FnParam> = Vec::new();
    assert(views(none@) =~= Seq::empty());
    let params = match &literal.code {
        Some(Ok(code)) => match &code.params {
            Ok(params) => params,
            Err(error) => return Err(error.copied()),
        },
        Some(Err(error)) => return Err(error.copied()),
        None => &none,
    };
    match check_suffix(literal.suffix.as_str(), literal.at) {
        Ok(_) => {},
        Err(error) => return Err(error),
    }
    let ghost all = views(params@);
    let mut types: Vec<TokenStream> = Vec::new();
    assert(stream_list(types@) =~= Seq::empty());
    assert(all.skip(0) =~= all);
    for i in 0..params.len()
        invariant
            all == views(params@),
            ctx_types(meta@, site) == folded(
                all.skip(i as int),
                stream_list(types@),
                adding_type(site),
            ),
    {
        let ghost before = types@;
        proof {
            lemma_folded_next(all, i as int, stream_list(types@), adding_type(site));
            assert(all[i as int] == params@[i as int]@);
        }
        match &params[i] {
            FnParam::Typed(ty) => {
                types.push(copied(ty));
                assert(stream_list(types@) =~= stream_list(before).push(stream_tokens(*ty)));
            },
            FnParam::Receiver(tokens) => return Err(
                Error::spanning(
                    tokens,
                    String::from_str("`self` is not allowed in a deku `ctx`"),
                    site,
                ),
            ),
        }
    }
    assert(all.skip(all.len() as int) =~= Seq::empty());
    Ok(types)
}

/// A step for each setting of each deku attribute, in order.
pub open spec fn each_setting<S>(
    step: spec_fn(S, MetaView) -> Result<S, Fail>,
    site: Span,
) -> spec_fn(S, AttributeView) -> Result<S, Fail> {
    |state: S, attr: AttributeView|
        if deku_attr(attr) {
            match settings(attr, site) {
                Ok(metas) => folded(metas, state, step),
                Err(fail) => Err(fail),
            }
        } else {
            Ok(state)
        }
}

/// What one setting changes in the struct's.
pub open spec fn adding_setting(site: Span) -> spec_fn(StructAttrsView, MetaView) -> Result<
    StructAttrsView,
    Fail,
> {
    |state: StructAttrsView, meta: MetaView|
        {
            let name = setting_name(meta);
            if name == "ctx"@ {
                match ctx_types(meta, site) {
                    Ok(types) => Ok(
                        StructAttrsView { ctx: Some(types), ctx_default: state.ctx_default },
                    ),
                    Err(fail) => Err(fail),
                }
            } else if name == "ctx_default"@ {
                Ok(StructAttrsView { ctx: state.ctx, ctx_default: true })
            } else if name == "id_type"@ || name == "id"@ {
                Err(
                    Fail::Own(
                        spanning(
                            meta.tokens,
                            "deku_generic only supports structs; enum attributes are not allowed"@,
                            site,
                        ),
                    ),
                )
            } else {
                Ok(state)
            }
        }
}

/// What the attributes of a struct say: the last `ctx`, and whether there is a
/// `ctx_default`. The settings of enums are refused.
pub open spec fn struct_attrs_of(attrs: Seq<AttributeView>, site: Span) -> Result<
    StructAttrsView,
    Fail,
> {
    folded(
        attrs,
        StructAttrsView { ctx: None, ctx_default: false },
        each_setting(adding_setting(site), site),
    )
}

/// Adds the settings of one attribute.
fn add_settings(metas: &Vec<Meta>, state: StructAttrs, site: Span) -> (result: Result<
    StructAttrs,
    Error,
>)
    ensures
        settles(result, folded(views(metas@), state@, adding_setting(site))),
{
    let ghost all = views(metas@);
    let ghost owed = folded(all, state@, adding_setting(site));
    let mut out = state;
    assert(all.skip(0) =~= all);
    for i in 0..metas.len()
        invariant
            all == views(metas@),
            owed == folded(all, state@, adding_setting(site)),
            owed == folded(all.skip(i as int), out@, adding_setting(site)),
    {
        proof {
            lemma_folded_next(all, i as int, out@, adding_setting(site));
            assert(all[i as int] == metas@[i as int]@);
        }
        let meta = &metas[i];
        if is_called(meta, "ctx") {
            match read_ctx_types(meta, site) {
                Ok(types) => {
                    out.ctx = Some(types);
                },
                Err(error) => return Err(error),
            }
        } else if is_called(meta, "ctx_default") {
            out.ctx_default = true;
        } else if is_called(meta, "id_type") || is_called(meta, "id") {
            return Err(
                Error::spanning(
                    &meta.tokens,
                    String::from_str(
                        "deku_generic only supports structs; enum attributes are not allowed",
                    ),
                    site,
                ),
            );
        }
    }
    assert(all.skip(all.len() as int) =~= Seq::empty());
    Ok(out)
}

/// Reads the attributes of a struct.
pub fn parse_struct_attrs(attrs: &Vec<Attribute>, site: Span) -> (result: Result<
    StructAttrs,
    Error,
>)
    ensures
        settles(result, struct_attrs_of(views(attrs@), site)),
{
    let ghost all = views(attrs@);
    let ghost step = each_setting(adding_setting(site), site);
    let mut out = StructAttrs { ctx: None, ctx_default: false };
    assert(all.skip(0) =~= all);
    for i in 0..attrs.len()
        invariant
            all == views(attrs@),
            step == each_setting(adding_setting(site), site),
            struct_attrs_of(all, site) == folded(all.skip(i as int), out@, step),
    {
        proof {
            lemma_folded_next(all, i as int, out@, step);
            assert(all[i as int] == attrs@[i as int]@);
        }
        let attr = &attrs[i];
        if is_deku(attr) {
            let metas = match parse_metas(attr, site) {
                Ok(metas) => metas,
                Err(error) => return Err(error),
            };
            out = match add_settings(metas, out, site) {
                Ok(next) => next,
                Err(error) => return Err(error),
            };
        }
    }
    assert(all.skip(all.len() as int) =~= Seq::empty());
    Ok(out)
}

/// No setting of a field is `temp`.
pub open spec fn refusing_temp(site: Span) -> spec_fn((), MetaView) -> Result<(), Fail> {
    |_state: (), meta: MetaView|
        if setting_name(meta) == "temp"@ {
            Err(
                Fail::Own(
                    spanning(
                        meta.tokens,
                        "`#[deku(temp)]` fields are not supported by deku_generic"@,
                        site,
                    ),
                ),
            )
        } else {
            Ok(())
        }
}

/// Whether a field can be kept: it is not `#[deku(temp)]`, which would change
/// the field list of the real struct.
pub open spec fn field_supported(attrs: Seq<AttributeView>, site: Span) -> Result<(), Fail> {
    folded(attrs, (), each_setting(refusing_temp(site), site))
}

/// Refuses `temp` in the settings of one attribute.
fn refuse_temp(metas: &Vec<Meta>, site: Span) -> (result: Result<(), Error>)
    ensures
        settles(result, folded(views(metas@), (), refusing_temp(site))),
{
    let ghost all = views(metas@);
    let ghost owed = folded(all, (), refusing_temp(site));
    assert(all.skip(0) =~= all);
    for i in 0..metas.len()
        invariant
            all == views(metas@),
            owed == folded(all, (), refusing_temp(site)),
            owed == folded(all.skip(i as int), (), refusing_temp(site)),
    {
        proof {
            lemma_folded_next(all, i as int, (), refusing_temp(site));
            assert(all[i as int] == metas@[i as int]@);
        }
        if is_called(&metas[i], "temp") {
            return Err(
                Error::spanning(
                    &metas[i].tokens,
                    String::from_str("`#[deku(temp)]` fields are not supported by deku_generic"),
                    site,
                ),
            );
        }
    }
    assert(all.skip(all.len() as int) =~= Seq::empty());
    Ok(())
}

/// Refuses a field that is `#[deku(temp)]`.
pub fn check_field_supported(attrs: &Vec<Attribute>, site: Span) -> (result: Result<(), Error>)
    ensures
        settles(result, field_supported(views(attrs@), site)),
{
    let ghost all = views(attrs@);
    let ghost step = each_setting(refusing_temp(site), site);
    assert(all.skip(0) =~= all);
    for i in 0..attrs.len()
        invariant
            all == views(attrs@),
            step == each_setting(refusing_temp(site), site),
            field_supported(all, site) == folded(all.skip(i as int), (), step),
    {
        proof {
            lemma_folded_next(all, i as int, (), step);
            assert(all[i as int] == attrs@[i as int]@);
        }
        if is_deku(&attrs[i]) {
            match parse_metas(&attrs[i], site) {
                Ok(metas) => match refuse_temp(metas, site) {
                    Ok(_) => {},
                    Err(error) => return Err(error),
                },
                Err(error) => return Err(error),
            }
        }
    }
    assert(all.skip(all.len() as int) =~= Seq::empty());
    Ok(())
}

/// The expression of the first `update` among some settings, if there is one.
pub open spec fn update_in(metas: Seq<MetaView>, site: Span) -> Result<Option<Seq<Tree>>, Fail>
    decreases metas.len(),
{
    if metas.len() == 0 {
        Ok(None)
    } else if setting_name(metas[0]) != "update"@ {
        update_in(metas.skip(1), site)
    } else {
        match metas[0].text {
            None => Err(Fail::Own(spanning(metas[0].tokens, "`update` expects a string"@, site))),
            Some(literal) => match spelled(literal) {
                Err(fail) => Err(fail),
                Ok(tokens) => match unsuffixed(literal.suffix, literal.at) {
                    Err(fail) => Err(fail),
                    Ok(_) => Ok(Some(tokens)),
                },
            },
        }
    }
}

/// The expression of the first `update` in the attributes of a field, if there
/// is one. What follows it is not looked at.
pub open spec fn update_of(attrs: Seq<AttributeView>, site: Span) -> Result<
    Option<Seq<Tree>>,
    Fail,
>
    decreases attrs.len(),
{
    if attrs.len() == 0 {
        Ok(None)
    } else if !deku_attr(attrs[0]) {
        update_of(attrs.skip(1), site)
    } else {
        match settings(attrs[0], site) {
            Err(fail) => Err(fail),
            Ok(metas) => match update_in(metas, site) {
                Ok(None) => update_of(attrs.skip(1), site),
                outcome => outcome,
            },
        }
    }
}

/// Whether `result` is the expression that is owed.
pub open spec fn settles_update(
    result: Result<Option<TokenStream>, Error>,
    owed: Result<Option<Seq<Tree>>, Fail>,
) -> bool {
    match result {
        Ok(expr) => owed == Ok::<_, Fail>(tokens_in(expr)),
        Err(error) => owed matches Err(fail) && fits(error@, fail),
    }
}

/// The expression of the first `update` among some settings.
fn find_update(metas: &Vec<Meta>, site: Span) -> (result: Result<Option<TokenStream>, Error>)
    ensures
        settles_update(result, update_in(views(metas@), site)),
{
    let ghost all = views(metas@);
    assert(all.skip(0) =~= all);
    for i in 0..metas.len()
        invariant
            all == views(metas@),
            update_in(all, site) == update_in(all.skip(i as int), site),
    {
        let meta = &metas[i];
        assert(all.skip(i as int)[0] == meta@);
        assert(all.skip(i as int).skip(1) =~= all.skip(i + 1));
        if is_called(meta, "update") {
            let literal = match str_value(meta) {
                Some(literal) => literal,
                None => return Err(
                    Error::spanning(
                        &meta.tokens,
                        String::from_str("`update` expects a string"),
                        site,
                    ),
                ),
            };
            let tokens = match spell(literal) {
                Ok(tokens) => tokens,
                Err(error) => return Err(error),
            };
            return match check_suffix(literal.suffix.as_str(), literal.at) {
                Ok(_) => Ok(Some(tokens)),
                Err(error) => Err(error),
            };
        }
    }
    Ok(None)
}

/// The expression of the first `update` in the attributes of a field.
pub fn field_update(attrs: &Vec<Attribute>, site: Span) -> (result: Result<
    Option<TokenStream>,
    Error,
>)
    ensures
        settles_update(result, update_of(views(attrs@), site)),
{
    let ghost all = views(attrs@);
    assert(all.skip(0) =~= all);
    for i in 0..attrs.len()
        invariant
            all == views(attrs@),
            update_of(all, site) == update_of(all.skip(i as int), site),
    {
        let attr = &attrs[i];
        assert(all.skip(i as int)[0] == attr@);
        assert(all.skip(i as int).skip(1) =~= all.skip(i + 1));
        if is_deku(attr) {
            let metas = match parse_metas(attr, site) {
                Ok(metas) => metas,
                Err(error) => return Err(error),
            };
            match find_update(metas, site) {
                Ok(Some(expr)) => return Ok(Some(expr)),
                Ok(None) => {},
                Err(error) => return Err(error),
            }
        }
    }
    Ok(None)
}

} // verus!
