//! Attributes and their settings, read out of their tokens.
//!
//! All that the parsers have to say of a deku attribute is asked for when it is
//! read: its settings, and what the text of a setting is as code. What comes
//! back, an error too, is kept with the attribute, and what follows only looks
//! at it. The contracts of this module say which attributes can be read out of
//! some tokens.
use proc_macro2::{Span, TokenStream};
use vstd::prelude::*;

use crate::error::{seen, seen_list, Error, ErrorView};
use crate::stream::{copied, stream_list, stream_tokens, tokens_of, views, Shape, Tree};
use crate::syntax::{
    lex, lex_fails, lexes_as, parse_attributes, parse_exprs, parse_fn_params, parse_meta_list,
    prints_as, show, syn_attributes, syn_exprs, syn_fn_params, syn_metas, text_of, ArgsParts,
    ArgsPartsView, AttributeParts, AttributePartsView, FnParam, FnParamView, MetaParts,
    MetaPartsView,
};
use crate::text::same;

verus! {

/// An expression, and a text that it is printed as.
pub struct Printed {
    pub tokens: TokenStream,
    pub form: String,
}

impl View for Printed {
    type V = (Seq<Tree>, Seq<char>);

    open spec fn view(&self) -> (Seq<Tree>, Seq<char>) {
        (stream_tokens(self.tokens), self.form@)
    }
}

/// What a text is as code: its tokens, and these as parameters of a function
/// and as expressions.
pub struct Code {
    pub tokens: TokenStream,
    pub params: Result<Vec<FnParam>, Error>,
    pub exprs: Result<Vec<Printed>, Error>,
}

/// [`Code`] as the contracts see it.
pub struct CodeView {
    pub tokens: Seq<Tree>,
    pub params: Result<Seq<FnParamView>, ErrorView>,
    pub exprs: Result<Seq<(Seq<Tree>, Seq<char>)>, ErrorView>,
}

impl View for Code {
    type V = CodeView;

    open spec fn view(&self) -> CodeView {
        CodeView {
            tokens: stream_tokens(self.tokens),
            params: seen_list(self.params),
            exprs: seen_list(self.exprs),
        }
    }
}

/// A string literal, and what its text is as code, where it is looked at as
/// such.
pub struct StrLit {
    pub value: String,
    pub suffix: String,
    pub at: Span,
    pub code: Option<Result<Code, Error>>,
}

/// A [`StrLit`] as the contracts see it.
pub struct StrLitView {
    pub value: Seq<char>,
    pub suffix: Seq<char>,
    pub at: Span,
    pub code: Option<Result<CodeView, ErrorView>>,
}

impl View for StrLit {
    type V = StrLitView;

    open spec fn view(&self) -> StrLitView {
        StrLitView {
            value: self.value@,
            suffix: self.suffix@,
            at: self.at,
            code: match self.code {
                Some(code) => Some(seen(code)),
                None => None,
            },
        }
    }
}

/// One setting in the list of an attribute: `name`, `name(..)` or
/// `name = value`.
pub struct Meta {
    /// Its path, where that is a single identifier.
    pub name: Option<String>,
    /// Its path, and the equals sign of `name = value`.
    pub head: TokenStream,
    /// Its value, where that is a string literal.
    pub text: Option<StrLit>,
    /// All of it.
    pub tokens: TokenStream,
}

/// A [`Meta`] as the contracts see it.
pub struct MetaView {
    pub name: Option<Seq<char>>,
    pub head: Seq<Tree>,
    pub text: Option<StrLitView>,
    pub tokens: Seq<Tree>,
}

impl View for Meta {
    type V = MetaView;

    open spec fn view(&self) -> MetaView {
        MetaView {
            name: text_of(self.name),
            head: stream_tokens(self.head),
            text: match self.text {
                Some(text) => Some(text@),
                None => None,
            },
            tokens: stream_tokens(self.tokens),
        }
    }
}

/// The arguments of an attribute: none, a list of settings, or a value after an
/// equals sign, which stands at the given place. The list of an attribute that
/// is not deku's is not read.
pub enum Args {
    Bare,
    List(Result<Vec<Meta>, Error>),
    Unread,
    Value(Span),
}

/// [`Args`] as the contracts see them.
pub enum ArgsView {
    Bare,
    List(Result<Seq<MetaView>, ErrorView>),
    Unread,
    Value(Span),
}

/// An attribute.
pub struct Attribute {
    /// Its path, where that is a single identifier.
    pub name: Option<String>,
    pub path: TokenStream,
    pub args: Args,
    /// All of it, with `#` and brackets.
    pub tokens: TokenStream,
}

/// An [`Attribute`] as the contracts see it.
pub struct AttributeView {
    pub name: Option<Seq<char>>,
    pub path: Seq<Tree>,
    pub args: ArgsView,
    pub tokens: Seq<Tree>,
}

impl View for Attribute {
    type V = AttributeView;

    open spec fn view(&self) -> AttributeView {
        AttributeView {
            name: text_of(self.name),
            path: stream_tokens(self.path),
            args: match self.args {
                Args::Bare => ArgsView::Bare,
                Args::List(list) => ArgsView::List(seen_list(list)),
                Args::Unread => ArgsView::Unread,
                Args::Value(at) => ArgsView::Value(at),
            },
            tokens: stream_tokens(self.tokens),
        }
    }
}

/// Whether the text of a setting is an expression that is evaluated while
/// writing, in which sibling fields are visible as `&T` locals.
pub open spec fn write_expr(name: Seq<char>) -> bool {
    ||| name == "writer"@
    ||| name == "cond"@
    ||| name == "assert"@
    ||| name == "bits"@
    ||| name == "bytes"@
    ||| name == "pad_bits_before"@
    ||| name == "pad_bytes_before"@
    ||| name == "pad_bits_after"@
    ||| name == "pad_bytes_after"@
    ||| name == "seek_from_current"@
    ||| name == "seek_from_end"@
    ||| name == "seek_from_start"@
}

/// Whether a setting holds expressions that are evaluated while writing.
pub open spec fn holds_expr(name: Seq<char>, value: Seq<char>) -> bool {
    ||| write_expr(name)
    ||| name == "assert_eq"@
    ||| name == "ctx"@
    ||| name == "endian"@ && value != "big"@ && value != "little"@
}

/// Whether the text of the setting `name` is an expression that is evaluated
/// while writing.
pub(crate) fn is_write_expr(name: &str) -> (yes: bool)
    ensures
        yes == write_expr(name@),
{
    same(name, "writer") || same(name, "cond") || same(name, "assert") || same(name, "bits")
        || same(name, "bytes") || same(name, "pad_bits_before") || same(name, "pad_bytes_before")
        || same(name, "pad_bits_after") || same(name, "pad_bytes_after") || same(
        name,
        "seek_from_current",
    ) || same(name, "seek_from_end") || same(name, "seek_from_start")
}

/// Whether a setting holds expressions that are evaluated while writing.
pub(crate) fn is_expr_holder(name: &str, value: &str) -> (yes: bool)
    ensures
        yes == holds_expr(name@, value@),
{
    is_write_expr(name) || same(name, "assert_eq") || same(name, "ctx") || (same(name, "endian")
        && !same(value, "big") && !same(value, "little"))
}

/// An outcome whose error, if it is one, is about the text of a literal and so
/// stands at the literal.
pub open spec fn placed<V>(outcome: Result<V, ErrorView>, at: Span) -> Result<V, ErrorView> {
    match outcome {
        Ok(value) => Ok(value),
        Err(error) => Err(ErrorView { message: error.message, start: at, end: at }),
    }
}

/// Whether the tokens of a literal can be those parameters.
pub open spec fn params_read(
    tokens: Seq<Tree>,
    at: Span,
    outcome: Result<Seq<FnParamView>, ErrorView>,
) -> bool {
    exists|places: Seq<Span>| outcome == placed(#[trigger] syn_fn_params(tokens, places), at)
}

/// Whether the tokens of a literal can be those expressions.
pub open spec fn exprs_parsed(
    tokens: Seq<Tree>,
    at: Span,
    outcome: Result<Seq<Seq<Tree>>, ErrorView>,
) -> bool {
    exists|places: Seq<Span>| outcome == placed(#[trigger] syn_exprs(tokens, places), at)
}

/// Whether the expressions can be printed so.
pub open spec fn each_printed(
    exprs: Seq<Seq<Tree>>,
    printed: Seq<(Seq<Tree>, Seq<char>)>,
) -> bool {
    &&& printed.len() == exprs.len()
    &&& forall|i: int|
        0 <= i < exprs.len() ==> (#[trigger] printed[i]).0 == exprs[i] && prints_as(
            exprs[i],
            printed[i].1,
        )
}

/// Whether the tokens of a literal can be those expressions, printed so.
pub open spec fn exprs_read(
    tokens: Seq<Tree>,
    at: Span,
    outcome: Result<Seq<(Seq<Tree>, Seq<char>)>, ErrorView>,
) -> bool {
    exists|exprs: Result<Seq<Seq<Tree>>, ErrorView>| #[trigger]
        exprs_parsed(tokens, at, exprs) && match exprs {
            Ok(exprs) => outcome matches Ok(printed) && each_printed(exprs, printed),
            Err(error) => outcome == Err::<Seq<(Seq<Tree>, Seq<char>)>, _>(error),
        }
}

/// The expressions that the tokens of a literal are.
fn read_exprs(tokens: &TokenStream, at: Span) -> (result: Result<Vec<Printed>, Error>)
    ensures
        exprs_read(stream_tokens(*tokens), at, seen_list(result)),
{
    let exprs = match parse_exprs(tokens) {
        Ok(exprs) => exprs,
        Err(error) => {
            let error = Error::at(at, error.message);
            assert(exprs_parsed(stream_tokens(*tokens), at, Err(error@)));
            return Err(error);
        },
    };
    assert(exprs_parsed(stream_tokens(*tokens), at, Ok(stream_list(exprs@))));
    let ghost all = stream_list(exprs@);
    let mut out: Vec<Printed> = Vec::new();
    for i in 0..exprs.len()
        invariant
            all == stream_list(exprs@),
            out.len() == i,
            forall|k: int|
                0 <= k < i ==> (#[trigger] out@[k])@.0 == all[k] && prints_as(all[k], out@[k]@.1),
    {
        let form = show(&exprs[i]);
        out.push(Printed { tokens: copied(&exprs[i]), form });
    }
    proof {
        assert forall|i: int| 0 <= i < all.len() implies (#[trigger] views(out@)[i]).0 == all[i]
            && prints_as(all[i], views(out@)[i].1) by {
            assert(views(out@)[i] == out@[i]@);
        }
        assert(each_printed(all, views(out@)));
    }
    Ok(out)
}

/// Whether the text of a literal can be that code.
pub open spec fn code_read(
    value: Seq<char>,
    at: Span,
    outcome: Result<CodeView, ErrorView>,
) -> bool {
    match outcome {
        Ok(code) => {
            &&& lexes_as(value, at, code.tokens)
            &&& params_read(code.tokens, at, code.params)
            &&& exprs_read(code.tokens, at, code.exprs)
        },
        Err(error) => lex_fails(value, at, error),
    }
}

/// What the text of a literal is as code.
fn read_code(value: &str, at: Span) -> (result: Result<Code, Error>)
    ensures
        code_read(value@, at, seen(result)),
{
    let tokens = match lex(value, at) {
        Ok(tokens) => tokens,
        Err(error) => return Err(error),
    };
    let params = match parse_fn_params(&tokens) {
        Ok(params) => Ok(params),
        Err(error) => Err(Error::at(at, error.message)),
    };
    assert(params_read(stream_tokens(tokens), at, seen_list(params)));
    let exprs = read_exprs(&tokens, at);
    Ok(Code { tokens, params, exprs })
}

/// The string literal that a value is: its text, its suffix and its place.
pub open spec fn string_of(value: Option<Seq<Tree>>) -> Option<(Seq<char>, Seq<char>, Span)> {
    match value {
        Some(trees) => if trees.len() == 1 {
            match trees[0] {
                Tree::Str { value, suffix, at } => Some((value, suffix, at)),
                _ => None,
            }
        } else {
            None
        },
        None => None,
    }
}

/// The name of a setting; empty where its path is longer than one identifier.
pub open spec fn name_of(name: Option<Seq<char>>) -> Seq<char> {
    match name {
        Some(name) => name,
        None => Seq::empty(),
    }
}

/// Whether the text of a setting is looked at as code.
pub open spec fn is_code(name: Seq<char>, value: Seq<char>) -> bool {
    holds_expr(name, value) || name == "update"@
}

/// Whether a text can be that code, if it is looked at as code.
pub open spec fn text_read(
    name: Seq<char>,
    value: Seq<char>,
    at: Span,
    code: Option<Result<CodeView, ErrorView>>,
) -> bool {
    if is_code(name, value) {
        code matches Some(outcome) && code_read(value, at, outcome)
    } else {
        code is None
    }
}

/// Whether the parts can be that setting.
pub open spec fn meta_reads(parts: MetaPartsView, meta: MetaView) -> bool {
    &&& meta.name == parts.name
    &&& meta.head == parts.head
    &&& meta.tokens == parts.tokens
    &&& match string_of(parts.value) {
        Some((value, suffix, at)) => meta.text matches Some(text) && text.value == value
            && text.suffix == suffix && text.at == at && text_read(
            name_of(parts.name),
            value,
            at,
            text.code,
        ),
        None => meta.text is None,
    }
}

/// The setting that the parts are.
fn read_meta(parts: MetaParts) -> (meta: Meta)
    ensures
        meta_reads(parts@, meta@),
{
    let text = match &parts.value {
        Some(stream) => {
            let mut tokens = tokens_of(stream);
            assert(views(tokens@).len() == tokens.len());
            if tokens.len() == 1 {
                assert(views(tokens@)[0] == tokens@[0]@);
                let token = tokens.swap_remove(0);
                match token.shape {
                    Shape::Str(value, suffix) => {
                        let name = match &parts.name {
                            Some(name) => name.clone(),
                            None => String::new(),
                        };
                        let code = if is_expr_holder(name.as_str(), value.as_str()) || same(
                            name.as_str(),
                            "update",
                        ) {
                            Some(read_code(value.as_str(), token.span))
                        } else {
                            None
                        };
                        Some(StrLit { value, suffix, at: token.span, code })
                    },
                    _ => None,
                }
            } else {
                None
            }
        },
        None => None,
    };
    Meta { name: parts.name, head: parts.head, text, tokens: parts.tokens }
}

/// Whether the parts can be those settings, one for one.
pub open spec fn metas_read(parts: Seq<MetaPartsView>, metas: Seq<MetaView>) -> bool {
    &&& metas.len() == parts.len()
    &&& forall|i: int| 0 <= i < parts.len() ==> meta_reads(parts[i], #[trigger] metas[i])
}

/// Whether a list can have those parts.
pub open spec fn metas_parsed(
    list: Seq<Tree>,
    parts: Result<Seq<MetaPartsView>, ErrorView>,
) -> bool {
    exists|places: Seq<Span>| parts == #[trigger] syn_metas(list, places)
}

/// Whether a list can hold those settings.
pub open spec fn settings_read(
    list: Seq<Tree>,
    outcome: Result<Seq<MetaView>, ErrorView>,
) -> bool {
    exists|parts: Result<Seq<MetaPartsView>, ErrorView>| #[trigger]
        metas_parsed(list, parts) && match parts {
            Ok(parts) => outcome matches Ok(metas) && metas_read(parts, metas),
            Err(error) => outcome == Err::<Seq<MetaView>, _>(error),
        }
}

/// The settings in a list.
fn read_settings(list: &TokenStream) -> (result: Result<Vec<Meta>, Error>)
    ensures
        settings_read(stream_tokens(*list), seen_list(result)),
{
    let parsed = parse_meta_list(list);
    assert(metas_parsed(stream_tokens(*list), seen_list(parsed)));
    let parts = match parsed {
        Ok(parts) => parts,
        Err(error) => return Err(error),
    };
    let ghost all = parts@;
    let mut metas: Vec<Meta> = Vec::new();
    for part in it: parts
        invariant
            it.seq() == all,
            metas.len() == it.index(),
            forall|i: int| 0 <= i < it.index() ==> meta_reads(all[i]@, (#[trigger] metas@[i])@),
    {
        metas.push(read_meta(part));
    }
    proof {
        assert(metas_read(views(all), views(metas@))) by {
            assert forall|i: int| 0 <= i < all.len() implies meta_reads(
                views(all)[i],
                #[trigger] views(metas@)[i],
            ) by {
                assert(views(metas@)[i] == metas@[i]@);
            }
        }
    }
    Ok(metas)
}

/// Whether an attribute of that name is deku's.
pub open spec fn deku_name(name: Option<Seq<char>>) -> bool {
    name == Some("deku"@)
}

/// Whether the parts can be that attribute.
pub open spec fn attr_reads(parts: AttributePartsView, attr: AttributeView) -> bool {
    &&& attr.name == parts.name
    &&& attr.path == parts.path
    &&& attr.tokens == parts.tokens
    &&& match parts.args {
        ArgsPartsView::Bare => attr.args == ArgsView::Bare,
        ArgsPartsView::List(list) => if deku_name(parts.name) {
            attr.args matches ArgsView::List(outcome) && settings_read(list, outcome)
        } else {
            attr.args == ArgsView::Unread
        },
        ArgsPartsView::Value(at) => attr.args == ArgsView::Value(at),
    }
}

/// The attribute that the parts are.
fn read_attribute(parts: AttributeParts) -> (attr: Attribute)
    ensures
        attr_reads(parts@, attr@),
{
    let deku = match &parts.name {
        Some(name) => same(name.as_str(), "deku"),
        None => false,
    };
    let args = match &parts.args {
        ArgsParts::Bare => Args::Bare,
        ArgsParts::List(list) => if deku {
            Args::List(read_settings(list))
        } else {
            Args::Unread
        },
        ArgsParts::Value(at) => Args::Value(*at),
    };
    Attribute { name: parts.name, path: parts.path, args, tokens: parts.tokens }
}

/// Whether the parts can be those attributes, one for one.
pub open spec fn each_attr_reads(
    parts: Seq<AttributePartsView>,
    attrs: Seq<AttributeView>,
) -> bool {
    &&& attrs.len() == parts.len()
    &&& forall|i: int| 0 <= i < parts.len() ==> attr_reads(parts[i], #[trigger] attrs[i])
}

/// Whether some tokens can have those parts.
pub open spec fn attrs_parsed(
    tokens: Seq<Tree>,
    parts: Result<Seq<AttributePartsView>, ErrorView>,
) -> bool {
    exists|places: Seq<Span>| parts == #[trigger] syn_attributes(tokens, places)
}

/// Whether some tokens can be those attributes.
pub open spec fn attrs_read(
    tokens: Seq<Tree>,
    outcome: Result<Seq<AttributeView>, ErrorView>,
) -> bool {
    exists|parts: Result<Seq<AttributePartsView>, ErrorView>| #[trigger]
        attrs_parsed(tokens, parts) && match parts {
            Ok(parts) => outcome matches Ok(attrs) && each_attr_reads(parts, attrs),
            Err(error) => outcome == Err::<Seq<AttributeView>, _>(error),
        }
}

/// The attributes that some tokens are.
pub(crate) fn read_attributes(tokens: &TokenStream) -> (result: Result<Vec<Attribute>, Error>)
    ensures
        attrs_read(stream_tokens(*tokens), seen_list(result)),
{
    let parsed = parse_attributes(tokens);
    assert(attrs_parsed(stream_tokens(*tokens), seen_list(parsed)));
    let parts = match parsed {
        Ok(parts) => parts,
        Err(error) => return Err(error),
    };
    let ghost all = parts@;
    let mut attrs: Vec<Attribute> = Vec::new();
    for part in it: parts
        invariant
            it.seq() == all,
            attrs.len() == it.index(),
            forall|i: int| 0 <= i < it.index() ==> attr_reads(all[i]@, (#[trigger] attrs@[i])@),
    {
        attrs.push(read_attribute(part));
    }
    proof {
        assert(each_attr_reads(views(all), views(attrs@))) by {
            assert forall|i: int| 0 <= i < all.len() implies attr_reads(
                views(all)[i],
                #[trigger] views(attrs@)[i],
            ) by {
                assert(views(attrs@)[i] == attrs@[i]@);
            }
        }
    }
    Ok(attrs)
}

/// The same parameters once more.
fn copy_params(params: &Vec<FnParam>) -> (out: Vec<FnParam>)
    ensures
        views(out@) == views(params@),
{
    let mut out: Vec<FnParam> = Vec::new();
    for i in 0..params.len()
        invariant
            views(out@) =~= views(params@).take(i as int),
    {
        let ghost was = out@;
        let param = match &params[i] {
            FnParam::Typed(ty) => FnParam::Typed(copied(ty)),
            FnParam::Receiver(tokens) => FnParam::Receiver(copied(tokens)),
        };
        out.push(param);
        assert(views(out@) =~= views(was).push(params@[i as int]@));
    }
    assert(views(out@) =~= views(params@));
    out
}

/// The same expressions once more.
fn copy_exprs(exprs: &Vec<Printed>) -> (out: Vec<Printed>)
    ensures
        views(out@) == views(exprs@),
{
    let mut out: Vec<Printed> = Vec::new();
    for i in 0..exprs.len()
        invariant
            views(out@) =~= views(exprs@).take(i as int),
    {
        let ghost was = out@;
        out.push(Printed { tokens: copied(&exprs[i].tokens), form: exprs[i].form.clone() });
        assert(views(out@) =~= views(was).push(exprs@[i as int]@));
    }
    assert(views(out@) =~= views(exprs@));
    out
}

/// The same code once more.
fn copy_code(code: &Code) -> (out: Code)
    ensures
        out@ == code@,
{
    let params = match &code.params {
        Ok(params) => Ok(copy_params(params)),
        Err(error) => Err(error.copied()),
    };
    let exprs = match &code.exprs {
        Ok(exprs) => Ok(copy_exprs(exprs)),
        Err(error) => Err(error.copied()),
    };
    Code { tokens: copied(&code.tokens), params, exprs }
}

/// The same setting once more.
pub(crate) fn copy_meta(meta: &Meta) -> (out: Meta)
    ensures
        out@ == meta@,
{
    let name = match &meta.name {
        Some(name) => Some(name.clone()),
        None => None,
    };
    let text = match &meta.text {
        Some(text) => {
            let code = match &text.code {
                Some(Ok(code)) => Some(Ok(copy_code(code))),
                Some(Err(error)) => Some(Err(error.copied())),
                None => None,
            };
            Some(
                StrLit {
                    value: text.value.clone(),
                    suffix: text.suffix.clone(),
                    at: text.at,
                    code,
                },
            )
        },
        None => None,
    };
    Meta { name, head: copied(&meta.head), text, tokens: copied(&meta.tokens) }
}

} // verus!
