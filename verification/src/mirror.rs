//! The deku attributes of a field, rewritten for the mirror structs.
//!
//! `update` is dropped for either mirror, because it is the real struct that is
//! updated. The fields of the write mirror are references, so deku would hand
//! the expressions in its attributes the sibling fields as `&&T`. Every
//! expression that mentions a field is therefore put into a block that first
//! rebinds the field to `&T`.
use proc_macro2::{Span, TokenStream};
use vstd::prelude::*;

use crate::attrs::{
    check_suffix, code_of, deku_attr, each_setting, is_called, is_deku, meta_name, parse_metas,
    setting_name, settings, spell, spelled, str_value, unsuffixed, MirrorKind,
};
use crate::error::{fits, owed, settles, settles_list, Error, Fail};
use crate::outcome::{folded, lemma_folded_next};
use crate::setting::{
    copy_meta, holds_expr, is_expr_holder, is_write_expr, write_expr, Args, ArgsView, Attribute,
    AttributeView, Meta, MetaView, Printed, StrLit, StrLitView,
};
use crate::stream::{
    comma, comma_separated, copied, new_stream, push_group, push_ident, push_punct, push_string,
    stream_list, stream_tokens, tokens_of, views, Delim, Shape, Tree,
};
use crate::text::{among, join, joined, same, texts};

verus! {

/// The identifiers among the trees, those inside of groups too.
pub open spec fn idents(trees: Seq<Tree>) -> Seq<Seq<char>>
    decreases trees,
{
    if trees.len() == 0 {
        Seq::empty()
    } else {
        let before = idents(trees.drop_last());
        match trees.last() {
            Tree::Ident { text, at: _ } => before.push(text),
            Tree::Group { delim: _, inner, at: _ } => before + idents(inner),
            _ => before,
        }
    }
}

/// Adds the identifiers among the tokens to `out`.
fn collect_idents(stream: &TokenStream, out: &mut Vec<String>)
    ensures
        texts(final(out)@) == texts(old(out)@) + idents(stream_tokens(*stream)),
    decreases stream_tokens(*stream),
{
    let tokens = tokens_of(stream);
    let ghost trees = stream_tokens(*stream);
    let ghost before = texts(out@);
    assert(before + Seq::<Seq<char>>::empty() =~= before);
    for i in 0..tokens.len()
        invariant
            trees == stream_tokens(*stream),
            views(tokens@) == trees,
            texts(out@) == before + idents(trees.take(i as int)),
    {
        let ghost was = texts(out@);
        let ghost found = idents(trees.take(i as int));
        assert(views(tokens@)[i as int] == tokens@[i as int]@);
        assert(trees.take(i + 1).drop_last() =~= trees.take(i as int));
        assert(trees.take(i + 1).last() == trees[i as int]);
        match &tokens[i].shape {
            Shape::Ident(text) => {
                out.push(text.clone());
                assert(texts(out@) =~= was.push(text@));
                assert(was.push(text@) =~= before + found.push(text@));
            },
            Shape::Group(_, inner) => {
                assert(decreases_to!(trees => trees[i as int]));
                assert(decreases_to!(trees[i as int] => trees[i as int]->Group_inner));
                collect_idents(inner, out);
                assert(texts(out@) =~= before + (found + idents(stream_tokens(*inner))));
            },
            _ => {},
        }
    }
    assert(trees.take(tokens.len() as int) =~= trees);
}

/// The fields that are mentioned among the trees, in the order of the fields.
pub open spec fn mentioned(trees: Seq<Tree>, names: Seq<Seq<char>>) -> Seq<Seq<char>> {
    names.filter(|name: Seq<char>| idents(trees).contains(name))
}

/// `let a = *a;`
pub open spec fn rebind(name: Seq<char>) -> Seq<char> {
    "let "@ + name + " = *"@ + name + ";"@
}

/// `{ let a = *a; let b = *b; (expr) }`, for the given fields; the expression
/// as it is where there are none.
pub open spec fn wrapped(expr: Seq<char>, fields: Seq<Seq<char>>, prefix: Seq<char>) -> Seq<char> {
    if fields.len() == 0 {
        expr
    } else {
        prefix + "{ "@ + joined(fields.map_values(|field: Seq<char>| rebind(field)), " "@) + " ("@
            + expr + ") }"@
    }
}

/// The text `expr` of some tokens, in a block that rebinds the fields which
/// the tokens mention.
fn wrap_tokens(expr: &str, tokens: &TokenStream, names: &Vec<String>, prefix: &str) -> (text:
    String)
    ensures
        text@ == wrapped(expr@, mentioned(stream_tokens(*tokens), texts(names@)), prefix@),
{
    let mut used: Vec<String> = Vec::new();
    assert(texts(used@) =~= Seq::empty());
    collect_idents(tokens, &mut used);
    let ghost trees = stream_tokens(*tokens);
    let ghost all = texts(names@);
    let ghost keep = |name: Seq<char>| idents(trees).contains(name);
    assert(texts(used@) =~= idents(trees));
    let mut rebinds: Vec<String> = Vec::new();
    assert(texts(rebinds@) =~= Seq::empty());
    let ghost rebinding = |field: Seq<char>| rebind(field);
    for i in 0..names.len()
        invariant
            all == texts(names@),
            texts(used@) == idents(trees),
            keep == (|name: Seq<char>| idents(trees).contains(name)),
            rebinding == (|field: Seq<char>| rebind(field)),
            texts(rebinds@) == all.take(i as int).filter(keep).map_values(rebinding),
    {
        assert(all.take(i + 1).drop_last() =~= all.take(i as int));
        let ghost was = rebinds@;
        let ghost kept = all.take(i as int).filter(keep);
        proof {
            reveal(Seq::filter);
        }
        if among(&used, &names[i]) {
            let name = names[i].as_str();
            let mut text = String::from_str("let ");
            text.append(name);
            text.append(" = *");
            text.append(name);
            text.append(";");
            rebinds.push(text);
            assert(texts(rebinds@) =~= texts(was).push(rebind(all[i as int])));
            assert(kept.push(all[i as int]).map_values(rebinding) =~= kept.map_values(
                rebinding,
            ).push(rebind(all[i as int])));
        }
    }
    assert(all.take(names.len() as int) =~= all);
    assert(mentioned(trees, all) == all.filter(keep));
    assert(texts(rebinds@).len() == rebinds.len());
    if rebinds.len() == 0 {
        return String::from_str(expr);
    }
    let mut text = String::from_str(prefix);
    text.append("{ ");
    text.append(join(&rebinds, " ").as_str());
    text.append(" (");
    text.append(expr);
    text.append(") }");
    text
}

/// The expression in a literal, wrapped for the fields that it mentions.
pub open spec fn wrapping(literal: StrLitView, names: Seq<Seq<char>>) -> Result<Seq<char>, Fail> {
    match spelled(literal) {
        Ok(tokens) => Ok(wrapped(literal.value, mentioned(tokens, names), ""@)),
        Err(fail) => Err(fail),
    }
}

/// The printed expressions, each wrapped for the fields that it mentions.
pub open spec fn wrapped_forms(
    exprs: Seq<(Seq<Tree>, Seq<char>)>,
    names: Seq<Seq<char>>,
) -> Seq<Seq<char>> {
    Seq::new(exprs.len(), |i: int| wrapped(exprs[i].1, mentioned(exprs[i].0, names), ""@))
}

/// The expressions in a literal, each wrapped for the fields that it mentions.
pub open spec fn wrapping_each(literal: StrLitView, names: Seq<Seq<char>>) -> Result<
    Seq<char>,
    Fail,
> {
    match code_of(literal) {
        Err(fail) => Err(fail),
        Ok(code) => match owed(code.exprs) {
            Err(fail) => Err(fail),
            Ok(exprs) => match unsuffixed(literal.suffix, literal.at) {
                Err(fail) => Err(fail),
                Ok(_) => Ok(joined(wrapped_forms(exprs, names), ", "@)),
            },
        },
    }
}

/// The expressions of a setting, if it holds any, are made of tokens.
pub open spec fn expr_spelled() -> spec_fn((), MetaView) -> Result<(), Fail> {
    |_state: (), meta: MetaView|
        match meta.text {
            Some(literal) => if holds_expr(setting_name(meta), literal.value) {
                match spelled(literal) {
                    Ok(_) => Ok(()),
                    Err(fail) => Err(fail),
                }
            } else {
                Ok(())
            },
            None => Ok(()),
        }
}

/// The expressions of a field that are evaluated while writing are made of
/// tokens.
pub open spec fn exprs_spelled(attrs: Seq<AttributeView>, site: Span) -> Result<(), Fail> {
    folded(attrs, (), each_setting(expr_spelled(), site))
}

/// Checks the expressions in the settings of one attribute.
fn check_settings(metas: &Vec<Meta>) -> (result: Result<(), Error>)
    ensures
        settles(result, folded(views(metas@), (), expr_spelled())),
{
    let ghost all = views(metas@);
    let ghost owed = folded(all, (), expr_spelled());
    assert(all.skip(0) =~= all);
    for i in 0..metas.len()
        invariant
            all == views(metas@),
            owed == folded(all, (), expr_spelled()),
            owed == folded(all.skip(i as int), (), expr_spelled()),
    {
        proof {
            lemma_folded_next(all, i as int, (), expr_spelled());
            assert(all[i as int] == metas@[i as int]@);
        }
        if let Some(literal) = str_value(&metas[i]) {
            let name = meta_name(&metas[i]);
            if is_expr_holder(name.as_str(), literal.value.as_str()) {
                match spell(literal) {
                    Ok(_) => {},
                    Err(error) => return Err(error),
                }
            }
        }
    }
    assert(all.skip(all.len() as int) =~= Seq::empty());
    Ok(())
}

/// Checks the expressions of a field that are evaluated while writing.
pub fn check_expressions(attrs: &Vec<Attribute>, site: Span) -> (result: Result<(), Error>)
    ensures
        settles(result, exprs_spelled(views(attrs@), site)),
{
    let ghost all = views(attrs@);
    let ghost step = each_setting(expr_spelled(), site);
    assert(all.skip(0) =~= all);
    for i in 0..attrs.len()
        invariant
            all == views(attrs@),
            step == each_setting(expr_spelled(), site),
            exprs_spelled(all, site) == folded(all.skip(i as int), (), step),
    {
        proof {
            lemma_folded_next(all, i as int, (), step);
            assert(all[i as int] == attrs@[i as int]@);
        }
        if is_deku(&attrs[i]) {
            match parse_metas(&attrs[i], site) {
                Ok(metas) => match check_settings(metas) {
                    Ok(_) => {},
                    Err(error) => return Err(error),
                },
                Err(error) => return Err(error),
            }
        }
    }
    assert(all.skip(all.len() as int) =~= Seq::empty());
    Ok(())
}

/// A string literal without a suffix.
pub open spec fn string(value: Seq<char>, at: Span) -> Tree {
    Tree::Str { value, suffix: Seq::empty(), at }
}

/// A setting with another text in the place of the one that was written.
pub open spec fn with_text(meta: MetaView, text: Seq<char>, at: Span) -> MetaView {
    MetaView {
        name: meta.name,
        head: meta.head,
        text: Some(StrLitView { value: text, suffix: Seq::empty(), at, code: None }),
        tokens: meta.head.push(string(text, at)),
    }
}

/// A setting for the write mirror. deku compares the value of `assert_eq` to
/// `*(field)`, which is a `&T` on the mirror, so the value is made one too.
pub open spec fn rewriting(meta: MetaView, names: Seq<Seq<char>>) -> Result<MetaView, Fail> {
    let name = setting_name(meta);
    match meta.text {
        None => Ok(meta),
        Some(literal) => if write_expr(name) || (name == "endian"@ && literal.value != "big"@
            && literal.value != "little"@) {
            match wrapping(literal, names) {
                Ok(text) => Ok(with_text(meta, text, literal.at)),
                Err(fail) => Err(fail),
            }
        } else if name == "assert_eq"@ {
            match wrapping(literal, names) {
                Ok(text) => Ok(with_text(meta, "&("@ + text + ")"@, literal.at)),
                Err(fail) => Err(fail),
            }
        } else if name == "ctx"@ {
            match wrapping_each(literal, names) {
                Ok(text) => Ok(with_text(meta, text, literal.at)),
                Err(fail) => Err(fail),
            }
        } else {
            Ok(meta)
        },
    }
}

/// The text of an expression, in a block that rebinds the fields which it
/// mentions.
fn wrap_expr(literal: &StrLit, names: &Vec<String>) -> (result: Result<String, Error>)
    ensures
        match result {
            Ok(text) => wrapping(literal@, texts(names@)) == Ok::<_, Fail>(text@),
            Err(error) => wrapping(literal@, texts(names@)) matches Err(fail) && fits(error@, fail),
        },
{
    match spell(literal) {
        Ok(tokens) => Ok(wrap_tokens(literal.value.as_str(), &tokens, names, "")),
        Err(error) => Err(error),
    }
}

/// The texts of the expressions in a literal, each in a block that rebinds the
/// fields which it mentions.
fn wrap_exprs(literal: &StrLit, names: &Vec<String>) -> (result: Result<String, Error>)
    ensures
        match result {
            Ok(text) => wrapping_each(literal@, texts(names@)) == Ok::<_, Fail>(text@),
            Err(error) => wrapping_each(literal@, texts(names@)) matches Err(fail) && fits(
                error@,
                fail,
            ),
        },
{
    let none: Vec<Printed> = Vec::new();
    assert(views(none@) =~= Seq::empty());
    let exprs = match &literal.code {
        Some(Ok(code)) => match &code.exprs {
            Ok(exprs) => exprs,
            Err(error) => return Err(error.copied()),
        },
        Some(Err(error)) => return Err(error.copied()),
        None => &none,
    };
    match check_suffix(literal.suffix.as_str(), literal.at) {
        Ok(_) => {},
        Err(error) => return Err(error),
    }
    let ghost all = wrapped_forms(views(exprs@), texts(names@));
    let mut parts: Vec<String> = Vec::new();
    for i in 0..exprs.len()
        invariant
            all == wrapped_forms(views(exprs@), texts(names@)),
            texts(parts@) =~= all.take(i as int),
    {
        let ghost was = parts@;
        assert(views(exprs@)[i as int] == exprs@[i as int]@);
        parts.push(wrap_tokens(exprs[i].form.as_str(), &exprs[i].tokens, names, ""));
        assert(texts(parts@) =~= texts(was).push(all[i as int]));
    }
    assert(texts(parts@) =~= all);
    Ok(join(&parts, ", "))
}

/// `name = "text"`
fn make_with_text(meta: &Meta, text: String, at: Span) -> (out: Meta)
    ensures
        out@ == with_text(meta@, text@, at),
{
    let mut tokens = copied(&meta.head);
    push_string(&mut tokens, text.as_str(), at);
    let name = match &meta.name {
        Some(name) => Some(name.clone()),
        None => None,
    };
    let suffix = String::new();
    assert(suffix@ =~= Seq::empty());
    Meta {
        name,
        head: copied(&meta.head),
        text: Some(StrLit { value: text, suffix, at, code: None }),
        tokens,
    }
}

/// A setting for the write mirror.
fn rewrite_for_write(meta: &Meta, names: &Vec<String>) -> (result: Result<Meta, Error>)
    ensures
        settles(result, rewriting(meta@, texts(names@))),
{
    let literal = match str_value(meta) {
        Some(literal) => literal,
        None => return Ok(copy_meta(meta)),
    };
    let name = meta_name(meta);
    let value = literal.value.as_str();
    let text = if is_write_expr(name.as_str()) || (same(name.as_str(), "endian") && !same(
        value,
        "big",
    ) && !same(value, "little")) {
        match wrap_expr(literal, names) {
            Ok(text) => text,
            Err(error) => return Err(error),
        }
    } else if same(name.as_str(), "assert_eq") {
        match wrap_expr(literal, names) {
            Ok(wrapped) => {
                let mut text = String::from_str("&(");
                text.append(wrapped.as_str());
                text.append(")");
                text
            },
            Err(error) => return Err(error),
        }
    } else if same(name.as_str(), "ctx") {
        match wrap_exprs(literal, names) {
            Ok(text) => text,
            Err(error) => return Err(error),
        }
    } else {
        return Ok(copy_meta(meta));
    };
    Ok(make_with_text(meta, text, literal.at))
}

/// One more setting of an attribute for a mirror.
pub open spec fn adding_rewrite(kind: MirrorKind, names: Seq<Seq<char>>) -> spec_fn(
    Seq<MetaView>,
    MetaView,
) -> Result<Seq<MetaView>, Fail> {
    |metas: Seq<MetaView>, meta: MetaView|
        if setting_name(meta) == "update"@ {
            Ok(metas)
        } else if kind == MirrorKind::Read {
            Ok(metas.push(meta))
        } else {
            match rewriting(meta, names) {
                Ok(rewritten) => Ok(metas.push(rewritten)),
                Err(fail) => Err(fail),
            }
        }
}

/// `#[deku(...)]`
pub open spec fn deku_list(inner: Seq<Tree>, at: Span) -> Seq<Tree> {
    seq![
        Tree::Punct { ch: '#', joint: false, at },
        Tree::Group {
            delim: Delim::Bracket,
            inner: seq![
                Tree::Ident { text: "deku"@, at },
                Tree::Group { delim: Delim::Paren, inner, at },
            ],
            at,
        },
    ]
}

/// The tokens of settings.
pub open spec fn metas_tokens(metas: Seq<MetaView>) -> Seq<Seq<Tree>> {
    metas.map_values(|meta: MetaView| meta.tokens)
}

/// The attribute `#[deku(...)]` with the given settings, which commas separate.
pub open spec fn deku_with(metas: Seq<MetaView>, site: Span) -> AttributeView {
    AttributeView {
        name: Some("deku"@),
        path: seq![Tree::Ident { text: "deku"@, at: site }],
        args: ArgsView::List(Ok(metas)),
        tokens: deku_list(joined(metas_tokens(metas), seq![comma(site)]), site),
    }
}

/// One more attribute of a field for a mirror; one that is left empty goes.
pub open spec fn adding_mirrored(kind: MirrorKind, names: Seq<Seq<char>>, site: Span) -> spec_fn(
    Seq<AttributeView>,
    AttributeView,
) -> Result<Seq<AttributeView>, Fail> {
    |attrs: Seq<AttributeView>, attr: AttributeView|
        if deku_attr(attr) {
            match settings(attr, site) {
                Err(fail) => Err(fail),
                Ok(metas) => match folded(metas, Seq::empty(), adding_rewrite(kind, names)) {
                    Err(fail) => Err(fail),
                    Ok(metas) => if metas.len() == 0 {
                        Ok(attrs)
                    } else {
                        Ok(attrs.push(deku_with(metas, site)))
                    },
                },
            }
        } else {
            Ok(attrs)
        }
}

/// The deku attributes of a field for a mirror.
pub open spec fn mirrored(
    attrs: Seq<AttributeView>,
    kind: MirrorKind,
    names: Seq<Seq<char>>,
    site: Span,
) -> Result<Seq<AttributeView>, Fail> {
    folded(attrs, Seq::empty(), adding_mirrored(kind, names, site))
}

/// The attribute `#[deku(...)]` with the given settings.
pub(crate) fn make_deku(metas: Vec<Meta>, site: Span) -> (attr: Attribute)
    ensures
        attr@ == deku_with(views(metas@), site),
{
    proof {
        reveal_strlit("deku");
    }
    let ghost all = metas_tokens(views(metas@));
    let mut parts: Vec<TokenStream> = Vec::new();
    for i in 0..metas.len()
        invariant
            all == metas_tokens(views(metas@)),
            stream_list(parts@) =~= all.take(i as int),
    {
        let ghost was = parts@;
        assert(views(metas@)[i as int] == metas@[i as int]@);
        parts.push(copied(&metas[i].tokens));
        assert(stream_list(parts@) =~= stream_list(was).push(all[i as int]));
    }
    assert(stream_list(parts@) =~= all);
    let inner = comma_separated(&parts, site);
    let mut path = new_stream();
    push_ident(&mut path, "deku", site);
    let mut list = copied(&path);
    push_group(&mut list, Delim::Paren, &inner, site);
    let mut tokens = new_stream();
    push_punct(&mut tokens, '#', false, site);
    push_group(&mut tokens, Delim::Bracket, &list, site);
    assert(stream_tokens(path) =~= seq![Tree::Ident { text: "deku"@, at: site }]);
    assert(stream_tokens(list) =~= seq![
        Tree::Ident { text: "deku"@, at: site },
        Tree::Group { delim: Delim::Paren, inner: stream_tokens(inner), at: site },
    ]);
    assert(stream_tokens(tokens) =~= deku_list(stream_tokens(inner), site));
    Attribute {
        name: Some(String::from_str("deku")),
        path,
        args: Args::List(Ok(metas)),
        tokens,
    }
}

/// The settings of one attribute for a mirror.
fn rewrite_metas(metas: &Vec<Meta>, kind: MirrorKind, names: &Vec<String>) -> (result: Result<
    Vec<Meta>,
    Error,
>)
    ensures
        settles_list(
            result,
            folded(views(metas@), Seq::empty(), adding_rewrite(kind, texts(names@))),
        ),
{
    let ghost all = views(metas@);
    let ghost step = adding_rewrite(kind, texts(names@));
    let ghost owed = folded(all, Seq::empty(), step);
    let mut out: Vec<Meta> = Vec::new();
    assert(views(out@) =~= Seq::empty());
    assert(all.skip(0) =~= all);
    for i in 0..metas.len()
        invariant
            all == views(metas@),
            step == adding_rewrite(kind, texts(names@)),
            owed == folded(all, Seq::empty(), step),
            owed == folded(all.skip(i as int), views(out@), step),
    {
        proof {
            lemma_folded_next(all, i as int, views(out@), step);
            assert(all[i as int] == metas@[i as int]@);
        }
        let ghost was = out@;
        if !is_called(&metas[i], "update") {
            let meta = match kind {
                MirrorKind::Read => copy_meta(&metas[i]),
                MirrorKind::Write => match rewrite_for_write(&metas[i], names) {
                    Ok(meta) => meta,
                    Err(error) => return Err(error),
                },
            };
            out.push(meta);
            assert(views(out@) =~= views(was).push(meta@));
        }
    }
    assert(all.skip(all.len() as int) =~= Seq::empty());
    Ok(out)
}

/// The deku attributes of a field, for a mirror.
pub fn mirror_field_attrs(
    attrs: &Vec<Attribute>,
    kind: MirrorKind,
    names: &Vec<String>,
    site: Span,
) -> (result: Result<Vec<Attribute>, Error>)
    ensures
        settles_list(result, mirrored(views(attrs@), kind, texts(names@), site)),
{
    let ghost all = views(attrs@);
    let ghost step = adding_mirrored(kind, texts(names@), site);
    let mut out: Vec<Attribute> = Vec::new();
    assert(views(out@) =~= Seq::empty());
    assert(all.skip(0) =~= all);
    for i in 0..attrs.len()
        invariant
            all == views(attrs@),
            step == adding_mirrored(kind, texts(names@), site),
            mirrored(all, kind, texts(names@), site) == folded(
                all.skip(i as int),
                views(out@),
                step,
            ),
    {
        proof {
            lemma_folded_next(all, i as int, views(out@), step);
            assert(all[i as int] == attrs@[i as int]@);
        }
        if is_deku(&attrs[i]) {
            let metas = match parse_metas(&attrs[i], site) {
                Ok(metas) => metas,
                Err(error) => return Err(error),
            };
            let kept = match rewrite_metas(metas, kind, names) {
                Ok(kept) => kept,
                Err(error) => return Err(error),
            };
            assert(views(kept@).len() == kept.len());
            if kept.len() > 0 {
                let ghost was = out@;
                let attr = make_deku(kept, site);
                out.push(attr);
                assert(views(out@) =~= views(was).push(attr@));
            }
        }
    }
    assert(all.skip(all.len() as int) =~= Seq::empty());
    Ok(out)
}

} // verus!
