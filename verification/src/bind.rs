//! The generic arguments of a requested instantiation.
//!
//! They are checked against the parameters of the struct and bound to the
//! parameters' names by alias items.
use proc_macro2::{Span, TokenStream};
use vstd::prelude::*;

use crate::code::{fixed, make_fixed, make_mark, mark};
use crate::emit::{make_word, word};
use crate::error::{
    fits, owed, seen_list, settles, settles_tokens, spanning, Error, ErrorView, Fail,
};
use crate::outcome::{folded, lemma_folded_next};
use crate::stream::{
    append, ascii_ident, ascii_word_char, comma, comma_separated, copied, decimal, new_stream,
    push_ident, push_punct, stream_list, stream_tokens, tokens_of, views, Delim, Shape, Tree,
};
use crate::syntax::{
    parse_generic_args, syn_generic_args, Arg, ArgView, Param, ParamView, PathParts,
    PathPartsView,
};
use crate::text::{decimal_text, joined, same};

verus! {

/// The text of the identifier that comes first; empty where none does.
pub open spec fn ident_text(trees: Seq<Tree>) -> Seq<char> {
    if trees.len() > 0 {
        match trees[0] {
            Tree::Ident { text, at: _ } => text,
            _ => Seq::empty(),
        }
    } else {
        Seq::empty()
    }
}

/// The text of the identifier that comes first; empty where none does.
pub(crate) fn read_ident_text(stream: &TokenStream) -> (text: String)
    ensures
        text@ == ident_text(stream_tokens(*stream)),
{
    let tokens = tokens_of(stream);
    assert(views(tokens@).len() == tokens.len());
    if tokens.len() > 0 {
        assert(views(tokens@)[0] == tokens@[0]@);
        match &tokens[0].shape {
            Shape::Ident(text) => text.clone(),
            _ => String::new(),
        }
    } else {
        String::new()
    }
}

/// A path to a struct, perhaps with generic arguments.
pub struct Path {
    /// All that stands before the last segment.
    pub lead: TokenStream,
    /// The name in the last segment, and its arguments.
    pub ident: TokenStream,
    pub args: TokenStream,
    /// The arguments as a list in angle brackets.
    pub list: Result<Vec<Arg>, Error>,
    /// All of the path.
    pub tokens: TokenStream,
}

/// A [`Path`] as the contracts see it.
pub struct PathView {
    pub lead: Seq<Tree>,
    pub ident: Seq<Tree>,
    pub args: Seq<Tree>,
    pub list: Result<Seq<ArgView>, ErrorView>,
    pub tokens: Seq<Tree>,
}

impl View for Path {
    type V = PathView;

    open spec fn view(&self) -> PathView {
        PathView {
            lead: stream_tokens(self.lead),
            ident: stream_tokens(self.ident),
            args: stream_tokens(self.args),
            list: seen_list(self.list),
            tokens: stream_tokens(self.tokens),
        }
    }
}

/// Whether the parts can be that path.
pub open spec fn path_reads(parts: PathPartsView, path: PathView) -> bool {
    &&& path.lead == parts.lead
    &&& path.ident == parts.ident
    &&& path.args == parts.args
    &&& path.tokens == parts.tokens
    &&& exists|places: Seq<Span>| path.list == #[trigger] syn_generic_args(parts.args, places)
}

/// The path that the parts are.
pub(crate) fn read_path(parts: PathParts) -> (path: Path)
    ensures
        path_reads(parts@, path@),
{
    let list = parse_generic_args(&parts.args);
    Path { lead: parts.lead, ident: parts.ident, args: parts.args, list, tokens: parts.tokens }
}

/// The same argument once more.
fn copy_whole_arg(arg: &Arg) -> (out: Arg)
    ensures
        out@ == arg@,
{
    match arg {
        Arg::Lifetime { name, tokens } => Arg::Lifetime {
            name: name.clone(),
            tokens: copied(tokens),
        },
        Arg::Type(tokens) => Arg::Type(copied(tokens)),
        Arg::Const(tokens) => Arg::Const(copied(tokens)),
        Arg::Other(tokens) => Arg::Other(copied(tokens)),
    }
}

/// The same arguments once more.
fn copy_args(args: &Vec<Arg>) -> (out: Vec<Arg>)
    ensures
        views(out@) == views(args@),
{
    let mut out: Vec<Arg> = Vec::new();
    for i in 0..args.len()
        invariant
            views(out@) =~= views(args@).take(i as int),
    {
        let ghost was = out@;
        out.push(copy_whole_arg(&args[i]));
        assert(views(out@) =~= views(was).push(args@[i as int]@));
    }
    assert(views(out@) =~= views(args@));
    out
}

/// The same path once more.
pub(crate) fn copy_path(path: &Path) -> (out: Path)
    ensures
        out@ == path@,
{
    let list = match &path.list {
        Ok(args) => Ok(copy_args(args)),
        Err(error) => Err(error.copied()),
    };
    Path {
        lead: copied(&path.lead),
        ident: copied(&path.ident),
        args: copied(&path.args),
        list,
        tokens: copied(&path.tokens),
    }
}

/// The generic arguments of a path.
pub open spec fn args_of(target: PathView, site: Span) -> Result<Seq<ArgView>, Fail> {
    if target.args.len() == 0 {
        Ok(Seq::empty())
    } else {
        match target.args[0] {
            Tree::Group { delim: Delim::Paren, inner: _, at: _ } => Err(
                Fail::Own(spanning(target.args, "expected `<...>` generic arguments"@, site)),
            ),
            _ => owed(target.list),
        }
    }
}

/// The generic arguments of a path.
fn read_args(target: &Path, site: Span) -> (result: Result<Vec<Arg>, Error>)
    ensures
        match result {
            Ok(args) => args_of(target@, site) == Ok::<_, Fail>(views(args@)),
            Err(error) => args_of(target@, site) matches Err(fail) && fits(error@, fail),
        },
{
    let tokens = tokens_of(&target.args);
    assert(views(tokens@).len() == tokens.len());
    if tokens.len() == 0 {
        let args: Vec<Arg> = Vec::new();
        assert(views(args@) =~= Seq::empty());
        return Ok(args);
    }
    assert(views(tokens@)[0] == tokens@[0]@);
    match &tokens[0].shape {
        Shape::Group(Delim::Paren, _) => Err(
            Error::spanning(
                &target.args,
                String::from_str("expected `<...>` generic arguments"),
                site,
            ),
        ),
        _ => match &target.list {
            Ok(args) => Ok(copy_args(args)),
            Err(error) => Err(error.copied()),
        },
    }
}

/// Arguments by kind: each lifetime with its name, and the types and consts.
pub struct GivenView {
    pub lifetimes: Seq<(Seq<char>, Seq<Tree>)>,
    pub others: Seq<ArgView>,
}

/// One more argument.
pub open spec fn adding_arg(site: Span) -> spec_fn(GivenView, ArgView) -> Result<GivenView, Fail> {
    |given: GivenView, arg: ArgView|
        match arg {
            ArgView::Lifetime { name, tokens } => Ok(
                GivenView { lifetimes: given.lifetimes.push((name, tokens)), others: given.others },
            ),
            ArgView::Other(tokens) => Err(
                Fail::Own(spanning(tokens, "unsupported generic argument"@, site)),
            ),
            other => Ok(
                GivenView { lifetimes: given.lifetimes, others: given.others.push(other) },
            ),
        }
}

/// The arguments by kind.
pub open spec fn sorted_args(args: Seq<ArgView>, site: Span) -> Result<GivenView, Fail> {
    folded(
        args,
        GivenView { lifetimes: Seq::empty(), others: Seq::empty() },
        adding_arg(site),
    )
}

/// A lifetime argument.
struct GivenLifetime {
    name: String,
    tokens: TokenStream,
}

impl View for GivenLifetime {
    type V = (Seq<char>, Seq<Tree>);

    closed spec fn view(&self) -> (Seq<char>, Seq<Tree>) {
        (self.name@, stream_tokens(self.tokens))
    }
}

/// Arguments by kind.
struct Given {
    lifetimes: Vec<GivenLifetime>,
    others: Vec<Arg>,
}

impl View for Given {
    type V = GivenView;

    closed spec fn view(&self) -> GivenView {
        GivenView { lifetimes: views(self.lifetimes@), others: views(self.others@) }
    }
}

/// The arguments by kind.
fn sort_args(args: Vec<Arg>, site: Span) -> (result: Result<Given, Error>)
    ensures
        settles(result, sorted_args(views(args@), site)),
{
    let ghost all = views(args@);
    let mut lifetimes: Vec<GivenLifetime> = Vec::new();
    let mut others: Vec<Arg> = Vec::new();
    assert(all.skip(0) =~= all);
    assert(views(lifetimes@) =~= Seq::empty());
    assert(views(others@) =~= Seq::empty());
    for arg in it: args
        invariant
            it.seq() == args@,
            all == views(args@),
            sorted_args(all, site) == folded(
                all.skip(it.index()),
                (GivenView { lifetimes: views(lifetimes@), others: views(others@) }),
                adding_arg(site),
            ),
    {
        let ghost i = it.index();
        let ghost state = GivenView { lifetimes: views(lifetimes@), others: views(others@) };
        proof {
            lemma_folded_next(all, i, state, adding_arg(site));
            assert(all[i] == arg@);
        }
        match arg {
            Arg::Lifetime { name, tokens } => {
                let ghost was = lifetimes@;
                lifetimes.push(GivenLifetime { name, tokens });
                assert(views(lifetimes@) =~= views(was).push((name@, stream_tokens(tokens))));
            },
            Arg::Other(tokens) => return Err(
                Error::spanning(&tokens, String::from_str("unsupported generic argument"), site),
            ),
            other => {
                let ghost was = others@;
                others.push(other);
                assert(views(others@) =~= views(was).push(other@));
            },
        }
    }
    assert(all.skip(all.len() as int) =~= Seq::empty());
    Ok(Given { lifetimes, others })
}

/// The lifetime parameters among the parameters.
pub open spec fn lifetimes_in(params: Seq<ParamView>) -> Seq<ParamView> {
    params.filter(|param: ParamView| param is Lifetime)
}

/// The type and const parameters among the parameters.
pub open spec fn others_in(params: Seq<ParamView>) -> Seq<ParamView> {
    params.filter(|param: ParamView| !(param is Lifetime))
}

/// The lifetimes of the lifetime parameters.
pub open spec fn lifetime_names(params: Seq<ParamView>) -> Seq<Seq<Tree>> {
    lifetimes_in(params).map_values(|param: ParamView| param->Lifetime_lifetime)
}

/// The lifetime parameters with their bounds.
pub open spec fn lifetime_params(params: Seq<ParamView>) -> Seq<Seq<Tree>> {
    lifetimes_in(params).map_values(|param: ParamView| param->Lifetime_tokens)
}

/// The parameters that are lifetimes, or those that are not.
fn select_params<'a>(params: &'a Vec<Param>, lifetimes: bool) -> (out: Vec<&'a Param>)
    ensures
        lifetimes ==> views(out@) == lifetimes_in(views(params@)),
        !lifetimes ==> views(out@) == others_in(views(params@)),
{
    let ghost all = views(params@);
    let ghost wanted = |param: ParamView| param is Lifetime;
    let ghost unwanted = |param: ParamView| !(param is Lifetime);
    let mut out: Vec<&'a Param> = Vec::new();
    proof {
        reveal(Seq::filter);
    }
    assert(views(out@) =~= Seq::empty());
    for i in 0..params.len()
        invariant
            all == views(params@),
            wanted == (|param: ParamView| param is Lifetime),
            unwanted == (|param: ParamView| !(param is Lifetime)),
            lifetimes ==> views(out@) == all.take(i as int).filter(wanted),
            !lifetimes ==> views(out@) == all.take(i as int).filter(unwanted),
    {
        proof {
            reveal(Seq::filter);
        }
        let ghost was = out@;
        assert(all.take(i + 1).drop_last() =~= all.take(i as int));
        assert(all.take(i + 1).last() == params@[i as int]@);
        let lifetime = match &params[i] {
            Param::Lifetime { .. } => true,
            _ => false,
        };
        if lifetime == lifetimes {
            out.push(&params[i]);
            assert(views(out@) =~= views(was).push(params@[i as int]@));
        }
    }
    assert(all.take(params.len() as int) =~= all);
    out
}

/// The lifetimes of the lifetime parameters, or these with their bounds.
pub(crate) fn lifetime_tokens(params: &Vec<Param>, bounds: bool) -> (out: Vec<TokenStream>)
    ensures
        bounds ==> stream_list(out@) == lifetime_params(views(params@)),
        !bounds ==> stream_list(out@) == lifetime_names(views(params@)),
{
    let selected = select_params(params, true);
    let ghost all = lifetimes_in(views(params@));
    let mut out: Vec<TokenStream> = Vec::new();
    for i in 0..selected.len()
        invariant
            views(selected@) == all,
            all == lifetimes_in(views(params@)),
            out.len() == i,
            forall|k: int|
                0 <= k < i ==> stream_tokens(#[trigger] out@[k]) == (if bounds {
                    all[k]->Lifetime_tokens
                } else {
                    all[k]->Lifetime_lifetime
                }),
    {
        assert(all[i as int] == selected@[i as int]@);
        let tokens = match selected[i] {
            Param::Lifetime { name: _, lifetime, tokens } => if bounds {
                copied(tokens)
            } else {
                copied(lifetime)
            },
            _ => {
                proof {
                    views(params@).lemma_filter_pred(
                        |param: ParamView| param is Lifetime,
                        i as int,
                    );
                }
                new_stream()
            },
        };
        out.push(tokens);
    }
    assert(bounds ==> stream_list(out@) =~= lifetime_params(views(params@)));
    assert(!bounds ==> stream_list(out@) =~= lifetime_names(views(params@)));
    out
}

/// `` `Foo` has 1 lifetime parameter(s), but 2 were given ``
pub open spec fn count_message(
    name: Seq<char>,
    kind: Seq<char>,
    wanted: nat,
    given: nat,
) -> Seq<char> {
    "`"@ + name + "` has "@ + decimal(wanted) + " "@ + kind + " parameter(s), but "@ + decimal(
        given,
    ) + " were given"@
}

/// `` `Foo` has 1 lifetime parameter(s), but 2 were given ``
fn count_error(name: &str, kind: &str, wanted: usize, given: usize) -> (message: String)
    ensures
        message@ == count_message(name@, kind@, wanted as nat, given as nat),
{
    let mut message = String::from_str("`");
    message.append(name);
    message.append("` has ");
    message.append(decimal_text(wanted).as_str());
    message.append(" ");
    message.append(kind);
    message.append(" parameter(s), but ");
    message.append(decimal_text(given).as_str());
    message.append(" were given");
    message
}

/// The lifetimes from the `i`-th on are those of the parameters, or `'_`. The
/// impls are generic over the struct's own lifetime names.
pub open spec fn names_match(
    given: Seq<(Seq<char>, Seq<Tree>)>,
    params: Seq<ParamView>,
    i: int,
    site: Span,
) -> Result<(), Fail>
    decreases given.len() - i,
{
    if i >= given.len() || i >= params.len() {
        Ok(())
    } else if given[i].0 == "_"@ || given[i].0 == params[i]->Lifetime_name {
        names_match(given, params, i + 1, site)
    } else {
        Err(
            Fail::Own(
                spanning(
                    given[i].1,
                    "lifetime must be written as `'"@ + params[i]->Lifetime_name
                        + "` (the struct's own name) or `'_`, or omitted"@,
                    site,
                ),
            ),
        )
    }
}

/// The lifetimes that are given, if any, fit the parameters.
pub open spec fn lifetimes_fit(
    given: Seq<(Seq<char>, Seq<Tree>)>,
    params: Seq<ParamView>,
    name: Seq<char>,
    last: Seq<Tree>,
    site: Span,
) -> Result<(), Fail> {
    if given.len() != 0 && given.len() != params.len() {
        Err(
            Fail::Own(
                spanning(
                    last,
                    count_message(name, "lifetime"@, params.len(), given.len()),
                    site,
                ),
            ),
        )
    } else {
        names_match(given, params, 0, site)
    }
}

/// The lifetimes that are given, if any, fit the parameters.
fn check_lifetimes(
    given: &Vec<GivenLifetime>,
    params: &Vec<&Param>,
    name: &str,
    last: &TokenStream,
    site: Span,
) -> (result: Result<(), Error>)
    requires
        forall|i: int| 0 <= i < params.len() ==> (#[trigger] params[i])@ is Lifetime,
    ensures
        settles(
            result,
            lifetimes_fit(views(given@), views(params@), name@, stream_tokens(*last), site),
        ),
{
    assert(views(given@).len() == given.len());
    assert(views(params@).len() == params.len());
    if given.len() != 0 && given.len() != params.len() {
        return Err(
            Error::spanning(
                last,
                count_error(name, "lifetime", params.len(), given.len()),
                site,
            ),
        );
    }
    let ghost owed = names_match(views(given@), views(params@), 0, site);
    for i in 0..given.len()
        invariant
            given.len() == 0 || given.len() == params.len(),
            forall|i: int| 0 <= i < params.len() ==> (#[trigger] params[i])@ is Lifetime,
            owed == names_match(views(given@), views(params@), i as int, site),
            owed == lifetimes_fit(views(given@), views(params@), name@, stream_tokens(*last), site),
    {
        assert(views(given@)[i as int] == given@[i as int]@);
        assert(views(params@)[i as int] == params@[i as int]@);
        match params[i] {
            Param::Lifetime { name: own, .. } => {
                if !same(given[i].name.as_str(), "_") && !same(
                    given[i].name.as_str(),
                    own.as_str(),
                ) {
                    let mut message = String::from_str("lifetime must be written as `'");
                    message.append(own.as_str());
                    message.append("` (the struct's own name) or `'_`, or omitted");
                    return Err(Error::spanning(&given[i].tokens, message, site));
                }
            },
            _ => {},
        }
    }
    Ok(())
}

/// The tokens of an argument.
pub open spec fn arg_tokens(arg: ArgView) -> Seq<Tree> {
    match arg {
        ArgView::Lifetime { name: _, tokens } => tokens,
        ArgView::Type(tokens) => tokens,
        ArgView::Const(tokens) => tokens,
        ArgView::Other(tokens) => tokens,
    }
}

/// The tokens of an argument.
fn copy_arg(arg: &Arg) -> (tokens: TokenStream)
    ensures
        stream_tokens(tokens) == arg_tokens(arg@),
{
    match arg {
        Arg::Lifetime { name: _, tokens } => copied(tokens),
        Arg::Type(tokens) => copied(tokens),
        Arg::Const(tokens) => copied(tokens),
        Arg::Other(tokens) => copied(tokens),
    }
}

/// `<'a, A, B>`, or nothing where there are no arguments.
pub open spec fn angled(args: Seq<Seq<Tree>>, site: Span) -> Seq<Tree> {
    if args.len() == 0 {
        Seq::empty()
    } else {
        seq![Tree::Punct { ch: '<', joint: false, at: site }] + joined(args, seq![comma(site)])
            + seq![Tree::Punct { ch: '>', joint: false, at: site }]
    }
}

/// `<'a, A, B>`, or nothing where there are no arguments.
pub(crate) fn in_angles(args: &Vec<TokenStream>, site: Span) -> (out: TokenStream)
    ensures
        stream_tokens(out) == angled(stream_list(args@), site),
{
    let mut out = new_stream();
    assert(stream_list(args@).len() == args.len());
    if args.len() > 0 {
        push_punct(&mut out, '<', false, site);
        append(&mut out, &comma_separated(args, site));
        push_punct(&mut out, '>', false, site);
        assert(stream_tokens(out) =~= angled(stream_list(args@), site));
    }
    out
}

/// The target as `Foo<'a, 'b, A, B>`, with the struct's own lifetime names and
/// the types and consts that were given.
pub open spec fn normalized(
    target: PathView,
    lifetimes: Seq<Seq<Tree>>,
    others: Seq<ArgView>,
    site: Span,
) -> Seq<Tree> {
    target.lead + target.ident + angled(
        lifetimes + others.map_values(|arg: ArgView| arg_tokens(arg)),
        site,
    )
}

/// The target with the struct's own lifetime names.
fn normalize(target: &Path, lifetimes: Vec<TokenStream>, others: &Vec<Arg>, site: Span) -> (out:
    TokenStream)
    ensures
        stream_tokens(out) == normalized(target@, stream_list(lifetimes@), views(others@), site),
{
    let ghost names = stream_list(lifetimes@);
    let ghost all = views(others@).map_values(|arg: ArgView| arg_tokens(arg));
    let mut args = lifetimes;
    assert(names + all.take(0) =~= names);
    for i in 0..others.len()
        invariant
            all == views(others@).map_values(|arg: ArgView| arg_tokens(arg)),
            stream_list(args@) == names + all.take(i as int),
    {
        let ghost was = args@;
        args.push(copy_arg(&others[i]));
        assert(all[i as int] == arg_tokens(others@[i as int]@));
        assert(stream_list(args@) =~= stream_list(was).push(all[i as int]));
        assert(stream_list(args@) =~= names + all.take(i + 1));
    }
    assert(all.take(others.len() as int) =~= all);
    let mut out = copied(&target.lead);
    append(&mut out, &target.ident);
    append(&mut out, &in_angles(&args, site));
    out
}

/// An identifier made of a word and a number.
pub open spec fn numbered(prefix: Seq<char>, number: nat, at: Span) -> Seq<Tree> {
    seq![Tree::Ident { text: prefix + decimal(number), at }]
}

/// Decimal digits are word characters.
proof fn lemma_decimal_word(number: nat)
    ensures
        forall|i: int|
            0 <= i < decimal(number).len() ==> ascii_word_char(#[trigger] decimal(number)[i]),
    decreases number,
{
    let digit = ('0' as u32 + number % 10) as char;
    assert('0' <= digit <= '9');
    if number >= 10 {
        lemma_decimal_word(number / 10);
        assert forall|i: int| 0 <= i < decimal(number).len() implies ascii_word_char(
            #[trigger] decimal(number)[i],
        ) by {
            assert(decimal(number) == decimal(number / 10).push(digit));
            if i < decimal(number / 10).len() {
                assert(decimal(number)[i] == decimal(number / 10)[i]);
            }
        }
    }
}

/// An identifier made of a word and a number.
pub(crate) fn number_ident(prefix: &str, number: usize, at: Span) -> (out: TokenStream)
    requires
        ascii_ident(prefix@),
    ensures
        stream_tokens(out) == numbered(prefix@, number as nat, at),
{
    let mut text = String::from_str(prefix);
    text.append(decimal_text(number).as_str());
    proof {
        lemma_decimal_word(number as nat);
        assert(text@[0] == prefix@[0]);
        assert forall|i: int| 0 <= i < text@.len() implies ascii_word_char(
            #[trigger] text@[i],
        ) by {
            if i < prefix@.len() {
                assert(text@[i] == prefix@[i]);
            } else {
                assert(text@[i] == decimal(number as nat)[i - prefix@.len()]);
            }
        }
    }
    let mut out = new_stream();
    push_ident(&mut out, text.as_str(), at);
    assert(stream_tokens(out) =~= numbered(prefix@, number as nat, at));
    out
}

/// The tokens that stand for a parameter: the argument, or the default where
/// none is given. A bare path can be the argument of a const parameter: it
/// parses as a type.
pub open spec fn value_for(
    param: ParamView,
    arg: Option<ArgView>,
    last: Seq<Tree>,
    site: Span,
) -> Result<Seq<Tree>, Fail> {
    match param {
        ParamView::Type { ident, default } => match (arg, default) {
            (Some(ArgView::Type(ty)), _) => Ok(ty),
            (Some(other), _) => Err(
                Fail::Own(
                    spanning(
                        arg_tokens(other),
                        "expected a type for parameter `"@ + ident_text(ident) + "`"@,
                        site,
                    ),
                ),
            ),
            (None, Some(default)) => Ok(default),
            (None, None) => Err(
                Fail::Own(
                    spanning(
                        last,
                        "missing argument for type parameter `"@ + ident_text(ident) + "`"@,
                        site,
                    ),
                ),
            ),
        },
        ParamView::Const { ident, ty: _, default } => match (arg, default) {
            (Some(ArgView::Const(expr)), _) => Ok(expr),
            (Some(ArgView::Type(path)), _) => Ok(path),
            (Some(other), _) => Err(
                Fail::Own(
                    spanning(
                        arg_tokens(other),
                        "expected a const for parameter `"@ + ident_text(ident) + "`"@,
                        site,
                    ),
                ),
            ),
            (None, Some(default)) => Ok(default),
            (None, None) => Err(
                Fail::Own(
                    spanning(
                        last,
                        "missing argument for const parameter `"@ + ident_text(ident) + "`"@,
                        site,
                    ),
                ),
            ),
        },
        ParamView::Lifetime { name: _, lifetime, tokens: _ } => Ok(lifetime),
    }
}

/// An error about a parameter, which is named at the end of the message.
fn param_error(tokens: &TokenStream, message: &str, ident: &TokenStream, site: Span) -> (error:
    Error)
    ensures
        error@ == spanning(
            stream_tokens(*tokens),
            message@ + ident_text(stream_tokens(*ident)) + "`"@,
            site,
        ),
{
    let mut text = String::from_str(message);
    text.append(read_ident_text(ident).as_str());
    text.append("`");
    Error::spanning(tokens, text, site)
}

/// The view of an optional argument.
pub open spec fn arg_view(arg: Option<&Arg>) -> Option<ArgView> {
    match arg {
        Some(arg) => Some(arg@),
        None => None,
    }
}

/// The tokens that stand for a parameter.
fn choose_value(param: &Param, arg: Option<&Arg>, last: &TokenStream, site: Span) -> (result:
    Result<TokenStream, Error>)
    ensures
        settles_tokens(
            result,
            value_for(param@, arg_view(arg), stream_tokens(*last), site),
        ),
{
    match param {
        Param::Type { ident, default } => match (arg, default) {
            (Some(Arg::Type(ty)), _) => Ok(copied(ty)),
            (Some(other), _) => Err(
                param_error(&copy_arg(other), "expected a type for parameter `", ident, site),
            ),
            (None, Some(default)) => Ok(copied(default)),
            (None, None) => Err(
                param_error(last, "missing argument for type parameter `", ident, site),
            ),
        },
        Param::Const { ident, ty: _, default } => match (arg, default) {
            (Some(Arg::Const(expr)), _) => Ok(copied(expr)),
            (Some(Arg::Type(path)), _) => Ok(copied(path)),
            (Some(other), _) => Err(
                param_error(&copy_arg(other), "expected a const for parameter `", ident, site),
            ),
            (None, Some(default)) => Ok(copied(default)),
            (None, None) => Err(
                param_error(last, "missing argument for const parameter `", ident, site),
            ),
        },
        Param::Lifetime { name: _, lifetime, tokens: _ } => Ok(copied(lifetime)),
    }
}

/// The lints that do not matter in the alias of a type.
pub const TYPE_LINTS: &'static str = "# [ allow ( dead_code , non_camel_case_types ) ]";

/// The lints that do not matter in the alias of a const.
pub const CONST_LINTS: &'static str = "# [ allow ( dead_code , non_upper_case_globals ) ]";

/// The alias `name` of a type, or of a const of type `ty`.
pub open spec fn alias(
    name: Seq<Tree>,
    ty: Option<Seq<Tree>>,
    value: Seq<Tree>,
    site: Span,
) -> Seq<Tree> {
    match ty {
        None => fixed(TYPE_LINTS@, site) + word("type"@, site) + name + mark('=', site) + value
            + mark(';', site),
        Some(ty) => fixed(CONST_LINTS@, site) + word("const"@, site) + name + mark(':', site) + ty
            + mark('=', site) + value + mark(';', site),
    }
}

/// The alias `name` of a type, or of a const of type `ty`.
fn make_alias(name: &TokenStream, ty: Option<&TokenStream>, value: &TokenStream, site: Span) -> (
    out: TokenStream)
    ensures
        stream_tokens(out) == alias(
            stream_tokens(*name),
            match ty {
                Some(ty) => Some(stream_tokens(*ty)),
                None => None,
            },
            stream_tokens(*value),
            site,
        ),
{
    proof {
        reveal_strlit("type");
        reveal_strlit("const");
    }
    let mut out = match ty {
        None => {
            let mut head = make_fixed(TYPE_LINTS, site);
            append(&mut head, &make_word("type", site));
            append(&mut head, name);
            head
        },
        Some(ty) => {
            let mut head = make_fixed(CONST_LINTS, site);
            append(&mut head, &make_word("const", site));
            append(&mut head, name);
            append(&mut head, &make_mark(':', site));
            append(&mut head, ty);
            head
        },
    };
    append(&mut out, &make_mark('=', site));
    append(&mut out, value);
    append(&mut out, &make_mark(';', site));
    out
}

/// Alias items: those outside, which hold the arguments under neutral names,
/// and those inside, which give them the names of the parameters.
pub struct AliasesView {
    pub next: nat,
    pub outer: Seq<Tree>,
    pub inner: Seq<Tree>,
}

/// The neutral name of the `i`-th argument.
pub open spec fn neutral_name(param: ParamView, i: nat, site: Span) -> Seq<Tree> {
    match param {
        ParamView::Const { ident: _, ty: _, default: _ } => numbered(
            "__DEKU_GENERIC_ARG_"@,
            i,
            site,
        ),
        _ => numbered("__DekuGenericArg"@, i, site),
    }
}

/// The name of a parameter.
pub open spec fn param_name(param: ParamView) -> Seq<Tree> {
    match param {
        ParamView::Type { ident, default: _ } => ident,
        ParamView::Const { ident, ty: _, default: _ } => ident,
        ParamView::Lifetime { name: _, lifetime, tokens: _ } => lifetime,
    }
}

/// The type of a const parameter.
pub open spec fn param_type(param: ParamView) -> Option<Seq<Tree>> {
    match param {
        ParamView::Const { ident: _, ty, default: _ } => Some(ty),
        _ => None,
    }
}

/// The argument of the `i`-th parameter, if it is given.
pub open spec fn arg_at(others: Seq<ArgView>, i: int) -> Option<ArgView> {
    if 0 <= i < others.len() {
        Some(others[i])
    } else {
        None
    }
}

/// The aliases of one more parameter.
pub open spec fn adding_alias(others: Seq<ArgView>, last: Seq<Tree>, site: Span) -> spec_fn(
    AliasesView,
    ParamView,
) -> Result<AliasesView, Fail> {
    |aliases: AliasesView, param: ParamView|
        {
            let arg = arg_at(others, aliases.next as int);
            let outer = neutral_name(param, aliases.next, site);
            match value_for(param, arg, last, site) {
                Ok(value) => Ok(
                    AliasesView {
                        next: aliases.next + 1,
                        outer: aliases.outer + alias(outer, param_type(param), value, site),
                        inner: aliases.inner + alias(
                            param_name(param),
                            param_type(param),
                            outer,
                            site,
                        ),
                    },
                ),
                Err(fail) => Err(fail),
            }
        }
}

/// The aliases of the type and const parameters.
pub open spec fn aliases_of(
    params: Seq<ParamView>,
    others: Seq<ArgView>,
    last: Seq<Tree>,
    site: Span,
) -> Result<AliasesView, Fail> {
    folded(
        params,
        AliasesView { next: 0, outer: Seq::empty(), inner: Seq::empty() },
        adding_alias(others, last, site),
    )
}

/// What the arguments of a request come to.
pub struct Bound {
    /// The type that the impls are for.
    pub target: TokenStream,
    /// The alias items outside and inside.
    pub outer: TokenStream,
    pub inner: TokenStream,
}

/// A [`Bound`] as the contracts see it.
pub struct BoundView {
    pub target: Seq<Tree>,
    pub outer: Seq<Tree>,
    pub inner: Seq<Tree>,
}

impl View for Bound {
    type V = BoundView;

    open spec fn view(&self) -> BoundView {
        BoundView {
            target: stream_tokens(self.target),
            outer: stream_tokens(self.outer),
            inner: stream_tokens(self.inner),
        }
    }
}

/// The arguments by kind, where they are those of the struct `name` with the
/// given parameters.
pub open spec fn given_of(
    target: PathView,
    name: Seq<char>,
    params: Seq<ParamView>,
    site: Span,
) -> Result<GivenView, Fail> {
    let last = target.ident + target.args;
    if ident_text(target.ident) != name {
        Err(
            Fail::Own(
                spanning(
                    target.ident,
                    "expected `"@ + name + "`, found `"@ + ident_text(target.ident) + "`"@,
                    site,
                ),
            ),
        )
    } else {
        match args_of(target, site) {
            Err(fail) => Err(fail),
            Ok(args) => match sorted_args(args, site) {
                Err(fail) => Err(fail),
                Ok(given) => match lifetimes_fit(
                    given.lifetimes,
                    lifetimes_in(params),
                    name,
                    last,
                    site,
                ) {
                    Err(fail) => Err(fail),
                    Ok(_) => if given.others.len() > others_in(params).len() {
                        Err(
                            Fail::Own(
                                spanning(
                                    last,
                                    count_message(
                                        name,
                                        "type/const"@,
                                        others_in(params).len(),
                                        given.others.len(),
                                    ),
                                    site,
                                ),
                            ),
                        )
                    } else {
                        Ok(given)
                    },
                },
            },
        }
    }
}

/// What the arguments of a request for the struct `name` with the given
/// parameters come to.
pub open spec fn bound_of(
    target: PathView,
    name: Seq<char>,
    params: Seq<ParamView>,
    site: Span,
) -> Result<BoundView, Fail> {
    match given_of(target, name, params, site) {
        Err(fail) => Err(fail),
        Ok(given) => match aliases_of(
            others_in(params),
            given.others,
            target.ident + target.args,
            site,
        ) {
            Err(fail) => Err(fail),
            Ok(aliases) => Ok(
                BoundView {
                    target: normalized(target, lifetime_names(params), given.others, site),
                    outer: aliases.outer,
                    inner: aliases.inner,
                },
            ),
        },
    }
}

/// The arguments by kind, where they are those of the struct `name`.
fn check_args(
    target: &Path,
    name: &str,
    params: &Vec<Param>,
    last: &TokenStream,
    site: Span,
) -> (result: Result<Given, Error>)
    requires
        stream_tokens(*last) == target@.ident + target@.args,
    ensures
        settles(result, given_of(target@, name@, views(params@), site)),
{
    let found = read_ident_text(&target.ident);
    if !same(found.as_str(), name) {
        let mut message = String::from_str("expected `");
        message.append(name);
        message.append("`, found `");
        message.append(found.as_str());
        message.append("`");
        return Err(Error::spanning(&target.ident, message, site));
    }
    let args = match read_args(target, site) {
        Ok(args) => args,
        Err(error) => return Err(error),
    };
    let given = match sort_args(args, site) {
        Ok(given) => given,
        Err(error) => return Err(error),
    };
    let lifetimes = select_params(params, true);
    proof {
        assert forall|i: int| 0 <= i < lifetimes.len() implies (
        #[trigger] lifetimes[i])@ is Lifetime by {
            views(params@).lemma_filter_pred(|param: ParamView| param is Lifetime, i);
            assert(views(lifetimes@)[i] == lifetimes@[i]@);
        }
    }
    match check_lifetimes(&given.lifetimes, &lifetimes, name, last, site) {
        Ok(_) => {},
        Err(error) => return Err(error),
    }
    let others = select_params(params, false);
    assert(views(others@).len() == others.len());
    assert(views(given.others@).len() == given.others.len());
    if given.others.len() > others.len() {
        return Err(
            Error::spanning(
                last,
                count_error(name, "type/const", others.len(), given.others.len()),
                site,
            ),
        );
    }
    Ok(given)
}

/// The aliases of the type and const parameters.
fn make_aliases(params: &Vec<&Param>, others: &Vec<Arg>, last: &TokenStream, site: Span) -> (result:
    Result<(TokenStream, TokenStream), Error>)
    ensures
        match result {
            Ok((outer, inner)) => aliases_of(
                views(params@),
                views(others@),
                stream_tokens(*last),
                site,
            ) matches Ok(aliases) && aliases.outer == stream_tokens(outer) && aliases.inner
                == stream_tokens(inner),
            Err(error) => aliases_of(
                views(params@),
                views(others@),
                stream_tokens(*last),
                site,
            ) matches Err(fail) && fits(error@, fail),
        },
{
    let ghost all = views(params@);
    let ghost step = adding_alias(views(others@), stream_tokens(*last), site);
    let mut outer_aliases = new_stream();
    let mut inner_aliases = new_stream();
    assert(all.skip(0) =~= all);
    for i in 0..params.len()
        invariant
            all == views(params@),
            step == adding_alias(views(others@), stream_tokens(*last), site),
            aliases_of(all, views(others@), stream_tokens(*last), site) == folded(
                all.skip(i as int),
                (AliasesView {
                    next: i as nat,
                    outer: stream_tokens(outer_aliases),
                    inner: stream_tokens(inner_aliases),
                }),
                step,
            ),
    {
        proof {
            lemma_folded_next(
                all,
                i as int,
                AliasesView {
                    next: i as nat,
                    outer: stream_tokens(outer_aliases),
                    inner: stream_tokens(inner_aliases),
                },
                step,
            );
            assert(all[i as int] == params@[i as int]@);
            assert(views(others@).len() == others.len());
            reveal_strlit("__DekuGenericArg");
            reveal_strlit("__DEKU_GENERIC_ARG_");
        }
        let arg = if i < others.len() {
            assert(views(others@)[i as int] == others@[i as int]@);
            Some(&others[i])
        } else {
            None
        };
        let value = match choose_value(params[i], arg, last, site) {
            Ok(value) => value,
            Err(error) => return Err(error),
        };
        match params[i] {
            Param::Const { ident, ty, default: _ } => {
                let outer = number_ident("__DEKU_GENERIC_ARG_", i, site);
                append(&mut outer_aliases, &make_alias(&outer, Some(ty), &value, site));
                append(&mut inner_aliases, &make_alias(ident, Some(ty), &outer, site));
            },
            Param::Type { ident, default: _ } => {
                let outer = number_ident("__DekuGenericArg", i, site);
                append(&mut outer_aliases, &make_alias(&outer, None, &value, site));
                append(&mut inner_aliases, &make_alias(ident, None, &outer, site));
            },
            Param::Lifetime { name: _, lifetime, tokens: _ } => {
                let outer = number_ident("__DekuGenericArg", i, site);
                append(&mut outer_aliases, &make_alias(&outer, None, &value, site));
                append(&mut inner_aliases, &make_alias(lifetime, None, &outer, site));
            },
        }
    }
    assert(all.skip(all.len() as int) =~= Seq::empty());
    Ok((outer_aliases, inner_aliases))
}

/// Binds the arguments of a request for the struct `name` with the given
/// parameters.
pub fn bind(target: &Path, name: &str, params: &Vec<Param>, site: Span) -> (result: Result<
    Bound,
    Error,
>)
    ensures
        settles(result, bound_of(target@, name@, views(params@), site)),
{
    let mut last = copied(&target.ident);
    append(&mut last, &target.args);
    let given = match check_args(target, name, params, &last, site) {
        Ok(given) => given,
        Err(error) => return Err(error),
    };
    let others = select_params(params, false);
    let (outer, inner) = match make_aliases(&others, &given.others, &last, site) {
        Ok(aliases) => aliases,
        Err(error) => return Err(error),
    };
    let lifetimes = lifetime_tokens(params, false);
    Ok(Bound { target: normalize(target, lifetimes, &given.others, site), outer, inner })
}

} // verus!
