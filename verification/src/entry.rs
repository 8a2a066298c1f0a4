//! The macros themselves, from their input to their expansion.
use proc_macro2::{Span, TokenStream};
use vstd::prelude::*;

use crate::attrs::{check_suffix, unsuffixed};
use crate::bind::{copy_path, path_reads, read_path, Path, PathView};
use crate::code::{colons, enclose, enclosed, make_colons, make_mark, mark};
use crate::emit::{make_word, word};
use crate::error::{
    fits, owed, report, seen, seen_list, seen_pair, settles, settles_tokens, to_compile_error,
    Error, ErrorView, Fail,
};
use crate::expand::{
    attribute, attribute_of, fallback, helper_ident, helper_of, instantiate_all,
    requested, Mode, Request, RequestView,
};
use crate::item::{item_read, item_tokens, keeping, only_ident, read_struct, ItemStruct, ItemView};
use crate::setting::placed;
use crate::stream::{
    append, ascii_ident, call_site, copied, new_stream, opening, opens_at, respan, respanned,
    stream_tokens, tokens_of, views, Delim, Shape, Token, Tree,
};
use crate::syntax::{
    lex, lex_fails, lexes_as, lone_ident, parse_ident, parse_paths, seen_split,
    split_mod_path, split_path, syn_ident, syn_mod_path, syn_path, syn_paths, tokens_in,
    PathParts, PathPartsView,
};
use crate::text::{concat, same};

verus! {

/// One of the library's errors, at one place.
pub open spec fn own<V>(message: Seq<char>, place: Span) -> Result<V, Fail> {
    Err(Fail::Own(ErrorView { message, start: place, end: place }))
}

/// The error about a tree that stands in the place of another: where the tree
/// starts. For a group that is its opening delimiter.
pub open spec fn unexpected<V>(message: Seq<char>, tree: Tree) -> Result<V, Fail> {
    if tree is Group {
        Err(Fail::Opening(message, tree))
    } else {
        own(message, tree.at())
    }
}

/// The modes that an option names.
pub open spec fn modes_of(option: Seq<char>, place: Span) -> Result<Seq<Mode>, Fail> {
    if option == "read"@ {
        Ok(seq![Mode::Read])
    } else if option == "write"@ {
        Ok(seq![Mode::Write])
    } else if option == "read_write"@ {
        Ok(seq![Mode::Read, Mode::Write])
    } else {
        own(
            "unknown option `"@ + option
                + "`; expected `read`, `write`, `read_write` or `crate = \"..\"`"@,
            place,
        )
    }
}

impl Mode {
    /// The modes that the option `ident`, which stands at `place`, names.
    pub fn from_ident(ident: &str, place: Span) -> (result: Result<Vec<Mode>, Error>)
        ensures
            match result {
                Ok(modes) => modes_of(ident@, place) == Ok::<_, Fail>(modes@),
                Err(error) => modes_of(ident@, place) matches Err(fail) && fits(error@, fail),
            },
    {
        if same(ident, "read") {
            let modes = vec![Mode::Read];
            assert(modes@ =~= seq![Mode::Read]);
            Ok(modes)
        } else if same(ident, "write") {
            let modes = vec![Mode::Write];
            assert(modes@ =~= seq![Mode::Write]);
            Ok(modes)
        } else if same(ident, "read_write") {
            let modes = vec![Mode::Read, Mode::Write];
            assert(modes@ =~= seq![Mode::Read, Mode::Write]);
            Ok(modes)
        } else {
            let mut message = String::from_str("unknown option `");
            message.append(ident);
            message.append("`; expected `read`, `write`, `read_write` or `crate = \"..\"`");
            Err(Error::at(place, message))
        }
    }
}

/// The trees, with what invisible delimiters surround in the place of these.
pub open spec fn opened(trees: Seq<Tree>) -> Seq<Tree>
    decreases trees,
{
    if trees.len() == 0 {
        Seq::empty()
    } else {
        let before = opened(trees.drop_last());
        match trees.last() {
            Tree::Group { delim: Delim::Bare, inner, at: _ } => before + opened(inner),
            tree => before.push(tree),
        }
    }
}

/// Whether each token stands alone in its stream.
pub open spec fn apart(tokens: Seq<Token>) -> bool {
    forall|i: int|
        0 <= i < tokens.len() ==> stream_tokens((#[trigger] tokens[i]).alone) == seq![tokens[i]@]
}

/// Adds the tokens, with what invisible delimiters surround in the place of
/// these.
fn open_groups(stream: &TokenStream, out: &mut Vec<Token>)
    requires
        apart(old(out)@),
    ensures
        apart(final(out)@),
        views(final(out)@) == views(old(out)@) + opened(stream_tokens(*stream)),
    decreases stream_tokens(*stream),
{
    let tokens = tokens_of(stream);
    let ghost trees = stream_tokens(*stream);
    let ghost all = tokens@;
    let ghost before = views(out@);
    assert(before + Seq::<Tree>::empty() =~= before);
    for token in it: tokens
        invariant
            it.seq() == all,
            trees == stream_tokens(*stream),
            views(all) == trees,
            apart(all),
            apart(out@),
            views(out@) == before + opened(trees.take(it.index())),
    {
        let ghost i = it.index();
        let ghost was = out@;
        let ghost done = opened(trees.take(i));
        assert(views(all)[i] == token@);
        assert(stream_tokens(all[i].alone) == seq![all[i]@]);
        assert(trees.take(i + 1).drop_last() =~= trees.take(i));
        assert(trees.take(i + 1).last() == trees[i]);
        match &token.shape {
            Shape::Group(Delim::Bare, inner) => {
                assert(decreases_to!(trees => trees[i]));
                assert(decreases_to!(trees[i] => trees[i]->Group_inner));
                open_groups(inner, out);
                assert(views(out@) =~= before + (done + opened(stream_tokens(*inner))));
            },
            _ => {
                out.push(token);
                assert(views(out@) =~= views(was).push(token@));
                assert(views(out@) =~= before + done.push(token@));
            },
        }
    }
    assert(trees.take(trees.len() as int) =~= trees);
}

/// Nothing is left over.
pub open spec fn used_up(trees: Seq<Tree>) -> Result<(), Fail> {
    if opened(trees).len() == 0 {
        Ok(())
    } else {
        own("unexpected token"@, opened(trees)[0].at())
    }
}

/// Nothing is left over.
fn check_used_up(stream: &TokenStream) -> (result: Result<(), Error>)
    ensures
        settles(result, used_up(stream_tokens(*stream))),
{
    let mut tokens: Vec<Token> = Vec::new();
    open_groups(stream, &mut tokens);
    assert(views(tokens@) =~= opened(stream_tokens(*stream)));
    assert(views(tokens@).len() == tokens.len());
    if tokens.len() == 0 {
        Ok(())
    } else {
        assert(views(tokens@)[0] == tokens@[0]@);
        Err(Error::at(tokens[0].span, String::from_str("unexpected token")))
    }
}

/// What is left of the trees where nothing is left of what they open to: they
/// may end in invisible delimiters that surround nothing, and this is the first
/// of these.
pub open spec fn leftover(trees: Seq<Tree>) -> Option<Tree>
    decreases trees,
{
    if trees.len() == 0 {
        None
    } else {
        match trees.last() {
            Tree::Group { delim: Delim::Bare, inner, at: _ } => if opened(inner).len() == 0 {
                match leftover(trees.drop_last()) {
                    Some(tree) => Some(tree),
                    None => Some(trees.last()),
                }
            } else {
                leftover(inner)
            },
            _ => None,
        }
    }
}

/// For each of the trees of [`opened`] the tree that stands where it starts: the
/// first of the invisible delimiters between it and the tree before it, or else
/// the tree itself.
pub open spec fn starts(trees: Seq<Tree>) -> Seq<Tree>
    decreases trees,
{
    if trees.len() == 0 {
        Seq::empty()
    } else {
        let before = starts(trees.drop_last());
        let first = match leftover(trees.drop_last()) {
            Some(tree) => tree,
            None => trees.last(),
        };
        match trees.last() {
            Tree::Group { delim: Delim::Bare, inner, at: _ } => if opened(inner).len() == 0 {
                before
            } else {
                before + starts(inner).update(0, first)
            },
            _ => before.push(first),
        }
    }
}

/// Where a tree starts, and whether it is a group.
pub struct Start {
    pub place: Span,
    pub group: bool,
    pub tree: Ghost<Tree>,
}

impl View for Start {
    type V = Tree;

    open spec fn view(&self) -> Tree {
        self.tree@
    }
}

impl Start {
    /// The place is that of the tree; of a group, that of its opening delimiter.
    pub open spec fn wf(self) -> bool {
        &&& self.group == (self@ is Group)
        &&& if self@ is Group {
            opens_at(self@, self.place)
        } else {
            self.place == self@.at()
        }
    }

    /// A copy.
    fn copied(&self) -> (start: Start)
        requires
            self.wf(),
        ensures
            start.wf(),
            start@ == self@,
    {
        Start { place: self.place, group: self.group, tree: Ghost(self@) }
    }
}

/// Whether each of the places is that of its tree.
pub open spec fn all_placed(starts: Seq<Start>) -> bool {
    forall|i: int| 0 <= i < starts.len() ==> (#[trigger] starts[i]).wf()
}

/// Where what is left of some tokens starts.
pub open spec fn left_at(rest: Option<Start>) -> Option<Tree> {
    match rest {
        Some(start) => Some(start@),
        None => None,
    }
}

/// Where the tokens start that invisible delimiters surround or that stand by
/// themselves, and what is left after them.
fn find_starts(stream: &TokenStream) -> (found: (Vec<Start>, Option<Start>))
    ensures
        all_placed(found.0@),
        views(found.0@) == starts(stream_tokens(*stream)),
        found.0.len() == opened(stream_tokens(*stream)).len(),
        found.1 matches Some(rest) ==> rest.wf(),
        left_at(found.1) == leftover(stream_tokens(*stream)),
    decreases stream_tokens(*stream),
{
    let tokens = tokens_of(stream);
    let ghost trees = stream_tokens(*stream);
    let ghost all = tokens@;
    let mut out: Vec<Start> = Vec::new();
    let mut rest: Option<Start> = None;
    assert(views(out@) =~= starts(trees.take(0)));
    for token in it: tokens
        invariant
            it.seq() == all,
            trees == stream_tokens(*stream),
            views(all) == trees,
            apart(all),
            all_placed(out@),
            views(out@) == starts(trees.take(it.index())),
            out.len() == opened(trees.take(it.index())).len(),
            rest matches Some(start) ==> start.wf(),
            left_at(rest) == leftover(trees.take(it.index())),
    {
        let ghost i = it.index();
        let ghost was = out@;
        assert(views(all)[i] == token@);
        assert(stream_tokens(all[i].alone) == seq![all[i]@]);
        assert(trees.take(i + 1).drop_last() =~= trees.take(i));
        assert(trees.take(i + 1).last() == trees[i]);
        let first = match rest {
            Some(start) => start,
            None => Start {
                place: opening(&token),
                group: matches!(&token.shape, Shape::Group(_, _)),
                tree: Ghost(token@),
            },
        };
        match &token.shape {
            Shape::Group(Delim::Bare, inner) => {
                assert(decreases_to!(trees => trees[i]));
                assert(decreases_to!(trees[i] => trees[i]->Group_inner));
                let (mut inside, after) = find_starts(inner);
                assert(views(inside@).len() == inside.len());
                if inside.len() == 0 {
                    rest = Some(first);
                } else {
                    let ghost within = views(inside@);
                    inside.set(0, first);
                    assert(views(inside@) =~= within.update(0, first@));
                    out.append(&mut inside);
                    assert(views(out@) =~= views(was) + within.update(0, first@));
                    rest = after;
                }
            },
            _ => {
                out.push(first);
                assert(views(out@) =~= views(was).push(first@));
                rest = None;
            },
        }
    }
    assert(trees.take(trees.len() as int) =~= trees);
    (out, rest)
}

/// Where the tokens of the attribute end: at the place of the macro call, or
/// before what is left of them.
struct End {
    site: Span,
    rest: Option<Start>,
}

impl End {
    /// The place is that of what is left.
    spec fn wf(self) -> bool {
        self.rest matches Some(start) ==> start.wf()
    }

    /// What is left.
    spec fn tree(self) -> Option<Tree> {
        left_at(self.rest)
    }
}

/// A character between backticks.
pub open spec fn ticked(ch: char) -> Seq<char> {
    seq!['`', ch, '`']
}

/// The trees, with what comes first out of all invisible delimiters.
pub open spec fn peeled(trees: Seq<Tree>) -> Seq<Tree>
    decreases trees,
{
    if trees.len() == 0 {
        trees
    } else {
        match trees[0] {
            Tree::Group { delim: Delim::Bare, inner, at: _ } => {
                let inside = peeled(inner);
                if inside.len() > 0 {
                    inside + trees.skip(1)
                } else {
                    peeled(trees.skip(1))
                }
            },
            _ => trees,
        }
    }
}

/// What follows the punctuation character that comes first.
pub open spec fn after_punct(trees: Seq<Tree>, ch: char, site: Span) -> Result<Seq<Tree>, Fail> {
    if trees.len() == 0 {
        own("expected "@ + ticked(ch), site)
    } else {
        let out = peeled(trees);
        if out.len() > 0 && (out[0] matches Tree::Punct { ch: found, joint: _, at: _ } && found
            == ch) {
            Ok(out.skip(1))
        } else {
            unexpected("expected "@ + ticked(ch), trees[0])
        }
    }
}

/// The message about a missing piece of syntax.
fn expected(what: &str) -> (message: String)
    ensures
        message@ == "expected "@ + what@,
{
    let mut message = String::from_str("expected ");
    message.append(what);
    message
}

/// The error about a token in the place of which something else is expected.
fn instead_of(token: &Token, what: &str) -> (error: Error)
    requires
        stream_tokens(token.alone) == seq![token@],
    ensures
        unexpected::<()>("expected "@ + what@, token@) matches Err(fail) && fits(error@, fail),
{
    Error::at(opening(token), expected(what))
}

/// Where the tokens of the attribute end, something is missing. Where nothing
/// is left of them the message says so.
pub open spec fn ended<V>(what: Seq<char>, rest: Option<Tree>, site: Span) -> Result<V, Fail> {
    match rest {
        Some(tree) => unexpected("expected "@ + what, tree),
        None => own("unexpected end of input, expected "@ + what, site),
    }
}

/// The error about something that is missing at the end.
fn missing(what: &str, end: &End) -> (error: Error)
    requires
        end.wf(),
    ensures
        ended::<()>(what@, end.tree(), end.site) matches Err(fail) && fits(error@, fail),
{
    match &end.rest {
        Some(start) => Error::at(start.place, expected(what)),
        None => {
            let mut message = String::from_str("unexpected end of input, expected ");
            message.append(what);
            Error::at(end.site, message)
        },
    }
}

/// Where the tokens of the attribute end, a character is missing.
pub open spec fn cut_off<V>(ch: char, rest: Option<Tree>, site: Span) -> Result<V, Fail> {
    match rest {
        Some(tree) => unexpected("expected "@ + ticked(ch), tree),
        None => own("expected "@ + ticked(ch), site),
    }
}

/// A token in the arguments of the attribute, where it starts, and all that it
/// can be: an option, if it is a group the targets in it, and if it is a string literal the
/// path that the text starts with and what follows the path.
pub struct ArgToken {
    pub token: Token,
    pub start: Start,
    pub name: Result<String, Error>,
    pub targets: Option<Result<Vec<Path>, Error>>,
    pub path: Option<Result<(TokenStream, TokenStream), Error>>,
}

/// An [`ArgToken`] as the contracts see it.
pub struct ArgTokenView {
    pub tree: Tree,
    pub start: Tree,
    pub name: Result<Seq<char>, ErrorView>,
    pub targets: Option<Result<Seq<PathView>, ErrorView>>,
    pub path: Option<Result<(Seq<Tree>, Seq<Tree>), ErrorView>>,
}

impl View for ArgToken {
    type V = ArgTokenView;

    open spec fn view(&self) -> ArgTokenView {
        ArgTokenView {
            tree: self.token@,
            start: self.start@,
            name: seen(self.name),
            targets: match self.targets {
                Some(targets) => Some(seen_list(targets)),
                None => None,
            },
            path: match self.path {
                Some(path) => Some(seen_pair(path)),
                None => None,
            },
        }
    }
}

/// Whether a name and a group can have the parts of those paths.
pub open spec fn paths_parsed(
    list: Seq<Tree>,
    parts: Result<Seq<PathPartsView>, ErrorView>,
) -> bool {
    exists|places: Seq<Span>| parts == #[trigger] syn_paths(list, places)
}

/// Whether the parts can be those paths, one for one.
pub open spec fn each_path_reads(parts: Seq<PathPartsView>, paths: Seq<PathView>) -> bool {
    &&& paths.len() == parts.len()
    &&& forall|i: int| 0 <= i < parts.len() ==> path_reads(parts[i], #[trigger] paths[i])
}

/// Whether a group can hold those targets.
pub open spec fn targets_read(group: Tree, outcome: Result<Seq<PathView>, ErrorView>) -> bool {
    exists|parts: Result<Seq<PathPartsView>, ErrorView>| #[trigger]
        paths_parsed(word("targets"@, group.at()) + seq![group], parts) && match parts {
            Ok(parts) => outcome matches Ok(paths) && each_path_reads(parts, paths),
            Err(error) => outcome == Err::<Seq<PathView>, _>(error),
        }
}

/// The targets in a group.
fn read_targets(group: &Token) -> (result: Result<Vec<Path>, Error>)
    requires
        stream_tokens(group.alone) == seq![group@],
    ensures
        targets_read(group@, seen_list(result)),
{
    proof {
        reveal_strlit("targets");
    }
    let mut list = make_word("targets", group.span);
    append(&mut list, &group.alone);
    let parsed = parse_paths(&list);
    assert(paths_parsed(word("targets"@, group@.at()) + seq![group@], seen_list(parsed)));
    let parts = match parsed {
        Ok(parts) => parts,
        Err(error) => return Err(error),
    };
    let ghost all = parts@;
    let mut paths: Vec<Path> = Vec::new();
    for part in it: parts
        invariant
            it.seq() == all,
            paths.len() == it.index(),
            forall|i: int| 0 <= i < it.index() ==> path_reads(all[i]@, (#[trigger] paths@[i])@),
    {
        paths.push(read_path(part));
    }
    proof {
        assert(each_path_reads(views(all), views(paths@))) by {
            assert forall|i: int| 0 <= i < all.len() implies path_reads(
                views(all)[i],
                #[trigger] views(paths@)[i],
            ) by {
                assert(views(paths@)[i] == paths@[i]@);
            }
        }
    }
    Ok(paths)
}

/// Whether some tokens can start with that path, and go on so.
pub open spec fn mod_path_split(
    tokens: Seq<Tree>,
    split: Result<(Seq<Tree>, Seq<Tree>), ErrorView>,
) -> bool {
    exists|places: Seq<Span>| split == #[trigger] syn_mod_path(tokens, places)
}

/// Whether the tokens of a literal can start with that path.
pub open spec fn tokens_path_read(
    tokens: Seq<Tree>,
    at: Span,
    outcome: Result<(Seq<Tree>, Seq<Tree>), ErrorView>,
) -> bool {
    exists|split: Result<(Seq<Tree>, Seq<Tree>), ErrorView>| #[trigger]
        mod_path_split(tokens, split) && outcome == placed(split, at)
}

/// Whether the text of a literal can start with that path.
pub open spec fn text_path_read(
    value: Seq<char>,
    at: Span,
    outcome: Result<(Seq<Tree>, Seq<Tree>), ErrorView>,
) -> bool {
    ||| outcome matches Err(error) && lex_fails(value, at, error)
    ||| exists|tokens: Seq<Tree>| #[trigger]
        lexes_as(value, at, tokens) && tokens_path_read(tokens, at, outcome)
}

/// The path that the text of a literal starts with, and what follows it.
fn read_text_path(value: &str, at: Span) -> (result: Result<(TokenStream, TokenStream), Error>)
    ensures
        text_path_read(value@, at, seen_pair(result)),
{
    let tokens = match lex(value, at) {
        Ok(tokens) => tokens,
        Err(error) => return Err(error),
    };
    let split = split_mod_path(&tokens);
    assert(mod_path_split(stream_tokens(tokens), seen_pair(split)));
    let result = match split {
        Ok(parts) => Ok(parts),
        Err(error) => Err(Error::at(at, error.message)),
    };
    assert(tokens_path_read(stream_tokens(tokens), at, seen_pair(result)));
    result
}

/// Whether the tree can be that option.
pub open spec fn name_read(tree: Tree, outcome: Result<Seq<char>, ErrorView>) -> bool {
    exists|places: Seq<Span>| outcome == #[trigger] syn_ident(seq![tree], places)
}

/// The error about a tree that is no option, where it starts with `start`.
pub open spec fn no_option<V>(error: ErrorView, start: Tree) -> Result<V, Fail> {
    if start is Group {
        Err(Fail::Opening(error.message, start))
    } else {
        Err(Fail::Own(error))
    }
}

/// Whether the tree can be all that.
pub open spec fn arg_reads(tree: Tree, start: Tree, arg: ArgTokenView) -> bool {
    &&& arg.tree == tree
    &&& arg.start == start
    &&& name_read(tree, arg.name)
    &&& match tree {
        Tree::Group { delim: Delim::Paren, inner: _, at: _ } => arg.targets matches Some(targets)
            && targets_read(tree, targets),
        _ => arg.targets is None,
    }
    &&& match tree {
        Tree::Str { value, suffix: _, at } => arg.path matches Some(path) && text_path_read(
            value,
            at,
            path,
        ),
        _ => arg.path is None,
    }
}

/// All that the token can be.
fn read_arg(token: Token, start: Start) -> (arg: ArgToken)
    requires
        stream_tokens(token.alone) == seq![token@],
    ensures
        arg_reads(token@, start@, arg@),
        arg.start == start,
{
    let name = parse_ident(&token.alone);
    let targets = match &token.shape {
        Shape::Group(Delim::Paren, _) => Some(read_targets(&token)),
        _ => None,
    };
    let path = match &token.shape {
        Shape::Str(value, _) => Some(read_text_path(value.as_str(), token.span)),
        _ => None,
    };
    ArgToken { token, start, name, targets, path }
}

/// Whether the trees can be all that, one for one.
pub open spec fn args_read(
    trees: Seq<Tree>,
    starts: Seq<Tree>,
    args: Seq<ArgTokenView>,
) -> bool {
    &&& args.len() == trees.len()
    &&& forall|i: int|
        0 <= i < trees.len() ==> arg_reads(trees[i], starts[i], #[trigger] args[i])
}

/// Whether each of the places is that of its tree.
pub open spec fn args_placed(args: Seq<ArgToken>) -> bool {
    forall|i: int| 0 <= i < args.len() ==> (#[trigger] args[i]).start.wf()
}

/// The tokens in the arguments of the attribute, what invisible delimiters
/// surround in the place of these, and what is left after them.
fn read_args(attr: &TokenStream) -> (read: (Vec<ArgToken>, Option<Start>))
    ensures
        args_placed(read.0@),
        args_read(
            opened(stream_tokens(*attr)),
            starts(stream_tokens(*attr)),
            views(read.0@),
        ),
        read.1 matches Some(rest) ==> rest.wf(),
        left_at(read.1) == leftover(stream_tokens(*attr)),
{
    let mut tokens: Vec<Token> = Vec::new();
    open_groups(attr, &mut tokens);
    let (places, rest) = find_starts(attr);
    let ghost all = tokens@;
    assert(views(all) =~= opened(stream_tokens(*attr)));
    let mut args: Vec<ArgToken> = Vec::new();
    for token in it: tokens
        invariant
            it.seq() == all,
            apart(all),
            places.len() == all.len(),
            all_placed(places@),
            args.len() == it.index(),
            args_placed(args@),
            forall|i: int|
                0 <= i < it.index() ==> arg_reads(
                    all[i]@,
                    places@[i]@,
                    (#[trigger] args@[i])@,
                ),
    {
        assert(stream_tokens(all[it.index()].alone) == seq![all[it.index()]@]);
        let start = places[args.len()].copied();
        args.push(read_arg(token, start));
    }
    assert forall|i: int| 0 <= i < all.len() implies arg_reads(
        views(all)[i],
        views(places@)[i],
        #[trigger] views(args@)[i],
    ) by {
        assert(views(args@)[i] == args@[i]@);
    }
    (args, rest)
}

/// What the arguments of the attribute say.
pub struct AttrArgs {
    pub requests: Vec<Request>,
    pub crate_path: Option<TokenStream>,
}

/// [`AttrArgs`] as the contracts see them.
pub struct AttrArgsView {
    pub requests: Seq<RequestView>,
    pub crate_path: Option<Seq<Tree>>,
}

impl View for AttrArgs {
    type V = AttrArgsView;

    open spec fn view(&self) -> AttrArgsView {
        AttrArgsView { requests: views(self.requests@), crate_path: tokens_in(self.crate_path) }
    }
}

/// The first of the tokens is that punctuation character.
pub open spec fn first_punct(
    args: Seq<ArgTokenView>,
    ch: char,
    rest: Option<Tree>,
    site: Span,
) -> Result<(), Fail> {
    if args.len() == 0 {
        cut_off(ch, rest, site)
    } else {
        match args[0].tree {
            Tree::Punct { ch: found, joint: _, at: _ } if found == ch => Ok(()),
            _ => unexpected("expected "@ + ticked(ch), args[0].start),
        }
    }
}

/// The path in the string literal that comes first.
pub open spec fn first_path(args: Seq<ArgTokenView>, rest: Option<Tree>, site: Span) -> Result<
    Seq<Tree>,
    Fail,
> {
    if args.len() == 0 {
        ended("string literal"@, rest, site)
    } else {
        match (args[0].tree, args[0].path) {
            (Tree::Str { value: _, suffix, at }, Some(path)) => match owed(path) {
                Err(fail) => Err(fail),
                Ok((path, rest)) => match used_up(rest) {
                    Err(fail) => Err(fail),
                    Ok(_) => match unsuffixed(suffix, at) {
                        Err(fail) => Err(fail),
                        Ok(_) => Ok(path),
                    },
                },
            },
            _ => unexpected("expected "@ + "string literal"@, args[0].start),
        }
    }
}

/// The targets in the parentheses that come first.
pub open spec fn first_targets(args: Seq<ArgTokenView>, rest: Option<Tree>, site: Span) -> Result<
    Seq<PathView>,
    Fail,
> {
    if args.len() == 0 {
        ended("parentheses"@, rest, site)
    } else {
        match args[0].targets {
            Some(targets) => owed(targets),
            None => unexpected("expected "@ + "parentheses"@, args[0].start),
        }
    }
}

/// The path in `crate = "path"`, which comes first.
pub open spec fn crate_setting(args: Seq<ArgTokenView>, rest: Option<Tree>, site: Span) -> Result<
    Seq<Tree>,
    Fail,
> {
    match first_punct(args.skip(1), '=', rest, site) {
        Err(fail) => Err(fail),
        Ok(_) => first_path(args.skip(2), rest, site),
    }
}

/// A request for each of the modes, of each of the targets.
pub open spec fn requests_for(modes: Seq<Mode>, targets: Seq<PathView>) -> Seq<RequestView> {
    concat(
        targets.map_values(
            |target: PathView| modes.map_values(|mode: Mode| RequestView { mode, target }),
        ),
    )
}

/// The requests in `read(Foo<A>, Foo<B>)`, which comes first.
pub open spec fn request_group(args: Seq<ArgTokenView>, rest: Option<Tree>, site: Span) -> Result<
    Seq<RequestView>,
    Fail,
> {
    match args[0].name {
        Err(error) => no_option(error, args[0].start),
        Ok(option) => match modes_of(option, args[0].tree.at()) {
            Err(fail) => Err(fail),
            Ok(modes) => match first_targets(args.skip(1), rest, site) {
                Err(fail) => Err(fail),
                Ok(targets) => Ok(requests_for(modes, targets)),
            },
        },
    }
}

/// Whether the tree is the keyword `crate`.
pub open spec fn crate_keyword(tree: Tree) -> bool {
    tree matches Tree::Ident { text, at: _ } && text == "crate"@
}

/// The argument that comes first, added to those before it.
pub open spec fn adding_argument(
    done: AttrArgsView,
    args: Seq<ArgTokenView>,
    rest: Option<Tree>,
    site: Span,
) -> Result<AttrArgsView, Fail> {
    if crate_keyword(args[0].tree) {
        if done.crate_path is Some {
            own("`crate` given more than once"@, args[0].tree.at())
        } else {
            match crate_setting(args, rest, site) {
                Err(fail) => Err(fail),
                Ok(path) => Ok(
                    AttrArgsView { requests: done.requests, crate_path: Some(path) },
                ),
            }
        }
    } else {
        match request_group(args, rest, site) {
            Err(fail) => Err(fail),
            Ok(requests) => Ok(
                AttrArgsView {
                    requests: done.requests + requests,
                    crate_path: done.crate_path,
                },
            ),
        }
    }
}

/// How many tokens the argument takes that comes first.
pub open spec fn argument_len(args: Seq<ArgTokenView>) -> int {
    if crate_keyword(args[0].tree) {
        3
    } else {
        2
    }
}

/// The arguments that the tokens are, added to those before them. Commas
/// separate them.
pub open spec fn adding_arguments(
    done: AttrArgsView,
    args: Seq<ArgTokenView>,
    rest: Option<Tree>,
    site: Span,
) -> Result<AttrArgsView, Fail>
    decreases args.len(),
{
    if args.len() == 0 {
        match rest {
            Some(tree) => unexpected("expected "@ + "identifier"@, tree),
            None => Ok(done),
        }
    } else {
        match adding_argument(done, args, rest, site) {
            Err(fail) => Err(fail),
            Ok(next) => {
                let after = args.skip(argument_len(args));
                if args.len() <= argument_len(args) {
                    match rest {
                        Some(_) => cut_off(',', rest, site),
                        None => Ok(next),
                    }
                } else {
                    match first_punct(after, ',', rest, site) {
                        Err(fail) => Err(fail),
                        Ok(_) => adding_arguments(next, after.skip(1), rest, site),
                    }
                }
            },
        }
    }
}

/// The arguments of the attribute: any number of `read(..)`, `write(..)` and
/// `read_write(..)`, and at most one `crate = "path"`.
pub open spec fn arguments_of(args: Seq<ArgTokenView>, rest: Option<Tree>, site: Span) -> Result<
    AttrArgsView,
    Fail,
> {
    adding_arguments(
        AttrArgsView { requests: Seq::empty(), crate_path: None },
        args,
        rest,
        site,
    )
}

/// Whether the tokens of the attribute can be those arguments.
pub open spec fn arguments_read(
    attr: Seq<Tree>,
    site: Span,
    outcome: Result<AttrArgsView, Fail>,
) -> bool {
    exists|args: Seq<ArgTokenView>| #[trigger]
        args_read(opened(attr), starts(attr), args) && outcome == arguments_of(
            args,
            leftover(attr),
            site,
        )
}

/// Checks that the `i`-th token is a punctuation character.
fn expect_punct(
    args: &Vec<ArgToken>,
    i: usize,
    ch: char,
    what: &str,
    end: &End,
) -> (result: Result<(), Error>)
    requires
        end.wf(),
        args_placed(args@),
        i <= args.len(),
        what@ == ticked(ch),
    ensures
        settles(result, first_punct(views(args@).skip(i as int), ch, end.tree(), end.site)),
        result is Ok ==> i < args.len(),
{
    let ghost rest = views(args@).skip(i as int);
    if i < args.len() {
        assert(rest[0] == args@[i as int]@);
        match &args[i].token.shape {
            Shape::Punct(found, _) => {
                if *found == ch {
                    return Ok(());
                }
            },
            _ => {},
        }
        Err(Error::at(args[i].start.place, expected(what)))
    } else {
        let place = match &end.rest {
            Some(start) => start.place,
            None => end.site,
        };
        Err(Error::at(place, expected(what)))
    }
}

/// The path in `crate = "path"`, which stands at the `i`-th token.
fn read_crate_setting(args: &Vec<ArgToken>, i: usize, end: &End) -> (result: Result<
    TokenStream,
    Error,
>)
    requires
        end.wf(),
        args_placed(args@),
        i < args.len(),
    ensures
        settles_tokens(result, crate_setting(views(args@).skip(i as int), end.tree(), end.site)),
        result is Ok ==> i + 3 <= args.len(),
{
    let ghost all = views(args@);
    proof {
        reveal_strlit("`=`");
        assert("`=`"@ =~= ticked('='));
        assert(all.skip(i as int).skip(1) =~= all.skip(i + 1));
    }
    match expect_punct(args, i + 1, '=', "`=`", end) {
        Ok(_) => {},
        Err(error) => return Err(error),
    }
    assert(all.skip(i as int).skip(2) =~= all.skip(i + 2));
    if i + 2 < args.len() {
        assert(all.skip(i + 2)[0] == args@[i + 2]@);
        let arg = &args[i + 2];
        match (&arg.token.shape, &arg.path) {
            (Shape::Str(_, suffix), Some(path)) => {
                let (path, rest) = match path {
                    Ok((path, rest)) => (path, rest),
                    Err(error) => return Err(error.copied()),
                };
                match check_used_up(rest) {
                    Ok(_) => {},
                    Err(error) => return Err(error),
                }
                return match check_suffix(suffix.as_str(), arg.token.span) {
                    Ok(_) => Ok(copied(path)),
                    Err(error) => Err(error),
                };
            },
            _ => {},
        }
        Err(Error::at(arg.start.place, expected("string literal")))
    } else {
        Err(missing("string literal", end))
    }
}

/// Adds a request for each of the modes.
fn push_requests(out: &mut Vec<Request>, modes: &Vec<Mode>, target: &Path)
    ensures
        views(final(out)@) == views(old(out)@) + modes@.map_values(
            |mode: Mode| RequestView { mode, target: target@ },
        ),
{
    let ghost before = views(out@);
    let ghost all = modes@.map_values(|mode: Mode| RequestView { mode, target: target@ });
    assert(before + all.take(0) =~= before);
    for i in 0..modes.len()
        invariant
            all == modes@.map_values(|mode: Mode| RequestView { mode, target: target@ }),
            views(out@) == before + all.take(i as int),
    {
        let ghost was = out@;
        out.push(Request { mode: modes[i], target: copy_path(target) });
        assert(views(out@) =~= views(was).push(all[i as int]));
        assert(views(out@) =~= before + all.take(i + 1));
    }
    assert(all.take(modes.len() as int) =~= all);
}

/// Adds the requests in `read(Foo<A>, Foo<B>)`, which stands at the `i`-th
/// token.
fn read_request_group(
    out: &mut Vec<Request>,
    args: &Vec<ArgToken>,
    i: usize,
    end: &End,
) -> (result: Result<(), Error>)
    requires
        end.wf(),
        i < args.len(),
        args_placed(args@),
    ensures
        match result {
            Ok(_) => request_group(
                views(args@).skip(i as int),
                end.tree(),
                end.site,
            ) matches Ok(requests) && views(final(out)@) == views(old(out)@) + requests && i + 2
                <= args.len(),
            Err(error) => request_group(
                views(args@).skip(i as int),
                end.tree(),
                end.site,
            ) matches Err(fail) && fits(error@, fail),
        },
{
    let ghost list = views(args@).skip(i as int);
    assert(list[0] == args@[i as int]@);
    let option = match &args[i].name {
        Ok(option) => option,
        Err(error) => {
            let mut copy = error.copied();
            if args[i].start.group {
                copy = Error::at(args[i].start.place, copy.message);
            }
            return Err(copy);
        },
    };
    let modes = match Mode::from_ident(option.as_str(), args[i].token.span) {
        Ok(modes) => modes,
        Err(error) => return Err(error),
    };
    assert(list.skip(1) =~= views(args@).skip(i + 1));
    if i + 1 >= args.len() {
        return Err(missing("parentheses", end));
    }
    assert(list.skip(1)[0] == args@[i + 1]@);
    let targets = match &args[i + 1].targets {
        Some(Ok(targets)) => targets,
        Some(Err(error)) => return Err(error.copied()),
        None => return Err(Error::at(args[i + 1].start.place, expected("parentheses"))),
    };
    let ghost before = views(out@);
    let ghost each = |target: PathView|
        modes@.map_values(|mode: Mode| RequestView { mode, target });
    let ghost all = views(targets@).map_values(each);
    assert(before + Seq::<RequestView>::empty() =~= before);
    for k in 0..targets.len()
        invariant
            each == (|target: PathView|
                modes@.map_values(|mode: Mode| RequestView { mode, target })),
            all == views(targets@).map_values(each),
            views(out@) == before + concat(all.take(k as int)),
    {
        let ghost done = concat(all.take(k as int));
        assert(all.take(k + 1).drop_last() =~= all.take(k as int));
        assert(all[k as int] == each(targets@[k as int]@));
        push_requests(out, &modes, &targets[k]);
        assert(views(out@) =~= before + (done + all[k as int]));
    }
    assert(all.take(targets.len() as int) =~= all);
    Ok(())
}

/// The arguments of the attribute.
fn collect_arguments(args: &Vec<ArgToken>, end: &End) -> (result: Result<
    AttrArgs,
    Error,
>)
    requires
        end.wf(),
        args_placed(args@),
    ensures
        settles(result, arguments_of(views(args@), end.tree(), end.site)),
{
    let ghost all = views(args@);
    let mut done = AttrArgs { requests: Vec::new(), crate_path: None };
    assert(views(done.requests@) =~= Seq::empty());
    assert(all.skip(0) =~= all);
    let ghost owed = arguments_of(all, end.tree(), end.site);
    let mut i: usize = 0;
    while i < args.len()
        invariant
            end.wf(),
            args_placed(args@),
            views(args@) == all,
            i <= args.len(),
            owed == arguments_of(all, end.tree(), end.site),
            owed == adding_arguments(done@, all.skip(i as int), end.tree(), end.site),
        decreases args.len() - i,
    {
        let ghost rest = all.skip(i as int);
        let ghost was = done@;
        assert(rest[0] == args@[i as int]@);
        assert(all.len() == args.len());
        let keyword = match &args[i].token.shape {
            Shape::Ident(text) => same(text.as_str(), "crate"),
            _ => false,
        };
        let next: usize;
        if keyword {
            if done.crate_path.is_some() {
                return Err(
                    Error::at(
                        args[i].token.span,
                        String::from_str("`crate` given more than once"),
                    ),
                );
            }
            match read_crate_setting(args, i, end) {
                Ok(path) => {
                    done.crate_path = Some(path);
                },
                Err(error) => return Err(error),
            }
            next = i + 3;
        } else {
            match read_request_group(&mut done.requests, args, i, end) {
                Ok(_) => {},
                Err(error) => return Err(error),
            }
            next = i + 2;
        }
        assert(next == i + argument_len(rest));
        assert(adding_argument(was, rest, end.tree(), end.site) == Ok::<_, Fail>(done@));
        assert(rest.skip(argument_len(rest)) =~= all.skip(next as int));
        if next < args.len() || end.rest.is_some() {
            proof {
                reveal_strlit("`,`");
                assert("`,`"@ =~= ticked(','));
            }
            match expect_punct(args, next, ',', "`,`", end) {
                Ok(_) => {},
                Err(error) => return Err(error),
            }
            i = next + 1;
            assert(all.skip(next as int).skip(1) =~= all.skip(i as int));
        } else {
            return Ok(done);
        }
    }
    match &end.rest {
        Some(start) => Err(Error::at(start.place, expected("identifier"))),
        None => Ok(done),
    }
}

/// The arguments of the attribute.
pub fn parse_arguments(attr: &TokenStream, site: Span) -> (result: Result<AttrArgs, Error>)
    ensures
        exists|outcome: Result<AttrArgsView, Fail>| #[trigger]
            arguments_read(stream_tokens(*attr), site, outcome) && settles(result, outcome),
{
    let (args, rest) = read_args(attr);
    let end = End { site, rest };
    let result = collect_arguments(&args, &end);
    let ghost outcome = arguments_of(views(args@), end.tree(), site);
    assert(arguments_read(stream_tokens(*attr), site, outcome));
    result
}

/// The path of the crate that the generated code uses unless the attribute says
/// otherwise.
pub open spec fn default_path(site: Span) -> Seq<Tree> {
    colons(site) + word("deku_generic"@, site)
}

/// The path of the crate that the generated code uses by default.
pub fn default_crate_path(site: Span) -> (path: TokenStream)
    ensures
        stream_tokens(path) == default_path(site),
{
    proof {
        reveal_strlit("deku_generic");
    }
    let mut path = make_colons(site);
    append(&mut path, &make_word("deku_generic", site));
    path
}

/// Whether the trees report the failure, and then go on with `rest`.
pub open spec fn reports(trees: Seq<Tree>, fail: Fail, rest: Seq<Tree>) -> bool {
    exists|error: ErrorView| #[trigger] fits(error, fail) && trees == report(error) + rest
}

/// The path of the crate: the one that is given, or the default.
pub open spec fn chosen_path(given: Option<Seq<Tree>>, site: Span) -> Seq<Tree> {
    match given {
        Some(path) => path,
        None => default_path(site),
    }
}

/// Whether the trees are the expansion of the attribute on a struct, once its
/// arguments are read. A struct that is rejected comes back without its deku
/// attributes, after the error.
pub open spec fn expands_with(
    trees: Seq<Tree>,
    item: ItemView,
    args: Result<AttrArgsView, Fail>,
    site: Span,
) -> bool {
    let plain = item_tokens(keeping(item, false));
    match args {
        Err(fail) => reports(trees, fail, plain),
        Ok(args) => {
            let crate_path = chosen_path(args.crate_path, site);
            match attribute_of(item, args.requests, crate_path, site) {
                Err(fail) => reports(trees, fail, plain),
                Ok(want) => trees == want,
            }
        },
    }
}

/// Whether the trees are the expansion of the attribute with the arguments
/// `attr` on a struct.
pub open spec fn expands_struct(
    trees: Seq<Tree>,
    attr: Seq<Tree>,
    item: ItemView,
    site: Span,
) -> bool {
    exists|args: Result<AttrArgsView, Fail>| #[trigger]
        arguments_read(attr, site, args) && expands_with(trees, item, args, site)
}

/// Whether the trees are the expansion of the attribute with the arguments
/// `attr` on `item`. What is no struct comes back as it is, after the error.
pub open spec fn expands_attribute(
    trees: Seq<Tree>,
    attr: Seq<Tree>,
    item: Seq<Tree>,
    site: Span,
) -> bool {
    exists|read: Result<ItemView, ErrorView>| #[trigger]
        item_read(item, read) && match read {
            Ok(parsed) => expands_struct(trees, attr, parsed, site),
            Err(error) => trees == report(error) + item,
        }
}

/// An error, and then `rest`.
fn error_before(error: &Error, rest: &TokenStream, fail: Ghost<Fail>) -> (out: TokenStream)
    requires
        fits(error@, fail@),
    ensures
        reports(stream_tokens(out), fail@, stream_tokens(*rest)),
{
    let mut out = to_compile_error(error);
    append(&mut out, rest);
    out
}

/// The expansion of the attribute with the arguments `attr` on `item`, in a
/// macro that is called at `site`.
pub fn expand_attribute(attr: &TokenStream, item: &TokenStream, site: Span) -> (out: TokenStream)
    ensures
        expands_attribute(stream_tokens(out), stream_tokens(*attr), stream_tokens(*item), site),
{
    let read = read_struct(item);
    assert(item_read(stream_tokens(*item), seen(read)));
    let parsed = match read {
        Ok(parsed) => parsed,
        Err(error) => {
            let mut out = to_compile_error(&error);
            append(&mut out, item);
            return out;
        },
    };
    let arguments = parse_arguments(attr, site);
    let ghost outcome = choose|outcome: Result<AttrArgsView, Fail>| #[trigger]
        arguments_read(stream_tokens(*attr), site, outcome) && settles(arguments, outcome);
    let args = match arguments {
        Ok(args) => args,
        Err(error) => {
            let out = error_before(&error, &fallback(&parsed), Ghost(outcome->Err_0));
            assert(expands_with(stream_tokens(out), parsed@, outcome, site));
            return out;
        },
    };
    let ghost view = args@;
    let crate_path = match args.crate_path {
        Some(path) => path,
        None => default_crate_path(site),
    };
    let out = match attribute(&parsed, &args.requests, &crate_path, site) {
        Ok(out) => out,
        Err(error) => {
            let ghost fail = attribute_of(
                parsed@,
                views(args.requests@),
                stream_tokens(crate_path),
                site,
            )->Err_0;
            error_before(&error, &fallback(&parsed), Ghost(fail))
        },
    };
    assert(outcome == Ok::<_, Fail>(view));
    assert(expands_with(stream_tokens(out), parsed@, outcome, site));
    out
}

/// Marks a generic struct so that deku impls can be generated for concrete
/// instantiations of it, and generates those that `attr` asks for.
pub fn deku_generic(attr: TokenStream, item: TokenStream) -> (out: TokenStream)
    ensures
        exists|site: Span| #[trigger]
            expands_attribute(
                stream_tokens(out),
                stream_tokens(attr),
                stream_tokens(item),
                site,
            ),
{
    expand_attribute(&attr, &item, call_site())
}

/// Whether the trees can start with the parts of that path, and go on so.
pub open spec fn path_split(
    trees: Seq<Tree>,
    split: Result<(PathPartsView, Seq<Tree>), ErrorView>,
) -> bool {
    exists|places: Seq<Span>| split == #[trigger] syn_path(trees, places)
}

/// Whether the trees can be that path, with nothing after it.
pub open spec fn target_read(trees: Seq<Tree>, outcome: Result<PathPartsView, Fail>) -> bool {
    exists|split: Result<(PathPartsView, Seq<Tree>), ErrorView>| #[trigger]
        path_split(trees, split) && outcome == match split {
            Err(error) => Err(Fail::Own(error)),
            Ok((path, rest)) => match used_up(rest) {
                Err(fail) => Err(fail),
                Ok(_) => Ok(path),
            },
        }
}

/// What `impl_deku_*!(path::Foo<A>)` calls: the helper macro that stands next
/// to `Foo`, with the mode and the target.
pub open spec fn helper_call(
    mode: Seq<char>,
    target: Result<PathPartsView, Fail>,
    site: Span,
) -> Result<Seq<Tree>, Fail> {
    match target {
        Err(fail) => Err(fail),
        Ok(target) => match helper_of(target.ident[0], site) {
            Err(fail) => Err(fail),
            Ok(helper) => Ok(
                target.lead + seq![helper] + mark('!', site) + enclosed(
                    Delim::Brace,
                    mark('@', site) + word(mode, site) + target.tokens,
                    site,
                ),
            ),
        },
    }
}

/// Whether the trees are what is owed, or report why nothing is.
pub open spec fn expands(trees: Seq<Tree>, owed: Result<Seq<Tree>, Fail>) -> bool {
    match owed {
        Ok(want) => trees == want,
        Err(fail) => reports(trees, fail, Seq::empty()),
    }
}

/// Whether the trees are the expansion of `impl_deku_*!` for `mode`.
pub open spec fn expands_request(
    trees: Seq<Tree>,
    mode: Seq<char>,
    input: Seq<Tree>,
    site: Span,
) -> bool {
    exists|target: Result<PathPartsView, Fail>| #[trigger]
        target_read(input, target) && expands(trees, helper_call(mode, target, site))
}

/// The path that the tokens are, with nothing after it.
fn read_target(input: &TokenStream) -> (result: Result<PathParts, Error>)
    ensures
        exists|outcome: Result<PathPartsView, Fail>| #[trigger]
            target_read(stream_tokens(*input), outcome) && settles(result, outcome),
        result matches Ok(path) ==> lone_ident(stream_tokens(path.ident)),
{
    let split = split_path(input);
    let ghost view = seen_split(split);
    assert(path_split(stream_tokens(*input), view));
    let ghost outcome = match view {
        Err(error) => Err(Fail::Own(error)),
        Ok((path, rest)) => match used_up(rest) {
            Err(fail) => Err(fail),
            Ok(_) => Ok(path),
        },
    };
    assert(target_read(stream_tokens(*input), outcome));
    match split {
        Ok((path, rest)) => match check_used_up(&rest) {
            Ok(_) => Ok(path),
            Err(error) => Err(error),
        },
        Err(error) => Err(error),
    }
}

/// The call of the helper macro that stands next to the struct `target`.
fn call_helper(mode: &str, target: PathParts, site: Span) -> (result: Result<TokenStream, Error>)
    requires
        ascii_ident(mode@),
        lone_ident(stream_tokens(target.ident)),
    ensures
        settles_tokens(result, helper_call(mode@, Ok(target@), site)),
{
    let helper = match helper_ident(&only_ident(&target.ident), site) {
        Ok(helper) => helper,
        Err(error) => return Err(error),
    };
    let mut inner = make_mark('@', site);
    append(&mut inner, &make_word(mode, site));
    append(&mut inner, &target.tokens);
    let mut out = target.lead;
    append(&mut out, &helper);
    append(&mut out, &make_mark('!', site));
    append(&mut out, &enclose(Delim::Brace, &inner, site));
    Ok(out)
}

/// The expansion of `impl_deku_*!` for `mode`, in a macro that is called at
/// `site`.
pub fn dispatch(mode: &str, input: &TokenStream, site: Span) -> (out: TokenStream)
    requires
        ascii_ident(mode@),
    ensures
        expands_request(stream_tokens(out), mode@, stream_tokens(*input), site),
{
    let read = read_target(input);
    let ghost outcome = choose|outcome: Result<PathPartsView, Fail>| #[trigger]
        target_read(stream_tokens(*input), outcome) && settles(read, outcome);
    let result = match read {
        Ok(target) => call_helper(mode, target, site),
        Err(error) => Err(error),
    };
    let ghost call = helper_call(mode@, outcome, site);
    let out = match result {
        Ok(out) => out,
        Err(error) => error_before(&error, &new_stream(), Ghost(call->Err_0)),
    };
    assert(expands(stream_tokens(out), call));
    out
}

/// Implements `DekuReader`, `DekuContainerRead` and `TryFrom<&[u8]>` for a
/// concrete instantiation.
pub fn impl_deku_read(input: TokenStream) -> (out: TokenStream)
    ensures
        exists|site: Span| #[trigger]
            expands_request(stream_tokens(out), "read"@, stream_tokens(input), site),
{
    proof {
        reveal_strlit("read");
    }
    dispatch("read", &input, call_site())
}

/// Implements `DekuWriter`, `DekuContainerWrite`, `DekuUpdate` and `TryFrom`
/// into bytes for a concrete instantiation.
pub fn impl_deku_write(input: TokenStream) -> (out: TokenStream)
    ensures
        exists|site: Span| #[trigger]
            expands_request(stream_tokens(out), "write"@, stream_tokens(input), site),
{
    proof {
        reveal_strlit("write");
    }
    dispatch("write", &input, call_site())
}

/// Shorthand for [`impl_deku_read`] followed by [`impl_deku_write`].
pub fn impl_deku_read_write(input: TokenStream) -> (out: TokenStream)
    ensures
        exists|site: Span| #[trigger]
            expands_request(stream_tokens(out), "read_write"@, stream_tokens(input), site),
{
    proof {
        reveal_strlit("read_write");
    }
    dispatch("read_write", &input, call_site())
}

/// What the helper macro hands on:
/// `@read path::Foo<A, B> ; ::deku_generic ; struct Foo<T, U> { .. }`
pub struct ImplInput {
    pub modes: Vec<Mode>,
    pub target: Path,
    pub crate_path: TokenStream,
    pub item: ItemStruct,
}

/// An [`ImplInput`] as the contracts see it.
pub struct ImplInputView {
    pub modes: Seq<Mode>,
    pub target: PathView,
    pub crate_path: Seq<Tree>,
    pub item: ItemView,
}

impl View for ImplInput {
    type V = ImplInputView;

    open spec fn view(&self) -> ImplInputView {
        ImplInputView {
            modes: self.modes@,
            target: self.target@,
            crate_path: stream_tokens(self.crate_path),
            item: self.item@,
        }
    }
}

/// The modes that an option names, where the trees start with it.
pub open spec fn option_modes(
    trees: Seq<Tree>,
    name: Result<Seq<char>, ErrorView>,
) -> Result<Seq<Mode>, Fail> {
    match name {
        Ok(option) => modes_of(option, peeled(trees)[0].at()),
        Err(error) => no_option(error, trees[0]),
    }
}

/// Whether the option at the start of the trees can name those modes.
pub open spec fn first_modes(
    trees: Seq<Tree>,
    site: Span,
    outcome: Result<Seq<Mode>, Fail>,
) -> bool {
    if trees.len() == 0 {
        outcome == own::<Seq<Mode>>("unexpected end of input, expected "@ + "identifier"@, site)
    } else if peeled(trees).len() == 0 {
        outcome == unexpected::<Seq<Mode>>("expected "@ + "identifier"@, trees[0])
    } else {
        named_modes(trees, outcome)
    }
}

/// Whether the option that comes first can name those modes.
pub open spec fn named_modes(trees: Seq<Tree>, outcome: Result<Seq<Mode>, Fail>) -> bool {
    exists|name: Result<Seq<char>, ErrorView>| #[trigger]
        name_read(peeled(trees)[0], name) && outcome == option_modes(trees, name)
}

/// Whether the trees can be that struct, after the path of the crate.
pub open spec fn item_after(
    trees: Seq<Tree>,
    crate_path: Seq<Tree>,
    outcome: Result<(Seq<Tree>, ItemView), Fail>,
) -> bool {
    exists|item: Result<ItemView, ErrorView>| #[trigger]
        item_read(trees, item) && outcome == match item {
            Ok(item) => Ok((crate_path, item)),
            Err(error) => Err(Fail::Own(error)),
        }
}

/// Whether the trees can be that struct, after a semicolon that follows the path
/// of the crate. The path came through the helper macro and carries that macro's
/// hygiene, so it is moved to the place of the call: deku's derive gives the
/// locals that it generates the span of its own path.
pub open spec fn struct_after(
    path: Seq<Tree>,
    trees: Seq<Tree>,
    site: Span,
    outcome: Result<(Seq<Tree>, ItemView), Fail>,
) -> bool {
    match after_punct(trees, ';', site) {
        Err(fail) => outcome == Err::<(Seq<Tree>, ItemView), _>(fail),
        Ok(rest) => item_after(rest, respanned(path, site), outcome),
    }
}

/// Whether the trees can be the path of the crate and that struct.
pub open spec fn path_and_struct(
    trees: Seq<Tree>,
    site: Span,
    outcome: Result<(Seq<Tree>, ItemView), Fail>,
) -> bool {
    exists|split: Result<(Seq<Tree>, Seq<Tree>), ErrorView>| #[trigger]
        mod_path_split(trees, split) && match split {
            Ok((path, rest)) => struct_after(path, rest, site, outcome),
            Err(error) => outcome == Err::<(Seq<Tree>, ItemView), _>(Fail::Own(error)),
        }
}

/// Whether the trees can be the path of the crate and that struct, after the
/// target.
pub open spec fn definition_read(
    trees: Seq<Tree>,
    site: Span,
    outcome: Result<(Seq<Tree>, ItemView), Fail>,
) -> bool {
    match after_punct(trees, ';', site) {
        Err(fail) => outcome == Err::<(Seq<Tree>, ItemView), _>(fail),
        Ok(rest) => path_and_struct(rest, site, outcome),
    }
}

/// Whether the trees can be the rest of what the helper macro hands on, after
/// the target with these parts.
pub open spec fn input_after(
    parts: PathPartsView,
    trees: Seq<Tree>,
    modes: Seq<Mode>,
    site: Span,
    outcome: Result<ImplInputView, Fail>,
) -> bool {
    exists|target: PathView, definition: Result<(Seq<Tree>, ItemView), Fail>| #[trigger]
        path_reads(parts, target) && #[trigger] definition_read(trees, site, definition)
            && outcome == match definition {
            Ok((crate_path, item)) => Ok(ImplInputView { modes, target, crate_path, item }),
            Err(fail) => Err(fail),
        }
}

/// Whether the trees can be the rest of what the helper macro hands on, after
/// the modes.
pub open spec fn target_after(
    trees: Seq<Tree>,
    modes: Seq<Mode>,
    site: Span,
    outcome: Result<ImplInputView, Fail>,
) -> bool {
    exists|split: Result<(PathPartsView, Seq<Tree>), ErrorView>| #[trigger]
        path_split(trees, split) && match split {
            Ok((parts, rest)) => input_after(parts, rest, modes, site, outcome),
            Err(error) => outcome == Err::<ImplInputView, _>(Fail::Own(error)),
        }
}

/// Whether the trees can be the modes and the rest of what the helper macro
/// hands on.
pub open spec fn modes_after(
    trees: Seq<Tree>,
    site: Span,
    outcome: Result<ImplInputView, Fail>,
) -> bool {
    exists|modes: Result<Seq<Mode>, Fail>| #[trigger]
        first_modes(trees, site, modes) && match modes {
            Ok(modes) => target_after(peeled(trees).skip(1), modes, site, outcome),
            Err(fail) => outcome == Err::<ImplInputView, _>(fail),
        }
}

/// Whether the trees can be what the helper macro hands on.
pub open spec fn impl_input_read(
    trees: Seq<Tree>,
    site: Span,
    outcome: Result<ImplInputView, Fail>,
) -> bool {
    match after_punct(trees, '@', site) {
        Err(fail) => outcome == Err::<ImplInputView, _>(fail),
        Ok(rest) => modes_after(rest, site, outcome),
    }
}

/// The tokens from the `i`-th on.
fn stream_from(tokens: &Vec<Token>, i: usize) -> (out: TokenStream)
    requires
        i <= tokens.len(),
        apart(tokens@),
    ensures
        stream_tokens(out) == views(tokens@).skip(i as int),
{
    let ghost all = views(tokens@);
    let mut out = new_stream();
    for k in i..tokens.len()
        invariant
            i <= tokens.len(),
            apart(tokens@),
            all == views(tokens@),
            stream_tokens(out) =~= all.subrange(i as int, k as int),
    {
        assert(all[k as int] == tokens@[k as int]@);
        append(&mut out, &tokens[k].alone);
        assert(all.subrange(i as int, k + 1) =~= all.subrange(i as int, k as int).push(
            all[k as int],
        ));
    }
    assert(all.subrange(i as int, tokens.len() as int) =~= all.skip(i as int));
    out
}

/// The tokens, with what comes first out of all invisible delimiters.
fn peel(stream: &TokenStream) -> (out: TokenStream)
    ensures
        stream_tokens(out) == peeled(stream_tokens(*stream)),
    decreases stream_tokens(*stream),
{
    let tokens = tokens_of(stream);
    let ghost trees = stream_tokens(*stream);
    assert(views(tokens@).len() == tokens.len());
    if tokens.len() == 0 {
        return copied(stream);
    }
    assert(views(tokens@)[0] == tokens@[0]@);
    match &tokens[0].shape {
        Shape::Group(Delim::Bare, inner) => {
            assert(decreases_to!(trees => trees[0]));
            assert(decreases_to!(trees[0] => trees[0]->Group_inner));
            let mut inside = peel(inner);
            let rest = stream_from(&tokens, 1);
            if is_empty(&inside) {
                peel(&rest)
            } else {
                append(&mut inside, &rest);
                inside
            }
        },
        _ => copied(stream),
    }
}

/// Whether there are no tokens.
fn is_empty(stream: &TokenStream) -> (yes: bool)
    ensures
        yes == (stream_tokens(*stream).len() == 0),
{
    let tokens = tokens_of(stream);
    assert(views(tokens@).len() == tokens.len());
    tokens.len() == 0
}

/// What follows the punctuation character that comes first.
fn skip_punct(stream: &TokenStream, ch: char, what: &str, site: Span) -> (result: Result<
    TokenStream,
    Error,
>)
    requires
        what@ == ticked(ch),
    ensures
        settles_tokens(result, after_punct(stream_tokens(*stream), ch, site)),
{
    let tokens = tokens_of(stream);
    assert(views(tokens@).len() == tokens.len());
    if tokens.len() == 0 {
        return Err(Error::at(site, expected(what)));
    }
    assert(views(tokens@)[0] == tokens@[0]@);
    let out = tokens_of(&peel(stream));
    assert(views(out@).len() == out.len());
    if out.len() > 0 {
        assert(views(out@)[0] == out@[0]@);
        match &out[0].shape {
            Shape::Punct(found, _) => {
                if *found == ch {
                    return Ok(stream_from(&out, 1));
                }
            },
            _ => {},
        }
    }
    Err(instead_of(&tokens[0], what))
}

/// Whether `result` is the path and the struct that are owed.
pub open spec fn settles_definition(
    result: Result<(TokenStream, ItemStruct), Error>,
    owed: Result<(Seq<Tree>, ItemView), Fail>,
) -> bool {
    match result {
        Ok((path, item)) => owed == Ok::<_, Fail>((stream_tokens(path), item@)) && item.wf(),
        Err(error) => owed matches Err(fail) && fits(error@, fail),
    }
}

/// The path of the crate and the struct, after the target.
fn read_definition(stream: &TokenStream, site: Span) -> (result: Result<
    (TokenStream, ItemStruct),
    Error,
>)
    ensures
        exists|outcome: Result<(Seq<Tree>, ItemView), Fail>| #[trigger]
            definition_read(stream_tokens(*stream), site, outcome) && settles_definition(
                result,
                outcome,
            ),
{
    proof {
        reveal_strlit("`;`");
        assert("`;`"@ =~= ticked(';'));
    }
    let ghost trees = stream_tokens(*stream);
    let rest = match skip_punct(stream, ';', "`;`", site) {
        Ok(rest) => rest,
        Err(error) => {
            assert(definition_read(trees, site, Err(after_punct(trees, ';', site)->Err_0)));
            return Err(error);
        },
    };
    let split = split_mod_path(&rest);
    assert(mod_path_split(stream_tokens(rest), seen_pair(split)));
    let (path, after) = match split {
        Ok(parts) => parts,
        Err(error) => {
            assert(path_and_struct(stream_tokens(rest), site, Err(Fail::Own(error@))));
            assert(definition_read(trees, site, Err(Fail::Own(error@))));
            return Err(error);
        },
    };
    let last = match skip_punct(&after, ';', "`;`", site) {
        Ok(last) => last,
        Err(error) => {
            proof {
                let fail = after_punct(stream_tokens(after), ';', site)->Err_0;
                let outcome = Err::<(Seq<Tree>, ItemView), _>(fail);
                assert(struct_after(stream_tokens(path), stream_tokens(after), site, outcome));
                assert(path_and_struct(stream_tokens(rest), site, outcome));
                assert(definition_read(trees, site, outcome));
            }
            return Err(error);
        },
    };
    let read = read_struct(&last);
    assert(item_read(stream_tokens(last), seen(read)));
    let moved = respan(&path, site);
    let ghost outcome: Result<(Seq<Tree>, ItemView), Fail> = match seen(read) {
        Ok(item) => Ok((stream_tokens(moved), item)),
        Err(error) => Err(Fail::Own(error)),
    };
    proof {
        assert(item_after(stream_tokens(last), stream_tokens(moved), outcome));
        assert(struct_after(stream_tokens(path), stream_tokens(after), site, outcome));
        assert(path_and_struct(stream_tokens(rest), site, outcome));
        assert(definition_read(trees, site, outcome));
    }
    match read {
        Ok(item) => Ok((moved, item)),
        Err(error) => Err(error),
    }
}

/// Whether `result` holds the modes that are owed.
pub open spec fn settles_modes(
    result: Result<(Vec<Mode>, Vec<Token>), Error>,
    owed: Result<Seq<Mode>, Fail>,
) -> bool {
    match result {
        Ok((modes, _)) => owed == Ok::<_, Fail>(modes@),
        Err(error) => owed matches Err(fail) && fits(error@, fail),
    }
}

/// The modes that the option at the start of the tokens names, and the tokens
/// with the option out of all invisible delimiters.
fn read_modes(stream: &TokenStream, site: Span) -> (result: Result<
    (Vec<Mode>, Vec<Token>),
    Error,
>)
    ensures
        exists|modes: Result<Seq<Mode>, Fail>| #[trigger]
            first_modes(stream_tokens(*stream), site, modes) && settles_modes(result, modes),
        result matches Ok((_, tokens)) ==> apart(tokens@) && views(tokens@) == peeled(
            stream_tokens(*stream),
        ) && tokens.len() > 0,
{
    let ghost trees = stream_tokens(*stream);
    let tokens = tokens_of(stream);
    assert(views(tokens@).len() == tokens.len());
    if tokens.len() == 0 {
        let end = End { site, rest: None };
        let error = missing("identifier", &end);
        assert(first_modes(trees, site, Err(Fail::Own(error@))));
        return Err(error);
    }
    assert(views(tokens@)[0] == tokens@[0]@);
    let out = tokens_of(&peel(stream));
    assert(views(out@).len() == out.len());
    if out.len() == 0 {
        let error = instead_of(&tokens[0], "identifier");
        let ghost fail = unexpected::<Seq<Mode>>("expected "@ + "identifier"@, trees[0])->Err_0;
        assert(first_modes(trees, site, Err(fail)));
        return Err(error);
    }
    assert(views(out@)[0] == out@[0]@);
    let name = parse_ident(&out[0].alone);
    assert(name_read(out@[0]@, seen(name)));
    let ghost owed = option_modes(trees, seen(name));
    assert(named_modes(trees, owed));
    assert(first_modes(trees, site, owed));
    let option = match name {
        Ok(option) => option,
        Err(error) => {
            return match &tokens[0].shape {
                Shape::Group(_, _) => Err(Error::at(opening(&tokens[0]), error.message)),
                _ => Err(error),
            };
        },
    };
    match Mode::from_ident(option.as_str(), out[0].span) {
        Ok(modes) => Ok((modes, out)),
        Err(error) => Err(error),
    }
}

/// What the helper macro hands on.
pub fn parse_impl_input(input: &TokenStream, site: Span) -> (result: Result<ImplInput, Error>)
    ensures
        exists|outcome: Result<ImplInputView, Fail>| #[trigger]
            impl_input_read(stream_tokens(*input), site, outcome) && settles(result, outcome),
        result matches Ok(input) ==> input.item.wf(),
{
    proof {
        reveal_strlit("`@`");
        assert("`@`"@ =~= ticked('@'));
    }
    let ghost trees = stream_tokens(*input);
    let rest = match skip_punct(input, '@', "`@`", site) {
        Ok(rest) => rest,
        Err(error) => {
            let ghost fail = after_punct(trees, '@', site)->Err_0;
            assert(impl_input_read(trees, site, Err(fail)));
            return Err(error);
        },
    };
    let found = read_modes(&rest, site);
    let ghost named = choose|modes: Result<Seq<Mode>, Fail>| #[trigger]
        first_modes(stream_tokens(rest), site, modes) && settles_modes(found, modes);
    let (modes, tokens) = match found {
        Ok(found) => found,
        Err(error) => {
            assert(modes_after(stream_tokens(rest), site, Err(named->Err_0)));
            assert(impl_input_read(trees, site, Err(named->Err_0)));
            return Err(error);
        },
    };
    assert(views(tokens@) == peeled(stream_tokens(rest)));
    let split = split_path(&stream_from(&tokens, 1));
    let ghost view = seen_split(split);
    let ghost left = peeled(stream_tokens(rest)).skip(1);
    assert(path_split(left, view));
    let (parts, after) = match split {
        Ok(split) => split,
        Err(error) => {
            assert(target_after(left, modes@, site, Err(Fail::Own(error@))));
            assert(modes_after(stream_tokens(rest), site, Err(Fail::Own(error@))));
            assert(impl_input_read(trees, site, Err(Fail::Own(error@))));
            return Err(error);
        },
    };
    let ghost parts_view = parts@;
    let target = read_path(parts);
    assert(path_reads(parts_view, target@));
    let definition = read_definition(&after, site);
    let ghost found = choose|outcome: Result<(Seq<Tree>, ItemView), Fail>| #[trigger]
        definition_read(stream_tokens(after), site, outcome) && settles_definition(
            definition,
            outcome,
        );
    let ghost outcome = match found {
        Ok((crate_path, item)) => Ok(
            ImplInputView { modes: modes@, target: target@, crate_path, item },
        ),
        Err(fail) => Err(fail),
    };
    proof {
        assert(input_after(parts_view, stream_tokens(after), modes@, site, outcome));
        assert(target_after(left, modes@, site, outcome));
        assert(modes_after(stream_tokens(rest), site, outcome));
        assert(impl_input_read(trees, site, outcome));
    }
    match definition {
        Ok((crate_path, item)) => Ok(ImplInput { modes, target, crate_path, item }),
        Err(error) => Err(error),
    }
}

/// A block for each mode, in their order, or what is wrong.
pub open spec fn modes_expansion(
    modes: Seq<Mode>,
    target: PathView,
    item: ItemView,
    crate_path: Seq<Tree>,
    site: Span,
) -> Result<Seq<Tree>, Fail> {
    requested(requests_for(modes, seq![target]), item, crate_path, site)
}

/// The expansion of `__deku_generic_impl!`, once its input is read.
pub open spec fn input_expansion(input: Result<ImplInputView, Fail>, site: Span) -> Result<
    Seq<Tree>,
    Fail,
> {
    match input {
        Err(fail) => Err(fail),
        Ok(parts) => modes_expansion(
            parts.modes,
            parts.target,
            parts.item,
            parts.crate_path,
            site,
        ),
    }
}

/// Whether the trees are the expansion of `__deku_generic_impl!`.
pub open spec fn expands_impl(trees: Seq<Tree>, input: Seq<Tree>, site: Span) -> bool {
    exists|outcome: Result<ImplInputView, Fail>| #[trigger]
        impl_input_read(input, site, outcome) && expands(trees, input_expansion(outcome, site))
}

/// The expansion of `__deku_generic_impl!`, in a macro that is called at
/// `site`.
pub fn expand_impl(input: &TokenStream, site: Span) -> (out: TokenStream)
    ensures
        expands_impl(stream_tokens(out), stream_tokens(*input), site),
{
    let read = parse_impl_input(input, site);
    let ghost outcome = choose|outcome: Result<ImplInputView, Fail>| #[trigger]
        impl_input_read(stream_tokens(*input), site, outcome) && settles(read, outcome);
    let parts = match read {
        Ok(parts) => parts,
        Err(error) => {
            let out = error_before(&error, &new_stream(), Ghost(outcome->Err_0));
            assert(expands(stream_tokens(out), input_expansion(outcome, site)));
            return out;
        },
    };
    let mut requests: Vec<Request> = Vec::new();
    push_requests(&mut requests, &parts.modes, &parts.target);
    let ghost wanted = requests_for(parts@.modes, seq![parts@.target]);
    proof {
        let each = |target: PathView|
            parts@.modes.map_values(|mode: Mode| RequestView { mode, target });
        let lists = seq![parts@.target].map_values(each);
        assert(lists.drop_last() =~= Seq::empty());
        assert(concat(lists.drop_last()) =~= Seq::empty());
        assert(views(requests@) =~= wanted);
    }
    let ghost owed = requested(wanted, parts@.item, parts@.crate_path, site);
    let out = match instantiate_all(&parts.item, &requests, &parts.crate_path, site) {
        Ok(out) => out,
        Err(error) => error_before(&error, &new_stream(), Ghost(owed->Err_0)),
    };
    assert(expands(stream_tokens(out), input_expansion(outcome, site)));
    out
}

/// What the helper macros call: the impls for one instantiation.
pub fn __deku_generic_impl(input: TokenStream) -> (out: TokenStream)
    ensures
        exists|site: Span| #[trigger]
            expands_impl(stream_tokens(out), stream_tokens(input), site),
{
    expand_impl(&input, call_site())
}

} // verus!
