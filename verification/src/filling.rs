//! What templates come to: their words, one after another, and their groups.
use proc_macro2::Span;
use vstd::prelude::*;

use crate::stream::{ascii_ident, ascii_word_char, punct_char, Delim, Tree};
use crate::template::{
    blank, bound, closes, drafted, extended, filled, opens, operator_part, scanned, word_tokens,
    words, Draft,
};

verus! {

/// How many groups are open after some words; none where one closes a group that
/// is not open.
pub open spec fn depth(parts: Seq<Seq<char>>) -> Option<nat>
    decreases parts.len(),
{
    if parts.len() == 0 {
        Some(0)
    } else {
        match depth(parts.drop_last()) {
            None => None,
            Some(open) => if opens(parts.last()) is Some {
                Some(open + 1)
            } else if !closes(parts.last()) {
                Some(open)
            } else if open == 0 {
                None
            } else {
                Some((open - 1) as nat)
            },
        }
    }
}

/// Whether each group of a text is closed in it.
pub open spec fn well_nested(text: Seq<char>) -> bool {
    depth(words(text)) == Some(0nat)
}

/// A blank ends a word.
proof fn lemma_scanned_after(first: Seq<char>, second: Seq<char>)
    ensures
        scanned(first + seq![' '] + second) == (
            words(first) + scanned(second).0,
            scanned(second).1,
        ),
    decreases second.len(),
{
    let all = first + seq![' '] + second;
    if second.len() == 0 {
        assert(all.drop_last() =~= first);
        assert(all.last() == ' ');
        let (done, word) = scanned(first);
        if word.len() == 0 {
            assert(word =~= Seq::empty());
        }
        assert(words(first) + scanned(second).0 =~= words(first));
    } else {
        lemma_scanned_after(first, second.drop_last());
        assert(all.drop_last() =~= first + seq![' '] + second.drop_last());
        assert(all.last() == second.last());
        let (done, word) = scanned(second.drop_last());
        assert(words(first) + done.push(word) =~= (words(first) + done).push(word));
    }
}

/// The words of two texts with a blank between them.
proof fn lemma_words_after(first: Seq<char>, second: Seq<char>)
    ensures
        words(first + seq![' '] + second) == words(first) + words(second),
{
    lemma_scanned_after(first, second);
    let (done, word) = scanned(second);
    assert(words(first) + done.push(word) =~= (words(first) + done).push(word));
}

/// The draft has as many open groups as there are.
proof fn lemma_depth(
    parts: Seq<Seq<char>>,
    slots: Seq<(Seq<char>, Seq<Tree>)>,
    at: Span,
)
    ensures
        depth(parts) matches Some(open) ==> drafted(parts, slots, at).open.len() == open,
    decreases parts.len(),
{
    if parts.len() > 0 {
        lemma_depth(parts.drop_last(), slots, at);
    }
}

/// A draft after what stands before it.
pub open spec fn behind(before: Seq<Tree>, draft: Draft) -> Draft {
    if draft.open.len() == 0 {
        Draft { open: draft.open, here: before + draft.here }
    } else {
        Draft {
            open: draft.open.update(0, (draft.open[0].0, before + draft.open[0].1)),
            here: draft.here,
        }
    }
}

/// Words after words without open groups.
proof fn lemma_drafted_after(
    first: Seq<Seq<char>>,
    second: Seq<Seq<char>>,
    slots: Seq<(Seq<char>, Seq<Tree>)>,
    at: Span,
)
    requires
        depth(first) == Some(0nat),
        depth(second) is Some,
    ensures
        drafted(first + second, slots, at) == behind(
            drafted(first, slots, at).here,
            drafted(second, slots, at),
        ),
    decreases second.len(),
{
    let all = first + second;
    let before = drafted(first, slots, at);
    lemma_depth(first, slots, at);
    if second.len() == 0 {
        assert(all =~= first);
        assert(before.open =~= Seq::empty());
        assert(before.here + Seq::<Tree>::empty() =~= before.here);
    } else {
        let fewer = second.drop_last();
        lemma_drafted_after(first, fewer, slots, at);
        lemma_depth(fewer, slots, at);
        lemma_depth(second, slots, at);
        assert(all.drop_last() =~= first + fewer);
        assert(all.last() == second.last());
        let draft = drafted(fewer, slots, at);
        let lifted = behind(before.here, draft);
        let word = second.last();
        let want = behind(before.here, extended(draft, word, slots, at));
        let have = extended(lifted, word, slots, at);
        assert(have.here =~= want.here);
        assert(have.open =~= want.open);
    }
}

/// Texts that are well nested are filled in one after another.
pub proof fn templates_are_filled_in_order(
    first: Seq<char>,
    second: Seq<char>,
    slots: Seq<(Seq<char>, Seq<Tree>)>,
    at: Span,
)
    requires
        well_nested(first),
        well_nested(second),
    ensures
        filled(first + seq![' '] + second, slots, at) == filled(first, slots, at) + filled(
            second,
            slots,
            at,
        ),
{
    lemma_words_after(first, second);
    lemma_drafted_after(words(first), words(second), slots, at);
    lemma_depth(words(first), slots, at);
    lemma_depth(words(second), slots, at);
}

/// Words inside of a group.
proof fn lemma_drafted_inside(
    open: Seq<char>,
    delim: Delim,
    parts: Seq<Seq<char>>,
    slots: Seq<(Seq<char>, Seq<Tree>)>,
    at: Span,
)
    requires
        opens(open) == Some(delim),
        depth(parts) is Some,
    ensures
        drafted(seq![open] + parts, slots, at) == (Draft {
            open: seq![(delim, Seq::<Tree>::empty())] + drafted(parts, slots, at).open,
            here: drafted(parts, slots, at).here,
        }),
    decreases parts.len(),
{
    let all = seq![open] + parts;
    if parts.len() == 0 {
        reveal_with_fuel(drafted, 2);
        assert(all.drop_last() =~= Seq::empty());
        assert(all.last() == open);
        assert(drafted(all, slots, at).open =~= seq![(delim, Seq::<Tree>::empty())] + drafted(
            parts,
            slots,
            at,
        ).open);
    } else {
        let fewer = parts.drop_last();
        lemma_drafted_inside(open, delim, fewer, slots, at);
        lemma_depth(fewer, slots, at);
        assert(all.drop_last() =~= seq![open] + fewer);
        assert(all.last() == parts.last());
        let draft = drafted(fewer, slots, at);
        let word = parts.last();
        let inside = extended(draft, word, slots, at);
        let have = drafted(all, slots, at);
        assert(have.open =~= seq![(delim, Seq::<Tree>::empty())] + inside.open);
        assert(have.here =~= inside.here);
    }
}

/// A text between brackets is filled in as a group.
pub proof fn brackets_make_a_group(
    open: char,
    inner: Seq<char>,
    close: char,
    delim: Delim,
    slots: Seq<(Seq<char>, Seq<Tree>)>,
    at: Span,
)
    requires
        well_nested(inner),
        (open, close, delim) == ('(', ')', Delim::Paren) || (open, close, delim) == (
            '{',
            '}',
            Delim::Brace,
        ) || (open, close, delim) == ('[', ']', Delim::Bracket),
    ensures
        filled(seq![open] + seq![' '] + inner + seq![' '] + seq![close], slots, at) == seq![
            Tree::Group { delim, inner: filled(inner, slots, at), at },
        ],
{
    let (left, right) = (seq![open], seq![close]);
    assert(seq!['('][0] == '(' && seq!['{'][0] == '{' && seq!['['][0] == '[');
    assert(seq![')'][0] == ')' && seq!['}'][0] == '}' && seq![']'][0] == ']');
    assert(left[0] == open && right[0] == close);
    assert(opens(left) == Some(delim));
    assert(opens(right) is None && closes(right));
    lemma_one_word(left);
    lemma_one_word(right);
    lemma_words_after(left, inner);
    lemma_words_after(left + seq![' '] + inner, right);
    let parts = words(inner);
    lemma_drafted_inside(left, delim, parts, slots, at);
    lemma_depth(parts, slots, at);
    let all = seq![left] + parts + seq![right];
    assert(all.drop_last() =~= seq![left] + parts);
    assert(all.last() == right);
    let inside = drafted(parts, slots, at);
    let draft = drafted(seq![left] + parts, slots, at);
    assert(inside.open =~= Seq::empty());
    assert(draft.open =~= seq![(delim, Seq::<Tree>::empty())]);
    let done = drafted(all, slots, at);
    assert(done.open =~= Seq::empty());
    assert(done.here =~= seq![Tree::Group { delim, inner: inside.here, at }]);
}

/// A text without blanks is one word.
proof fn lemma_one_word(text: Seq<char>)
    requires
        text.len() > 0,
        forall|i: int| 0 <= i < text.len() ==> !blank(#[trigger] text[i]),
    ensures
        words(text) == seq![text],
{
    lemma_no_blanks(text);
    assert(Seq::empty().push(text) =~= seq![text]);
}

/// A text without blanks ends no word.
proof fn lemma_no_blanks(text: Seq<char>)
    requires
        forall|i: int| 0 <= i < text.len() ==> !blank(#[trigger] text[i]),
    ensures
        scanned(text) == (Seq::<Seq<char>>::empty(), text),
    decreases text.len(),
{
    if text.len() == 0 {
        assert(text =~= Seq::empty());
    } else {
        let fewer = text.drop_last();
        assert forall|i: int| 0 <= i < fewer.len() implies !blank(#[trigger] fewer[i]) by {
            assert(fewer[i] == text[i]);
        }
        lemma_no_blanks(fewer);
        assert(!blank(text[text.len() - 1]));
        assert(fewer.push(text.last()) =~= text);
    }
}

/// One word that is no bracket is filled in as its tokens.
proof fn lemma_word_filled(
    text: Seq<char>,
    slots: Seq<(Seq<char>, Seq<Tree>)>,
    at: Span,
)
    requires
        text.len() > 0,
        forall|i: int| 0 <= i < text.len() ==> !blank(#[trigger] text[i]),
        opens(text) is None,
        !closes(text),
    ensures
        filled(text, slots, at) == word_tokens(text, slots, at),
        well_nested(text),
{
    lemma_one_word(text);
    reveal_with_fuel(drafted, 2);
    reveal_with_fuel(depth, 2);
    let one = seq![text];
    assert(one.drop_last() =~= Seq::empty());
    assert(one.last() == text);
    assert(filled(text, slots, at) =~= word_tokens(text, slots, at));
}

/// A name in a template stands for itself.
pub proof fn names_stand_for_themselves(
    text: Seq<char>,
    slots: Seq<(Seq<char>, Seq<Tree>)>,
    at: Span,
)
    requires
        ascii_ident(text),
    ensures
        filled(text, slots, at) == seq![Tree::Ident { text, at }],
        well_nested(text),
{
    assert(ascii_word_char(text[0]));
    assert forall|i: int| 0 <= i < text.len() implies !blank(#[trigger] text[i]) by {
        assert(ascii_word_char(text[i]));
    }
    assert(seq!['('][0] == '(' && seq!['{'][0] == '{' && seq!['['][0] == '[');
    assert(seq![')'][0] == ')' && seq!['}'][0] == '}' && seq![']'][0] == ']');
    lemma_word_filled(text, slots, at);
}

/// `#name` in a template stands for the tokens that are given under that name,
/// all of them.
pub proof fn slots_stand_for_their_tokens(
    text: Seq<char>,
    slots: Seq<(Seq<char>, Seq<Tree>)>,
    i: int,
    at: Span,
)
    requires
        ascii_ident(text),
        0 <= i < slots.len(),
        slots[i].0 == text,
        forall|k: int| i < k < slots.len() ==> (#[trigger] slots[k]).0 != text,
    ensures
        filled(seq!['#'] + text, slots, at) == slots[i].1,
        well_nested(seq!['#'] + text),
{
    let word = seq!['#'] + text;
    assert forall|k: int| 0 <= k < word.len() implies !blank(#[trigger] word[k]) by {
        if k > 0 {
            assert(word[k] == text[k - 1]);
            assert(ascii_word_char(text[k - 1]));
        }
    }
    assert(word.len() > 1 && word[0] == '#');
    assert(word.skip(1) =~= text);
    lemma_word_filled(word, slots, at);
    lemma_bound(slots, i, text);
}

/// The last slot of a name counts.
proof fn lemma_bound(slots: Seq<(Seq<char>, Seq<Tree>)>, i: int, text: Seq<char>)
    requires
        0 <= i < slots.len(),
        slots[i].0 == text,
        forall|k: int| i < k < slots.len() ==> (#[trigger] slots[k]).0 != text,
    ensures
        bound(slots, text) == slots[i].1,
    decreases slots.len(),
{
    if i < slots.len() - 1 {
        assert(slots[slots.len() - 1].0 != text);
        let fewer = slots.drop_last();
        assert forall|k: int| i < k < fewer.len() implies (#[trigger] fewer[k]).0 != text by {
            assert(fewer[k] == slots[k]);
        }
        lemma_bound(fewer, i, text);
    }
}

/// A character of an operator, joined to the next one if there is one.
pub open spec fn joined_mark(text: Seq<char>, i: int, at: Span) -> Tree {
    Tree::Punct { ch: text[i], joint: i + 1 != text.len(), at }
}

/// The characters of an operator, up to one of them.
proof fn lemma_operator(text: Seq<char>, end: int, at: Span)
    requires
        0 <= end <= text.len(),
        forall|i: int| 0 <= i < text.len() ==> punct_char(#[trigger] text[i]),
    ensures
        operator_part(text, end, at) == Seq::new(
            end as nat,
            |i: int| joined_mark(text, i, at),
        ),
    decreases end,
{
    let want = Seq::new(
        end as nat,
        |i: int| joined_mark(text, i, at),
    );
    if end > 0 {
        lemma_operator(text, end - 1, at);
        assert(punct_char(text[end - 1]));
        assert(operator_part(text, end, at) =~= want);
    } else {
        assert(operator_part(text, end, at) =~= want);
    }
}

/// An operator in a template stands for its characters, each joined to the next.
pub proof fn operators_are_joined(
    text: Seq<char>,
    slots: Seq<(Seq<char>, Seq<Tree>)>,
    at: Span,
)
    requires
        text.len() > 0,
        forall|i: int| 0 <= i < text.len() ==> punct_char(#[trigger] text[i]),
        text.len() > 1 ==> text[0] != '#',
    ensures
        filled(text, slots, at) == Seq::new(
            text.len(),
            |i: int| joined_mark(text, i, at),
        ),
        well_nested(text),
{
    assert forall|i: int| 0 <= i < text.len() implies !blank(#[trigger] text[i]) by {
        assert(punct_char(text[i]));
    }
    assert(punct_char(text[0]));
    assert(!ascii_ident(text)) by {
        assert(!ascii_word_char(text[0]));
    }
    if text.len() > 1 {
        assert(!ascii_ident(text.skip(1))) by {
            assert(punct_char(text[1]));
            assert(!ascii_word_char(text.skip(1)[0]));
        }
    }
    assert(seq!['('][0] == '(' && seq!['{'][0] == '{' && seq!['['][0] == '[');
    assert(seq![')'][0] == ')' && seq!['}'][0] == '}' && seq![']'][0] == ']');
    lemma_operator(text, text.len() as int, at);
    lemma_word_filled(text, slots, at);
}

/// A lifetime in a template stands for itself, and so does a digit.
pub proof fn lifetimes_and_digits_stand_for_themselves(
    text: Seq<char>,
    digit: char,
    slots: Seq<(Seq<char>, Seq<Tree>)>,
    at: Span,
)
    requires
        ascii_ident(text),
        '0' <= digit <= '9',
    ensures
        filled(seq!['\''] + text, slots, at) == seq![
            Tree::Punct { ch: '\'', joint: true, at },
            Tree::Ident { text, at },
        ],
        filled(seq![digit], slots, at) == seq![Tree::Literal { text: seq![digit], at }],
{
    let word = seq!['\''] + text;
    assert(word.len() > 1 && word[0] == '\'');
    assert forall|k: int| 0 <= k < word.len() implies !blank(#[trigger] word[k]) by {
        if k > 0 {
            assert(word[k] == text[k - 1]);
            assert(ascii_word_char(text[k - 1]));
        }
    }
    assert(word.skip(1) =~= text);
    assert(!ascii_ident(word)) by {
        assert(!ascii_word_char(word[0]));
    }
    assert(seq!['('][0] == '(' && seq!['{'][0] == '{' && seq!['['][0] == '[');
    assert(seq![')'][0] == ')' && seq!['}'][0] == '}' && seq![']'][0] == ']');
    lemma_word_filled(word, slots, at);
    let one = seq![digit];
    assert(one[0] == digit);
    lemma_word_filled(one, slots, at);
}

} // verus!
