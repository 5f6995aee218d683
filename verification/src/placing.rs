//! Where the words of a program stand: each word carries the span of the
//! tokens it is made of, from the start of its first token to the end of its
//! last, and each item stands on the lines it was read from.
//!
//! How many tokens a word is made of can be told from the word alone: a
//! literal, a name or a primitive is one token; brackets are one token each;
//! the atoms of a strand are parted by one underscore each; and a modifier
//! is followed by its operands and, where it is ended early, by a bar.

use vstd::prelude::*;
use crate::ast::{Item, Word};
use crate::lex::{CodeSpan, Sp};

verus! {

broadcast use {
    vstd::std_specs::vec::axiom_vec_index_decreases,
    vstd::std_specs::vec::axiom_vec_decreases_to_view,
    vstd::seq::axiom_seq_index_decreases,
};

/// The spans of the tokens of a line.
pub open spec fn spans_of(tokens: Seq<Sp<String>>) -> Seq<CodeSpan> {
    Seq::new(tokens.len(), |i: int| tokens[i].span)
}

/// The span from the start of one token of a line to the end of another.
pub open spec fn cover(spans: Seq<CodeSpan>, from: int, to: int) -> CodeSpan {
    CodeSpan { file: spans[from].file, start: spans[from].start, end: spans[to].end }
}

/// The number of tokens that a word is made of.
pub open spec fn width(word: Word) -> nat
    decreases word,
{
    match word {
        Word::Strand(items) => (extent(items@, 0, 1) - 1) as nat,
        Word::Array(arr) => 2 + lines_extent(arr.lines@, 0),
        Word::Func(func) => 2 + lines_extent(func.lines@, 0),
        Word::Modified(modified) => 1 + extent(modified.operands@, 0, 0) + if modified.terminated {
            1nat
        } else {
            0nat
        },
        _ => 1,
    }
}

/// The number of tokens that the words from index `from` on take up, each
/// with `gap` tokens behind it.
pub open spec fn extent(words: Seq<Sp<Word>>, from: nat, gap: nat) -> nat
    decreases words, words.len() - from,
{
    if from >= words.len() {
        0
    } else {
        width(words[from as int].value) + gap + extent(words, from + 1, gap)
    }
}

/// The number of tokens that the words of the lines from index `from` on
/// take up.
pub open spec fn lines_extent(lines: Seq<Vec<Sp<Word>>>, from: nat) -> nat
    decreases lines, lines.len() - from,
{
    if from >= lines.len() {
        0
    } else {
        extent(lines[from as int]@, 0, 0) + lines_extent(lines, from + 1)
    }
}

/// Whether a word, and every word within it, carries the span of its tokens,
/// where its first token is the one of index `pos` of its line.
pub open spec fn word_placed(word: Sp<Word>, spans: Seq<CodeSpan>, pos: int) -> bool
    decreases word,
{
    &&& 0 <= pos
    &&& pos + width(word.value) <= spans.len()
    &&& word.span == cover(spans, pos, pos + width(word.value) - 1)
    &&& match word.value {
        Word::Strand(items) => words_placed(items@, 0, spans, pos, 1),
        Word::Array(arr) => lines_placed(arr.lines@, 0, spans, pos + 1),
        Word::Func(func) => lines_placed(func.lines@, 0, spans, pos + 1),
        Word::Modified(modified) => modified.modifier.span == cover(spans, pos, pos)
            && words_placed(modified.operands@, 0, spans, pos + 1, 0),
        _ => true,
    }
}

/// Whether the words from index `from` on carry the spans of their tokens,
/// where they stand one after the other from the token of index `pos` on,
/// each with `gap` tokens behind it.
pub open spec fn words_placed(
    words: Seq<Sp<Word>>,
    from: nat,
    spans: Seq<CodeSpan>,
    pos: int,
    gap: nat,
) -> bool
    decreases words, words.len() - from,
{
    if from >= words.len() {
        true
    } else {
        word_placed(words[from as int], spans, pos) && words_placed(
            words,
            from + 1,
            spans,
            pos + width(words[from as int].value) + gap,
            gap,
        )
    }
}

/// Whether the words of the lines from index `from` on carry the spans of
/// their tokens, where they stand one after the other from the token of
/// index `pos` on.
pub open spec fn lines_placed(
    lines: Seq<Vec<Sp<Word>>>,
    from: nat,
    spans: Seq<CodeSpan>,
    pos: int,
) -> bool
    decreases lines, lines.len() - from,
{
    if from >= lines.len() {
        true
    } else {
        words_placed(lines[from as int]@, 0, spans, pos, 0) && lines_placed(
            lines,
            from + 1,
            spans,
            pos + extent(lines[from as int]@, 0, 0),
        )
    }
}

/// The number of lines that an item was read from: one for words or a
/// binding, and for a block its items and the two lines that mark it.
pub open spec fn rows(item: Item) -> nat
    decreases item,
{
    match item {
        Item::Scoped { items, test } => 2 + rows_extent(items@, 0),
        _ => 1,
    }
}

/// The number of lines that the items from index `from` on were read from.
pub open spec fn rows_extent(items: Seq<Item>, from: nat) -> nat
    decreases items, items.len() - from,
{
    if from >= items.len() {
        0
    } else {
        rows(items[from as int]) + rows_extent(items, from + 1)
    }
}

/// Whether an item that was read from the line of index `row` on carries
/// the spans of the tokens there: words stand from the first token on; a
/// binding has the span of the first token for its name, and its words stand
/// from the third token on; the items of a block stand on the lines behind
/// the line that opens it.
pub open spec fn item_placed(item: Item, lines: Seq<Vec<Sp<String>>>, row: int) -> bool
    decreases item,
{
    match item {
        Item::Scoped { items, test } => items_placed(items@, 0, lines, row + 1),
        Item::Words(words) => 0 <= row < lines.len() && words_placed(
            words@,
            0,
            spans_of(lines[row]@),
            0,
            0,
        ),
        Item::Binding(binding) => 0 <= row < lines.len() && lines[row]@.len() >= 2
            && binding.name.span == lines[row]@[0].span && words_placed(
            binding.words@,
            0,
            spans_of(lines[row]@),
            2,
            0,
        ),
        Item::ExtraNewlines(_) => true,
    }
}

/// Whether the items from index `from` on carry the spans of the tokens of
/// the lines they were read from, which are the lines from index `row` on.
pub open spec fn items_placed(
    items: Seq<Item>,
    from: nat,
    lines: Seq<Vec<Sp<String>>>,
    row: int,
) -> bool
    decreases items, items.len() - from,
{
    if from >= items.len() {
        true
    } else {
        item_placed(items[from as int], lines, row) && items_placed(
            items,
            from + 1,
            lines,
            row + rows(items[from as int]),
        )
    }
}

/// The extent of words is that of the same words behind one more.
pub proof fn lemma_extent_shift(first: Sp<Word>, rest: Seq<Sp<Word>>, from: nat, gap: nat)
    ensures
        extent(seq![first] + rest, from + 1, gap) == extent(rest, from, gap),
    decreases rest.len() - from,
{
    let all = seq![first] + rest;
    if from < rest.len() {
        assert(all[(from + 1) as int] == rest[from as int]);
        lemma_extent_shift(first, rest, from + 1, gap);
    }
}

/// Words that are placed stay placed behind one more word.
pub proof fn lemma_placed_shift(
    first: Sp<Word>,
    rest: Seq<Sp<Word>>,
    from: nat,
    spans: Seq<CodeSpan>,
    pos: int,
    gap: nat,
)
    ensures
        words_placed(seq![first] + rest, from + 1, spans, pos, gap) == words_placed(
            rest,
            from,
            spans,
            pos,
            gap,
        ),
    decreases rest.len() - from,
{
    let all = seq![first] + rest;
    if from < rest.len() {
        assert(all[(from + 1) as int] == rest[from as int]);
        lemma_placed_shift(first, rest, from + 1, spans, pos + width(rest[from as int].value) + gap, gap);
    }
}

/// A word that is placed, before words that are placed behind it, makes
/// words that are placed, and their extent is the sum of the two.
pub proof fn lemma_placed_front(
    first: Sp<Word>,
    rest: Seq<Sp<Word>>,
    spans: Seq<CodeSpan>,
    pos: int,
    gap: nat,
)
    requires
        word_placed(first, spans, pos),
        words_placed(rest, 0, spans, pos + width(first.value) + gap, gap),
    ensures
        words_placed(seq![first] + rest, 0, spans, pos, gap),
        extent(seq![first] + rest, 0, gap) == width(first.value) + gap + extent(rest, 0, gap),
{
    let all = seq![first] + rest;
    assert(all[0] == first);
    lemma_placed_shift(first, rest, 0, spans, pos + width(first.value) + gap, gap);
    lemma_extent_shift(first, rest, 0, gap);
}

/// The lines that items were read from are those of the same items behind
/// one more.
pub proof fn lemma_rows_shift(first: Item, rest: Seq<Item>, from: nat)
    ensures
        rows_extent(seq![first] + rest, from + 1) == rows_extent(rest, from),
    decreases rest.len() - from,
{
    let all = seq![first] + rest;
    if from < rest.len() {
        assert(all[(from + 1) as int] == rest[from as int]);
        lemma_rows_shift(first, rest, from + 1);
    }
}

/// Items that are placed stay placed behind one more item.
pub proof fn lemma_items_shift(
    first: Item,
    rest: Seq<Item>,
    from: nat,
    lines: Seq<Vec<Sp<String>>>,
    row: int,
)
    ensures
        items_placed(seq![first] + rest, from + 1, lines, row) == items_placed(
            rest,
            from,
            lines,
            row,
        ),
    decreases rest.len() - from,
{
    let all = seq![first] + rest;
    if from < rest.len() {
        assert(all[(from + 1) as int] == rest[from as int]);
        lemma_items_shift(first, rest, from + 1, lines, row + rows(rest[from as int]));
    }
}

/// An item that is placed, before items that are placed behind it, makes
/// items that are placed.
pub proof fn lemma_items_front(first: Item, rest: Seq<Item>, lines: Seq<Vec<Sp<String>>>, row: int)
    requires
        item_placed(first, lines, row),
        items_placed(rest, 0, lines, row + rows(first)),
    ensures
        items_placed(seq![first] + rest, 0, lines, row),
        rows_extent(seq![first] + rest, 0) == rows(first) + rows_extent(rest, 0),
{
    let all = seq![first] + rest;
    assert(all[0] == first);
    lemma_items_shift(first, rest, 0, lines, row + rows(first));
    lemma_rows_shift(first, rest, 0);
}

} // verus!
