//! The content of a syntax tree without its spans: what two trees have in
//! common when they were read from texts that differ in blank space only.

use vstd::prelude::*;
use crate::ast::{Binding, Func, Item, Modified, Word};
use crate::function::{FunctionId, Signature};
use crate::lex::Sp;
use crate::primitive::Primitive;
use crate::value::strings_view;

verus! {

broadcast use {
    vstd::std_specs::vec::axiom_vec_index_decreases,
    vstd::std_specs::vec::axiom_vec_decreases_to_view,
    vstd::seq::axiom_seq_index_decreases,
};

/// The content of a word.
pub enum Syntax {
    /// A number, as it was written.
    Number(Seq<char>),
    Char(char),
    String(Seq<char>),
    FormatString(Seq<Seq<char>>),
    MultilineString(Seq<Seq<Seq<char>>>),
    Ident(Seq<char>),
    Strand(Seq<Syntax>),
    /// The lines of an array literal, and whether it is constant.
    Array(Seq<Seq<Syntax>>, bool),
    /// The identity, the declared signature and the lines of a function
    /// literal.
    Func(FunctionId, Option<Signature>, Seq<Seq<Syntax>>),
    Ocean(Seq<Primitive>),
    Primitive(Primitive),
    /// A modifier, its operands, and whether it is terminated.
    Modified(Primitive, Seq<Syntax>, bool),
    Comment(Seq<char>),
    Spaces,
}

/// The content of an item.
pub enum ItemSyntax {
    Scoped(Seq<ItemSyntax>, bool),
    Words(Seq<Syntax>),
    /// The name, the declared signature and the words of a binding.
    Binding(Seq<char>, Option<Signature>, Seq<Syntax>),
    ExtraNewlines,
}

/// The declared signature without its span.
pub open spec fn signature_of(signature: Option<Sp<Signature>>) -> Option<Signature> {
    match signature {
        Some(sp) => Some(sp.value),
        None => None,
    }
}

/// The primitives of a list without their spans.
pub open spec fn primitives_of(prims: Seq<Sp<Primitive>>) -> Seq<Primitive> {
    Seq::new(prims.len(), |i: int| prims[i].value)
}

/// The lines of a multi-line string without their spans.
pub open spec fn multiline_of(lines: Seq<Sp<Vec<String>>>) -> Seq<Seq<Seq<char>>> {
    Seq::new(lines.len(), |i: int| strings_view(lines[i].value@))
}

/// The content of the first `n` words of a list.
pub open spec fn syntax_list(words: Seq<Sp<Word>>, n: nat) -> Seq<Syntax>
    decreases words, n,
{
    if n == 0 || n > words.len() {
        Seq::empty()
    } else {
        syntax_list(words, (n - 1) as nat).push(syntax_of(words[n - 1].value))
    }
}

/// The content of the first `n` lines of words.
pub open spec fn syntax_lines(lines: Seq<Vec<Sp<Word>>>, n: nat) -> Seq<Seq<Syntax>>
    decreases lines, n,
{
    if n == 0 || n > lines.len() {
        Seq::empty()
    } else {
        syntax_lines(lines, (n - 1) as nat).push(syntax_list(lines[n - 1]@, lines[n - 1]@.len()))
    }
}

/// The content of a word.
pub open spec fn syntax_of(word: Word) -> Syntax
    decreases word,
{
    match word {
        Word::Number(written, _) => Syntax::Number(written@),
        Word::Char(c) => Syntax::Char(c),
        Word::String(s) => Syntax::String(s@),
        Word::FormatString(parts) => Syntax::FormatString(strings_view(parts@)),
        Word::MultilineString(lines) => Syntax::MultilineString(multiline_of(lines@)),
        Word::Ident(name) => Syntax::Ident(name@),
        Word::Strand(items) => Syntax::Strand(syntax_list(items@, items@.len())),
        Word::Array(arr) => Syntax::Array(syntax_lines(arr.lines@, arr.lines@.len()), arr.constant),
        Word::Func(func) => Syntax::Func(
            func.id,
            signature_of(func.signature),
            syntax_lines(func.lines@, func.lines@.len()),
        ),
        Word::Ocean(prims) => Syntax::Ocean(primitives_of(prims@)),
        Word::Primitive(prim) => Syntax::Primitive(prim),
        Word::Modified(modified) => Syntax::Modified(
            modified.modifier.value,
            syntax_list(modified.operands@, modified.operands@.len()),
            modified.terminated,
        ),
        Word::Comment(comment) => Syntax::Comment(comment@),
        Word::Spaces => Syntax::Spaces,
    }
}

/// The content of the first `n` items of a list.
pub open spec fn item_list(items: Seq<Item>, n: nat) -> Seq<ItemSyntax>
    decreases items, n,
{
    if n == 0 || n > items.len() {
        Seq::empty()
    } else {
        item_list(items, (n - 1) as nat).push(item_syntax(items[n - 1]))
    }
}

/// The content of an item.
pub open spec fn item_syntax(item: Item) -> ItemSyntax
    decreases item,
{
    match item {
        Item::Scoped { items, test } => ItemSyntax::Scoped(item_list(items@, items@.len()), test),
        Item::Words(words) => ItemSyntax::Words(syntax_list(words@, words@.len())),
        Item::Binding(binding) => ItemSyntax::Binding(
            binding.name.value@,
            signature_of(binding.signature),
            syntax_list(binding.words@, binding.words@.len()),
        ),
        Item::ExtraNewlines(_) => ItemSyntax::ExtraNewlines,
    }
}

/// The content of the first words of a list depends on those words alone.
pub proof fn lemma_syntax_list_prefix(longer: Seq<Sp<Word>>, words: Seq<Sp<Word>>, n: nat)
    requires
        n <= words.len() <= longer.len(),
        forall|i: int| 0 <= i < n ==> longer[i] == words[i],
    ensures
        syntax_list(longer, n) == syntax_list(words, n),
    decreases n,
{
    if n > 0 {
        lemma_syntax_list_prefix(longer, words, (n - 1) as nat);
    }
}

/// The content of an empty list of words is empty.
pub proof fn lemma_syntax_list_len(words: Seq<Sp<Word>>, n: nat)
    requires
        n <= words.len(),
    ensures
        syntax_list(words, n).len() == n,
    decreases n,
{
    if n > 0 {
        lemma_syntax_list_len(words, (n - 1) as nat);
    }
}

} // verus!
