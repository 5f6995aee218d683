//! Names: a program may only look up a name that an item before has bound.
//!
//! The words of a program are gone through in the order in which they
//! stand, a function with the names that are known where it is written. The
//! first name that is looked up before it is bound is reported, with the
//! place where it stands.

use vstd::prelude::*;
use vstd::string::*;
use crate::ast::{Item, Word};
use crate::compile::is_run;
use crate::driver::RunMode;
use crate::lex::{CodeSpan, Sp};
use crate::text::same_text;
use crate::value::strings_view;

verus! {

broadcast use {
    vstd::std_specs::vec::axiom_vec_index_decreases,
    vstd::std_specs::vec::axiom_vec_decreases_to_view,
    vstd::seq::axiom_seq_index_decreases,
};

/// Why a program cannot be compiled.
#[derive(Debug, PartialEq, Eq)]
pub enum CompileError {
    /// A name is looked up that no item before has bound.
    UndefinedName(String, CodeSpan),
}

/// A name that is not known, and where it stands.
pub type Stray = Option<(Seq<char>, CodeSpan)>;

/// The first of two findings that is one.
pub open spec fn or_else(first: Stray, second: Stray) -> Stray {
    if first is Some {
        first
    } else {
        second
    }
}

/// The first name among the first `n` words that is not known.
pub open spec fn stray_in_words(words: Seq<Sp<Word>>, n: nat, known: Seq<Seq<char>>) -> Stray
    decreases words, n,
{
    if n == 0 || n > words.len() {
        None
    } else {
        or_else(
            stray_in_words(words, (n - 1) as nat, known),
            stray_in_word(words[n - 1].value, words[n - 1].span, known),
        )
    }
}

/// The first name among the words of the first `n` lines that is not known.
pub open spec fn stray_in_lines(lines: Seq<Vec<Sp<Word>>>, n: nat, known: Seq<Seq<char>>) -> Stray
    decreases lines, n,
{
    if n == 0 || n > lines.len() {
        None
    } else {
        or_else(
            stray_in_lines(lines, (n - 1) as nat, known),
            stray_in_words(lines[n - 1]@, lines[n - 1]@.len(), known),
        )
    }
}

/// The first name in a word that is not known: the word itself, if it is a
/// name, or a name among the words it is made of.
pub open spec fn stray_in_word(word: Word, span: CodeSpan, known: Seq<Seq<char>>) -> Stray
    decreases word,
{
    match word {
        Word::Ident(name) => if known.contains(name@) {
            None
        } else {
            Some((name@, span))
        },
        Word::Strand(items) => stray_in_words(items@, items@.len(), known),
        Word::Array(arr) => stray_in_lines(arr.lines@, arr.lines@.len(), known),
        Word::Func(func) => stray_in_lines(func.lines@, func.lines@.len(), known),
        Word::Modified(modified) => stray_in_words(
            modified.operands@,
            modified.operands@.len(),
            known,
        ),
        _ => None,
    }
}

/// The names that are known after the first `n` items, or the first name
/// that is looked up before it is bound.
pub open spec fn known_after(
    items: Seq<Item>,
    n: nat,
    mode: Option<RunMode>,
    known: Seq<Seq<char>>,
) -> Result<Seq<Seq<char>>, (Seq<char>, CodeSpan)>
    decreases items, n,
{
    if n == 0 || n > items.len() {
        Ok(known)
    } else {
        match known_after(items, (n - 1) as nat, mode, known) {
            Ok(so_far) => known_past(items[n - 1], mode, so_far),
            Err(stray) => Err(stray),
        }
    }
}

/// The names that are known after an item. An item that is not run in the
/// mode binds nothing and looks nothing up. A binding binds its name after
/// its words have been gone through; a block leaves what its items bind.
pub open spec fn known_past(item: Item, mode: Option<RunMode>, known: Seq<Seq<char>>) -> Result<
    Seq<Seq<char>>,
    (Seq<char>, CodeSpan),
>
    decreases item,
{
    match item {
        Item::Scoped { items, test } => if is_run(mode, test) {
            known_after(items@, items@.len(), None, known)
        } else {
            Ok(known)
        },
        Item::Words(words) => if is_run(mode, false) {
            match stray_in_words(words@, words@.len(), known) {
                Some(stray) => Err(stray),
                None => Ok(known),
            }
        } else {
            Ok(known)
        },
        Item::Binding(binding) => if is_run(mode, false) {
            match stray_in_words(binding.words@, binding.words@.len(), known) {
                Some(stray) => Err(stray),
                None => Ok(known.push(binding.name.value@)),
            }
        } else {
            Ok(known)
        },
        Item::ExtraNewlines(_) => Ok(known),
    }
}

/// A finding as mathematical values.
pub open spec fn stray_view(found: Option<(String, CodeSpan)>) -> Stray {
    match found {
        Some((name, span)) => Some((name@, span)),
        None => None,
    }
}

/// Whether a name is among the known ones.
fn is_known(known: &Vec<String>, name: &str) -> (yes: bool)
    ensures
        yes == strings_view(known@).contains(name@),
{
    let mut i: usize = 0;
    while i < known.len()
        invariant
            i <= known.len(),
            forall|j: int| 0 <= j < i ==> strings_view(known@)[j] != name@,
        decreases known.len() - i,
    {
        if same_text(known[i].as_str(), name) {
            assert(strings_view(known@)[i as int] == name@);
            return true;
        }
        i += 1;
    }
    false
}

fn find_in_words(words: &Vec<Sp<Word>>, known: &Vec<String>) -> (found: Option<(String, CodeSpan)>)
    ensures
        stray_view(found) == stray_in_words(words@, words@.len(), strings_view(known@)),
    decreases words,
{
    let mut i: usize = 0;
    while i < words.len()
        invariant
            i <= words.len(),
            stray_in_words(words@, i as nat, strings_view(known@)) is None,
        decreases words.len() - i,
    {
        let found = find_in_word(&words[i].value, words[i].span, known);
        if found.is_some() {
            proof {
                lemma_stray_stays(words@, (i + 1) as nat, words@.len(), strings_view(known@));
            }
            return found;
        }
        i += 1;
    }
    None
}

fn find_in_lines(lines: &Vec<Vec<Sp<Word>>>, known: &Vec<String>) -> (found: Option<
    (String, CodeSpan),
>)
    ensures
        stray_view(found) == stray_in_lines(lines@, lines@.len(), strings_view(known@)),
    decreases lines,
{
    let mut i: usize = 0;
    while i < lines.len()
        invariant
            i <= lines.len(),
            stray_in_lines(lines@, i as nat, strings_view(known@)) is None,
        decreases lines.len() - i,
    {
        let found = find_in_words(&lines[i], known);
        if found.is_some() {
            proof {
                lemma_stray_line_stays(lines@, (i + 1) as nat, lines@.len(), strings_view(known@));
            }
            return found;
        }
        i += 1;
    }
    None
}

fn find_in_word(word: &Word, span: CodeSpan, known: &Vec<String>) -> (found: Option<
    (String, CodeSpan),
>)
    ensures
        stray_view(found) == stray_in_word(*word, span, strings_view(known@)),
    decreases word,
{
    match word {
        Word::Ident(name) => {
            if is_known(known, name.as_str()) {
                None
            } else {
                Some((name.clone(), span))
            }
        },
        Word::Strand(items) => find_in_words(items, known),
        Word::Array(arr) => find_in_lines(&arr.lines, known),
        Word::Func(func) => find_in_lines(&func.lines, known),
        Word::Modified(modified) => find_in_words(&modified.operands, known),
        _ => None,
    }
}

/// A name that is found among the first words is the one found among more.
proof fn lemma_stray_stays(words: Seq<Sp<Word>>, n: nat, m: nat, known: Seq<Seq<char>>)
    requires
        n <= m <= words.len(),
        stray_in_words(words, n, known) is Some,
    ensures
        stray_in_words(words, m, known) == stray_in_words(words, n, known),
    decreases m - n,
{
    if n < m {
        lemma_stray_stays(words, n, (m - 1) as nat, known);
    }
}

/// A name that is found in the first lines is the one found in more.
proof fn lemma_stray_line_stays(lines: Seq<Vec<Sp<Word>>>, n: nat, m: nat, known: Seq<Seq<char>>)
    requires
        n <= m <= lines.len(),
        stray_in_lines(lines, n, known) is Some,
    ensures
        stray_in_lines(lines, m, known) == stray_in_lines(lines, n, known),
    decreases m - n,
{
    if n < m {
        lemma_stray_line_stays(lines, n, (m - 1) as nat, known);
    }
}

/// A name that is looked up too early among the first items is the one
/// found among more.
proof fn lemma_known_stays(
    items: Seq<Item>,
    n: nat,
    m: nat,
    mode: Option<RunMode>,
    known: Seq<Seq<char>>,
)
    requires
        n <= m <= items.len(),
        known_after(items, n, mode, known) is Err,
    ensures
        known_after(items, m, mode, known) == known_after(items, n, mode, known),
    decreases m - n,
{
    if n < m {
        lemma_known_stays(items, n, (m - 1) as nat, mode, known);
    }
}

/// Goes through items and adds the names they bind to the known ones.
fn check_items(items: &Vec<Item>, mode: Option<RunMode>, known: &mut Vec<String>) -> (found: Option<
    (String, CodeSpan),
>)
    ensures
        match known_after(items@, items@.len(), mode, strings_view(old(known)@)) {
            Ok(after) => found is None && strings_view(final(known)@) == after,
            Err(stray) => stray_view(found) == Some(stray),
        },
    decreases items,
{
    let ghost before = strings_view(known@);
    let mut i: usize = 0;
    while i < items.len()
        invariant
            i <= items.len(),
            before == strings_view(old(known)@),
            known_after(items@, i as nat, mode, before) == Ok::<
                Seq<Seq<char>>,
                (Seq<char>, CodeSpan),
            >(strings_view(known@)),
        decreases items.len() - i,
    {
        let found = check_item(&items[i], mode, known);
        if found.is_some() {
            proof {
                lemma_known_stays(items@, (i + 1) as nat, items@.len(), mode, before);
            }
            return found;
        }
        i += 1;
    }
    None
}

fn runs(mode: Option<RunMode>, test: bool) -> (yes: bool)
    ensures
        yes == is_run(mode, test),
{
    match mode {
        None => true,
        Some(RunMode::Normal) => !test,
        Some(RunMode::Test) => test,
        Some(RunMode::All) => true,
    }
}

/// Goes through an item and adds the name it binds to the known ones.
fn check_item(item: &Item, mode: Option<RunMode>, known: &mut Vec<String>) -> (found: Option<
    (String, CodeSpan),
>)
    ensures
        match known_past(*item, mode, strings_view(old(known)@)) {
            Ok(after) => found is None && strings_view(final(known)@) == after,
            Err(stray) => stray_view(found) == Some(stray),
        },
    decreases item,
{
    match item {
        Item::Scoped { items, test } => {
            if runs(mode, *test) {
                check_items(items, None, known)
            } else {
                None
            }
        },
        Item::Words(words) => {
            if runs(mode, false) {
                find_in_words(words, known)
            } else {
                None
            }
        },
        Item::Binding(binding) => {
            if runs(mode, false) {
                let found = find_in_words(&binding.words, known);
                if found.is_none() {
                    let ghost before = strings_view(known@);
                    let name = binding.name.value.clone();
                    known.push(name);
                    assert(strings_view(known@) =~= before.push(binding.name.value@));
                }
                found
            } else {
                None
            }
        },
        Item::ExtraNewlines(_) => None,
    }
}

/// The first name of a program that is looked up before it is bound, where
/// the program is run in a mode.
pub open spec fn undefined(items: Seq<Item>, mode: RunMode) -> Stray {
    match known_after(items, items.len(), Some(mode), Seq::empty()) {
        Ok(_) => None,
        Err(stray) => Some(stray),
    }
}

/// Sees that every name that a program looks up is bound before: the first
/// that is not is an `UndefinedName`, with the place where it stands.
pub fn check_names(items: &Vec<Item>, mode: RunMode) -> (checked: Result<(), CompileError>)
    ensures
        match checked {
            Ok(()) => undefined(items@, mode) is None,
            Err(CompileError::UndefinedName(name, span)) => undefined(items@, mode) == Some(
                (name@, span),
            ),
        },
{
    let mut known: Vec<String> = Vec::new();
    assert(strings_view(known@) =~= Seq::<Seq<char>>::empty());
    match check_items(items, Some(mode), &mut known) {
        Some((name, span)) => Err(CompileError::UndefinedName(name, span)),
        None => Ok(()),
    }
}

} // verus!
