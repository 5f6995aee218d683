//! The syntax tree that parsing gives: items, bindings and words.
//!
//! Each node has a short text in which it is shown when a tree is printed for
//! inspection.

use vstd::prelude::*;
use vstd::string::*;
use crate::function::{FunctionId, Signature};
use crate::lex::{CodeSpan, Sp};
use crate::primitive::Primitive;
use crate::text::{decimal, push_decimal, push_str, string_from_chars};

verus! {

broadcast use {
    vstd::std_specs::vec::axiom_vec_index_decreases,
    vstd::std_specs::vec::axiom_vec_decreases_to_view,
    vstd::seq::axiom_seq_index_decreases,
};

/// A name bound in a program.
pub type Ident = String;

/// One top-level piece of a program.
#[derive(Debug)]
pub enum Item {
    /// A block of items with a scope of its own; `test` marks a test block.
    Scoped { items: Vec<Item>, test: bool },
    /// A line of words.
    Words(Vec<Sp<Word>>),
    /// A name bound to words.
    Binding(Binding),
    /// Blank lines.
    ExtraNewlines(CodeSpan),
}

/// A name bound to words, with or without a declared signature.
#[derive(Debug)]
pub struct Binding {
    pub name: Sp<Ident>,
    pub signature: Option<Sp<Signature>>,
    pub words: Vec<Sp<Word>>,
}

/// A word of a program.
#[derive(Debug)]
pub enum Word {
    /// A number, as it was written and as the binary64 bit pattern it is.
    Number(String, u64),
    /// A character.
    Char(char),
    /// A string.
    String(String),
    /// A format string: the texts between its holes.
    FormatString(Vec<String>),
    /// A string of several lines, each the texts between its holes.
    MultilineString(Vec<Sp<Vec<String>>>),
    /// A name.
    Ident(Ident),
    /// Words joined into an array at parse time.
    Strand(Vec<Sp<Word>>),
    /// An array literal.
    Array(Arr),
    /// A function literal.
    Func(Func),
    /// A chain of rank-adjusting primitives.
    Ocean(Vec<Sp<Primitive>>),
    /// A primitive.
    Primitive(Primitive),
    /// A modifier and its operands.
    Modified(Box<Modified>),
    /// A comment.
    Comment(String),
    /// Blank space.
    Spaces,
}

/// An array literal: lines of words. A constant array is made once, when
/// the program is compiled.
#[derive(Debug)]
pub struct Arr {
    pub lines: Vec<Vec<Sp<Word>>>,
    pub constant: bool,
}

/// A function literal: its identity, its declared signature if it has one,
/// and lines of words.
#[derive(Debug)]
pub struct Func {
    pub id: FunctionId,
    pub signature: Option<Sp<Signature>>,
    pub lines: Vec<Vec<Sp<Word>>>,
}

/// A modifier with its operands. A terminated one closes its scope at once
/// and takes no further operands.
#[derive(Debug)]
pub struct Modified {
    pub modifier: Sp<Primitive>,
    pub operands: Vec<Sp<Word>>,
    pub terminated: bool,
}

/// The text in which `Debug` shows a string: in double quotes, with what
/// cannot be shown as it is written as an escape.
pub uninterp spec fn quoted_text(s: Seq<char>) -> Seq<char>;

/// The text in which `Debug` shows a character: in single quotes, escaped
/// where it cannot be shown as it is.
pub uninterp spec fn quoted_char(c: char) -> Seq<char>;

/// Shows a string as `Debug` does.
///
/// Stands for the `Debug` of `str`, which writes the string in double
/// quotes, so the text has the two quotes at least.
#[verifier::external_body]
fn debug_str(s: &str) -> (text: String)
    ensures
        text@ == quoted_text(s@),
        text@.len() >= 2,
{
    format!("{:?}", s)
}

/// Shows a character as `Debug` does.
///
/// Stands for the `Debug` of `char`.
#[verifier::external_body]
fn debug_char(c: char) -> (text: String)
    ensures
        text@ == quoted_char(c),
{
    format!("{:?}", c)
}

/// A string as `Debug` shows it, without the quotes around it.
pub open spec fn escaped(s: Seq<char>) -> Seq<char> {
    quoted_text(s).subrange(1, quoted_text(s).len() - 1)
}

/// The texts of a list one after the other, each escaped.
pub open spec fn escaped_all(parts: Seq<String>) -> Seq<char>
    decreases parts.len(),
{
    if parts.len() == 0 {
        Seq::empty()
    } else {
        escaped_all(parts.drop_last()) + escaped(parts.last()@)
    }
}

/// The lines of a multi-line string, each behind `$ `.
pub open spec fn multiline_text(lines: Seq<Sp<Vec<String>>>) -> Seq<char>
    decreases lines.len(),
{
    if lines.len() == 0 {
        Seq::empty()
    } else {
        multiline_text(lines.drop_last()) + "$ "@ + escaped_all(lines.last().value@)
    }
}

/// The texts joined by `, `.
pub open spec fn joined(texts: Seq<Seq<char>>) -> Seq<char>
    decreases texts.len(),
{
    if texts.len() == 0 {
        Seq::empty()
    } else if texts.len() == 1 {
        texts[0]
    } else {
        joined(texts.drop_last()) + ", "@ + texts.last()
    }
}

/// A name with its fields in round brackets; the bare name where there are
/// no fields.
pub open spec fn tuple_text(name: Seq<char>, fields: Seq<Seq<char>>) -> Seq<char> {
    if fields.len() == 0 {
        name
    } else {
        name + "("@ + joined(fields) + ")"@
    }
}

/// The texts one after the other, each in round brackets.
pub open spec fn bracketed(texts: Seq<Seq<char>>) -> Seq<char>
    decreases texts.len(),
{
    if texts.len() == 0 {
        Seq::empty()
    } else {
        bracketed(texts.drop_last()) + "("@ + texts.last() + ")"@
    }
}

/// The names of primitives, in order.
pub open spec fn primitive_names(prims: Seq<Sp<Primitive>>) -> Seq<Seq<char>>
    decreases prims.len(),
{
    if prims.len() == 0 {
        Seq::empty()
    } else {
        primitive_names(prims.drop_last()).push(prims.last().value.name_spec())
    }
}

/// The texts of the first `n` words of a list.
pub open spec fn word_texts(words: Seq<Sp<Word>>, n: nat) -> Seq<Seq<char>>
    decreases words, n,
{
    if n == 0 || n > words.len() {
        Seq::empty()
    } else {
        word_texts(words, (n - 1) as nat).push(word_text(words[n - 1].value))
    }
}

/// The texts of the words of the first `n` lines.
pub open spec fn line_texts(lines: Seq<Vec<Sp<Word>>>, n: nat) -> Seq<Seq<char>>
    decreases lines, n,
{
    if n == 0 || n > lines.len() {
        Seq::empty()
    } else {
        line_texts(lines, (n - 1) as nat) + word_texts(lines[n - 1]@, lines[n - 1]@.len())
    }
}

/// The text of the identity of a function: its line and its token, with a
/// colon between them.
pub open spec fn function_text(id: FunctionId) -> Seq<char> {
    decimal(id.line as nat) + ":"@ + decimal(id.index as nat)
}

/// The text of a word.
pub open spec fn word_text(word: Word) -> Seq<char>
    decreases word,
{
    match word {
        Word::Number(written, _) => quoted_text(written@),
        Word::Char(c) => quoted_char(c),
        Word::String(s) => quoted_text(s@),
        Word::FormatString(parts) => "$\""@ + escaped_all(parts@) + "\""@,
        Word::MultilineString(lines) => multiline_text(lines@),
        Word::Ident(name) => "ident("@ + name@ + ")"@,
        Word::Strand(items) => "strand(["@ + joined(word_texts(items@, items@.len())) + "])"@,
        Word::Array(arr) => tuple_text("arr"@, line_texts(arr.lines@, arr.lines@.len())),
        Word::Func(func) => tuple_text(
            "func"@,
            seq![function_text(func.id)] + line_texts(func.lines@, func.lines@.len()),
        ),
        Word::Ocean(prims) => "ocean(["@ + joined(primitive_names(prims@)) + "])"@,
        Word::Primitive(prim) => prim.name_spec(),
        Word::Modified(modified) => modified.modifier.value.name_spec() + bracketed(
            word_texts(modified.operands@, modified.operands@.len()),
        ) + if modified.terminated {
            "|"@
        } else {
            Seq::empty()
        },
        Word::Comment(comment) => "# "@ + comment@,
        Word::Spaces => "' '"@,
    }
}

/// The texts held as vectors of characters.
pub open spec fn texts_view(texts: Seq<Vec<char>>) -> Seq<Seq<char>> {
    Seq::new(texts.len(), |i: int| texts[i]@)
}

fn push_chars(out: &mut Vec<char>, text: &Vec<char>)
    ensures
        final(out)@ == old(out)@ + text@,
{
    let mut i: usize = 0;
    while i < text.len()
        invariant
            i <= text.len(),
            out@ == old(out)@ + text@.take(i as int),
        decreases text.len() - i,
    {
        assert(text@.take(i + 1) == text@.take(i as int).push(text@[i as int]));
        out.push(text[i]);
        i += 1;
    }
    assert(text@.take(text@.len() as int) == text@);
}

fn push_joined(out: &mut Vec<char>, texts: &Vec<Vec<char>>)
    ensures
        final(out)@ == old(out)@ + joined(texts_view(texts@)),
{
    let ghost all = texts_view(texts@);
    let mut i: usize = 0;
    assert(old(out)@ + joined(all.take(0)) == old(out)@);
    while i < texts.len()
        invariant
            i <= texts.len(),
            all == texts_view(texts@),
            out@ == old(out)@ + joined(all.take(i as int)),
        decreases texts.len() - i,
    {
        let ghost before = out@;
        proof {
            let longer = all.take(i + 1);
            assert(longer.drop_last() == all.take(i as int));
            assert(longer.last() == texts@[i as int]@);
            if i == 0 {
                assert(longer[0] == texts@[0]@);
                assert(joined(all.take(0)) == Seq::<char>::empty());
            }
        }
        if i > 0 {
            push_str(out, ", ");
        }
        push_chars(out, &texts[i]);
        proof {
            if i > 0 {
                assert(out@ == old(out)@ + (joined(all.take(i as int)) + ", "@ + texts@[i as int]@));
            } else {
                assert(out@ == old(out)@ + texts@[0]@);
            }
        }
        i += 1;
    }
    assert(all.take(all.len() as int) == all);
}

fn push_bracketed(out: &mut Vec<char>, texts: &Vec<Vec<char>>)
    ensures
        final(out)@ == old(out)@ + bracketed(texts_view(texts@)),
{
    let ghost all = texts_view(texts@);
    let mut i: usize = 0;
    assert(old(out)@ + bracketed(all.take(0)) == old(out)@);
    while i < texts.len()
        invariant
            i <= texts.len(),
            all == texts_view(texts@),
            out@ == old(out)@ + bracketed(all.take(i as int)),
        decreases texts.len() - i,
    {
        proof {
            let longer = all.take(i + 1);
            assert(longer.drop_last() == all.take(i as int));
            assert(longer.last() == texts@[i as int]@);
        }
        push_str(out, "(");
        push_chars(out, &texts[i]);
        push_str(out, ")");
        assert(out@ == old(out)@ + (bracketed(all.take(i as int)) + "("@ + texts@[i as int]@
            + ")"@));
        i += 1;
    }
    assert(all.take(all.len() as int) == all);
}

fn push_tuple(out: &mut Vec<char>, name: &str, fields: &Vec<Vec<char>>)
    ensures
        final(out)@ == old(out)@ + tuple_text(name@, texts_view(fields@)),
{
    push_str(out, name);
    if fields.len() > 0 {
        push_str(out, "(");
        push_joined(out, fields);
        push_str(out, ")");
        assert(out@ == old(out)@ + (name@ + "("@ + joined(texts_view(fields@)) + ")"@));
    }
}

fn push_escaped(out: &mut Vec<char>, parts: &Vec<String>)
    ensures
        final(out)@ == old(out)@ + escaped_all(parts@),
{
    let mut i: usize = 0;
    assert(old(out)@ + escaped_all(parts@.take(0)) == old(out)@);
    while i < parts.len()
        invariant
            i <= parts.len(),
            out@ == old(out)@ + escaped_all(parts@.take(i as int)),
        decreases parts.len() - i,
    {
        proof {
            let longer = parts@.take(i + 1);
            assert(longer.drop_last() == parts@.take(i as int));
            assert(longer.last() == parts@[i as int]);
        }
        let shown = crate::text::chars_of(debug_str(parts[i].as_str()).as_str());
        let inner = crate::text::copy_range(&shown, 1, shown.len() - 1);
        push_chars(out, &inner);
        assert(out@ == old(out)@ + (escaped_all(parts@.take(i as int)) + escaped(
            parts@[i as int]@,
        )));
        i += 1;
    }
    assert(parts@.take(parts@.len() as int) == parts@);
}

/// Adds the texts of the words of a list to `texts`.
fn collect_words(texts: &mut Vec<Vec<char>>, words: &Vec<Sp<Word>>)
    ensures
        texts_view(final(texts)@) == texts_view(old(texts)@) + word_texts(words@, words@.len()),
    decreases words,
{
    let ghost start = texts_view(texts@);
    let mut i: usize = 0;
    assert(start + word_texts(words@, 0) == start);
    while i < words.len()
        invariant
            i <= words.len(),
            texts_view(texts@) == start + word_texts(words@, i as nat),
        decreases words.len() - i,
    {
        let mut text: Vec<char> = Vec::new();
        push_word(&mut text, &words[i].value);
        proof {
            let before = texts_view(texts@);
            assert(texts_view(texts@.push(text)) == before.push(text@));
            assert(Seq::<char>::empty() + word_text(words@[i as int].value) == word_text(
                words@[i as int].value,
            ));
            assert(start + word_texts(words@, i as nat).push(text@) == (start + word_texts(
                words@,
                i as nat,
            )).push(text@));
        }
        texts.push(text);
        i += 1;
    }
}

/// Adds the texts of the words of lines to `texts`.
fn collect_lines(texts: &mut Vec<Vec<char>>, lines: &Vec<Vec<Sp<Word>>>)
    ensures
        texts_view(final(texts)@) == texts_view(old(texts)@) + line_texts(lines@, lines@.len()),
    decreases lines,
{
    let ghost start = texts_view(texts@);
    let mut i: usize = 0;
    assert(start + line_texts(lines@, 0) == start);
    while i < lines.len()
        invariant
            i <= lines.len(),
            texts_view(texts@) == start + line_texts(lines@, i as nat),
        decreases lines.len() - i,
    {
        collect_words(texts, &lines[i]);
        proof {
            let line = word_texts(lines@[i as int]@, lines@[i as int]@.len());
            assert(start + line_texts(lines@, i as nat) + line == start + (line_texts(
                lines@,
                i as nat,
            ) + line));
        }
        i += 1;
    }
}

/// Appends the text of a word.
pub fn push_word(out: &mut Vec<char>, word: &Word)
    ensures
        final(out)@ == old(out)@ + word_text(*word),
    decreases word,
{
    match word {
        Word::Number(written, _) => {
            push_str(out, debug_str(written.as_str()).as_str());
        },
        Word::Char(c) => {
            push_str(out, debug_char(*c).as_str());
        },
        Word::String(s) => {
            push_str(out, debug_str(s.as_str()).as_str());
        },
        Word::FormatString(parts) => {
            push_str(out, "$\"");
            push_escaped(out, parts);
            push_str(out, "\"");
            assert(out@ == old(out)@ + ("$\""@ + escaped_all(parts@) + "\""@));
        },
        Word::MultilineString(lines) => {
            let mut i: usize = 0;
            assert(old(out)@ + multiline_text(lines@.take(0)) == old(out)@);
            while i < lines.len()
                invariant
                    i <= lines.len(),
                    out@ == old(out)@ + multiline_text(lines@.take(i as int)),
                decreases lines.len() - i,
            {
                proof {
                    let longer = lines@.take(i + 1);
                    assert(longer.drop_last() == lines@.take(i as int));
                    assert(longer.last() == lines@[i as int]);
                }
                push_str(out, "$ ");
                push_escaped(out, &lines[i].value);
                assert(out@ == old(out)@ + (multiline_text(lines@.take(i as int)) + "$ "@
                    + escaped_all(lines@[i as int].value@)));
                i += 1;
            }
            assert(lines@.take(lines@.len() as int) == lines@);
        },
        Word::Ident(name) => {
            push_str(out, "ident(");
            push_str(out, name.as_str());
            push_str(out, ")");
            assert(out@ == old(out)@ + ("ident("@ + name@ + ")"@));
        },
        Word::Strand(items) => {
            let mut texts: Vec<Vec<char>> = Vec::new();
            collect_words(&mut texts, items);
            assert(texts_view(texts@) == word_texts(items@, items@.len())) by {
                assert(Seq::<Seq<char>>::empty() + word_texts(items@, items@.len()) == word_texts(
                    items@,
                    items@.len(),
                ));
            }
            push_str(out, "strand([");
            push_joined(out, &texts);
            push_str(out, "])");
            assert(out@ == old(out)@ + ("strand(["@ + joined(texts_view(texts@)) + "])"@));
        },
        Word::Array(arr) => {
            push_arr(out, arr);
        },
        Word::Func(func) => {
            push_func(out, func);
        },
        Word::Ocean(prims) => {
            let mut names: Vec<Vec<char>> = Vec::new();
            let mut i: usize = 0;
            while i < prims.len()
                invariant
                    i <= prims.len(),
                    texts_view(names@) == primitive_names(prims@.take(i as int)),
                decreases prims.len() - i,
            {
                let name = crate::text::chars_of(prims[i].value.name());
                proof {
                    let longer = prims@.take(i + 1);
                    assert(longer.drop_last() == prims@.take(i as int));
                    assert(longer.last() == prims@[i as int]);
                    let before = texts_view(names@);
                    assert(texts_view(names@.push(name)) == before.push(name@));
                }
                names.push(name);
                i += 1;
            }
            assert(prims@.take(prims@.len() as int) == prims@);
            push_str(out, "ocean([");
            push_joined(out, &names);
            push_str(out, "])");
            assert(out@ == old(out)@ + ("ocean(["@ + joined(texts_view(names@)) + "])"@));
        },
        Word::Primitive(prim) => {
            push_str(out, prim.name());
        },
        Word::Modified(modified) => {
            push_modified(out, modified);
        },
        Word::Comment(comment) => {
            push_str(out, "# ");
            push_str(out, comment.as_str());
            assert(out@ == old(out)@ + ("# "@ + comment@));
        },
        Word::Spaces => {
            push_str(out, "' '");
        },
    }
}

/// Appends the text of an array literal.
pub fn push_arr(out: &mut Vec<char>, arr: &Arr)
    ensures
        final(out)@ == old(out)@ + tuple_text("arr"@, line_texts(arr.lines@, arr.lines@.len())),
    decreases arr,
{
    let mut fields: Vec<Vec<char>> = Vec::new();
    collect_lines(&mut fields, &arr.lines);
    assert(Seq::<Seq<char>>::empty() + line_texts(arr.lines@, arr.lines@.len()) == line_texts(
        arr.lines@,
        arr.lines@.len(),
    ));
    push_tuple(out, "arr", &fields);
}

/// Appends the text of a function literal.
pub fn push_func(out: &mut Vec<char>, func: &Func)
    ensures
        final(out)@ == old(out)@ + tuple_text(
            "func"@,
            seq![function_text(func.id)] + line_texts(func.lines@, func.lines@.len()),
        ),
    decreases func,
{
    let mut fields: Vec<Vec<char>> = Vec::new();
    let mut id: Vec<char> = Vec::new();
    push_decimal(&mut id, func.id.line as u128);
    push_str(&mut id, ":");
    push_decimal(&mut id, func.id.index as u128);
    assert(id@ == function_text(func.id)) by {
        assert(Seq::<char>::empty() + decimal(func.id.line as nat) == decimal(
            func.id.line as nat,
        ));
    }
    fields.push(id);
    assert(texts_view(fields@) == seq![function_text(func.id)]);
    collect_lines(&mut fields, &func.lines);
    push_tuple(out, "func", &fields);
}

/// Appends the text of a modifier with its operands.
pub fn push_modified(out: &mut Vec<char>, modified: &Modified)
    ensures
        final(out)@ == old(out)@ + (modified.modifier.value.name_spec() + bracketed(
            word_texts(modified.operands@, modified.operands@.len()),
        ) + if modified.terminated {
            "|"@
        } else {
            Seq::empty()
        }),
    decreases modified,
{
    let mut texts: Vec<Vec<char>> = Vec::new();
    collect_words(&mut texts, &modified.operands);
    assert(Seq::<Seq<char>>::empty() + word_texts(modified.operands@, modified.operands@.len())
        == word_texts(modified.operands@, modified.operands@.len()));
    push_str(out, modified.modifier.value.name());
    push_bracketed(out, &texts);
    if modified.terminated {
        push_str(out, "|");
    }
    assert(out@ == old(out)@ + (modified.modifier.value.name_spec() + bracketed(
        texts_view(texts@),
    ) + if modified.terminated {
        "|"@
    } else {
        Seq::empty()
    }));
}

impl Word {
    /// The text in which the word is shown.
    pub fn debug_string(&self) -> (text: String)
        ensures
            text@ == word_text(*self),
    {
        let mut out: Vec<char> = Vec::new();
        push_word(&mut out, self);
        assert(Seq::<char>::empty() + word_text(*self) == word_text(*self));
        string_from_chars(&out)
    }
}

impl Arr {
    /// The text in which the array literal is shown: `arr` and the texts of
    /// its words in round brackets.
    pub fn debug_string(&self) -> (text: String)
        ensures
            text@ == tuple_text("arr"@, line_texts(self.lines@, self.lines@.len())),
    {
        let mut out: Vec<char> = Vec::new();
        push_arr(&mut out, self);
        assert(Seq::<char>::empty() + tuple_text(
            "arr"@,
            line_texts(self.lines@, self.lines@.len()),
        ) == tuple_text("arr"@, line_texts(self.lines@, self.lines@.len())));
        string_from_chars(&out)
    }
}

impl Func {
    /// The text in which the function literal is shown: `func`, and in round
    /// brackets its identity and the texts of its words.
    pub fn debug_string(&self) -> (text: String)
        ensures
            text@ == tuple_text(
                "func"@,
                seq![function_text(self.id)] + line_texts(self.lines@, self.lines@.len()),
            ),
    {
        let mut out: Vec<char> = Vec::new();
        push_func(&mut out, self);
        let ghost shown = tuple_text(
            "func"@,
            seq![function_text(self.id)] + line_texts(self.lines@, self.lines@.len()),
        );
        assert(Seq::<char>::empty() + shown == shown);
        string_from_chars(&out)
    }
}

impl Modified {
    /// The text in which the modifier is shown: its name, each operand in
    /// round brackets, and `|` if it is terminated.
    pub fn debug_string(&self) -> (text: String)
        ensures
            text@ == self.modifier.value.name_spec() + bracketed(
                word_texts(self.operands@, self.operands@.len()),
            ) + if self.terminated {
                "|"@
            } else {
                Seq::empty()
            },
    {
        let mut out: Vec<char> = Vec::new();
        push_modified(&mut out, self);
        let ghost shown = self.modifier.value.name_spec() + bracketed(
            word_texts(self.operands@, self.operands@.len()),
        ) + if self.terminated {
            "|"@
        } else {
            Seq::empty()
        };
        assert(Seq::<char>::empty() + shown == shown);
        string_from_chars(&out)
    }
}

} // verus!
