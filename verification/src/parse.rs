//! The parser: from lines of tokens to a syntax tree.
//!
//! A line is a binding, `name = words`, or plain words. A word is an atom,
//! or several atoms joined by underscores into a strand. An atom is a number,
//! a string, a comment, a name, a primitive, a modifier with its operands, an
//! array in square brackets or a function in round brackets. A modifier takes
//! as many atoms as it has operands, or fewer before a bar, which terminates
//! it. A line that holds only `---` or only `~~~` opens a block of items, or a
//! block of tests, up to the next such line.

use vstd::prelude::*;
use vstd::string::*;
use crate::ast::{texts_view, Arr, Binding, Func, Item, Modified, Word};
use crate::function::FunctionId;
use crate::kernel::Kernel;
use crate::lex::{CodeSpan, Sp};
use crate::placing::{
    extent,
    item_placed,
    items_placed,
    lemma_items_front,
    lemma_placed_front,
    lines_extent,
    lines_placed,
    rows,
    rows_extent,
    spans_of,
    width,
    word_placed,
    words_placed,
};
use crate::primitive::Primitive;
use crate::syntax::{
    item_list,
    item_syntax,
    lemma_syntax_list_len,
    syntax_lines,
    syntax_list,
    syntax_of,
    ItemSyntax,
    Syntax,
};
use crate::text::{chars_of, copy_range, string_from_chars};
use crate::token::{ends_word, is_mark, lines_view, token_texts};

verus! {

/// What is wrong with a text.
#[derive(Clone, Copy, Debug, PartialEq, Eq, Structural)]
pub enum Fault {
    /// A token that cannot stand where it stands.
    Unexpected,
    /// A bracket, or a block, that is not closed.
    Unclosed,
    /// A modifier without its operands.
    MissingOperand,
    /// A number that is not written as one.
    InvalidNumber,
    /// An underscore with nothing behind it.
    Dangling,
}

/// What parsing from a position gives: a result and the position to go on
/// from, or a fault and the position of the token it lies at.
pub enum Parsed<T> {
    Done(T, int),
    Failed(Fault, int),
}

/// Whether a token is the mark `c`.
pub open spec fn is_the_mark(token: Seq<char>, c: char) -> bool {
    token == seq![c]
}

/// Whether a character is a decimal digit.
pub open spec fn is_digit(c: char) -> bool {
    '0' <= c <= '9'
}

/// The number of decimal digits at the front of a text.
pub open spec fn digits_len(s: Seq<char>) -> nat
    decreases s.len(),
{
    if s.len() == 0 || !is_digit(s[0]) {
        0
    } else {
        1 + digits_len(s.skip(1))
    }
}

/// Whether a word begins like a number: with a digit, or with the high minus
/// and a digit.
pub open spec fn starts_number(token: Seq<char>) -> bool {
    is_digit(token[0]) || (token.len() >= 2 && token[0] == '\u{af}' && is_digit(token[1]))
}

/// Whether a word is written as a number: digits, with or without a high
/// minus before them, with or without a point and further digits behind
/// them.
pub open spec fn is_number(token: Seq<char>) -> bool {
    let body = if token.len() > 0 && token[0] == '\u{af}' {
        token.skip(1)
    } else {
        token
    };
    let whole = digits_len(body) as int;
    whole > 0 && (whole == body.len() || (body[whole] == '.' && digits_len(body.skip(whole + 1))
        > 0 && whole + 1 + digits_len(body.skip(whole + 1)) == body.len()))
}

/// Whether a word can be bound: it is no number and no primitive.
pub open spec fn is_name(token: Seq<char>) -> bool {
    &&& token.len() > 0
    &&& !crate::token::ends_word(token[0])
    &&& !starts_number(token)
    &&& Primitive::from_name_spec(token) is None
}

/// The atom that begins at the token of a position.
pub open spec fn atom(tokens: Seq<Seq<char>>, row: int, pos: int) -> Parsed<Syntax>
    decreases tokens.len() - pos, 0int,
{
    if pos < 0 || pos >= tokens.len() || tokens[pos].len() == 0 {
        Parsed::Failed(Fault::Unexpected, pos)
    } else {
        let token = tokens[pos];
        if token[0] == '#' {
            Parsed::Done(Syntax::Comment(token.skip(1)), pos + 1)
        } else if token[0] == '"' {
            if token.len() < 2 {
                Parsed::Failed(Fault::Unexpected, pos)
            } else {
                Parsed::Done(Syntax::String(token.subrange(1, token.len() - 1)), pos + 1)
            }
        } else if is_the_mark(token, '[') {
            match sequence(tokens, row, pos + 1, Some(']')) {
                Parsed::Done(words, next) => Parsed::Done(Syntax::Array(seq![words], false), next),
                Parsed::Failed(fault, at) => Parsed::Failed(
                    if fault == Fault::Unclosed && at == tokens.len() {
                        Fault::Unclosed
                    } else {
                        fault
                    },
                    if fault == Fault::Unclosed && at == tokens.len() {
                        pos
                    } else {
                        at
                    },
                ),
            }
        } else if is_the_mark(token, '(') {
            match sequence(tokens, row, pos + 1, Some(')')) {
                Parsed::Done(words, next) => Parsed::Done(
                    Syntax::Func(
                        FunctionId { line: row as usize, index: pos as usize },
                        None,
                        seq![words],
                    ),
                    next,
                ),
                Parsed::Failed(fault, at) => Parsed::Failed(
                    if fault == Fault::Unclosed && at == tokens.len() {
                        Fault::Unclosed
                    } else {
                        fault
                    },
                    if fault == Fault::Unclosed && at == tokens.len() {
                        pos
                    } else {
                        at
                    },
                ),
            }
        } else if crate::token::is_mark(token[0]) {
            Parsed::Failed(Fault::Unexpected, pos)
        } else if starts_number(token) {
            if is_number(token) {
                Parsed::Done(Syntax::Number(token), pos + 1)
            } else {
                Parsed::Failed(Fault::InvalidNumber, pos)
            }
        } else {
            match Primitive::from_name_spec(token) {
                None => Parsed::Done(Syntax::Ident(token), pos + 1),
                Some(prim) => if prim.modifier_args_spec() == 0 {
                    Parsed::Done(Syntax::Primitive(prim), pos + 1)
                } else {
                    match operands(tokens, row, pos + 1, prim.modifier_args_spec()) {
                        Parsed::Done((given, terminated), next) => Parsed::Done(
                            Syntax::Modified(prim, given, terminated),
                            next,
                        ),
                        Parsed::Failed(fault, at) => Parsed::Failed(
                            fault,
                            if at < 0 {
                                pos
                            } else {
                                at
                            },
                        ),
                    }
                },
            }
        }
    }
}

/// Up to `want` operands from a position on, and whether a bar ended them
/// early. Where the line or the bracket ends before that, the operands are
/// missing: the fault is `MissingOperand`, at no position of its own, which is
/// written as `-1`.
pub open spec fn operands(tokens: Seq<Seq<char>>, row: int, pos: int, want: nat) -> Parsed<
    (Seq<Syntax>, bool),
>
    decreases tokens.len() - pos, 1int, want,
{
    if want == 0 {
        Parsed::Done((seq![], false), pos)
    } else if pos < 0 || pos >= tokens.len() {
        Parsed::Failed(Fault::MissingOperand, -1)
    } else if is_the_mark(tokens[pos], '|') {
        Parsed::Done((seq![], true), pos + 1)
    } else if is_the_mark(tokens[pos], ']') || is_the_mark(tokens[pos], ')') {
        Parsed::Failed(Fault::MissingOperand, -1)
    } else {
        match atom(tokens, row, pos) {
            Parsed::Failed(fault, at) => Parsed::Failed(fault, at),
            Parsed::Done(first, next) => if next <= pos || next > tokens.len() {
                Parsed::Failed(Fault::Unexpected, pos)
            } else {
                match operands(tokens, row, next, (want - 1) as nat) {
                    Parsed::Done((others, terminated), end) => Parsed::Done(
                        (seq![first] + others, terminated),
                        end,
                    ),
                    Parsed::Failed(fault, at) => Parsed::Failed(fault, at),
                }
            },
        }
    }
}

/// The atoms that underscores join to the atom before a position.
pub open spec fn strand_rest(tokens: Seq<Seq<char>>, row: int, pos: int) -> Parsed<Seq<Syntax>>
    decreases tokens.len() - pos, 1int,
{
    if pos < 0 || pos >= tokens.len() || !is_the_mark(tokens[pos], '_') {
        Parsed::Done(seq![], pos)
    } else if pos + 1 >= tokens.len() {
        Parsed::Failed(Fault::Dangling, pos)
    } else {
        match atom(tokens, row, pos + 1) {
            Parsed::Failed(fault, at) => Parsed::Failed(
                if fault == Fault::Unexpected && at == pos + 1 {
                    Fault::Dangling
                } else {
                    fault
                },
                if fault == Fault::Unexpected && at == pos + 1 {
                    pos
                } else {
                    at
                },
            ),
            Parsed::Done(item, next) => if next <= pos + 1 || next > tokens.len() {
                Parsed::Failed(Fault::Unexpected, pos)
            } else {
                match strand_rest(tokens, row, next) {
                    Parsed::Done(others, end) => Parsed::Done(seq![item] + others, end),
                    Parsed::Failed(fault, at) => Parsed::Failed(fault, at),
                }
            },
        }
    }
}

/// The word that begins at the token of a position: an atom, or a strand.
pub open spec fn word(tokens: Seq<Seq<char>>, row: int, pos: int) -> Parsed<Syntax>
    decreases tokens.len() - pos, 2int,
{
    match atom(tokens, row, pos) {
        Parsed::Failed(fault, at) => Parsed::Failed(fault, at),
        Parsed::Done(first, next) => if next <= pos || next > tokens.len() {
            Parsed::Failed(Fault::Unexpected, pos)
        } else {
            match strand_rest(tokens, row, next) {
                Parsed::Failed(fault, at) => Parsed::Failed(fault, at),
                Parsed::Done(others, end) => if others.len() == 0 {
                    Parsed::Done(first, end)
                } else {
                    Parsed::Done(Syntax::Strand(seq![first] + others), end)
                },
            }
        },
    }
}

/// The words from a position on, up to the closing bracket `closer`, which
/// is passed over, or up to the end of the line where there is no `closer`.
/// A line that ends before the `closer` is `Unclosed`, at its end.
pub open spec fn sequence(tokens: Seq<Seq<char>>, row: int, pos: int, closer: Option<char>) -> Parsed<
    Seq<Syntax>,
>
    decreases tokens.len() - pos, 3int,
{
    if pos < 0 || pos >= tokens.len() {
        if closer is None {
            Parsed::Done(seq![], pos)
        } else {
            Parsed::Failed(Fault::Unclosed, tokens.len() as int)
        }
    } else if closer is Some && is_the_mark(tokens[pos], closer->0) {
        Parsed::Done(seq![], pos + 1)
    } else {
        match word(tokens, row, pos) {
            Parsed::Failed(fault, at) => Parsed::Failed(fault, at),
            Parsed::Done(first, next) => if next <= pos || next > tokens.len() {
                Parsed::Failed(Fault::Unexpected, pos)
            } else {
                match sequence(tokens, row, next, closer) {
                    Parsed::Done(others, end) => Parsed::Done(seq![first] + others, end),
                    Parsed::Failed(fault, at) => Parsed::Failed(fault, at),
                }
            },
        }
    }
}

/// Whether a token is the sign that binds a name.
pub open spec fn is_binder(token: Seq<char>) -> bool {
    token == seq!['='] || token == seq!['\u{2190}']
}

/// The item that a line of tokens is, if it is no block marker: a binding
/// where it begins with a name and a binder, else words.
pub open spec fn line_item(tokens: Seq<Seq<char>>, row: int) -> Result<ItemSyntax, (Fault, int)> {
    if tokens.len() >= 2 && is_binder(tokens[1]) && is_name(tokens[0]) {
        match sequence(tokens, row, 2, None) {
            Parsed::Done(words, _) => Ok(ItemSyntax::Binding(tokens[0], None, words)),
            Parsed::Failed(fault, at) => Err((fault, at)),
        }
    } else {
        match sequence(tokens, row, 0, None) {
            Parsed::Done(words, _) => Ok(ItemSyntax::Words(words)),
            Parsed::Failed(fault, at) => Err((fault, at)),
        }
    }
}

/// A fault and where it lies.
#[derive(Clone, Copy, Debug, PartialEq, Eq, Structural)]
pub struct ParseError {
    pub fault: Fault,
    /// The span of the token at which the fault lies.
    pub span: CodeSpan,
}

/// The content of a list of words with one word put before it.
pub proof fn lemma_syntax_list_front(first: Sp<Word>, words: Seq<Sp<Word>>, n: nat)
    requires
        n <= words.len(),
    ensures
        syntax_list(seq![first] + words, n + 1) == seq![syntax_of(first.value)] + syntax_list(
            words,
            n,
        ),
    decreases n,
{
    let all = seq![first] + words;
    if n == 0 {
        assert(syntax_list(all, 0) == Seq::<Syntax>::empty());
        assert(all[0] == first);
        assert(syntax_list(all, 1) == Seq::<Syntax>::empty().push(syntax_of(first.value)));
    } else {
        lemma_syntax_list_front(first, words, (n - 1) as nat);
        assert(all[n as int] == words[n - 1]);
        assert((seq![syntax_of(first.value)] + syntax_list(words, (n - 1) as nat)).push(
            syntax_of(words[n - 1].value),
        ) == seq![syntax_of(first.value)] + syntax_list(words, (n - 1) as nat).push(
            syntax_of(words[n - 1].value),
        ));
    }
}

/// The tokens of a line as the parser reads them: each with its span, and
/// each as a vector of its characters.
pub struct Line<'a> {
    pub tokens: &'a Vec<Sp<String>>,
    pub chars: Vec<Vec<char>>,
    /// Which line of the text this is, counted from zero.
    pub row: usize,
}

impl<'a> Line<'a> {
    /// Whether the characters are those of the tokens.
    pub open spec fn wf(self) -> bool {
        texts_view(self.chars@) == token_texts(self.tokens@)
    }

    /// The texts of the tokens.
    pub open spec fn texts(self) -> Seq<Seq<char>> {
        texts_view(self.chars@)
    }

    /// The tokens of a line, made ready for the parser.
    pub fn new(tokens: &'a Vec<Sp<String>>, row: usize) -> (line: Line<'a>)
        ensures
            line.wf(),
            line.tokens == tokens,
            line.row == row,
    {
        let mut chars: Vec<Vec<char>> = Vec::new();
        let mut i: usize = 0;
        while i < tokens.len()
            invariant
                i <= tokens.len(),
                texts_view(chars@) == token_texts(tokens@).take(i as int),
            decreases tokens.len() - i,
        {
            let text = chars_of(tokens[i].value.as_str());
            proof {
                let before = texts_view(chars@);
                assert(texts_view(chars@.push(text)) == before.push(text@));
                assert(token_texts(tokens@).take(i + 1) == token_texts(tokens@).take(
                    i as int,
                ).push(tokens@[i as int].value@));
            }
            chars.push(text);
            i += 1;
        }
        proof {
            assert(token_texts(tokens@).take(tokens@.len() as int) == token_texts(tokens@));
        }
        Line { tokens, chars, row }
    }

    fn is_mark(&self, pos: usize, c: char) -> (yes: bool)
        requires
            pos < self.chars@.len(),
        ensures
            yes == is_the_mark(self.texts()[pos as int], c),
    {
        let token = &self.chars[pos];
        assert(self.texts()[pos as int] == token@);
        if token.len() == 1 && token[0] == c {
            assert(token@ =~= seq![c]);
            true
        } else {
            if token.len() == 1 {
                assert(token@[0] != seq![c][0]);
            }
            false
        }
    }

    /// The span from the start of one token to the end of another.
    fn span(&self, from: usize, to: usize) -> (span: CodeSpan)
        requires
            self.wf(),
            from < self.chars@.len(),
            to < self.chars@.len(),
        ensures
            from < self.tokens@.len(),
            to < self.tokens@.len(),
            span == (CodeSpan {
                file: self.tokens@[from as int].span.file,
                start: self.tokens@[from as int].span.start,
                end: self.tokens@[to as int].span.end,
            }),
    {
        proof {
            assert(self.chars@.len() == texts_view(self.chars@).len());
            assert(self.tokens@.len() == token_texts(self.tokens@).len());
        }
        CodeSpan {
            file: self.tokens[from].span.file,
            start: self.tokens[from].span.start,
            end: self.tokens[to].span.end,
        }
    }
}

fn digit(c: char) -> (yes: bool)
    ensures
        yes == is_digit(c),
{
    '0' <= c && c <= '9'
}

fn count_digits(text: &Vec<char>, from: usize) -> (n: usize)
    requires
        from <= text.len(),
    ensures
        n == digits_len(text@.skip(from as int)),
        from + n <= text.len(),
{
    let mut to: usize = from;
    while to < text.len() && digit(text[to])
        invariant
            from <= to <= text.len(),
            forall|i: int| from <= i < to ==> is_digit(text@[i]),
        decreases text.len() - to,
    {
        to += 1;
    }
    proof {
        let rest = text@.skip(from as int);
        assert forall|i: int| 0 <= i < to - from implies is_digit(rest[i]) by {
            assert(rest[i] == text@[from + i]);
        }
        if to < text.len() {
            assert(rest[to - from] == text@[to as int]);
        }
        lemma_digits_len(rest, to - from);
    }
    to - from
}

proof fn lemma_digits_len(s: Seq<char>, n: int)
    requires
        0 <= n <= s.len(),
        forall|i: int| 0 <= i < n ==> is_digit(s[i]),
        n == s.len() || !is_digit(s[n]),
    ensures
        digits_len(s) == n,
    decreases n,
{
    if n > 0 {
        let rest = s.skip(1);
        assert forall|i: int| 0 <= i < n - 1 implies is_digit(rest[i]) by {
            assert(rest[i] == s[i + 1]);
        }
        lemma_digits_len(rest, n - 1);
    }
}

/// Whether a word begins like a number.
fn begins_number(token: &Vec<char>) -> (yes: bool)
    requires
        token.len() > 0,
    ensures
        yes == starts_number(token@),
{
    digit(token[0]) || (token.len() >= 2 && token[0] == '\u{af}' && digit(token[1]))
}

/// Whether a word is written as a number.
fn number_shaped(token: &Vec<char>) -> (yes: bool)
    ensures
        yes == is_number(token@),
{
    let start: usize = if token.len() > 0 && token[0] == '\u{af}' {
        1
    } else {
        0
    };
    let ghost body = token@.skip(start as int);
    proof {
        if start == 0 {
            assert(body == token@);
        }
    }
    let whole = count_digits(token, start);
    if whole == 0 {
        return false;
    }
    if start + whole == token.len() {
        return true;
    }
    assert(body[whole as int] == token@[start + whole]);
    if token[start + whole] != '.' {
        return false;
    }
    let part = count_digits(token, start + whole + 1);
    assert(body.skip(whole + 1) == token@.skip(start + whole + 1));
    part > 0 && start + whole + 1 + part == token.len()
}

/// Whether a word can be bound.
fn name_shaped(line: &Line, pos: usize) -> (yes: bool)
    requires
        line.wf(),
        pos < line.chars@.len(),
    ensures
        yes == is_name(line.texts()[pos as int]),
{
    proof {
        assert(line.chars@.len() == texts_view(line.chars@).len());
        assert(line.tokens@.len() == token_texts(line.tokens@).len());
        assert(texts_view(line.chars@)[pos as int] == token_texts(line.tokens@)[pos as int]);
    }
    let token = &line.chars[pos];
    if token.len() == 0 {
        return false;
    }
    let c = token[0];
    let ends = c == ' ' || c == '\t' || c == '\r' || c == '[' || c == ']' || c == '(' || c == ')'
        || c == '{' || c == '}' || c == '_' || c == '|' || c == '"' || c == '#';
    if ends || begins_number(token) {
        return false;
    }
    Primitive::from_name(line.tokens[pos].value.as_str()).is_none()
}

/// The atom that begins at the token of a position.
fn parse_atom<K: Kernel>(line: &Line, pos: usize, kernel: &mut K) -> (parsed: Result<
    (Sp<Word>, usize),
    (Fault, usize),
>)
    requires
        line.wf(),
        pos < line.chars@.len(),
    ensures
        match parsed {
            Ok((w, next)) => atom(line.texts(), line.row as int, pos as int) == Parsed::Done(
                syntax_of(w.value),
                next as int,
            ) && pos < next <= line.chars@.len() && next == pos + width(w.value) && word_placed(
                w,
                spans_of(line.tokens@),
                pos as int,
            ),
            Err((fault, at)) => atom(line.texts(), line.row as int, pos as int) == Parsed::<Syntax>::Failed(
                fault,
                at as int,
            ),
        },
    decreases line.chars@.len() - pos, 0int,
{
    proof {
        assert(line.chars@.len() == texts_view(line.chars@).len());
        assert(line.tokens@.len() == token_texts(line.tokens@).len());
        assert(texts_view(line.chars@)[pos as int] == token_texts(line.tokens@)[pos as int]);
    }
    let count = line.chars.len();
    assert(pos < count);
    let token = &line.chars[pos];
    let ghost text = line.texts()[pos as int];
    assert(text == token@);
    if token.len() == 0 {
        return Err((Fault::Unexpected, pos));
    }
    let c = token[0];
    if c == '#' {
        let comment = string_from_chars(&copy_range(token, 1, token.len()));
        assert(token@.subrange(1, token@.len() as int) == token@.skip(1));
        Ok((Sp::new(Word::Comment(comment), line.span(pos, pos)), pos + 1))
    } else if c == '"' {
        if token.len() < 2 {
            return Err((Fault::Unexpected, pos));
        }
        let inner = string_from_chars(&copy_range(token, 1, token.len() - 1));
        Ok((Sp::new(Word::String(inner), line.span(pos, pos)), pos + 1))
    } else if line.is_mark(pos, '[') {
        match parse_sequence(line, pos + 1, Some(']'), kernel) {
            Ok((words, next)) => {
                let mut lines: Vec<Vec<Sp<Word>>> = Vec::new();
                let ghost content = syntax_list(words@, words@.len());
                lines.push(words);
                proof {
                    assert(syntax_lines(lines@, 0) == Seq::<Seq<Syntax>>::empty());
                    assert(syntax_lines(lines@, 1) == seq![content]);
                }
                let arr = Arr { lines, constant: false };
                let made = Sp::new(Word::Array(arr), line.span(pos, next - 1));
                proof {
                    let held = arr.lines@;
                    assert(held.len() == 1 && held[0] == words);
                    assert(lines_extent(held, 1) == 0);
                    assert(lines_extent(held, 0) == extent(words@, 0, 0) + lines_extent(held, 1));
                    assert(lines_placed(held, 1, spans_of(line.tokens@), pos + 1 + extent(
                        words@,
                        0,
                        0,
                    )));
                    assert(lines_placed(held, 0, spans_of(line.tokens@), pos + 1));
                    assert(width(made.value) == 2 + lines_extent(held, 0));
                }
                Ok((made, next))
            },
            Err((fault, at)) => {
                if fault == Fault::Unclosed && at == line.chars.len() {
                    Err((Fault::Unclosed, pos))
                } else {
                    Err((fault, at))
                }
            },
        }
    } else if line.is_mark(pos, '(') {
        match parse_sequence(line, pos + 1, Some(')'), kernel) {
            Ok((words, next)) => {
                let mut lines: Vec<Vec<Sp<Word>>> = Vec::new();
                let ghost content = syntax_list(words@, words@.len());
                lines.push(words);
                proof {
                    assert(syntax_lines(lines@, 0) == Seq::<Seq<Syntax>>::empty());
                    assert(syntax_lines(lines@, 1) == seq![content]);
                }
                let id = FunctionId { line: line.row, index: pos };
                let func = Func { id, signature: None, lines };
                let made = Sp::new(Word::Func(func), line.span(pos, next - 1));
                proof {
                    let held = func.lines@;
                    assert(held.len() == 1 && held[0] == words);
                    assert(lines_extent(held, 1) == 0);
                    assert(lines_extent(held, 0) == extent(words@, 0, 0) + lines_extent(held, 1));
                    assert(lines_placed(held, 1, spans_of(line.tokens@), pos + 1 + extent(
                        words@,
                        0,
                        0,
                    )));
                    assert(lines_placed(held, 0, spans_of(line.tokens@), pos + 1));
                    assert(width(made.value) == 2 + lines_extent(held, 0));
                }
                Ok((made, next))
            },
            Err((fault, at)) => {
                if fault == Fault::Unclosed && at == line.chars.len() {
                    Err((Fault::Unclosed, pos))
                } else {
                    Err((fault, at))
                }
            },
        }
    } else if c == '[' || c == ']' || c == '(' || c == ')' || c == '{' || c == '}' || c == '_' || c
        == '|' {
        Err((Fault::Unexpected, pos))
    } else if begins_number(token) {
        if number_shaped(token) {
            let written = line.tokens[pos].value.clone();
            let bits = kernel.read(written.as_str());
            Ok((Sp::new(Word::Number(written, bits), line.span(pos, pos)), pos + 1))
        } else {
            Err((Fault::InvalidNumber, pos))
        }
    } else {
        match Primitive::from_name(line.tokens[pos].value.as_str()) {
            None => {
                let name = line.tokens[pos].value.clone();
                Ok((Sp::new(Word::Ident(name), line.span(pos, pos)), pos + 1))
            },
            Some(prim) => {
                let want = prim.modifier_args();
                if want == 0 {
                    Ok((Sp::new(Word::Primitive(prim), line.span(pos, pos)), pos + 1))
                } else {
                    match parse_operands(line, pos + 1, want, kernel) {
                        Ok((given, terminated, next)) => {
                            let modifier = Sp::new(prim, line.span(pos, pos));
                            let modified = Modified { modifier, operands: given, terminated };
                            let span = line.span(pos, next - 1);
                            let made = Sp::new(Word::Modified(Box::new(modified)), span);
                            assert(width(made.value) == 1 + extent(modified.operands@, 0, 0)
                                + if terminated {
                                1nat
                            } else {
                                0nat
                            });
                            Ok((made, next))
                        },
                        Err(None) => Err((Fault::MissingOperand, pos)),
                        Err(Some((fault, at))) => Err((fault, at)),
                    }
                }
            },
        }
    }
}

/// Up to `want` operands from a position on.
fn parse_operands<K: Kernel>(line: &Line, pos: usize, want: u8, kernel: &mut K) -> (parsed: Result<
    (Vec<Sp<Word>>, bool, usize),
    Option<(Fault, usize)>,
>)
    requires
        line.wf(),
        pos <= line.chars@.len(),
    ensures
        match parsed {
            Ok((ws, terminated, next)) => operands(line.texts(), line.row as int, pos as int, want as nat)
                == Parsed::Done((syntax_list(ws@, ws@.len()), terminated), next as int) && pos
                <= next <= line.chars@.len() && (want > 0 ==> pos < next) && next == pos + extent(
                ws@,
                0,
                0,
            ) + if terminated {
                1nat
            } else {
                0nat
            } && words_placed(ws@, 0, spans_of(line.tokens@), pos as int, 0),
            Err(None) => operands(line.texts(), line.row as int, pos as int, want as nat) == Parsed::<
                (Seq<Syntax>, bool),
            >::Failed(Fault::MissingOperand, -1),
            Err(Some((fault, at))) => operands(line.texts(), line.row as int, pos as int, want as nat) == Parsed::<
                (Seq<Syntax>, bool),
            >::Failed(fault, at as int),
        },
    decreases line.chars@.len() - pos, 1int, want,
{
    if want == 0 {
        let none: Vec<Sp<Word>> = Vec::new();
        assert(syntax_list(none@, 0) == Seq::<Syntax>::empty());
        return Ok((none, false, pos));
    }
    if pos >= line.chars.len() {
        return Err(None);
    }
    if line.is_mark(pos, '|') {
        let none: Vec<Sp<Word>> = Vec::new();
        assert(syntax_list(none@, 0) == Seq::<Syntax>::empty());
        return Ok((none, true, pos + 1));
    }
    if line.is_mark(pos, ']') || line.is_mark(pos, ')') {
        return Err(None);
    }
    let (first, next) = match parse_atom(line, pos, kernel) {
        Ok(found) => found,
        Err((fault, at)) => {
            return Err(Some((fault, at)));
        },
    };
    match parse_operands(line, next, want - 1, kernel) {
        Ok((mut others, terminated, end)) => {
            proof {
                lemma_syntax_list_front(first, others@, others@.len());
                assert(others@.insert(0, first) == seq![first] + others@);
                lemma_placed_front(first, others@, spans_of(line.tokens@), pos as int, 0);
            }
            others.insert(0, first);
            Ok((others, terminated, end))
        },
        Err(e) => Err(e),
    }
}

/// The atoms that underscores join to the atom before a position.
fn parse_strand_rest<K: Kernel>(line: &Line, pos: usize, kernel: &mut K) -> (parsed: Result<
    (Vec<Sp<Word>>, usize),
    (Fault, usize),
>)
    requires
        line.wf(),
        pos <= line.chars@.len(),
    ensures
        match parsed {
            Ok((ws, next)) => strand_rest(line.texts(), line.row as int, pos as int) == Parsed::Done(
                syntax_list(ws@, ws@.len()),
                next as int,
            ) && pos <= next <= line.chars@.len() && next == pos + extent(ws@, 0, 1)
                && words_placed(ws@, 0, spans_of(line.tokens@), pos + 1, 1),
            Err((fault, at)) => strand_rest(line.texts(), line.row as int, pos as int) == Parsed::<
                Seq<Syntax>,
            >::Failed(fault, at as int),
        },
    decreases line.chars@.len() - pos, 1int,
{
    if pos >= line.chars.len() || !line.is_mark(pos, '_') {
        let none: Vec<Sp<Word>> = Vec::new();
        assert(syntax_list(none@, 0) == Seq::<Syntax>::empty());
        return Ok((none, pos));
    }
    if pos + 1 >= line.chars.len() {
        return Err((Fault::Dangling, pos));
    }
    let (item, next) = match parse_atom(line, pos + 1, kernel) {
        Ok(found) => found,
        Err((fault, at)) => {
            if fault == Fault::Unexpected && at == pos + 1 {
                return Err((Fault::Dangling, pos));
            }
            return Err((fault, at));
        },
    };
    match parse_strand_rest(line, next, kernel) {
        Ok((mut others, end)) => {
            proof {
                lemma_syntax_list_front(item, others@, others@.len());
                assert(others@.insert(0, item) == seq![item] + others@);
                lemma_placed_front(item, others@, spans_of(line.tokens@), pos + 1, 1);
            }
            others.insert(0, item);
            Ok((others, end))
        },
        Err(e) => Err(e),
    }
}

/// The word that begins at the token of a position.
fn parse_word<K: Kernel>(line: &Line, pos: usize, kernel: &mut K) -> (parsed: Result<
    (Sp<Word>, usize),
    (Fault, usize),
>)
    requires
        line.wf(),
        pos < line.chars@.len(),
    ensures
        match parsed {
            Ok((w, next)) => word(line.texts(), line.row as int, pos as int) == Parsed::Done(
                syntax_of(w.value),
                next as int,
            ) && pos < next <= line.chars@.len() && next == pos + width(w.value) && word_placed(
                w,
                spans_of(line.tokens@),
                pos as int,
            ),
            Err((fault, at)) => word(line.texts(), line.row as int, pos as int) == Parsed::<Syntax>::Failed(
                fault,
                at as int,
            ),
        },
    decreases line.chars@.len() - pos, 2int,
{
    let (first, next) = parse_atom(line, pos, kernel)?;
    let (mut others, end) = parse_strand_rest(line, next, kernel)?;
    proof {
        lemma_syntax_list_len(others@, others@.len());
    }
    if others.len() == 0 {
        assert(extent(others@, 0, 1) == 0);
        Ok((first, end))
    } else {
        proof {
            lemma_syntax_list_front(first, others@, others@.len());
            assert(others@.insert(0, first) == seq![first] + others@);
            lemma_placed_front(first, others@, spans_of(line.tokens@), pos as int, 1);
        }
        others.insert(0, first);
        let span = line.span(pos, end - 1);
        let made = Sp::new(Word::Strand(others), span);
        assert(width(made.value) == (extent(others@, 0, 1) - 1) as nat);
        Ok((made, end))
    }
}

/// The words from a position on, up to the closing bracket or the end of the
/// line.
fn parse_sequence<K: Kernel>(line: &Line, pos: usize, closer: Option<char>, kernel: &mut K) -> (parsed:
    Result<(Vec<Sp<Word>>, usize), (Fault, usize)>)
    requires
        line.wf(),
        pos <= line.chars@.len(),
    ensures
        match parsed {
            Ok((ws, next)) => sequence(line.texts(), line.row as int, pos as int, closer) == Parsed::Done(
                syntax_list(ws@, ws@.len()),
                next as int,
            ) && pos <= next <= line.chars@.len() && (closer is Some ==> pos < next) && next == pos
                + extent(ws@, 0, 0) + if closer is Some {
                1nat
            } else {
                0nat
            } && words_placed(ws@, 0, spans_of(line.tokens@), pos as int, 0),
            Err((fault, at)) => sequence(line.texts(), line.row as int, pos as int, closer) == Parsed::<
                Seq<Syntax>,
            >::Failed(fault, at as int),
        },
    decreases line.chars@.len() - pos, 3int,
{
    if pos >= line.chars.len() {
        if closer.is_none() {
            let none: Vec<Sp<Word>> = Vec::new();
            assert(syntax_list(none@, 0) == Seq::<Syntax>::empty());
            return Ok((none, pos));
        } else {
            return Err((Fault::Unclosed, line.chars.len()));
        }
    }
    match closer {
        Some(c) => {
            if line.is_mark(pos, c) {
                let none: Vec<Sp<Word>> = Vec::new();
                assert(syntax_list(none@, 0) == Seq::<Syntax>::empty());
                return Ok((none, pos + 1));
            }
        },
        None => {},
    }
    let (first, next) = parse_word(line, pos, kernel)?;
    let (mut others, end) = parse_sequence(line, next, closer, kernel)?;
    proof {
        lemma_syntax_list_front(first, others@, others@.len());
        assert(others@.insert(0, first) == seq![first] + others@);
        lemma_placed_front(first, others@, spans_of(line.tokens@), pos as int, 0);
    }
    others.insert(0, first);
    Ok((others, end))
}

/// Whether a line is the marker of a block: of a block of tests if `test`
/// is set, else of a plain block.
pub open spec fn is_marker(tokens: Seq<Seq<char>>, test: bool) -> bool {
    tokens.len() == 1 && tokens[0] == if test {
        seq!['~', '~', '~']
    } else {
        seq!['-', '-', '-']
    }
}

/// What parsing lines gives: items and the line to go on from, or a fault
/// with the line and the token it lies at.
pub enum Items {
    Done(Seq<ItemSyntax>, int),
    Failed(Fault, int, int),
}

/// The items from a line on. Inside a block, `inside` says of which kind it
/// is, and the items end at the line that closes it, which is passed over;
/// the marker of the other kind cannot stand there. A block that is open at
/// the end of the text is `Unclosed`.
pub open spec fn items(lines: Seq<Seq<Seq<char>>>, pos: int, inside: Option<bool>) -> Items
    decreases lines.len() - pos,
{
    if pos < 0 || pos >= lines.len() {
        if inside is None {
            Items::Done(seq![], pos)
        } else {
            Items::Failed(Fault::Unclosed, lines.len() as int, 0)
        }
    } else if is_marker(lines[pos], false) || is_marker(lines[pos], true) {
        let test = is_marker(lines[pos], true);
        match inside {
            Some(kind) => if kind == test {
                Items::Done(seq![], pos + 1)
            } else {
                Items::Failed(Fault::Unexpected, pos, 0)
            },
            None => match items(lines, pos + 1, Some(test)) {
                Items::Failed(fault, line, token) => if fault == Fault::Unclosed && line
                    == lines.len() {
                    Items::Failed(Fault::Unclosed, pos, 0)
                } else {
                    Items::Failed(fault, line, token)
                },
                Items::Done(inner, next) => if next <= pos || next > lines.len() {
                    Items::Failed(Fault::Unexpected, pos, 0)
                } else {
                    match items(lines, next, None) {
                        Items::Done(rest, end) => Items::Done(
                            seq![ItemSyntax::Scoped(inner, test)] + rest,
                            end,
                        ),
                        Items::Failed(fault, line, token) => Items::Failed(fault, line, token),
                    }
                },
            },
        }
    } else {
        match line_item(lines[pos], pos) {
            Err((fault, at)) => Items::Failed(fault, pos, at),
            Ok(item) => match items(lines, pos + 1, inside) {
                Items::Done(rest, end) => Items::Done(seq![item] + rest, end),
                Items::Failed(fault, line, token) => Items::Failed(fault, line, token),
            },
        }
    }
}

/// The items of a program, from its lines of tokens; or the fault in it,
/// with the line and the token it lies at.
pub open spec fn program(lines: Seq<Seq<Seq<char>>>) -> Result<Seq<ItemSyntax>, (Fault, int, int)> {
    match items(lines, 0, None) {
        Items::Done(all, _) => Ok(all),
        Items::Failed(fault, line, token) => Err((fault, line, token)),
    }
}

/// The content of a list of items with one item put before it.
pub proof fn lemma_item_list_front(first: Item, rest: Seq<Item>, n: nat)
    requires
        n <= rest.len(),
    ensures
        item_list(seq![first] + rest, n + 1) == seq![item_syntax(first)] + item_list(rest, n),
    decreases n,
{
    let all = seq![first] + rest;
    if n == 0 {
        assert(item_list(all, 0) == Seq::<ItemSyntax>::empty());
        assert(all[0] == first);
        assert(item_list(all, 1) == Seq::<ItemSyntax>::empty().push(item_syntax(first)));
    } else {
        lemma_item_list_front(first, rest, (n - 1) as nat);
        assert(all[n as int] == rest[n - 1]);
        assert((seq![item_syntax(first)] + item_list(rest, (n - 1) as nat)).push(
            item_syntax(rest[n - 1]),
        ) == seq![item_syntax(first)] + item_list(rest, (n - 1) as nat).push(
            item_syntax(rest[n - 1]),
        ));
    }
}

/// Whether a line is the marker of a block.
fn marker(line: &Line, test: bool) -> (yes: bool)
    ensures
        yes == is_marker(line.texts(), test),
{
    let c = if test {
        '~'
    } else {
        '-'
    };
    if line.chars.len() != 1 {
        return false;
    }
    let token = &line.chars[0];
    assert(line.texts()[0] == token@);
    if token.len() == 3 && token[0] == c && token[1] == c && token[2] == c {
        assert(token@ =~= seq![c, c, c]);
        true
    } else {
        if token.len() == 3 {
            assert(token@[0] != c || token@[1] != c || token@[2] != c);
        }
        false
    }
}

/// Whether a token is the sign that binds a name.
fn binder(line: &Line, pos: usize) -> (yes: bool)
    requires
        pos < line.chars@.len(),
    ensures
        yes == is_binder(line.texts()[pos as int]),
{
    line.is_mark(pos, '=') || line.is_mark(pos, '\u{2190}')
}

/// The item that a line is, if it is no block marker.
fn parse_line<K: Kernel>(tokens: &Vec<Sp<String>>, row: usize, kernel: &mut K) -> (parsed: Result<
    Item,
    (Fault, usize),
>)
    ensures
        match parsed {
            Ok(item) => line_item(token_texts(tokens@), row as int) == Ok::<
                ItemSyntax,
                (Fault, int),
            >(item_syntax(item)) && rows(item) == 1 && match item {
                Item::Words(words) => words_placed(words@, 0, spans_of(tokens@), 0, 0),
                Item::Binding(binding) => tokens@.len() >= 2 && binding.name.span == tokens@[0].span
                    && words_placed(binding.words@, 0, spans_of(tokens@), 2, 0),
                _ => false,
            },
            Err((fault, at)) => line_item(token_texts(tokens@), row as int) == Err::<
                ItemSyntax,
                (Fault, int),
            >((fault, at as int)),
        },
{
    let line = Line::new(tokens, row);
    proof {
        assert(line.chars@.len() == texts_view(line.chars@).len());
        assert(tokens@.len() == token_texts(tokens@).len());
    }
    if line.chars.len() >= 2 && binder(&line, 1) && name_shaped(&line, 0) {
        let (words, _) = parse_sequence(&line, 2, None, kernel)?;
        let name = Sp::new(tokens[0].value.clone(), tokens[0].span);
        assert(name.value@ == token_texts(tokens@)[0]);
        Ok(Item::Binding(Binding { name, signature: None, words }))
    } else {
        let (words, _) = parse_sequence(&line, 0, None, kernel)?;
        Ok(Item::Words(words))
    }
}

/// The items from a line on.
fn parse_items<K: Kernel>(
    lines: &Vec<Vec<Sp<String>>>,
    pos: usize,
    inside: Option<bool>,
    kernel: &mut K,
) -> (parsed: Result<(Vec<Item>, usize), (Fault, usize, usize)>)
    requires
        pos <= lines@.len(),
    ensures
        match parsed {
            Ok((found, next)) => items(lines_view(lines@), pos as int, inside) == Items::Done(
                item_list(found@, found@.len()),
                next as int,
            ) && pos <= next <= lines@.len() && (inside is Some ==> pos < next) && next == pos
                + rows_extent(found@, 0) + if inside is Some {
                1nat
            } else {
                0nat
            } && items_placed(found@, 0, lines@, pos as int),
            Err((fault, line, token)) => items(lines_view(lines@), pos as int, inside)
                == Items::Failed(fault, line as int, token as int),
        },
    decreases lines@.len() - pos,
{
    let ghost all = lines_view(lines@);
    if pos >= lines.len() {
        if inside.is_none() {
            let none: Vec<Item> = Vec::new();
            assert(item_list(none@, 0) == Seq::<ItemSyntax>::empty());
            return Ok((none, pos));
        } else {
            return Err((Fault::Unclosed, lines.len(), 0));
        }
    }
    assert(all[pos as int] == token_texts(lines@[pos as int]@));
    let line = Line::new(&lines[pos], pos);
    let test = marker(&line, true);
    if test || marker(&line, false) {
        match inside {
            Some(kind) => {
                if kind == test {
                    let none: Vec<Item> = Vec::new();
                    assert(item_list(none@, 0) == Seq::<ItemSyntax>::empty());
                    Ok((none, pos + 1))
                } else {
                    Err((Fault::Unexpected, pos, 0))
                }
            },
            None => {
                let (inner, next) = match parse_items(lines, pos + 1, Some(test), kernel) {
                    Ok(found) => found,
                    Err((fault, line, token)) => {
                        if fault == Fault::Unclosed && line == lines.len() {
                            return Err((Fault::Unclosed, pos, 0));
                        }
                        return Err((fault, line, token));
                    },
                };
                let (mut rest, end) = parse_items(lines, next, None, kernel)?;
                let block = Item::Scoped { items: inner, test };
                proof {
                    lemma_item_list_front(block, rest@, rest@.len());
                    assert(rest@.insert(0, block) == seq![block] + rest@);
                    assert(rows(block) == 2 + rows_extent(inner@, 0));
                    assert(item_placed(block, lines@, pos as int));
                    lemma_items_front(block, rest@, lines@, pos as int);
                }
                rest.insert(0, block);
                Ok((rest, end))
            },
        }
    } else {
        let item = match parse_line(&lines[pos], pos, kernel) {
            Ok(item) => item,
            Err((fault, at)) => {
                return Err((fault, pos, at));
            },
        };
        let (mut rest, end) = parse_items(lines, pos + 1, inside, kernel)?;
        proof {
            lemma_item_list_front(item, rest@, rest@.len());
            assert(rest@.insert(0, item) == seq![item] + rest@);
            assert(item_placed(item, lines@, pos as int));
            lemma_items_front(item, rest@, lines@, pos as int);
        }
        rest.insert(0, item);
        Ok((rest, end))
    }
}

/// The span of a token of a line, or the empty span at the start of the
/// first file where there is no such token.
fn span_at(lines: &Vec<Vec<Sp<String>>>, line: usize, token: usize) -> (span: CodeSpan)
    ensures
        line < lines@.len() && token < lines@[line as int]@.len() ==> span
            == lines@[line as int]@[token as int].span,
{
    if line < lines.len() && token < lines[line].len() {
        lines[line][token].span
    } else {
        let origin = crate::lex::Loc { pos: 0, line: 0, col: 0 };
        CodeSpan { file: 0, start: origin, end: origin }
    }
}

/// The items of a program, from its lines of tokens. The numbers in it are
/// read by the kernel. Every word carries the span of the tokens it is made
/// of, and every item stands on the lines it was read from.
pub fn parse<K: Kernel>(lines: &Vec<Vec<Sp<String>>>, kernel: &mut K) -> (parsed: Result<
    Vec<Item>,
    ParseError,
>)
    ensures
        match parsed {
            Ok(found) => program(lines_view(lines@)) == Ok::<
                Seq<ItemSyntax>,
                (Fault, int, int),
            >(item_list(found@, found@.len())) && items_placed(found@, 0, lines@, 0),
            Err(e) => program(lines_view(lines@)) matches Err((fault, line, token)) && e.fault
                == fault && (0 <= line < lines@.len() && 0 <= token < lines@[line]@.len()
                ==> e.span == lines@[line]@[token].span),
        },
{
    match parse_items(lines, 0, None, kernel) {
        Ok((found, _)) => Ok(found),
        Err((fault, line, token)) => Err(ParseError { fault, span: span_at(lines, line, token) }),
    }
}

/// What a text is read as: its items, or nothing where it cannot be read.
pub open spec fn parsed(text: Seq<char>) -> Option<Result<Seq<ItemSyntax>, (Fault, int, int)>> {
    match crate::token::lexemes(text) {
        Some(lines) => Some(program(lines)),
        None => None,
    }
}

/// Writing the tokens of a text out again changes nothing of what the text
/// is read as: what is written has the items of the text, and the faults of
/// the text at the tokens of the text.
pub proof fn lemma_parse_rewritten(text: Seq<char>)
    requires
        crate::token::rewritten(text) is Some,
    ensures
        parsed(crate::token::rewritten(text)->0) == parsed(text),
{
    crate::token::lemma_rewritten_keeps_tokens(text);
}

} // verus!
