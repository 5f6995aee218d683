//! Tokens: how a source text falls into lines of tokens, and how lines of
//! tokens are written out again.
//!
//! A line holds tokens parted by blank space. A token is a comment, which
//! begins with `#` and runs to the end of the line; a string, from one double
//! quote to the next; a mark, which is a single bracket, underscore or bar; or
//! a word, which runs until blank space, a mark, a quote or a `#`.

use vstd::prelude::*;
use vstd::string::*;
use crate::lex::{CodeSpan, Loc, Sp};
use crate::text::{
    chars_of,
    copy_range,
    find_from,
    free_of,
    join_spec,
    lemma_join_split,
    lemma_split_join,
    lemma_until,
    lemma_until_bounds,
    push_str,
    split_spec,
    string_from_chars,
    until,
};

verus! {

/// Whether a character is blank space within a line.
pub open spec fn is_space(c: char) -> bool {
    c == ' ' || c == '\t' || c == '\r'
}

/// Whether a character is a token by itself.
pub open spec fn is_mark(c: char) -> bool {
    c == '[' || c == ']' || c == '(' || c == ')' || c == '{' || c == '}' || c == '_' || c == '|'
}

/// Whether a character cannot stand in a word.
pub open spec fn ends_word(c: char) -> bool {
    is_space(c) || is_mark(c) || c == '"' || c == '#'
}

/// The number of characters of the word at the front of a text.
pub open spec fn word_len(s: Seq<char>) -> nat
    decreases s.len(),
{
    if s.len() == 0 || ends_word(s[0]) {
        0
    } else {
        1 + word_len(s.skip(1))
    }
}

/// The number of characters of the token at the front of a text that begins
/// with one; `None` for a string that is not closed.
pub open spec fn token_len(s: Seq<char>) -> Option<nat> {
    if s[0] == '#' {
        Some(s.len())
    } else if s[0] == '"' {
        let inner = until(s.skip(1), '"');
        if inner + 1 >= s.len() {
            None
        } else {
            Some(inner + 2)
        }
    } else if is_mark(s[0]) {
        Some(1)
    } else {
        Some(word_len(s))
    }
}

/// A token put before the tokens that follow it, if they could be read.
pub open spec fn with_first(first: Seq<char>, rest: Option<Seq<Seq<char>>>) -> Option<
    Seq<Seq<char>>,
> {
    match rest {
        Some(r) => Some(seq![first] + r),
        None => None,
    }
}

/// The tokens of a line; `None` if a string in it is not closed.
pub open spec fn scan(s: Seq<char>) -> Option<Seq<Seq<char>>>
    decreases s.len(),
{
    if s.len() == 0 {
        Some(seq![])
    } else if is_space(s[0]) {
        scan(s.skip(1))
    } else {
        match token_len(s) {
            Some(n) => if 0 < n <= s.len() {
                with_first(s.take(n as int), scan(s.skip(n as int)))
            } else {
                None
            },
            None => None,
        }
    }
}

/// Whether a text is one whole token.
pub open spec fn is_token(t: Seq<char>) -> bool {
    &&& t.len() > 0
    &&& !is_space(t[0])
    &&& free_of(t, '\n')
    &&& token_len(t) == Some(t.len())
}

/// Whether texts are the tokens of a line: each is a token, and a comment
/// can only be the last.
pub open spec fn is_line(tokens: Seq<Seq<char>>) -> bool {
    forall|i: int|
        0 <= i < tokens.len() ==> is_token(#[trigger] tokens[i]) && (tokens[i][0] == '#' ==> i
            == tokens.len() - 1)
}

proof fn lemma_word_len(s: Seq<char>, n: int)
    requires
        0 <= n <= s.len(),
        forall|i: int| 0 <= i < n ==> !ends_word(s[i]),
        n == s.len() || ends_word(s[n]),
    ensures
        word_len(s) == n,
    decreases n,
{
    if n > 0 {
        let rest = s.skip(1);
        assert forall|i: int| 0 <= i < n - 1 implies !ends_word(rest[i]) by {
            assert(rest[i] == s[i + 1]);
        }
        lemma_word_len(rest, n - 1);
    }
}

proof fn lemma_word_len_bounds(s: Seq<char>)
    ensures
        word_len(s) <= s.len(),
        forall|i: int| 0 <= i < word_len(s) ==> !ends_word(s[i]),
        word_len(s) < s.len() ==> ends_word(s[word_len(s) as int]),
    decreases s.len(),
{
    if s.len() > 0 && !ends_word(s[0]) {
        let rest = s.skip(1);
        lemma_word_len_bounds(rest);
        assert forall|i: int| 0 <= i < word_len(s) implies !ends_word(s[i]) by {
            if i > 0 {
                assert(rest[i - 1] == s[i]);
            }
        }
        if word_len(s) < s.len() {
            assert(rest[word_len(rest) as int] == s[word_len(s) as int]);
        }
    }
}

/// A token that is followed by a space, or by nothing, is read as that token
/// again, unless it is a comment and something follows.
proof fn lemma_token_first(t: Seq<char>, rest: Seq<char>)
    requires
        is_token(t),
        rest.len() == 0 || (rest[0] == ' ' && t[0] != '#'),
    ensures
        token_len(t + rest) == Some(t.len()),
{
    let s = t + rest;
    assert(s[0] == t[0]);
    if rest.len() == 0 {
        assert(s == t);
    } else if t[0] == '"' {
        let inner = until(t.skip(1), '"') as int;
        lemma_until_bounds(t.skip(1), '"');
        assert(inner + 2 == t.len());
        assert forall|i: int| 0 <= i < inner implies s.skip(1)[i] != '"' by {
            assert(s.skip(1)[i] == t.skip(1)[i]);
        }
        assert(s.skip(1)[inner] == t.skip(1)[inner]);
        lemma_until(s.skip(1), '"', inner);
    } else if is_mark(t[0]) {
    } else {
        lemma_word_len_bounds(t);
        assert forall|i: int| 0 <= i < t.len() implies !ends_word(s[i]) by {
            assert(s[i] == t[i]);
        }
        assert(s[t.len() as int] == rest[0]);
        lemma_word_len(s, t.len() as int);
    }
}

/// The tokens of a line, parted by single spaces, are read as those tokens
/// again.
pub proof fn lemma_scan_join(tokens: Seq<Seq<char>>)
    requires
        is_line(tokens),
    ensures
        scan(join_spec(tokens, ' ')) == Some(tokens),
    decreases tokens.len(),
{
    let text = join_spec(tokens, ' ');
    if tokens.len() == 0 {
    } else {
        let t = tokens[0];
        assert(is_token(t));
        let others = tokens.skip(1);
        assert forall|i: int| 0 <= i < others.len() implies is_token(#[trigger] others[i]) && (
        others[i][0] == '#' ==> i == others.len() - 1) by {
            assert(others[i] == tokens[i + 1]);
        }
        lemma_scan_join(others);
        if tokens.len() == 1 {
            assert(text == t);
            lemma_token_first(t, Seq::empty());
            assert(t + Seq::<char>::empty() == t);
            assert(text.take(t.len() as int) == t);
            assert(text.skip(t.len() as int) == Seq::<char>::empty());
            assert(seq![t] + Seq::<Seq<char>>::empty() == tokens);
        } else {
            let tail = seq![' '] + join_spec(others, ' ');
            assert(text == t + tail) by {
                assert(t + seq![' '] + join_spec(others, ' ') == t + (seq![' '] + join_spec(
                    others,
                    ' ',
                )));
            }
            assert(t[0] != '#');
            lemma_token_first(t, tail);
            assert(text[0] == t[0]);
            assert(text.take(t.len() as int) == t);
            assert(text.skip(t.len() as int) == tail);
            assert(tail.skip(1) == join_spec(others, ' '));
            assert(scan(tail) == scan(join_spec(others, ' ')));
            assert(seq![t] + others == tokens);
        }
    }
}

/// What is read from a line is a line of tokens.
pub proof fn lemma_scan_is_line(s: Seq<char>)
    requires
        free_of(s, '\n'),
    ensures
        scan(s) matches Some(tokens) ==> is_line(tokens),
    decreases s.len(),
{
    if s.len() == 0 {
    } else if is_space(s[0]) {
        assert forall|i: int| 0 <= i < s.skip(1).len() implies s.skip(1)[i] != '\n' by {
            assert(s.skip(1)[i] == s[i + 1]);
        }
        lemma_scan_is_line(s.skip(1));
    } else if let Some(n) = token_len(s) {
        if 0 < n <= s.len() {
            let t = s.take(n as int);
            let rest = s.skip(n as int);
            assert forall|i: int| 0 <= i < rest.len() implies rest[i] != '\n' by {
                assert(rest[i] == s[n + i]);
            }
            lemma_scan_is_line(rest);
            if let Some(others) = scan(rest) {
                let tokens = seq![t] + others;
                assert(t[0] == s[0]);
                assert forall|i: int| 0 <= i < t.len() implies t[i] != '\n' by {
                    assert(t[i] == s[i]);
                }
                // The token that was cut off is a token by itself.
                if s[0] == '#' {
                    assert(t == s);
                    assert(rest.len() == 0);
                    assert(others.len() == 0);
                } else if s[0] == '"' {
                    let inner = until(s.skip(1), '"') as int;
                    lemma_until_bounds(s.skip(1), '"');
                    assert forall|i: int| 0 <= i < inner implies t.skip(1)[i] != '"' by {
                        assert(t.skip(1)[i] == s.skip(1)[i]);
                    }
                    assert(t.skip(1)[inner] == s.skip(1)[inner]);
                    lemma_until(t.skip(1), '"', inner);
                } else if is_mark(s[0]) {
                } else {
                    lemma_word_len_bounds(s);
                    assert forall|i: int| 0 <= i < n implies !ends_word(t[i]) by {
                        assert(t[i] == s[i]);
                    }
                    lemma_word_len(t, n as int);
                }
                assert(is_token(t));
                assert forall|i: int| 0 <= i < tokens.len() implies is_token(
                    #[trigger] tokens[i],
                ) && (tokens[i][0] == '#' ==> i == tokens.len() - 1) by {
                    if i > 0 {
                        assert(tokens[i] == others[i - 1]);
                    }
                }
            }
        }
    }
}

/// The tokens of each of some lines; `None` if one of them cannot be read.
pub open spec fn scan_all(lines: Seq<Seq<char>>) -> Option<Seq<Seq<Seq<char>>>>
    decreases lines.len(),
{
    if lines.len() == 0 {
        Some(seq![])
    } else {
        match (scan(lines[0]), scan_all(lines.skip(1))) {
            (Some(first), Some(rest)) => Some(seq![first] + rest),
            _ => None,
        }
    }
}

/// The tokens of a text, line by line; `None` if a string in it is not
/// closed on its line.
pub open spec fn lexemes(text: Seq<char>) -> Option<Seq<Seq<Seq<char>>>> {
    scan_all(split_spec(text, '\n'))
}

/// Each line written out: its tokens parted by single spaces.
pub open spec fn line_texts(lines: Seq<Seq<Seq<char>>>) -> Seq<Seq<char>>
    decreases lines.len(),
{
    if lines.len() == 0 {
        seq![]
    } else {
        seq![join_spec(lines[0], ' ')] + line_texts(lines.skip(1))
    }
}

/// Lines of tokens written out as a text: the tokens of a line parted by
/// single spaces, the lines by line feeds.
pub open spec fn unlex(lines: Seq<Seq<Seq<char>>>) -> Seq<char> {
    join_spec(line_texts(lines), '\n')
}

/// Whether lines of texts are the lines of tokens of some text: there is at
/// least one line and each is a line of tokens.
pub open spec fn are_lines(lines: Seq<Seq<Seq<char>>>) -> bool {
    lines.len() > 0 && forall|i: int| 0 <= i < lines.len() ==> is_line(#[trigger] lines[i])
}

proof fn lemma_join_free(tokens: Seq<Seq<char>>)
    requires
        is_line(tokens),
    ensures
        free_of(join_spec(tokens, ' '), '\n'),
    decreases tokens.len(),
{
    if tokens.len() > 0 {
        let t = tokens[0];
        assert(is_token(t));
        if tokens.len() > 1 {
            let others = tokens.skip(1);
            assert forall|i: int| 0 <= i < others.len() implies is_token(#[trigger] others[i]) && (
            others[i][0] == '#' ==> i == others.len() - 1) by {
                assert(others[i] == tokens[i + 1]);
            }
            lemma_join_free(others);
            let text = join_spec(tokens, ' ');
            let tail = join_spec(others, ' ');
            assert forall|i: int| 0 <= i < text.len() implies text[i] != '\n' by {
                if i < t.len() {
                    assert(text[i] == t[i]);
                } else if i > t.len() {
                    assert(text[i] == tail[i - t.len() - 1]);
                }
            }
        }
    }
}

proof fn lemma_scan_all_texts(lines: Seq<Seq<Seq<char>>>)
    requires
        forall|i: int| 0 <= i < lines.len() ==> is_line(#[trigger] lines[i]),
    ensures
        scan_all(line_texts(lines)) == Some(lines),
        line_texts(lines).len() == lines.len(),
        forall|i: int|
            0 <= i < lines.len() ==> free_of(#[trigger] line_texts(lines)[i], '\n'),
    decreases lines.len(),
{
    if lines.len() > 0 {
        let rest = lines.skip(1);
        assert forall|i: int| 0 <= i < rest.len() implies is_line(#[trigger] rest[i]) by {
            assert(rest[i] == lines[i + 1]);
        }
        lemma_scan_all_texts(rest);
        assert(is_line(lines[0]));
        lemma_scan_join(lines[0]);
        lemma_join_free(lines[0]);
        let texts = line_texts(lines);
        assert(texts[0] == join_spec(lines[0], ' '));
        assert(texts.skip(1) == line_texts(rest));
        assert(seq![lines[0]] + rest == lines);
        assert forall|i: int| 0 <= i < lines.len() implies free_of(#[trigger] texts[i], '\n') by {
            if i > 0 {
                assert(texts[i] == line_texts(rest)[i - 1]);
            }
        }
    }
}

proof fn lemma_scan_all_lines(lines: Seq<Seq<char>>)
    requires
        forall|i: int| 0 <= i < lines.len() ==> free_of(#[trigger] lines[i], '\n'),
    ensures
        scan_all(lines) matches Some(tokens) ==> tokens.len() == lines.len() && forall|i: int|
            0 <= i < tokens.len() ==> is_line(#[trigger] tokens[i]),
    decreases lines.len(),
{
    if lines.len() > 0 {
        let rest = lines.skip(1);
        assert forall|i: int| 0 <= i < rest.len() implies free_of(#[trigger] rest[i], '\n') by {
            assert(rest[i] == lines[i + 1]);
        }
        lemma_scan_all_lines(rest);
        assert(free_of(lines[0], '\n'));
        lemma_scan_is_line(lines[0]);
        if let Some(tokens) = scan_all(lines) {
            let first = scan(lines[0])->0;
            let others = scan_all(rest)->0;
            assert(tokens == seq![first] + others);
            assert forall|i: int| 0 <= i < tokens.len() implies is_line(#[trigger] tokens[i]) by {
                if i > 0 {
                    assert(tokens[i] == others[i - 1]);
                }
            }
        }
    }
}

/// The tokens of a text are lines of tokens.
pub proof fn lemma_lexemes_are_lines(text: Seq<char>)
    ensures
        lexemes(text) matches Some(lines) ==> are_lines(lines),
{
    lemma_join_split(text, '\n');
    lemma_scan_all_lines(split_spec(text, '\n'));
}

/// Reading undoes writing: lines of tokens, written out and read again, are
/// the same lines of tokens.
pub proof fn lemma_lex_unlex(lines: Seq<Seq<Seq<char>>>)
    requires
        are_lines(lines),
    ensures
        lexemes(unlex(lines)) == Some(lines),
{
    lemma_scan_all_texts(lines);
    lemma_split_join(line_texts(lines), '\n');
}

/// The texts of tokens.
pub open spec fn token_texts(tokens: Seq<Sp<String>>) -> Seq<Seq<char>> {
    Seq::new(tokens.len(), |i: int| tokens[i].value@)
}

/// The texts of lines of tokens.
pub open spec fn lines_view(lines: Seq<Vec<Sp<String>>>) -> Seq<Seq<Seq<char>>> {
    Seq::new(lines.len(), |i: int| token_texts(lines[i]@))
}

/// Why a text cannot be read.
#[derive(Clone, Copy, Debug, PartialEq, Eq, Structural)]
pub enum LexError {
    /// The string that opens here is not closed on its line.
    UnterminatedString(Loc),
}

fn space(c: char) -> (yes: bool)
    ensures
        yes == is_space(c),
{
    c == ' ' || c == '\t' || c == '\r'
}

fn mark(c: char) -> (yes: bool)
    ensures
        yes == is_mark(c),
{
    c == '[' || c == ']' || c == '(' || c == ')' || c == '{' || c == '}' || c == '_' || c == '|'
}

/// Where the token that begins at `from` ends, on the line that ends at
/// `end`; `None` for a string that is not closed.
fn token_end(chars: &Vec<char>, from: usize, end: usize) -> (to: Option<usize>)
    requires
        from < end <= chars.len(),
        !is_space(chars@[from as int]),
    ensures
        match to {
            Some(t) => from < t <= end && token_len(chars@.subrange(from as int, end as int))
                == Some((t - from) as nat),
            None => token_len(chars@.subrange(from as int, end as int)) is None,
        },
{
    let ghost s = chars@.subrange(from as int, end as int);
    let c = chars[from];
    assert(s[0] == c);
    if c == '#' {
        Some(end)
    } else if c == '"' {
        let mut j: usize = from + 1;
        while j < end && chars[j] != '"'
            invariant
                from < j <= end <= chars.len(),
                forall|i: int| from < i < j ==> chars@[i] != '"',
            decreases end - j,
        {
            j += 1;
        }
        proof {
            let inner = s.skip(1);
            assert forall|i: int| 0 <= i < j - from - 1 implies inner[i] != '"' by {
                assert(inner[i] == chars@[from + 1 + i]);
            }
            if j < end {
                assert(inner[j - from - 1] == chars@[j as int]);
            }
            lemma_until(inner, '"', j - from - 1);
        }
        if j < end {
            Some(j + 1)
        } else {
            None
        }
    } else if mark(c) {
        Some(from + 1)
    } else {
        let mut j: usize = from + 1;
        while j < end && !(space(chars[j]) || mark(chars[j]) || chars[j] == '"' || chars[j] == '#')
            invariant
                from < j <= end <= chars.len(),
                forall|i: int| from <= i < j ==> !ends_word(chars@[i]),
            decreases end - j,
        {
            j += 1;
        }
        proof {
            assert forall|i: int| 0 <= i < j - from implies !ends_word(s[i]) by {
                assert(s[i] == chars@[from + i]);
            }
            if j < end {
                assert(s[j - from] == chars@[j as int]);
            }
            lemma_word_len(s, j - from);
        }
        Some(j)
    }
}

/// The tokens of the line that runs from `start` up to `end`, the line of
/// the given number.
fn lex_line(chars: &Vec<char>, start: usize, end: usize, file: usize, line: usize) -> (tokens:
    Result<Vec<Sp<String>>, LexError>)
    requires
        start <= end <= chars.len(),
    ensures
        match tokens {
            Ok(t) => scan(chars@.subrange(start as int, end as int)) == Some(token_texts(t@))
                && forall|i: int|
                0 <= i < t@.len() ==> spans(chars@, #[trigger] t@[i], file, line, start)
                    && t@[i].span.end.pos <= end,
            Err(LexError::UnterminatedString(at)) => scan(
                chars@.subrange(start as int, end as int),
            ) is None && at.line == line && start <= at.pos < end && chars@[at.pos as int] == '"',
        },
{
    let ghost whole = chars@.subrange(start as int, end as int);
    let mut tokens: Vec<Sp<String>> = Vec::new();
    let mut pos: usize = start;
    proof {
        assert(whole.skip(0) == whole);
        assert(Seq::<Seq<char>>::empty() + scan(whole)->0 == scan(whole)->0);
    }
    while pos < end
        invariant
            start <= pos <= end <= chars.len(),
            whole == chars@.subrange(start as int, end as int),
            match scan(whole.skip(pos - start)) {
                Some(rest) => scan(whole) == Some(token_texts(tokens@) + rest),
                None => scan(whole) is None,
            },
            forall|i: int|
                0 <= i < tokens@.len() ==> spans(chars@, #[trigger] tokens@[i], file, line, start)
                    && tokens@[i].span.end.pos <= pos,
        decreases end - pos,
    {
        let ghost rest = whole.skip(pos - start);
        assert(rest[0] == chars@[pos as int]);
        assert(rest == chars@.subrange(pos as int, end as int));
        if space(chars[pos]) {
            assert(rest.skip(1) == whole.skip(pos + 1 - start));
            pos += 1;
        } else {
            match token_end(chars, pos, end) {
                Some(to) => {
                    let text = string_from_chars(&copy_range(chars, pos, to));
                    let from = Loc { pos, line, col: pos - start };
                    let until = Loc { pos: to, line, col: to - start };
                    let token = Sp::new(text, CodeSpan { file, start: from, end: until });
                    proof {
                        assert(rest.take(to - pos) == chars@.subrange(pos as int, to as int));
                        assert(rest.skip(to - pos) == whole.skip(to - start));
                        let before = token_texts(tokens@);
                        assert(token_texts(tokens@.push(token)) == before.push(token.value@));
                        let after = scan(whole.skip(to - start));
                        if after is Some {
                            assert(before.push(token.value@) + after->0 == before + (seq![
                                token.value@,
                            ] + after->0));
                        }
                    }
                    tokens.push(token);
                    pos = to;
                },
                None => {
                    return Err(
                        LexError::UnterminatedString(Loc { pos, line, col: pos - start }),
                    );
                },
            }
        }
    }
    proof {
        assert(whole.skip(end - start).len() == 0);
        assert(token_texts(tokens@) + Seq::<Seq<char>>::empty() == token_texts(tokens@));
    }
    Ok(tokens)
}

/// Whether a token carries the span of its text: it lies on the given line,
/// which begins at `line_start`, its columns are counted from there, and the
/// characters between its start and its end are its text.
pub open spec fn spans(text: Seq<char>, token: Sp<String>, file: usize, line: usize, line_start: usize) -> bool {
    let span = token.span;
    &&& span.file == file
    &&& span.start.line == line
    &&& span.end.line == line
    &&& line_start <= span.start.pos <= span.end.pos <= text.len()
    &&& span.start.col == span.start.pos - line_start
    &&& span.end.col == span.end.pos - line_start
    &&& text.subrange(span.start.pos as int, span.end.pos as int) == token.value@
}

/// Whether a span lies in a text as the span of a token of the line of the
/// given number does: it names the file and the line; its columns are
/// counted from the beginning of the line, which is the beginning of the
/// text or stands behind a line break; and no line break lies between the
/// beginning of the line and the end of the span.
pub open spec fn placed(text: Seq<char>, span: CodeSpan, file: usize, line: int) -> bool {
    let begin = span.start.pos - span.start.col;
    &&& span.file == file
    &&& span.start.line == line
    &&& span.end.line == line
    &&& span.start.col <= span.start.pos <= span.end.pos <= text.len()
    &&& span.end.col == span.end.pos - begin
    &&& begin == 0 || text[begin - 1] == '\n'
    &&& forall|k: int| begin <= k < span.end.pos ==> text[k] != '\n'
}

/// The tokens of a text, line by line, each with its span in the file of the
/// given number.
pub fn lex(text: &str, file: usize) -> (lines: Result<Vec<Vec<Sp<String>>>, LexError>)
    ensures
        match lines {
            Ok(l) => lexemes(text@) == Some(lines_view(l@)) && forall|n: int, i: int|
                0 <= n < l@.len() && 0 <= i < l@[n]@.len() ==> {
                    let span = (#[trigger] l@[n]@[i]).span;
                    &&& placed(text@, span, file, n)
                    &&& text@.subrange(span.start.pos as int, span.end.pos as int)
                        == l@[n]@[i].value@
                },
            Err(LexError::UnterminatedString(at)) => lexemes(text@) is None && at.pos < text@.len()
                && text@[at.pos as int] == '"',
        },
{
    let chars = chars_of(text);
    let mut lines: Vec<Vec<Sp<String>>> = Vec::new();
    let mut start: usize = 0;
    proof {
        assert(chars@.skip(0) == chars@);
        let all = scan_all(split_spec(chars@, '\n'));
        assert(Seq::<Seq<Seq<char>>>::empty() + all->0 == all->0);
    }
    loop
        invariant
            start <= chars.len(),
            chars@ == text@,
            match scan_all(split_spec(chars@.skip(start as int), '\n')) {
                Some(rest) => lexemes(text@) == Some(lines_view(lines@) + rest),
                None => lexemes(text@) is None,
            },
            start == 0 || chars@[start - 1] == '\n',
            forall|n: int, i: int|
                0 <= n < lines@.len() && 0 <= i < lines@[n]@.len() ==> {
                    let span = (#[trigger] lines@[n]@[i]).span;
                    &&& placed(text@, span, file, n)
                    &&& text@.subrange(span.start.pos as int, span.end.pos as int)
                        == lines@[n]@[i].value@
                },
        decreases chars.len() - start,
    {
        let ghost tail = chars@.skip(start as int);
        let end = find_from(&chars, start, '\n');
        let line = lex_line(&chars, start, end, file, lines.len());
        proof {
            assert(tail.take(end - start) == chars@.subrange(start as int, end as int));
            let parts = split_spec(tail, '\n');
            assert(parts[0] == tail.take(end - start));
            if end < chars.len() {
                assert(tail.skip(end - start + 1) == chars@.skip(end + 1));
                assert(parts.skip(1) == split_spec(chars@.skip(end + 1), '\n'));
            } else {
                assert(parts.skip(1) == Seq::<Seq<char>>::empty());
            }
        }
        let tokens = line?;
        proof {
            assert forall|i: int| 0 <= i < tokens@.len() implies placed(
                text@,
                (#[trigger] tokens@[i]).span,
                file,
                lines@.len() as int,
            ) by {
                assert(spans(chars@, tokens@[i], file, lines.len(), start));
            }
            let before = lines_view(lines@);
            assert(lines_view(lines@.push(tokens)) == before.push(token_texts(tokens@)));
            let rest = scan_all(split_spec(tail, '\n').skip(1));
            if rest is Some {
                assert(before.push(token_texts(tokens@)) + rest->0 == before + (seq![
                    token_texts(tokens@),
                ] + rest->0));
            }
        }
        lines.push(tokens);
        if end >= chars.len() {
            proof {
                assert(lines_view(lines@) + Seq::<Seq<Seq<char>>>::empty() == lines_view(lines@));
            }
            return Ok(lines);
        }
        start = end + 1;
    }
}

/// The texts put together with `sep` between them, one text more.
proof fn lemma_join_push(parts: Seq<Seq<char>>, last: Seq<char>, sep: char)
    ensures
        join_spec(parts.push(last), sep) == if parts.len() == 0 {
            last
        } else {
            join_spec(parts, sep) + seq![sep] + last
        },
    decreases parts.len(),
{
    let longer = parts.push(last);
    if parts.len() == 0 {
        assert(longer[0] == last);
    } else {
        let rest = parts.skip(1);
        lemma_join_push(rest, last, sep);
        assert(longer.skip(1) == rest.push(last));
        assert(longer[0] == parts[0]);
        if parts.len() == 1 {
            assert(rest.len() == 0);
            assert(join_spec(parts, sep) == parts[0]);
        } else {
            assert(parts[0] + seq![sep] + (join_spec(rest, sep) + seq![sep] + last) == parts[0]
                + seq![sep] + join_spec(rest, sep) + seq![sep] + last);
        }
    }
}

proof fn lemma_line_texts_push(lines: Seq<Seq<Seq<char>>>, last: Seq<Seq<char>>)
    ensures
        line_texts(lines.push(last)) == line_texts(lines).push(join_spec(last, ' ')),
    decreases lines.len(),
{
    let longer = lines.push(last);
    if lines.len() == 0 {
        assert(longer.skip(1) == Seq::<Seq<Seq<char>>>::empty());
        assert(line_texts(longer) == seq![join_spec(last, ' ')] + line_texts(longer.skip(1)));
    } else {
        lemma_line_texts_push(lines.skip(1), last);
        assert(longer.skip(1) == lines.skip(1).push(last));
        assert(longer[0] == lines[0]);
    }
}

/// Writes lines of tokens out as a text.
pub fn write_lines(lines: &Vec<Vec<Sp<String>>>) -> (text: String)
    ensures
        text@ == unlex(lines_view(lines@)),
{
    let ghost all = lines_view(lines@);
    let mut out: Vec<char> = Vec::new();
    let mut n: usize = 0;
    while n < lines.len()
        invariant
            n <= lines.len(),
            all == lines_view(lines@),
            out@ == unlex(all.take(n as int)),
        decreases lines.len() - n,
    {
        let ghost before = out@;
        if n > 0 {
            out.push('\n');
        }
        let line = &lines[n];
        let ghost texts = token_texts(line@);
        let ghost head = out@;
        let mut i: usize = 0;
        while i < line.len()
            invariant
                i <= line.len(),
                texts == token_texts(line@),
                out@ == head + join_spec(texts.take(i as int), ' '),
            decreases line.len() - i,
        {
            proof {
                lemma_join_push(texts.take(i as int), texts[i as int], ' ');
                assert(texts.take(i + 1) == texts.take(i as int).push(texts[i as int]));
            }
            if i > 0 {
                out.push(' ');
            }
            push_str(&mut out, line[i].value.as_str());
            proof {
                if i > 0 {
                    assert(out@ == head + (join_spec(texts.take(i as int), ' ') + seq![' ']
                        + texts[i as int]));
                }
            }
            i += 1;
        }
        proof {
            assert(texts.take(texts.len() as int) == texts);
            assert(all.take(n + 1) == all.take(n as int).push(texts));
            lemma_line_texts_push(all.take(n as int), texts);
            lemma_join_push(line_texts(all.take(n as int)), join_spec(texts, ' '), '\n');
            lemma_line_texts_len(all.take(n as int));
            if n > 0 {
                assert(out@ == before + seq!['\n'] + join_spec(texts, ' '));
            } else {
                assert(out@ == join_spec(texts, ' '));
            }
        }
        n += 1;
    }
    proof {
        assert(all.take(all.len() as int) == all);
    }
    string_from_chars(&out)
}

proof fn lemma_line_texts_len(lines: Seq<Seq<Seq<char>>>)
    ensures
        line_texts(lines).len() == lines.len(),
    decreases lines.len(),
{
    if lines.len() > 0 {
        lemma_line_texts_len(lines.skip(1));
    }
}

/// The tokens of a text written out again, parted by single spaces; `None`
/// for a text that cannot be read as tokens.
pub open spec fn rewritten(text: Seq<char>) -> Option<Seq<char>> {
    match lexemes(text) {
        Some(lines) => Some(unlex(lines)),
        None => None,
    }
}

/// Writing the tokens out again changes no token: what is written has the
/// tokens of the text, line by line.
pub proof fn lemma_rewritten_keeps_tokens(text: Seq<char>)
    requires
        rewritten(text) is Some,
    ensures
        lexemes(rewritten(text)->0) == lexemes(text),
{
    lemma_lexemes_are_lines(text);
    lemma_lex_unlex(lexemes(text)->0);
}

} // verus!
