//! Strings as sequences of characters, and the few conversions between
//! strings, characters, bytes and numerals that the rest of the crate needs.

use vstd::prelude::*;
use vstd::string::*;
use vstd::utf8::*;

verus! {

/// `String::push` puts the character at the end of the string and leaves
/// the rest of it as it was.
pub assume_specification[ std::string::String::push ](s: &mut std::string::String, ch: char)
    ensures
        final(s)@ == old(s)@.push(ch),
;

/// The string of the characters of a vector, in order.
pub fn string_from_chars(chars: &Vec<char>) -> (s: String)
    ensures
        s@ == chars@,
{
    let mut s = String::new();
    let mut i: usize = 0;
    while i < chars.len()
        invariant
            i <= chars.len(),
            s@ == chars@.take(i as int),
        decreases chars.len() - i,
    {
        s.push(chars[i]);
        assert(chars@.take(i + 1) == chars@.take(i as int).push(chars@[i as int]));
        i += 1;
    }
    assert(chars@.take(chars@.len() as int) == chars@);
    s
}

/// What `FromUtf8Error` says, through `Display`, of bytes that are not
/// valid UTF-8.
pub uninterp spec fn utf8_error_text(bytes: Seq<u8>) -> Seq<char>;

/// Decodes bytes as UTF-8.
///
/// Stands for `String::from_utf8`, which succeeds exactly on valid UTF-8 and
/// then holds the decoded characters; on failure the result is the text of
/// the error it returned.
#[verifier::external_body]
pub(crate) fn string_from_utf8(bytes: Vec<u8>) -> (decoded: Result<String, String>)
    ensures
        match decoded {
            Ok(s) => valid_utf8(bytes@) && s@ == decode_utf8(bytes@),
            Err(m) => !valid_utf8(bytes@) && m@ == utf8_error_text(bytes@),
        },
{
    match String::from_utf8(bytes) {
        Ok(s) => Ok(s),
        Err(e) => Err(e.to_string()),
    }
}

/// The characters of a string, in order.
pub fn chars_of(s: &str) -> (chars: Vec<char>)
    ensures
        chars@ == s@,
{
    broadcast use vstd::string::group_string_axioms;

    let mut chars: Vec<char> = Vec::new();
    for c in it: s.chars()
        invariant
            it.seq() == s@,
            chars@ == it.seq().take(it.index()),
    {
        assert(it.seq().take(it.index() + 1) == it.seq().take(it.index()).push(c));
        chars.push(c);
    }
    assert(s@.take(s@.len() as int) == s@);
    chars
}

/// Whether two vectors hold the same characters.
pub fn same_chars(a: &Vec<char>, b: &Vec<char>) -> (same: bool)
    ensures
        same == (a@ == b@),
{
    if a.len() != b.len() {
        return false;
    }
    let mut i: usize = 0;
    while i < a.len()
        invariant
            i <= a.len(),
            a.len() == b.len(),
            a@.take(i as int) == b@.take(i as int),
        decreases a.len() - i,
    {
        if a[i] != b[i] {
            return false;
        }
        assert(a@.take(i + 1) == a@.take(i as int).push(a@[i as int]));
        assert(b@.take(i + 1) == b@.take(i as int).push(b@[i as int]));
        i += 1;
    }
    assert(a@.take(a@.len() as int) == a@);
    assert(b@.take(b@.len() as int) == b@);
    true
}

/// Whether two strings hold the same characters.
pub fn same_text(a: &str, b: &str) -> (same: bool)
    ensures
        same == (a@ == b@),
{
    let x = chars_of(a);
    let y = chars_of(b);
    same_chars(&x, &y)
}

/// The decimal digit for a number below ten.
pub open spec fn digit(d: nat) -> char {
    if d == 0 {
        '0'
    } else if d == 1 {
        '1'
    } else if d == 2 {
        '2'
    } else if d == 3 {
        '3'
    } else if d == 4 {
        '4'
    } else if d == 5 {
        '5'
    } else if d == 6 {
        '6'
    } else if d == 7 {
        '7'
    } else if d == 8 {
        '8'
    } else {
        '9'
    }
}

/// The decimal numeral of a natural number, without leading zeros.
pub open spec fn decimal(n: nat) -> Seq<char>
    decreases n,
{
    if n < 10 {
        seq![digit(n)]
    } else {
        decimal(n / 10).push(digit(n % 10))
    }
}

fn digit_char(d: u8) -> (c: char)
    requires
        d < 10,
    ensures
        c == digit(d as nat),
{
    if d == 0 {
        '0'
    } else if d == 1 {
        '1'
    } else if d == 2 {
        '2'
    } else if d == 3 {
        '3'
    } else if d == 4 {
        '4'
    } else if d == 5 {
        '5'
    } else if d == 6 {
        '6'
    } else if d == 7 {
        '7'
    } else if d == 8 {
        '8'
    } else {
        '9'
    }
}

/// Appends the decimal numeral of `n` to `out`.
pub fn push_decimal(out: &mut Vec<char>, n: u128)
    ensures
        final(out)@ == old(out)@ + decimal(n as nat),
    decreases n,
{
    if n >= 10 {
        push_decimal(out, n / 10);
    }
    out.push(digit_char((n % 10) as u8));
    proof {
        if n < 10 {
            assert(old(out)@.push(digit(n as nat)) == old(out)@ + seq![digit(n as nat)]);
        } else {
            assert((old(out)@ + decimal((n / 10) as nat)).push(digit((n % 10) as nat)) == old(
                out,
            )@ + decimal((n / 10) as nat).push(digit((n % 10) as nat)));
        }
    }
}

/// The decimal numeral of `n`.
pub fn decimal_string(n: u64) -> (s: String)
    ensures
        s@ == decimal(n as nat),
{
    let mut out: Vec<char> = Vec::new();
    push_decimal(&mut out, n as u128);
    assert(Seq::<char>::empty() + decimal(n as nat) == decimal(n as nat));
    string_from_chars(&out)
}

/// Appends the characters of `s` to `out`.
pub fn push_str(out: &mut Vec<char>, s: &str)
    ensures
        final(out)@ == old(out)@ + s@,
{
    let chars = chars_of(s);
    let mut i: usize = 0;
    while i < chars.len()
        invariant
            i <= chars.len(),
            chars@ == s@,
            out@ == old(out)@ + chars@.take(i as int),
        decreases chars.len() - i,
    {
        assert(chars@.take(i + 1) == chars@.take(i as int).push(chars@[i as int]));
        out.push(chars[i]);
        i += 1;
    }
    assert(chars@.take(chars@.len() as int) == chars@);
}

/// The number of characters before the first `stop`; the length of the text
/// if it has none.
pub open spec fn until(text: Seq<char>, stop: char) -> nat
    decreases text.len(),
{
    if text.len() == 0 || text[0] == stop {
        0
    } else {
        1 + until(text.skip(1), stop)
    }
}

/// `until` is the one position before which no `stop` stands and at which
/// one stands or the text ends.
pub proof fn lemma_until(text: Seq<char>, stop: char, n: int)
    requires
        0 <= n <= text.len(),
        forall|i: int| 0 <= i < n ==> text[i] != stop,
        n == text.len() || text[n] == stop,
    ensures
        until(text, stop) == n,
    decreases n,
{
    if n > 0 {
        let rest = text.skip(1);
        assert forall|i: int| 0 <= i < n - 1 implies rest[i] != stop by {
            assert(rest[i] == text[i + 1]);
        }
        lemma_until(rest, stop, n - 1);
    }
}

/// The parts of a text between its `sep`s; one part, the whole text, where
/// it has none.
pub open spec fn split_spec(text: Seq<char>, sep: char) -> Seq<Seq<char>>
    decreases text.len(),
{
    let n = until(text, sep) as int;
    if n >= text.len() {
        seq![text]
    } else {
        seq![text.take(n)] + split_spec(text.skip(n + 1), sep)
    }
}

/// The parts put together again, with `sep` between them.
pub open spec fn join_spec(parts: Seq<Seq<char>>, sep: char) -> Seq<char>
    decreases parts.len(),
{
    if parts.len() == 0 {
        Seq::empty()
    } else if parts.len() == 1 {
        parts[0]
    } else {
        parts[0] + seq![sep] + join_spec(parts.skip(1), sep)
    }
}

/// Whether a text is free of a character.
pub open spec fn free_of(text: Seq<char>, c: char) -> bool {
    forall|i: int| 0 <= i < text.len() ==> text[i] != c
}

/// Splitting undoes joining: parts that are free of the separator, joined
/// with it and split at it, are the parts again.
pub proof fn lemma_split_join(parts: Seq<Seq<char>>, sep: char)
    requires
        parts.len() > 0,
        forall|i: int| 0 <= i < parts.len() ==> free_of(#[trigger] parts[i], sep),
    ensures
        split_spec(join_spec(parts, sep), sep) == parts,
    decreases parts.len(),
{
    let first = parts[0];
    let text = join_spec(parts, sep);
    assert(free_of(first, sep));
    if parts.len() == 1 {
        lemma_until(text, sep, text.len() as int);
        assert(seq![text] == parts);
    } else {
        let rest = parts.skip(1);
        assert forall|i: int| 0 <= i < rest.len() implies free_of(#[trigger] rest[i], sep) by {
            assert(rest[i] == parts[i + 1]);
        }
        lemma_split_join(rest, sep);
        assert(text == first + seq![sep] + join_spec(rest, sep));
        assert forall|i: int| 0 <= i < first.len() implies text[i] != sep by {
            assert(text[i] == first[i]);
        }
        assert(text[first.len() as int] == sep);
        lemma_until(text, sep, first.len() as int);
        assert(text.take(first.len() as int) == first);
        assert(text.skip(first.len() as int + 1) == join_spec(rest, sep));
        assert(seq![first] + rest == parts);
    }
}

/// Joining undoes splitting.
pub proof fn lemma_join_split(text: Seq<char>, sep: char)
    ensures
        join_spec(split_spec(text, sep), sep) == text,
        split_spec(text, sep).len() > 0,
        forall|i: int|
            0 <= i < split_spec(text, sep).len() ==> free_of(#[trigger] split_spec(text, sep)[i], sep),
    decreases text.len(),
{
    let n = until(text, sep) as int;
    lemma_until_bounds(text, sep);
    if n < text.len() {
        let rest = text.skip(n + 1);
        lemma_join_split(rest, sep);
        let parts = split_spec(text, sep);
        assert(parts == seq![text.take(n)] + split_spec(rest, sep));
        assert(parts.skip(1) == split_spec(rest, sep));
        assert(parts[0] == text.take(n));
        assert(text.take(n) + seq![sep] + rest == text);
        assert forall|i: int| 0 <= i < parts.len() implies free_of(#[trigger] parts[i], sep) by {
            if i > 0 {
                assert(parts[i] == split_spec(rest, sep)[i - 1]);
            }
        }
    }
}

/// No `stop` stands before the position that `until` gives, and one stands
/// at it unless the text ends there.
pub proof fn lemma_until_bounds(text: Seq<char>, stop: char)
    ensures
        until(text, stop) <= text.len(),
        forall|i: int| 0 <= i < until(text, stop) ==> text[i] != stop,
        until(text, stop) < text.len() ==> text[until(text, stop) as int] == stop,
    decreases text.len(),
{
    if text.len() > 0 && text[0] != stop {
        let rest = text.skip(1);
        lemma_until_bounds(rest, stop);
        assert forall|i: int| 0 <= i < until(text, stop) implies text[i] != stop by {
            if i > 0 {
                assert(rest[i - 1] == text[i]);
            }
        }
        if until(text, stop) < text.len() {
            assert(rest[until(rest, stop) as int] == text[until(text, stop) as int]);
        }
    }
}

/// The index of the last `mark` in a text, `-1` if it has none.
pub open spec fn last_index(text: Seq<char>, mark: char) -> int
    decreases text.len(),
{
    if text.len() == 0 {
        -1
    } else if text.last() == mark {
        text.len() - 1
    } else {
        last_index(text.drop_last(), mark)
    }
}

/// `last_index` is the one position at which a `mark` stands and after
/// which none does, or `-1` where none stands anywhere.
pub proof fn lemma_last_index(text: Seq<char>, mark: char, at: int)
    requires
        -1 <= at < text.len(),
        at >= 0 ==> text[at] == mark,
        forall|i: int| at < i < text.len() ==> text[i] != mark,
    ensures
        last_index(text, mark) == at,
    decreases text.len(),
{
    if text.len() > 0 && at < text.len() - 1 {
        assert(text.last() != mark);
        let front = text.drop_last();
        assert forall|i: int| at < i < front.len() implies front[i] != mark by {
            assert(front[i] == text[i]);
        }
        if at >= 0 {
            assert(front[at] == text[at]);
        }
        lemma_last_index(front, mark, at);
    }
}

/// One more than the index of the last `mark` among the characters from
/// `from` on, counted from `from`: where the part after that `mark` begins.
/// Zero where there is no `mark`.
pub fn after_last(text: &Vec<char>, from: usize, mark: char) -> (start: usize)
    requires
        from <= text.len(),
    ensures
        start == last_index(text@.skip(from as int), mark) + 1,
        from + start <= text.len(),
{
    let mut start: usize = text.len();
    while start > from && text[start - 1] != mark
        invariant
            from <= start <= text.len(),
            forall|i: int| start <= i < text.len() ==> text@[i] != mark,
        decreases start,
    {
        start -= 1;
    }
    proof {
        let part = text@.skip(from as int);
        assert forall|i: int| start - from - 1 < i < part.len() implies part[i] != mark by {
            assert(part[i] == text@[from + i]);
        }
        if start > from {
            assert(part[start - from - 1] == text@[start - 1]);
        }
        lemma_last_index(part, mark, start - from - 1);
    }
    start - from
}

/// The position of the first `stop` at or after `from`; the length of the
/// text if there is none.
pub fn find_from(text: &Vec<char>, from: usize, stop: char) -> (at: usize)
    requires
        from <= text.len(),
    ensures
        from <= at <= text.len(),
        at - from == until(text@.skip(from as int), stop),
        forall|i: int| from <= i < at ==> text@[i] != stop,
        at < text.len() ==> text@[at as int] == stop,
{
    let mut at: usize = from;
    while at < text.len() && text[at] != stop
        invariant
            from <= at <= text.len(),
            forall|i: int| from <= i < at ==> text@[i] != stop,
        decreases text.len() - at,
    {
        at += 1;
    }
    proof {
        let rest = text@.skip(from as int);
        assert forall|i: int| 0 <= i < at - from implies rest[i] != stop by {
            assert(rest[i] == text@[from + i]);
        }
        lemma_until(rest, stop, at - from);
    }
    at
}

/// A copy of the characters from `from` up to `to`.
pub fn copy_range(text: &Vec<char>, from: usize, to: usize) -> (part: Vec<char>)
    requires
        from <= to <= text.len(),
    ensures
        part@ == text@.subrange(from as int, to as int),
{
    let mut part: Vec<char> = Vec::new();
    let mut i: usize = from;
    while i < to
        invariant
            from <= i <= to <= text.len(),
            part@ == text@.subrange(from as int, i as int),
        decreases to - i,
    {
        part.push(text[i]);
        i += 1;
    }
    part
}

/// The number of characters before the first line feed; the length of the
/// text if it has none.
pub open spec fn first_line_len(text: Seq<char>) -> nat
    decreases text.len(),
{
    if text.len() == 0 || text[0] == '\n' {
        0
    } else {
        1 + first_line_len(text.skip(1))
    }
}

/// A line without the carriage return that ended it, if one did.
pub open spec fn without_return(line: Seq<char>) -> Seq<char> {
    if line.len() > 0 && line.last() == '\r' {
        line.drop_last()
    } else {
        line
    }
}

/// The lines of a text. A line ends at a line feed, or at a carriage return
/// followed by one; the ending is no part of the line. What follows the last
/// line feed is a line only if it is not empty, and then it is taken whole.
pub open spec fn lines_of(text: Seq<char>) -> Seq<Seq<char>>
    decreases text.len(),
{
    if text.len() == 0 {
        Seq::empty()
    } else {
        let n = first_line_len(text) as int;
        if n >= text.len() {
            seq![text]
        } else {
            seq![without_return(text.take(n))] + lines_of(text.skip(n + 1))
        }
    }
}

proof fn lemma_first_line_len(text: Seq<char>, n: int)
    requires
        0 <= n <= text.len(),
        forall|i: int| 0 <= i < n ==> text[i] != '\n',
        n == text.len() || text[n] == '\n',
    ensures
        first_line_len(text) == n,
    decreases n,
{
    if n > 0 {
        let rest = text.skip(1);
        assert forall|i: int| 0 <= i < n - 1 implies rest[i] != '\n' by {
            assert(rest[i] == text[i + 1]);
        }
        lemma_first_line_len(rest, n - 1);
    }
}

/// The lines of a text.
pub fn split_lines(text: &Vec<char>) -> (lines: Vec<String>)
    ensures
        crate::value::strings_view(lines@) == lines_of(text@),
{
    let mut lines: Vec<String> = Vec::new();
    let mut start: usize = 0;
    proof {
        assert(text@.skip(0) == text@);
        assert(crate::value::strings_view(lines@) == Seq::<Seq<char>>::empty());
        assert(Seq::<Seq<char>>::empty() + lines_of(text@) == lines_of(text@));
    }
    while start < text.len()
        invariant
            start <= text.len(),
            crate::value::strings_view(lines@) + lines_of(text@.skip(start as int)) == lines_of(
                text@,
            ),
        decreases text.len() - start,
    {
        let ghost rest = text@.skip(start as int);
        let ghost done = crate::value::strings_view(lines@);
        let mut end: usize = start;
        while end < text.len() && text[end] != '\n'
            invariant
                start <= end <= text.len(),
                forall|i: int| start <= i < end ==> text@[i] != '\n',
            decreases text.len() - end,
        {
            end += 1;
        }
        proof {
            assert forall|i: int| 0 <= i < end - start implies rest[i] != '\n' by {
                assert(rest[i] == text@[start + i]);
            }
            lemma_first_line_len(rest, end - start);
        }
        let mut stop: usize = end;
        if end < text.len() && end > start && text[end - 1] == '\r' {
            stop = end - 1;
        }
        let mut line: Vec<char> = Vec::new();
        let mut i: usize = start;
        while i < stop
            invariant
                start <= i <= stop <= text.len(),
                line@ == text@.subrange(start as int, i as int),
            decreases stop - i,
        {
            line.push(text[i]);
            i += 1;
        }
        let made = string_from_chars(&line);
        proof {
            assert(crate::value::strings_view(lines@.push(made)) == done.push(made@));
            if end < text.len() {
                assert(rest.take(end - start) == text@.subrange(start as int, end as int));
                assert(without_return(rest.take(end - start)) == made@);
                assert(rest.skip(end - start + 1) == text@.skip(end + 1));
                assert(done.push(made@) + lines_of(text@.skip(end + 1)) == done + (seq![made@]
                    + lines_of(text@.skip(end + 1))));
            } else {
                assert(made@ == rest);
                assert(text@.skip(text@.len() as int).len() == 0);
                assert(done.push(made@) + Seq::<Seq<char>>::empty() == done + seq![rest]);
            }
        }
        lines.push(made);
        start = if end < text.len() {
            end + 1
        } else {
            end
        };
    }
    proof {
        assert(lines_of(text@.skip(start as int)) == Seq::<Seq<char>>::empty());
        assert(crate::value::strings_view(lines@) + Seq::<Seq<char>>::empty()
            == crate::value::strings_view(lines@));
    }
    lines
}

/// The concatenation of the sequences of `parts`, in order.
pub open spec fn flatten(parts: Seq<Seq<char>>) -> Seq<char>
    decreases parts.len(),
{
    if parts.len() == 0 {
        Seq::empty()
    } else {
        flatten(parts.drop_last()) + parts.last()
    }
}

} // verus!
