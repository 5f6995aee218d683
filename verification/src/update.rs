//! The update check: reading a version out of the registry's answer,
//! comparing it with this one, and wording the notice.

use vstd::prelude::*;
use vstd::string::*;
use crate::text::{
    chars_of,
    copy_range,
    find_from,
    push_str,
    split_spec,
    string_from_chars,
    until,
};

verus! {

/// What stands between the first double quote of a text and the next one,
/// or the end where there is no next one; `None` for a text without a
/// double quote.
pub open spec fn quoted_spec(text: Seq<char>) -> Option<Seq<char>> {
    let open = until(text, '"') as int;
    if open >= text.len() {
        None
    } else {
        let rest = text.skip(open + 1);
        Some(rest.take(until(rest, '"') as int))
    }
}

/// What stands between the first double quote of a text and the next one.
pub fn quoted(text: &str) -> (inner: Option<String>)
    ensures
        match inner {
            Some(s) => quoted_spec(text@) == Some(s@),
            None => quoted_spec(text@) is None,
        },
{
    let chars = chars_of(text);
    proof {
        assert(chars@.skip(0) == chars@);
    }
    let open = find_from(&chars, 0, '"');
    if open >= chars.len() {
        return None;
    }
    let close = find_from(&chars, open + 1, '"');
    let inner = copy_range(&chars, open + 1, close);
    proof {
        let rest = chars@.skip(open + 1);
        assert(rest.take(close - (open + 1)) == chars@.subrange(open + 1, close as int));
    }
    Some(string_from_chars(&inner))
}

/// The digit that a character is, if it is one of `0` to `9`.
pub open spec fn digit_value(c: char) -> Option<nat> {
    if '0' <= c <= '9' {
        Some((c as u32 - '0' as u32) as nat)
    } else {
        None
    }
}

/// The number that a string of decimal digits writes; `None` where a
/// character is no digit. The empty string writes zero.
pub open spec fn digits_value(digits: Seq<char>) -> Option<nat>
    decreases digits.len(),
{
    if digits.len() == 0 {
        Some(0)
    } else {
        match (digits_value(digits.drop_last()), digit_value(digits.last())) {
            (Some(front), Some(last)) => Some(front * 10 + last),
            _ => None,
        }
    }
}

/// The number below 65536 that a text writes: decimal digits, at least one,
/// with or without a `+` before them. Anything else writes none.
pub open spec fn number_spec(text: Seq<char>) -> Option<u16> {
    let digits = if text.len() > 0 && text[0] == '+' {
        text.skip(1)
    } else {
        text
    };
    if digits.len() == 0 {
        None
    } else {
        match digits_value(digits) {
            Some(n) => if n <= 65535 {
                Some(n as u16)
            } else {
                None
            },
            None => None,
        }
    }
}

fn digit_of(c: char) -> (d: Option<u32>)
    ensures
        match d {
            Some(n) => digit_value(c) == Some(n as nat),
            None => digit_value(c) is None,
        },
{
    if '0' <= c && c <= '9' {
        Some(c as u32 - '0' as u32)
    } else {
        None
    }
}

/// The number below 65536 that the characters from `from` up to `to` write.
pub fn parse_number(text: &Vec<char>, from: usize, to: usize) -> (number: Option<u16>)
    requires
        from <= to <= text.len(),
    ensures
        number == number_spec(text@.subrange(from as int, to as int)),
{
    let ghost piece = text@.subrange(from as int, to as int);
    let start = if from < to && text[from] == '+' {
        from + 1
    } else {
        from
    };
    let ghost digits = text@.subrange(start as int, to as int);
    proof {
        if start > from {
            assert(piece[0] == '+');
            assert(piece.skip(1) == digits);
        } else {
            assert(piece.len() > 0 ==> piece[0] == text@[from as int]);
        }
    }
    if start == to {
        return None;
    }
    // The value so far, held at 65536 once it has gone beyond 65535.
    let mut value: u32 = 0;
    let mut i: usize = start;
    while i < to
        invariant
            start <= i <= to <= text.len(),
            from <= start,
            digits == text@.subrange(start as int, to as int),
            piece == text@.subrange(from as int, to as int),
            digits == if piece.len() > 0 && piece[0] == '+' {
                piece.skip(1)
            } else {
                piece
            },
            value <= 65536,
            match digits_value(digits.take(i - start)) {
                Some(n) => value == if n > 65535 {
                    65536
                } else {
                    n
                },
                None => false,
            },
        decreases to - i,
    {
        proof {
            let longer = digits.take(i - start + 1);
            assert(longer.drop_last() == digits.take(i - start));
            assert(longer.last() == text@[i as int]);
        }
        match digit_of(text[i]) {
            Some(d) => {
                value = value * 10 + d;
                if value > 65535 {
                    value = 65536;
                }
            },
            None => {
                proof {
                    assert(digits_value(digits.take(i - start + 1)) is None);
                    lemma_digits_fail(digits, i - start + 1);
                    assert(digits_value(digits) is None);
                    assert(number_spec(piece) is None);
                }
                return None;
            },
        }
        i += 1;
    }
    proof {
        assert(digits.take(digits.len() as int) == digits);
    }
    if value > 65535 {
        None
    } else {
        Some(value as u16)
    }
}

proof fn lemma_digits_fail(digits: Seq<char>, n: int)
    requires
        0 <= n <= digits.len(),
        digits_value(digits.take(n)) is None,
    ensures
        digits_value(digits) is None,
    decreases digits.len() - n,
{
    if n == digits.len() {
        assert(digits.take(n) == digits);
    } else {
        let longer = digits.take(n + 1);
        assert(longer.drop_last() == digits.take(n));
        lemma_digits_fail(digits, n + 1);
    }
}

/// The numbers that the parts write; `None` where a part writes none.
pub open spec fn numbers_spec(parts: Seq<Seq<char>>) -> Option<Seq<u16>>
    decreases parts.len(),
{
    if parts.len() == 0 {
        Some(Seq::empty())
    } else {
        match (number_spec(parts[0]), numbers_spec(parts.skip(1))) {
            (Some(first), Some(rest)) => Some(seq![first] + rest),
            _ => None,
        }
    }
}

/// The numbers of a version: the parts between its dots, each a number below
/// 65536. A text with a part that is no such number is no version.
pub open spec fn version_spec(text: Seq<char>) -> Option<Seq<u16>> {
    numbers_spec(split_spec(text, '.'))
}

/// The numbers of a version.
pub fn parse_version(text: &str) -> (version: Option<Vec<u16>>)
    ensures
        match version {
            Some(v) => version_spec(text@) == Some(v@),
            None => version_spec(text@) is None,
        },
{
    let chars = chars_of(text);
    let mut numbers: Vec<u16> = Vec::new();
    let mut start: usize = 0;
    proof {
        assert(chars@.skip(0) == chars@);
        assert(Seq::<u16>::empty() + numbers_spec(split_spec(chars@, '.'))->0 == numbers_spec(
            split_spec(chars@, '.'),
        )->0);
    }
    loop
        invariant
            start <= chars.len(),
            chars@ == text@,
            match numbers_spec(split_spec(chars@.skip(start as int), '.')) {
                Some(rest) => version_spec(text@) == Some(numbers@ + rest),
                None => version_spec(text@) is None,
            },
        decreases chars.len() - start,
    {
        let ghost tail = chars@.skip(start as int);
        let end = find_from(&chars, start, '.');
        let number = parse_number(&chars, start, end);
        proof {
            assert(tail.take(end - start) == chars@.subrange(start as int, end as int));
            let parts = split_spec(tail, '.');
            assert(parts[0] == tail.take(end - start));
            if end < chars.len() {
                assert(tail.skip(end - start + 1) == chars@.skip(end + 1));
                assert(parts.skip(1) == split_spec(chars@.skip(end + 1), '.'));
            } else {
                assert(parts.skip(1) == Seq::<Seq<char>>::empty());
            }
        }
        match number {
            Some(n) => {
                proof {
                    let rest = numbers_spec(split_spec(tail, '.').skip(1));
                    if rest is Some {
                        assert(numbers@.push(n) + rest->0 == numbers@ + (seq![n] + rest->0));
                    }
                }
                numbers.push(n);
            },
            None => {
                return None;
            },
        }
        if end >= chars.len() {
            proof {
                assert(numbers@ + Seq::<u16>::empty() == numbers@);
            }
            return Some(numbers);
        }
        start = end + 1;
    }
}

/// Whether one list of numbers stands before another in the order of the
/// dictionary: at the first place where they differ it holds the smaller
/// number, or it ends there and the other goes on.
pub open spec fn less(a: Seq<u16>, b: Seq<u16>) -> bool
    decreases a.len(),
{
    if b.len() == 0 {
        false
    } else if a.len() == 0 {
        true
    } else if a[0] != b[0] {
        a[0] < b[0]
    } else {
        less(a.skip(1), b.skip(1))
    }
}

/// Whether the version `local` is older than the version `remote`.
pub fn older(local: &Vec<u16>, remote: &Vec<u16>) -> (is_older: bool)
    ensures
        is_older == less(local@, remote@),
{
    let mut i: usize = 0;
    proof {
        assert(local@.skip(0) == local@);
        assert(remote@.skip(0) == remote@);
    }
    loop
        invariant
            i <= local.len(),
            i <= remote.len(),
            less(local@, remote@) == less(local@.skip(i as int), remote@.skip(i as int)),
        decreases local.len() - i,
    {
        if i >= remote.len() {
            return false;
        }
        if i >= local.len() {
            return true;
        }
        if local[i] != remote[i] {
            return local[i] < remote[i];
        }
        proof {
            assert(local@.skip(i as int).skip(1) == local@.skip(i + 1));
            assert(remote@.skip(i as int).skip(1) == remote@.skip(i + 1));
        }
        i += 1;
    }
}

/// The words of the notice that a newer version can be had.
pub open spec fn notice_spec(local: Seq<char>, remote: Seq<char>, audio: bool) -> Seq<char> {
    "Update available: "@ + local + " \u{2192} "@ + remote + "\nRun `cargo install uiua "@ + (
    if audio {
        " --features audio"@
    } else {
        Seq::empty()
    }) + "` to update\nChangelog: https://github.com/uiua-lang/uiua/blob/main/changelog.md"@
}

/// The words of the notice that the version `remote` can be had in place of
/// `local`; `audio` says whether this program was built with sound.
pub fn notice(local: &str, remote: &str, audio: bool) -> (text: String)
    ensures
        text@ == notice_spec(local@, remote@, audio),
{
    let mut out: Vec<char> = Vec::new();
    push_str(&mut out, "Update available: ");
    push_str(&mut out, local);
    push_str(&mut out, " \u{2192} ");
    push_str(&mut out, remote);
    push_str(&mut out, "\nRun `cargo install uiua ");
    if audio {
        push_str(&mut out, " --features audio");
    } else {
        assert(out@ + Seq::<char>::empty() == out@);
    }
    push_str(
        &mut out,
        "` to update\nChangelog: https://github.com/uiua-lang/uiua/blob/main/changelog.md",
    );
    assert(out@ == notice_spec(local@, remote@, audio));
    string_from_chars(&out)
}

/// The notice to show for what the registry answered, if any: the answer
/// must quote a version, both versions must be well-formed, and the local one
/// must be the older.
pub open spec fn update_spec(local: Seq<char>, answer: Seq<char>, audio: bool) -> Option<
    Seq<char>,
> {
    match quoted_spec(answer) {
        None => None,
        Some(remote) => match (version_spec(local), version_spec(remote)) {
            (Some(l), Some(r)) => if less(l, r) {
                Some(notice_spec(local, remote, audio))
            } else {
                None
            },
            _ => None,
        },
    }
}

/// The notice to show when the registry's search answered `answer` and this
/// program has the version `local`.
pub fn update_message(local: &str, answer: &str, audio: bool) -> (text: Option<String>)
    ensures
        match text {
            Some(t) => update_spec(local@, answer@, audio) == Some(t@),
            None => update_spec(local@, answer@, audio) is None,
        },
{
    let remote = match quoted(answer) {
        Some(r) => r,
        None => {
            return None;
        },
    };
    let ours = match parse_version(local) {
        Some(v) => v,
        None => {
            return None;
        },
    };
    let theirs = match parse_version(remote.as_str()) {
        Some(v) => v,
        None => {
            return None;
        },
    };
    if older(&ours, &theirs) {
        Some(notice(local, remote.as_str(), audio))
    } else {
        None
    }
}

} // verus!
