//! The formatter: a text that is a program is written out again in its
//! canonical form, its tokens parted by single spaces. A text that is no
//! program has no canonical form, and the fault that keeps it from being one
//! is what formatting fails with.

use vstd::prelude::*;
use vstd::string::*;
use crate::kernel::Kernel;
use crate::machine::UiuaError;
use crate::parse::{lemma_parse_rewritten, parse, parsed};
use crate::token::{lemma_rewritten_keeps_tokens, lex, lexemes, rewritten, write_lines, LexError};

verus! {

/// A kernel that reads every number as zero: enough to see whether a text
/// is a program.
struct Blind;

impl Kernel for Blind {
    fn read(&mut self, literal: &str) -> u64 {
        0
    }

    fn text(&mut self, a: u64) -> String {
        String::new()
    }

    fn neg(&mut self, a: u64) -> u64 {
        a
    }

    fn add(&mut self, a: u64, b: u64) -> u64 {
        a
    }

    fn sub(&mut self, a: u64, b: u64) -> u64 {
        a
    }

    fn mul(&mut self, a: u64, b: u64) -> u64 {
        a
    }

    fn div(&mut self, a: u64, b: u64) -> u64 {
        a
    }
}

/// The canonical form of a text: the tokens of a text that is a program,
/// written out again and parted by single spaces; `None` for a text that is
/// no program.
pub open spec fn formatted(text: Seq<char>) -> Option<Seq<char>> {
    match parsed(text) {
        Some(Ok(_)) => rewritten(text),
        _ => None,
    }
}

/// The canonical form of a text. A text that cannot be read as tokens fails
/// with `Format` and the place of the string that is not closed; one whose
/// tokens are no program fails with `Parse` and the fault.
pub fn format_str(text: &str) -> (canonical: Result<String, UiuaError>)
    ensures
        match canonical {
            Ok(f) => formatted(text@) == Some(f@),
            Err(UiuaError::Format(LexError::UnterminatedString(at))) => parsed(text@) is None
                && at.pos < text@.len() && text@[at.pos as int] == '"',
            Err(UiuaError::Parse(e)) => parsed(text@) matches Some(Err((fault, _, _))) && e.fault
                == fault,
            Err(_) => false,
        },
{
    let lines = match lex(text, 0) {
        Ok(lines) => lines,
        Err(e) => {
            return Err(UiuaError::Format(e));
        },
    };
    let mut blind = Blind;
    match parse(&lines, &mut blind) {
        Ok(_) => Ok(write_lines(&lines)),
        Err(e) => Err(UiuaError::Parse(e)),
    }
}

/// Formatting changes no token: the canonical form of a text has the tokens
/// of the text, line by line.
pub proof fn lemma_format_keeps_tokens(text: Seq<char>)
    requires
        formatted(text) is Some,
    ensures
        lexemes(formatted(text)->0) == lexemes(text),
{
    lemma_rewritten_keeps_tokens(text);
}

/// Formatting changes nothing of what a text is read as: the canonical form
/// of a program has the items of the program.
pub proof fn lemma_parse_format(text: Seq<char>)
    requires
        formatted(text) is Some,
    ensures
        parsed(formatted(text)->0) == parsed(text),
{
    lemma_parse_rewritten(text);
}

/// Formatting twice is formatting once: the canonical form of a text is its
/// own canonical form.
pub proof fn lemma_format_idempotent(text: Seq<char>)
    requires
        formatted(text) is Some,
    ensures
        formatted(formatted(text)->0) == formatted(text),
{
    lemma_parse_rewritten(text);
    lemma_rewritten_keeps_tokens(text);
}

} // verus!
