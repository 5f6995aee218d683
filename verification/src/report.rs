//! The reporter: every error is told in one form, with the place it lies
//! at and the line of the text, where it has a place.

use vstd::prelude::*;
use vstd::string::*;
use crate::lex::Loc;
use crate::machine::UiuaError;
use crate::names::CompileError;
use crate::parse::Fault;
use crate::text::{chars_of, decimal, lines_of, push_decimal, push_str, split_lines, string_from_chars};
use crate::token::LexError;
use crate::value::strings_view;

verus! {

/// What a fault of a text is called.
pub open spec fn fault_text(fault: Fault) -> Seq<char> {
    match fault {
        Fault::Unexpected => "Unexpected token"@,
        Fault::Unclosed => "Unclosed bracket"@,
        Fault::MissingOperand => "Modifier without its functions"@,
        Fault::InvalidNumber => "Invalid number"@,
        Fault::Dangling => "Nothing follows the underscore"@,
    }
}

/// What an error says.
pub open spec fn message_of(error: UiuaError) -> Seq<char> {
    match error {
        UiuaError::Format(LexError::UnterminatedString(_)) => "Unclosed string"@,
        UiuaError::Parse(e) => fault_text(e.fault),
        UiuaError::Compile(CompileError::UndefinedName(name, _)) => "Unknown identifier `"@ + name@
            + "`"@,
        UiuaError::Runtime(e) => e.message_spec(),
    }
}

/// Where in the text an error lies, if it lies at a place of the text.
pub open spec fn place_of(error: UiuaError) -> Option<Loc> {
    match error {
        UiuaError::Format(LexError::UnterminatedString(at)) => Some(at),
        UiuaError::Parse(e) => Some(e.span.start),
        UiuaError::Compile(CompileError::UndefinedName(_, span)) => Some(span.start),
        UiuaError::Runtime(_) => None,
    }
}

/// As many spaces as the column is wide, and a caret.
pub open spec fn caret(col: nat) -> Seq<char> {
    Seq::new(col, |i: int| ' ').push('^')
}

/// The report of an error: what it says; then, where it has a place, the
/// file with the line and the column, both counted from one; then, where
/// the text has that line, the line and a caret under the column.
pub open spec fn block(
    message: Seq<char>,
    file: Seq<char>,
    place: Option<Loc>,
    lines: Seq<Seq<char>>,
) -> Seq<char> {
    match place {
        None => "Error: "@ + message,
        Some(at) => "Error: "@ + message + "\n  at "@ + file + ":"@ + decimal(at.line as nat + 1)
            + ":"@ + decimal(at.col as nat + 1) + if at.line < lines.len() {
            "\n"@ + lines[at.line as int] + "\n"@ + caret(at.col as nat)
        } else {
            Seq::empty()
        },
    }
}

/// What a fault of a text is called.
pub fn fault_message(fault: Fault) -> (text: &'static str)
    ensures
        text@ == fault_text(fault),
{
    match fault {
        Fault::Unexpected => "Unexpected token",
        Fault::Unclosed => "Unclosed bracket",
        Fault::MissingOperand => "Modifier without its functions",
        Fault::InvalidNumber => "Invalid number",
        Fault::Dangling => "Nothing follows the underscore",
    }
}

/// The report of an error that came of running the text `source` of the
/// file `file`.
pub fn report(error: &UiuaError, file: &str, source: &str) -> (text: String)
    ensures
        text@ == block(message_of(*error), file@, place_of(*error), lines_of(source@)),
{
    let mut out: Vec<char> = Vec::new();
    push_str(&mut out, "Error: ");
    let place = match error {
        UiuaError::Format(LexError::UnterminatedString(at)) => {
            push_str(&mut out, "Unclosed string");
            Some(*at)
        },
        UiuaError::Parse(e) => {
            push_str(&mut out, fault_message(e.fault));
            Some(e.span.start)
        },
        UiuaError::Compile(CompileError::UndefinedName(name, span)) => {
            push_str(&mut out, "Unknown identifier `");
            push_str(&mut out, name.as_str());
            push_str(&mut out, "`");
            assert(out@ == "Error: "@ + ("Unknown identifier `"@ + name@ + "`"@));
            Some(span.start)
        },
        UiuaError::Runtime(e) => {
            let message = e.message();
            push_str(&mut out, message.as_str());
            None
        },
    };
    assert(out@ == "Error: "@ + message_of(*error));
    assert(place == place_of(*error));
    if let Some(at) = place {
        push_str(&mut out, "\n  at ");
        push_str(&mut out, file);
        push_str(&mut out, ":");
        push_decimal(&mut out, at.line as u128 + 1);
        push_str(&mut out, ":");
        push_decimal(&mut out, at.col as u128 + 1);
        let lines = split_lines(&chars_of(source));
        if at.line < lines.len() {
            assert(strings_view(lines@)[at.line as int] == lines@[at.line as int]@);
            push_str(&mut out, "\n");
            push_str(&mut out, lines[at.line].as_str());
            push_str(&mut out, "\n");
            let ghost before = out@;
            let mut i: usize = 0;
            while i < at.col
                invariant
                    i <= at.col,
                    out@ == before + Seq::new(i as nat, |k: int| ' '),
                decreases at.col - i,
            {
                out.push(' ');
                i += 1;
                assert(out@ =~= before + Seq::new(i as nat, |k: int| ' '));
            }
            out.push('^');
            assert(out@ =~= before + caret(at.col as nat));
            assert(out@ =~= block(message_of(*error), file@, place, lines_of(source@)));
        } else {
            assert(out@ =~= block(message_of(*error), file@, place, lines_of(source@)));
        }
    }
    string_from_chars(&out)
}

} // verus!
