//! What can go wrong while a program runs.

use vstd::prelude::*;
use vstd::string::*;
use crate::function::Signature;
use crate::text::{decimal, push_decimal, push_str, string_from_chars};
use crate::value::ArrayError;

verus! {

/// What an operation wanted where it found a value of another kind.
#[derive(Clone, Copy, Debug, PartialEq, Eq, Structural)]
pub enum Expected {
    /// The name of an environment variable, as a string.
    VarName,
    /// A file path, as a string.
    Path,
    /// The path of a file to import, as a string.
    ImportPath,
    /// File contents, as a string.
    StringContents,
    /// File contents, as an array.
    ArrayContents,
    /// File contents, as an array of numbers or bytes.
    NumericContents,
    /// An image, as a rank-3 array of numbers or bytes.
    Image,
    /// An array, where a function was found.
    Array,
    /// A primitive that runs by itself, where a modifier was found.
    PurePrimitive,
}

/// An error raised while a program runs.
#[derive(Debug, PartialEq, Eq)]
pub enum RuntimeError {
    /// A value was needed and the stack was empty; holds which argument of
    /// the operation was being fetched, counted from one.
    StackUnderflow(usize),
    /// A value of the wrong kind.
    TypeMismatch(Expected),
    /// A shape that does not fit.
    ShapeMismatch,
    /// Too few dimensions.
    RankTooLow,
    /// An index outside an array.
    IndexOutOfRange,
    /// A function returned with a stack height other than its signature
    /// declares; holds the signature and the heights at entry and at exit.
    SignatureMismatch(Signature, usize, usize),
    /// The last dimension of an image array was neither 1, 3 nor 4.
    InvalidImageChannels(usize),
    /// The dimensions of an image do not fit its buffer.
    ImageCreation,
    /// The host failed or refused; holds its message.
    Io(String),
    /// An imported file failed; holds the path and the report of its error.
    Import(String, String),
    /// The host gave an answer of a kind the operation does not get.
    UnexpectedResponse,
    /// An instruction names a place that is not in its table.
    BadAssembly,
    /// A name was looked up before anything was bound to it.
    Unbound(String),
    /// The program took more steps than it was given.
    StepLimit,
}

impl RuntimeError {
    /// The error for an array operation that was refused.
    pub fn from_array(e: ArrayError) -> (err: RuntimeError)
        ensures
            err == RuntimeError::of_array(e),
    {
        match e {
            ArrayError::ShapeMismatch => RuntimeError::ShapeMismatch,
            ArrayError::TypeMismatch => RuntimeError::TypeMismatch(Expected::NumericContents),
            ArrayError::RankTooLow => RuntimeError::RankTooLow,
            ArrayError::IndexOutOfRange => RuntimeError::IndexOutOfRange,
        }
    }

    /// The runtime error that stands for an array error.
    pub open spec fn of_array(e: ArrayError) -> RuntimeError {
        match e {
            ArrayError::ShapeMismatch => RuntimeError::ShapeMismatch,
            ArrayError::TypeMismatch => RuntimeError::TypeMismatch(Expected::NumericContents),
            ArrayError::RankTooLow => RuntimeError::RankTooLow,
            ArrayError::IndexOutOfRange => RuntimeError::IndexOutOfRange,
        }
    }

    /// The text of the error.
    pub open spec fn message_spec(self) -> Seq<char> {
        match self {
            RuntimeError::StackUnderflow(arg) => "Stack was empty when evaluating argument "@
                + decimal(arg as nat),
            RuntimeError::TypeMismatch(Expected::VarName) => "Argument to var must be a string"@,
            RuntimeError::TypeMismatch(Expected::Path) => "Path must be a string"@,
            RuntimeError::TypeMismatch(Expected::ImportPath) => "Path to import must be a string"@,
            RuntimeError::TypeMismatch(Expected::StringContents) => "Contents must be a string"@,
            RuntimeError::TypeMismatch(Expected::ArrayContents) => "Contents must be an array"@,
            RuntimeError::TypeMismatch(Expected::NumericContents) =>
                "Contents must be a numeric array"@,
            RuntimeError::TypeMismatch(Expected::Image) =>
                "Image must be a rank 3 numeric array"@,
            RuntimeError::TypeMismatch(Expected::Array) => "Expected an array but found a function"@,
            RuntimeError::TypeMismatch(Expected::PurePrimitive) =>
                "A modifier must be applied to its functions"@,
            RuntimeError::ShapeMismatch => "Shapes do not match"@,
            RuntimeError::RankTooLow => "Rank is too low"@,
            RuntimeError::IndexOutOfRange => "Index out of range"@,
            RuntimeError::SignatureMismatch(sig, before, after) => "Function signature is |"@
                + decimal(sig.args as nat) + "."@ + decimal(sig.outputs as nat)
                + " but the stack height went from "@ + decimal(before as nat) + " to "@
                + decimal(after as nat),
            RuntimeError::InvalidImageChannels(n) =>
                "The last dimension of an image array must be 1, 3, or 4, but it is "@ + decimal(
                    n as nat,
                ),
            RuntimeError::ImageCreation => "Failed to create image"@,
            RuntimeError::Io(message) => message@,
            RuntimeError::Import(path, report) => "Failed to import "@ + path@ + ": "@ + report@,
            RuntimeError::UnexpectedResponse => "The host gave an unexpected answer"@,
            RuntimeError::BadAssembly => "The assembly is damaged"@,
            RuntimeError::Unbound(name) => "Unknown identifier `"@ + name@ + "`"@,
            RuntimeError::StepLimit => "The program ran out of steps"@,
        }
    }

    /// The text of the error.
    pub fn message(&self) -> (text: String)
        ensures
            text@ == self.message_spec(),
    {
        let mut out: Vec<char> = Vec::new();
        match self {
            RuntimeError::StackUnderflow(arg) => {
                push_str(&mut out, "Stack was empty when evaluating argument ");
                push_decimal(&mut out, *arg as u128);
            },
            RuntimeError::TypeMismatch(expected) => {
                match expected {
                    Expected::VarName => push_str(&mut out, "Argument to var must be a string"),
                    Expected::Path => push_str(&mut out, "Path must be a string"),
                    Expected::ImportPath => push_str(&mut out, "Path to import must be a string"),
                    Expected::StringContents => push_str(&mut out, "Contents must be a string"),
                    Expected::ArrayContents => push_str(&mut out, "Contents must be an array"),
                    Expected::NumericContents => push_str(
                        &mut out,
                        "Contents must be a numeric array",
                    ),
                    Expected::Image => push_str(&mut out, "Image must be a rank 3 numeric array"),
                    Expected::Array => push_str(&mut out, "Expected an array but found a function"),
                    Expected::PurePrimitive => push_str(
                        &mut out,
                        "A modifier must be applied to its functions",
                    ),
                }
            },
            RuntimeError::ShapeMismatch => push_str(&mut out, "Shapes do not match"),
            RuntimeError::RankTooLow => push_str(&mut out, "Rank is too low"),
            RuntimeError::IndexOutOfRange => push_str(&mut out, "Index out of range"),
            RuntimeError::SignatureMismatch(sig, before, after) => {
                push_str(&mut out, "Function signature is |");
                push_decimal(&mut out, sig.args as u128);
                push_str(&mut out, ".");
                push_decimal(&mut out, sig.outputs as u128);
                push_str(&mut out, " but the stack height went from ");
                push_decimal(&mut out, *before as u128);
                push_str(&mut out, " to ");
                push_decimal(&mut out, *after as u128);
            },
            RuntimeError::InvalidImageChannels(n) => {
                push_str(
                    &mut out,
                    "The last dimension of an image array must be 1, 3, or 4, but it is ",
                );
                push_decimal(&mut out, *n as u128);
            },
            RuntimeError::ImageCreation => push_str(&mut out, "Failed to create image"),
            RuntimeError::Io(message) => push_str(&mut out, message.as_str()),
            RuntimeError::Import(path, report) => {
                push_str(&mut out, "Failed to import ");
                push_str(&mut out, path.as_str());
                push_str(&mut out, ": ");
                push_str(&mut out, report.as_str());
            },
            RuntimeError::UnexpectedResponse => push_str(
                &mut out,
                "The host gave an unexpected answer",
            ),
            RuntimeError::BadAssembly => push_str(&mut out, "The assembly is damaged"),
            RuntimeError::Unbound(name) => {
                push_str(&mut out, "Unknown identifier `");
                push_str(&mut out, name.as_str());
                push_str(&mut out, "`");
            },
            RuntimeError::StepLimit => push_str(&mut out, "The program ran out of steps"),
        }
        assert(out@ == self.message_spec());
        string_from_chars(&out)
    }
}

} // verus!
