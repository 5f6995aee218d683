//! The primitives: the built-in words of the language and their arities.

use vstd::prelude::*;
use crate::io::IoOp;
use crate::text::same_text;

verus! {

/// A built-in word.
#[derive(Clone, Copy, Debug, PartialEq, Eq, Structural)]
pub enum Primitive {
    /// Copies the top value.
    Dup,
    /// Copies the second value to the top.
    Over,
    /// Swaps the two top values.
    Flip,
    /// Drops the top value.
    Pop,
    /// The number of rows of an array.
    Len,
    /// The shape of an array.
    Shape,
    /// The rows of an array in reverse order.
    Reverse,
    /// Two arrays joined along their first axis.
    Join,
    /// Negation.
    Neg,
    /// Addition.
    Add,
    /// Subtraction.
    Sub,
    /// Multiplication.
    Mul,
    /// Division.
    Div,
    /// Folds the rows of an array with a function.
    Reduce,
    /// Applies a function to each element.
    Each,
    /// Applies two functions to the same value.
    Fork,
    /// An effect operation.
    Io(IoOp),
}

impl Primitive {
    /// How many values the primitive takes from the stack.
    pub open spec fn args_spec(self) -> nat {
        match self {
            Primitive::Dup | Primitive::Pop => 1,
            Primitive::Over | Primitive::Flip => 2,
            Primitive::Len | Primitive::Shape | Primitive::Reverse | Primitive::Neg => 1,
            Primitive::Join => 2,
            Primitive::Add | Primitive::Sub | Primitive::Mul | Primitive::Div => 2,
            Primitive::Reduce | Primitive::Each => 1,
            Primitive::Fork => 1,
            Primitive::Io(op) => op.args_spec(),
        }
    }

    /// How many values the primitive leaves on the stack; `None` where the
    /// number is not fixed.
    pub open spec fn outputs_spec(self) -> Option<nat> {
        match self {
            Primitive::Dup | Primitive::Flip => Some(2),
            Primitive::Over => Some(3),
            Primitive::Pop => Some(0),
            Primitive::Fork => Some(2),
            Primitive::Io(op) => op.outputs_spec(),
            _ => Some(1),
        }
    }

    /// How many functions the primitive takes as operands: zero for an
    /// ordinary primitive, more for a modifier.
    pub open spec fn modifier_args_spec(self) -> nat {
        match self {
            Primitive::Reduce | Primitive::Each => 1,
            Primitive::Fork => 2,
            _ => 0,
        }
    }

    /// How many values the primitive takes from the stack.
    pub fn args(&self) -> (n: u8)
        ensures
            n == self.args_spec(),
    {
        match self {
            Primitive::Dup | Primitive::Pop => 1,
            Primitive::Over | Primitive::Flip => 2,
            Primitive::Len | Primitive::Shape | Primitive::Reverse | Primitive::Neg => 1,
            Primitive::Join => 2,
            Primitive::Add | Primitive::Sub | Primitive::Mul | Primitive::Div => 2,
            Primitive::Reduce | Primitive::Each => 1,
            Primitive::Fork => 1,
            Primitive::Io(op) => op.args(),
        }
    }

    /// How many values the primitive leaves on the stack; `None` where the
    /// number is not fixed.
    pub fn outputs(&self) -> (n: Option<u8>)
        ensures
            match n {
                Some(k) => self.outputs_spec() == Some(k as nat),
                None => self.outputs_spec() is None,
            },
    {
        match self {
            Primitive::Dup | Primitive::Flip => Some(2),
            Primitive::Over => Some(3),
            Primitive::Pop => Some(0),
            Primitive::Fork => Some(2),
            Primitive::Io(op) => op.outputs(),
            _ => Some(1),
        }
    }

    /// How many functions the primitive takes as operands.
    pub fn modifier_args(&self) -> (n: u8)
        ensures
            n == self.modifier_args_spec(),
    {
        match self {
            Primitive::Reduce | Primitive::Each => 1,
            Primitive::Fork => 2,
            _ => 0,
        }
    }

    /// The name of the primitive in source text.
    pub open spec fn name_spec(self) -> Seq<char> {
        match self {
            Primitive::Dup => "dup"@,
            Primitive::Over => "over"@,
            Primitive::Flip => "flip"@,
            Primitive::Pop => "pop"@,
            Primitive::Len => "len"@,
            Primitive::Shape => "shape"@,
            Primitive::Reverse => "reverse"@,
            Primitive::Join => "join"@,
            Primitive::Neg => "neg"@,
            Primitive::Add => "add"@,
            Primitive::Sub => "sub"@,
            Primitive::Mul => "mul"@,
            Primitive::Div => "div"@,
            Primitive::Reduce => "reduce"@,
            Primitive::Each => "each"@,
            Primitive::Fork => "fork"@,
            Primitive::Io(op) => op.name_spec(),
        }
    }

    /// The name of the primitive in source text.
    pub fn name(&self) -> (s: &'static str)
        ensures
            s@ == self.name_spec(),
    {
        match self {
            Primitive::Dup => "dup",
            Primitive::Over => "over",
            Primitive::Flip => "flip",
            Primitive::Pop => "pop",
            Primitive::Len => "len",
            Primitive::Shape => "shape",
            Primitive::Reverse => "reverse",
            Primitive::Join => "join",
            Primitive::Neg => "neg",
            Primitive::Add => "add",
            Primitive::Sub => "sub",
            Primitive::Mul => "mul",
            Primitive::Div => "div",
            Primitive::Reduce => "reduce",
            Primitive::Each => "each",
            Primitive::Fork => "fork",
            Primitive::Io(op) => op.name(),
        }
    }
}

impl Primitive {
    /// The primitive that a word names, by its name or by its glyph.
    pub open spec fn from_name_spec(name: Seq<char>) -> Option<Primitive> {
        if name == "dup"@ || name == "."@ {
            Some(Primitive::Dup)
        } else if name == "over"@ || name == ","@ {
            Some(Primitive::Over)
        } else if name == "flip"@ || name == ":"@ {
            Some(Primitive::Flip)
        } else if name == "pop"@ || name == ";"@ {
            Some(Primitive::Pop)
        } else if name == "len"@ || name == "\u{29fb}"@ {
            Some(Primitive::Len)
        } else if name == "shape"@ || name == "\u{25b3}"@ {
            Some(Primitive::Shape)
        } else if name == "reverse"@ || name == "\u{21cc}"@ {
            Some(Primitive::Reverse)
        } else if name == "join"@ || name == "\u{2282}"@ {
            Some(Primitive::Join)
        } else if name == "neg"@ || name == "\u{af}"@ {
            Some(Primitive::Neg)
        } else if name == "add"@ || name == "+"@ {
            Some(Primitive::Add)
        } else if name == "sub"@ || name == "-"@ {
            Some(Primitive::Sub)
        } else if name == "mul"@ || name == "\u{d7}"@ || name == "*"@ {
            Some(Primitive::Mul)
        } else if name == "div"@ || name == "\u{f7}"@ {
            Some(Primitive::Div)
        } else if name == "reduce"@ || name == "/"@ {
            Some(Primitive::Reduce)
        } else if name == "each"@ || name == "\u{2235}"@ {
            Some(Primitive::Each)
        } else if name == "fork"@ || name == "\u{2283}"@ {
            Some(Primitive::Fork)
        } else {
            match IoOp::from_name_spec(name) {
                Some(op) => Some(Primitive::Io(op)),
                None => None,
            }
        }
    }

    /// The primitive that a word names, by its name or by its glyph.
    pub fn from_name(name: &str) -> (prim: Option<Primitive>)
        ensures
            prim == Primitive::from_name_spec(name@),
    {
        if same_text(name, "dup") || same_text(name, ".") {
            Some(Primitive::Dup)
        } else if same_text(name, "over") || same_text(name, ",") {
            Some(Primitive::Over)
        } else if same_text(name, "flip") || same_text(name, ":") {
            Some(Primitive::Flip)
        } else if same_text(name, "pop") || same_text(name, ";") {
            Some(Primitive::Pop)
        } else if same_text(name, "len") || same_text(name, "\u{29fb}") {
            Some(Primitive::Len)
        } else if same_text(name, "shape") || same_text(name, "\u{25b3}") {
            Some(Primitive::Shape)
        } else if same_text(name, "reverse") || same_text(name, "\u{21cc}") {
            Some(Primitive::Reverse)
        } else if same_text(name, "join") || same_text(name, "\u{2282}") {
            Some(Primitive::Join)
        } else if same_text(name, "neg") || same_text(name, "\u{af}") {
            Some(Primitive::Neg)
        } else if same_text(name, "add") || same_text(name, "+") {
            Some(Primitive::Add)
        } else if same_text(name, "sub") || same_text(name, "-") {
            Some(Primitive::Sub)
        } else if same_text(name, "mul") || same_text(name, "\u{d7}") || same_text(name, "*") {
            Some(Primitive::Mul)
        } else if same_text(name, "div") || same_text(name, "\u{f7}") {
            Some(Primitive::Div)
        } else if same_text(name, "reduce") || same_text(name, "/") {
            Some(Primitive::Reduce)
        } else if same_text(name, "each") || same_text(name, "\u{2235}") {
            Some(Primitive::Each)
        } else if same_text(name, "fork") || same_text(name, "\u{2283}") {
            Some(Primitive::Fork)
        } else {
            match IoOp::from_name(name) {
                Some(op) => Some(Primitive::Io(op)),
                None => None,
            }
        }
    }
}

} // verus!
