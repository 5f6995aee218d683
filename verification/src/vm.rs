//! The state of a running program: the operand stack and the call stack.

use vstd::prelude::*;
use crate::error::RuntimeError;
use crate::function::Signature;
use crate::lex::CodeSpan;
use crate::value::{Value, ValueView};

verus! {

/// An activation of a function.
#[derive(Clone, Copy, Debug, PartialEq, Eq, Structural)]
pub struct Frame {
    /// The index of the instruction to go on with after the call.
    pub ret: usize,
    /// The signature the function declares, if it declares one.
    pub signature: Option<Signature>,
    /// Where the call stands in the source, if known.
    pub span: Option<CodeSpan>,
    /// The height of the operand stack when the call began.
    pub base: usize,
}

/// The values of a vector as mathematical values.
pub open spec fn values_view(values: Seq<Value>) -> Seq<ValueView> {
    Seq::new(values.len(), |i: int| values[i]@)
}

/// The operand stack and the call stack of a running program.
#[derive(Debug, PartialEq, Eq)]
pub struct Env {
    pub stack: Vec<Value>,
    pub frames: Vec<Frame>,
}

impl Env {
    /// The operand stack, bottom first.
    pub open spec fn values(&self) -> Seq<ValueView> {
        values_view(self.stack@)
    }

    /// An environment with empty stacks.
    pub fn new() -> (env: Env)
        ensures
            env.values() == Seq::<ValueView>::empty(),
            env.frames@ == Seq::<Frame>::empty(),
    {
        Env { stack: Vec::new(), frames: Vec::new() }
    }

    /// Puts a value on top of the operand stack.
    pub fn push(&mut self, value: Value)
        ensures
            final(self).values() == old(self).values().push(value@),
            final(self).frames == old(self).frames,
    {
        self.stack.push(value);
        assert(self.values() == old(self).values().push(value@));
    }

    /// Takes the top value off the operand stack. `arg` says which argument
    /// of the running operation is being fetched, counted from one; an empty
    /// stack is reported as `StackUnderflow(arg)` and left as it is.
    pub fn pop(&mut self, arg: usize) -> (popped: Result<Value, RuntimeError>)
        ensures
            final(self).frames == old(self).frames,
            match popped {
                Ok(v) => old(self).values().len() > 0 && v@ == old(self).values().last()
                    && final(self).values() == old(self).values().drop_last(),
                Err(e) => old(self).values().len() == 0 && e == RuntimeError::StackUnderflow(arg)
                    && final(self).values() == old(self).values(),
            },
    {
        match self.stack.pop() {
            Some(v) => {
                assert(self.values() == old(self).values().drop_last());
                Ok(v)
            },
            None => Err(RuntimeError::StackUnderflow(arg)),
        }
    }

    /// The number of values on the operand stack.
    pub fn height(&self) -> (n: usize)
        ensures
            n == self.values().len(),
    {
        self.stack.len()
    }

    /// Begins a call: records where to return to, what the function declares
    /// and the present stack height.
    pub fn enter(&mut self, ret: usize, signature: Option<Signature>, span: Option<CodeSpan>)
        ensures
            final(self).stack == old(self).stack,
            final(self).frames@ == old(self).frames@.push(
                Frame { ret, signature, span, base: old(self).stack@.len() as usize },
            ),
    {
        let base = self.stack.len();
        self.frames.push(Frame { ret, signature, span, base });
    }

    /// Whether a frame may be left with the operand stack at height `after`:
    /// it declares no signature, or the height changed by exactly
    /// `outputs - args`.
    pub open spec fn may_exit(frame: Frame, after: nat) -> bool {
        match frame.signature {
            Some(sig) => after as int - frame.base as int == sig.delta(),
            None => true,
        }
    }

    /// Ends the innermost call and returns the index of the instruction to
    /// go on with. When the function declared a signature `(i, o)`, the height
    /// of the operand stack must have changed by `o - i` since the call began;
    /// if not, the result is `SignatureMismatch`. Either way the frame is
    /// gone and the operand stack is untouched.
    pub fn exit(&mut self) -> (left: Result<usize, RuntimeError>)
        requires
            old(self).frames@.len() > 0,
        ensures
            final(self).stack == old(self).stack,
            final(self).frames@ == old(self).frames@.drop_last(),
            match left {
                Ok(ret) => Env::may_exit(old(self).frames@.last(), old(self).stack@.len())
                    && ret == old(self).frames@.last().ret,
                Err(e) => !Env::may_exit(old(self).frames@.last(), old(self).stack@.len())
                    && e == RuntimeError::SignatureMismatch(
                    old(self).frames@.last().signature->0,
                    old(self).frames@.last().base,
                    old(self).stack@.len() as usize,
                ),
            },
    {
        let frame = self.frames.pop().unwrap();
        let after = self.stack.len();
        match frame.signature {
            Some(sig) => {
                if sig.admits(frame.base, after) {
                    Ok(frame.ret)
                } else {
                    Err(RuntimeError::SignatureMismatch(sig, frame.base, after))
                }
            },
            None => Ok(frame.ret),
        }
    }

    /// Hands out the operand stack, bottom first, and leaves it empty.
    pub fn take_stack(&mut self) -> (values: Vec<Value>)
        ensures
            values_view(values@) == old(self).values(),
            final(self).values() == Seq::<ValueView>::empty(),
            final(self).frames == old(self).frames,
    {
        let mut out: Vec<Value> = Vec::new();
        core::mem::swap(&mut out, &mut self.stack);
        out
    }
}

} // verus!
