//! Function signatures and identities.

use vstd::prelude::*;

verus! {

/// The declared stack arity of a function: how many values it takes from the
/// stack and how many it leaves there.
#[derive(Clone, Copy, Debug, PartialEq, Eq, Structural)]
pub struct Signature {
    pub args: usize,
    pub outputs: usize,
}

impl Signature {
    /// The signature that takes `args` values and leaves `outputs`.
    pub fn new(args: usize, outputs: usize) -> (sig: Signature)
        ensures
            sig.args == args,
            sig.outputs == outputs,
    {
        Signature { args, outputs }
    }

    /// The change in stack height that the signature declares.
    pub open spec fn delta(self) -> int {
        self.outputs as int - self.args as int
    }

    /// Whether a stack that held `before` values at entry and holds `after`
    /// values at exit has changed by exactly the declared delta.
    pub fn admits(&self, before: usize, after: usize) -> (ok: bool)
        ensures
            ok == (after as int - before as int == self.delta()),
    {
        let lhs: u128 = after as u128 + self.args as u128;
        let rhs: u128 = before as u128 + self.outputs as u128;
        lhs == rhs
    }
}

/// The identity of a function literal: where it opens, as the line and the
/// number of the token in that line, both counted from zero. Two literals are
/// the same function exactly when they open at the same place.
#[derive(Clone, Copy, Debug, PartialEq, Eq, Structural)]
pub struct FunctionId {
    pub line: usize,
    pub index: usize,
}

} // verus!
