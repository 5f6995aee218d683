//! What it means to run a program.
//!
//! The meaning is a relation between the state before and the state after:
//! what the host answers and what the kernel computes is not decided here,
//! so one program may have many runs. Every part of a run costs steps, and a
//! relation holds only of runs that end within the steps they are given.

use vstd::prelude::*;
use crate::compile::{Assembly, Instr};
use crate::error::{Expected, RuntimeError};
use crate::function::{FunctionId, Signature};
use crate::machine::{primitive_done, primitive_error, rows_error, stackable, stacked};
use crate::ops::row_spec;
use crate::primitive::Primitive;
use crate::value::{ArrayView, ValueView};

verus! {

/// What a machine holds between two instructions, but for its call stack.
pub struct State {
    /// The operand stack, bottom first.
    pub stack: Seq<ValueView>,
    /// What is bound to each name, at the place of the name in the assembly.
    pub globals: Seq<Option<ValueView>>,
    /// The heights at which the arrays that are being made began.
    pub marks: Seq<usize>,
}

impl State {
    /// The state with one value more on the stack.
    pub open spec fn pushed(self, value: ValueView) -> State {
        State { stack: self.stack.push(value), ..self }
    }

    /// The state without the top of the stack.
    pub open spec fn popped(self) -> State {
        State { stack: self.stack.drop_last(), ..self }
    }
}

/// The bindings after a value is bound at place `i`: the table grows as far
/// as the place, with nothing bound in between.
pub open spec fn bound(globals: Seq<Option<ValueView>>, i: int, value: ValueView) -> Seq<
    Option<ValueView>,
> {
    Seq::new(
        if i < globals.len() {
            globals.len()
        } else {
            (i + 1) as nat
        },
        |j: int|
            if j == i {
                Some(value)
            } else if j < globals.len() {
                globals[j]
            } else {
                None
            },
    )
}

/// Whether `f` is the place of the first function of the table with the
/// identity.
pub open spec fn is_place(assembly: Assembly, id: FunctionId, f: int) -> bool {
    &&& 0 <= f < assembly.functions@.len()
    &&& assembly.functions@[f].id == id
    &&& forall|j: int| 0 <= j < f ==> (#[trigger] assembly.functions@[j]).id != id
}

/// Whether a function with the declared signature may return when the stack
/// has gone from height `before` to height `after`.
pub open spec fn admitted(signature: Option<Signature>, before: nat, after: nat) -> bool {
    match signature {
        Some(sig) => after - before == sig.delta(),
        None => true,
    }
}

/// The element of the given index, as a scalar.
pub open spec fn element(array: ArrayView, index: int) -> ValueView {
    ValueView::Array(ArrayView { shape: seq![], data: array.data.subrange(index, index + 1) })
}

/// Whether a point in the middle of a run, at which the state is `m` and
/// `f` steps are left, lies within the `fuel` steps that the run has in
/// hand.
pub open spec fn midway(m: State, f: nat, fuel: nat) -> bool {
    f <= fuel
}

/// Whether a round of a walk over elements, which begins at the state `m`
/// with `kept` in hand and `f` steps left, lies within the `fuel` steps of
/// the walk and ends, at the state `after`, with something on the stack to
/// take.
pub open spec fn round(m: State, kept: Seq<ValueView>, f: nat, after: State, fuel: nat) -> bool {
    f <= fuel && after.stack.len() > 0
}

/// The place of the first of the first `n` functions of the table that has
/// the identity.
pub open spec fn place_among(assembly: Assembly, id: FunctionId, n: nat) -> Option<int>
    decreases n,
{
    if n == 0 || n > assembly.functions@.len() {
        None
    } else {
        match place_among(assembly, id, (n - 1) as nat) {
            Some(f) => Some(f),
            None => if assembly.functions@[n - 1].id == id {
                Some(n - 1)
            } else {
                None
            },
        }
    }
}

/// The place of the first function of the table that has the identity.
pub open spec fn place(assembly: Assembly, id: FunctionId) -> Option<int> {
    place_among(assembly, id, assembly.functions@.len())
}

/// A place that is found among the first functions is the one found among
/// more.
pub proof fn lemma_place_stays(assembly: Assembly, id: FunctionId, n: nat, m: nat)
    requires
        n <= m <= assembly.functions@.len(),
        place_among(assembly, id, n) is Some,
    ensures
        place_among(assembly, id, m) == place_among(assembly, id, n),
    decreases m - n,
{
    if n < m {
        lemma_place_stays(assembly, id, n, (m - 1) as nat);
    }
}

/// The place that is found among the first functions is the first with the
/// identity, and none is found where none has it.
pub proof fn lemma_place_among(assembly: Assembly, id: FunctionId, n: nat)
    requires
        n <= assembly.functions@.len(),
    ensures
        match place_among(assembly, id, n) {
            Some(f) => is_place(assembly, id, f) && f < n,
            None => forall|j: int| 0 <= j < n ==> (#[trigger] assembly.functions@[j]).id != id,
        },
    decreases n,
{
    if n > 0 {
        lemma_place_among(assembly, id, (n - 1) as nat);
    }
}

/// A call of the function at place `f`: it costs one step, the body runs to
/// its end, and the declared signature admits what it did to the height of
/// the stack.
pub open spec fn calls(assembly: Assembly, f: int, s: State, fuel: nat, t: State, rest: nat) -> bool
    decreases fuel, 0int, 0nat,
{
    if fuel == 0 || f < 0 || f >= assembly.functions@.len() {
        false
    } else {
        &&& finished(assembly, assembly.functions@[f].code@, s, (fuel - 1) as nat, t, rest)
        &&& admitted(assembly.functions@[f].signature, s.stack.len(), t.stack.len())
    }
}

/// A call of an operand of a modifier; an operand that is left out does
/// nothing.
pub open spec fn operand(
    assembly: Assembly,
    at: Option<usize>,
    s: State,
    fuel: nat,
    t: State,
    rest: nat,
) -> bool
    decreases fuel, 1int, 0nat,
{
    match at {
        Some(f) => calls(assembly, f as int, s, fuel, t, rest),
        None => t == s && rest == fuel,
    }
}

/// The first `i` rounds of a reduction of the array `a`: the first row is
/// pushed, and each further row is pushed and the function called.
pub open spec fn reduced(
    assembly: Assembly,
    first: Option<usize>,
    a: ArrayView,
    i: nat,
    s: State,
    fuel: nat,
    t: State,
    rest: nat,
) -> bool
    decreases fuel, 2int, i,
{
    if i == 0 {
        t == s && rest == fuel
    } else {
        exists|m: State, f: nat| #[trigger]
            midway(m, f, fuel) && reduced(assembly, first, a, (i - 1) as nat, s, fuel, m, f)
                && if i == 1 {
                t == m.pushed(ValueView::Array(row_spec(a, 0))) && rest == f
            } else {
                operand(assembly, first, m.pushed(ValueView::Array(row_spec(a, i - 1))), f, t, rest)
            }
    }
}

/// The first `i` rounds of a walk over the elements of the array `a`: each
/// element is pushed, the function called, and what it leaves on top taken
/// off and kept in `results`.
pub open spec fn eached(
    assembly: Assembly,
    first: Option<usize>,
    a: ArrayView,
    i: nat,
    s: State,
    fuel: nat,
    t: State,
    results: Seq<ValueView>,
    rest: nat,
) -> bool
    decreases fuel, 2int, i,
{
    if i == 0 {
        t == s && results == Seq::<ValueView>::empty() && rest == fuel
    } else {
        exists|m: State, kept: Seq<ValueView>, f: nat, after: State|
            {
                &&& #[trigger] round(m, kept, f, after, fuel)
                &&& eached(assembly, first, a, (i - 1) as nat, s, fuel, m, kept, f)
                &&& operand(assembly, first, m.pushed(element(a, i - 1)), f, after, rest)
                &&& t == after.popped()
                &&& results == kept.push(after.stack.last())
            }
    }
}

/// The array that `each` makes of an array and of what the calls left: the
/// results as rows, under the shape of the array.
pub open spec fn gathered(a: ArrayView, results: Seq<ValueView>) -> ValueView {
    ValueView::Array(
        ArrayView {
            shape: a.shape + stacked(results).shape.skip(1),
            data: stacked(results).data,
        },
    )
}

/// A modifier applied to its operands.
///
/// `reduce` takes an array and puts its first row on the stack, then each
/// further row followed by a call of the function; an array without rows,
/// or a scalar, is left as it is. `each` takes an array, calls the function
/// on each element, and makes an array of what the calls leave on top.
/// `fork` calls the first function on the stack as it is, then the second
/// with the value that was on top put back.
pub open spec fn modified(
    assembly: Assembly,
    prim: Primitive,
    first: Option<usize>,
    second: Option<usize>,
    s: State,
    fuel: nat,
    t: State,
    rest: nat,
) -> bool
    decreases fuel, 3int, 0nat,
{
    if s.stack.len() == 0 {
        false
    } else {
        let top = s.stack.last();
        match prim {
            Primitive::Reduce => top is Array && {
                let a = top->Array_0;
                if a.rank() == 0 || a.shape[0] == 0 {
                    t == s && rest == fuel
                } else {
                    reduced(assembly, first, a, a.shape[0] as nat, s.popped(), fuel, t, rest)
                }
            },
            Primitive::Each => top is Array && exists|m: State, results: Seq<ValueView>|
                eached(
                    assembly,
                    first,
                    top->Array_0,
                    top->Array_0.data.len(),
                    s.popped(),
                    fuel,
                    m,
                    results,
                    rest,
                ) && stackable(results) && #[trigger] m.pushed(gathered(top->Array_0, results))
                    == t,
            Primitive::Fork => exists|m: State, f: nat| #[trigger]
                midway(m, f, fuel) && operand(assembly, first, s, fuel, m, f) && operand(
                    assembly,
                    second,
                    m.pushed(top),
                    f,
                    t,
                    rest,
                ),
            _ => false,
        }
    }
}

/// One instruction, run from the state `s` with `fuel` steps in hand, may
/// leave the state `t` and `rest` steps.
pub open spec fn does(assembly: Assembly, instr: Instr, s: State, fuel: nat, t: State, rest: nat) -> bool
    decreases fuel, 4int, 0nat,
{
    match instr {
        Instr::PushConstant(i) => i < assembly.constants@.len() && t == s.pushed(
            assembly.constants@[i as int]@,
        ) && rest == fuel,
        Instr::PushFunction(f) => f < assembly.functions@.len() && t == s.pushed(
            ValueView::Func(assembly.functions@[f as int].id),
        ) && rest == fuel,
        Instr::CallPrimitive(Primitive::Io(op)) | Instr::CallIoOp(op) => op.ran(
            s.stack,
            t.stack,
            Ok(()),
        ) && t == (State { stack: t.stack, ..s }) && rest == fuel,
        Instr::CallPrimitive(prim) => primitive_done(prim, s.stack, t.stack) && t == (State {
            stack: t.stack,
            ..s
        }) && rest == fuel,
        Instr::CallFunction(f) => calls(assembly, f as int, s, fuel, t, rest),
        Instr::ApplyModifier(prim, first, second) => modified(
            assembly,
            prim,
            first,
            second,
            s,
            fuel,
            t,
            rest,
        ),
        Instr::BindGlobal(i) => s.stack.len() > 0 && t == (State {
            stack: s.stack.drop_last(),
            globals: bound(s.globals, i as int, s.stack.last()),
            ..s
        }) && rest == fuel,
        Instr::LoadGlobal(i) => i < assembly.globals@.len() && i < s.globals.len() && match s.globals[i as int] {
            None => false,
            Some(ValueView::Func(id)) => match place(assembly, id) {
                Some(f) => calls(assembly, f, s, fuel, t, rest),
                None => false,
            },
            Some(value) => t == s.pushed(value) && rest == fuel,
        },
        Instr::BeginArray => t == (State { marks: s.marks.push(s.stack.len() as usize), ..s })
            && rest == fuel,
        Instr::EndArray => s.marks.len() > 0 && s.marks.last() <= s.stack.len() && stackable(
            s.stack.skip(s.marks.last() as int),
        ) && t == (State {
            stack: s.stack.take(s.marks.last() as int).push(
                ValueView::Array(stacked(s.stack.skip(s.marks.last() as int))),
            ),
            marks: s.marks.drop_last(),
            ..s
        }) && rest == fuel,
        Instr::EndOfAssembly => false,
    }
}

/// The first `n` instructions of a code, none of which stops the program,
/// run one after the other, each for one step and what it costs itself.
pub open spec fn ran_code(
    assembly: Assembly,
    code: Seq<Instr>,
    n: nat,
    s: State,
    fuel: nat,
    t: State,
    rest: nat,
) -> bool
    decreases fuel, 5int, n,
{
    if n == 0 {
        t == s && rest == fuel
    } else if n > code.len() {
        false
    } else {
        exists|m: State, f: nat| #[trigger]
            midway(m, f, fuel) && 0 < f && ran_code(assembly, code, (n - 1) as nat, s, fuel, m, f)
                && does(assembly, code[n - 1], m, (f - 1) as nat, t, rest)
    }
}

/// Whether a code stops before its instruction of index `n`, having gone
/// past `spent` steps there: at its end, or at an instruction that stops
/// the program, which costs a step.
pub open spec fn stops(code: Seq<Instr>, n: nat, spent: nat) -> bool {
    ||| n == code.len() && spent == 0
    ||| n < code.len() && code[n as int] is EndOfAssembly && spent == 1
}

/// A code run until it stops.
pub open spec fn finished(
    assembly: Assembly,
    code: Seq<Instr>,
    s: State,
    fuel: nat,
    t: State,
    rest: nat,
) -> bool
    decreases fuel, 6int, 0nat,
{
    exists|n: nat, spent: nat| #[trigger]
        stops(code, n, spent) && ran_code(assembly, code, n, s, fuel, t, rest + spent)
}

/// Whether a run can fail at the step of index `i` of `count`, where the
/// state is `m` and `f` steps are left: the step is one of the run, and the
/// point lies within the `fuel` steps in hand.
pub open spec fn failing(i: nat, count: nat, m: State, f: nat, fuel: nat) -> bool {
    i < count && f <= fuel
}

/// Whether a walk over `count` elements can fail in or after the round of
/// index `i`, which begins at the state `m` with `kept` in hand and `f`
/// steps left and may go on to the state `after` with `rest` steps left:
/// the round is one of the walk or the gathering behind it, and the point
/// lies within the `fuel` steps in hand.
pub open spec fn failing_each(
    i: nat,
    count: nat,
    m: State,
    kept: Seq<ValueView>,
    f: nat,
    after: State,
    rest: nat,
    fuel: nat,
) -> bool {
    i <= count && f <= fuel
}

/// A call of the function at place `f` fails. A place that is not in the
/// table is a `BadAssembly`; a call without a step in hand is a `StepLimit`;
/// else the body fails, or it runs to its end and the declared signature
/// does not admit what it did to the height of the stack, which is a
/// `SignatureMismatch` of the signature and the two heights.
pub open spec fn call_fails(assembly: Assembly, f: int, s: State, fuel: nat, e: RuntimeError) -> bool
    decreases fuel, 0int, 0nat,
{
    if f < 0 || f >= assembly.functions@.len() {
        e == RuntimeError::BadAssembly
    } else if fuel == 0 {
        e == RuntimeError::StepLimit
    } else {
        let function = assembly.functions@[f];
        ||| stopped(assembly, function.code@, s, (fuel - 1) as nat, e)
        ||| exists|t: State, rest: nat| #[trigger]
            midway(t, rest, fuel) && finished(assembly, function.code@, s, (fuel - 1) as nat, t, rest)
                && function.signature is Some && !admitted(
                function.signature,
                s.stack.len(),
                t.stack.len(),
            ) && e == RuntimeError::SignatureMismatch(
                function.signature->0,
                s.stack.len() as usize,
                t.stack.len() as usize,
            )
    }
}

/// A call of an operand of a modifier fails; an operand that is left out
/// never does.
pub open spec fn operand_fails(
    assembly: Assembly,
    at: Option<usize>,
    s: State,
    fuel: nat,
    e: RuntimeError,
) -> bool
    decreases fuel, 1int, 0nat,
{
    match at {
        Some(f) => call_fails(assembly, f as int, s, fuel, e),
        None => false,
    }
}

/// The error of a modifier that finds no array on top of the stack: an
/// empty stack is a `StackUnderflow` of the first argument, a function a
/// `TypeMismatch`.
pub open spec fn no_array(stack: Seq<ValueView>) -> Option<RuntimeError> {
    if stack.len() == 0 {
        Some(RuntimeError::StackUnderflow(1))
    } else if stack.last() is Func {
        Some(RuntimeError::TypeMismatch(Expected::Array))
    } else {
        None
    }
}

/// A reduction fails: there is no array to reduce, or after some rounds
/// the call of the function on a further row fails.
pub open spec fn reduce_fails(
    assembly: Assembly,
    first: Option<usize>,
    s: State,
    fuel: nat,
    e: RuntimeError,
) -> bool
    decreases fuel, 3int, 0nat,
{
    if no_array(s.stack) is Some {
        no_array(s.stack) == Some(e)
    } else {
        let a = s.stack.last()->Array_0;
        a.rank() > 0 && exists|i: nat, m: State, f: nat| #[trigger]
            failing(i, a.shape[0] as nat, m, f, fuel) && 1 <= i && reduced(
                assembly,
                first,
                a,
                i,
                s.popped(),
                fuel,
                m,
                f,
            ) && operand_fails(
                assembly,
                first,
                m.pushed(ValueView::Array(row_spec(a, i as int))),
                f,
                e,
            )
    }
}

/// A walk over the elements of an array fails: there is no array; or
/// after some rounds the call of the function on a further element fails,
/// or leaves nothing on the stack to take, which is a `StackUnderflow`; or
/// what the calls left are not the rows of one array.
pub open spec fn each_fails(
    assembly: Assembly,
    first: Option<usize>,
    s: State,
    fuel: nat,
    e: RuntimeError,
) -> bool
    decreases fuel, 3int, 0nat,
{
    if no_array(s.stack) is Some {
        no_array(s.stack) == Some(e)
    } else {
        let a = s.stack.last()->Array_0;
        exists|i: nat, m: State, kept: Seq<ValueView>, f: nat, after: State, rest: nat| #[trigger]
            failing_each(i, a.data.len(), m, kept, f, after, rest, fuel) && eached(
                assembly,
                first,
                a,
                i,
                s.popped(),
                fuel,
                m,
                kept,
                f,
            ) && if i < a.data.len() {
                ||| operand_fails(assembly, first, m.pushed(element(a, i as int)), f, e)
                ||| operand(assembly, first, m.pushed(element(a, i as int)), f, after, rest)
                    && after.stack.len() == 0 && e == RuntimeError::StackUnderflow(1)
            } else {
                rows_error(kept) == Some(e)
            }
    }
}

/// A modifier fails on its operands. `fork` fails where the stack is empty,
/// where the first function fails, or where the second does after the first;
/// what is no modifier is a `BadAssembly`.
pub open spec fn modifier_fails(
    assembly: Assembly,
    prim: Primitive,
    first: Option<usize>,
    second: Option<usize>,
    s: State,
    fuel: nat,
    e: RuntimeError,
) -> bool
    decreases fuel, 4int, 0nat,
{
    match prim {
        Primitive::Reduce => reduce_fails(assembly, first, s, fuel, e),
        Primitive::Each => each_fails(assembly, first, s, fuel, e),
        Primitive::Fork => if s.stack.len() == 0 {
            e == RuntimeError::StackUnderflow(1)
        } else {
            ||| operand_fails(assembly, first, s, fuel, e)
            ||| exists|m: State, f: nat| #[trigger]
                midway(m, f, fuel) && operand(assembly, first, s, fuel, m, f)
                    && operand_fails(assembly, second, m.pushed(s.stack.last()), f, e)
        },
        _ => e == RuntimeError::BadAssembly,
    }
}

/// Looking up the name at a place fails: a place that is not in the table
/// is a `BadAssembly`; a name that nothing is bound to is `Unbound`, with
/// the name; a function that is bound but not in the table is a
/// `BadAssembly`; else the call of the function fails.
pub open spec fn load_fails(assembly: Assembly, i: usize, s: State, fuel: nat, e: RuntimeError) -> bool
    decreases fuel, 4int, 0nat,
{
    if i >= assembly.globals@.len() {
        e == RuntimeError::BadAssembly
    } else if i >= s.globals.len() || s.globals[i as int] is None {
        e matches RuntimeError::Unbound(name) && name@ == assembly.globals@[i as int]@
    } else {
        match s.globals[i as int] {
            Some(ValueView::Func(id)) => match place(assembly, id) {
                Some(f) => call_fails(assembly, f, s, fuel, e),
                None => e == RuntimeError::BadAssembly,
            },
            _ => false,
        }
    }
}

/// One instruction, run from the state `s` with `fuel` steps in hand,
/// fails with the error `e`.
pub open spec fn fails(assembly: Assembly, instr: Instr, s: State, fuel: nat, e: RuntimeError) -> bool
    decreases fuel, 5int, 0nat,
{
    match instr {
        Instr::PushConstant(i) => i >= assembly.constants@.len() && e == RuntimeError::BadAssembly,
        Instr::PushFunction(f) => f >= assembly.functions@.len() && e == RuntimeError::BadAssembly,
        Instr::CallPrimitive(Primitive::Io(op)) | Instr::CallIoOp(op) => op.fails_with(s.stack, e),
        Instr::CallPrimitive(prim) => primitive_error(prim, s.stack) == Some(e),
        Instr::CallFunction(f) => call_fails(assembly, f as int, s, fuel, e),
        Instr::ApplyModifier(prim, first, second) => modifier_fails(
            assembly,
            prim,
            first,
            second,
            s,
            fuel,
            e,
        ),
        Instr::BindGlobal(_) => s.stack.len() == 0 && e == RuntimeError::StackUnderflow(1),
        Instr::LoadGlobal(i) => load_fails(assembly, i, s, fuel, e),
        Instr::BeginArray => false,
        Instr::EndArray => if s.marks.len() == 0 {
            e == RuntimeError::BadAssembly
        } else if s.marks.last() > s.stack.len() {
            e == RuntimeError::StackUnderflow(1)
        } else {
            rows_error(s.stack.skip(s.marks.last() as int)) == Some(e)
        },
        Instr::EndOfAssembly => e == RuntimeError::BadAssembly,
    }
}

/// A code fails with the error `e`: some of its instructions run, and then
/// no step is left for the next, which is a `StepLimit`, or the next
/// fails.
pub open spec fn stopped(
    assembly: Assembly,
    code: Seq<Instr>,
    s: State,
    fuel: nat,
    e: RuntimeError,
) -> bool
    decreases fuel, 7int, 0nat,
{
    exists|n: nat, m: State, f: nat| #[trigger]
        failing(n, code.len(), m, f, fuel) && ran_code(assembly, code, n, s, fuel, m, f)
            && if f == 0 {
            e == RuntimeError::StepLimit
        } else {
            !(code[n as int] is EndOfAssembly) && fails(
                assembly,
                code[n as int],
                m,
                (f - 1) as nat,
                e,
            )
        }
}

/// One round more of a reduction.
pub proof fn lemma_reduced_next(
    assembly: Assembly,
    first: Option<usize>,
    a: ArrayView,
    i: nat,
    s: State,
    fuel: nat,
    m: State,
    f: nat,
    t: State,
    rest: nat,
)
    requires
        f <= fuel,
        reduced(assembly, first, a, i, s, fuel, m, f),
        if i == 0 {
            t == m.pushed(ValueView::Array(row_spec(a, 0))) && rest == f
        } else {
            operand(assembly, first, m.pushed(ValueView::Array(row_spec(a, i as int))), f, t, rest)
        },
    ensures
        reduced(assembly, first, a, i + 1, s, fuel, t, rest),
{
    let n = i + 1;
    assert((n - 1) as nat == i);
    assert(midway(m, f, fuel));
}

/// One round more of a walk over the elements.
pub proof fn lemma_eached_next(
    assembly: Assembly,
    first: Option<usize>,
    a: ArrayView,
    i: nat,
    s: State,
    fuel: nat,
    m: State,
    kept: Seq<ValueView>,
    f: nat,
    after: State,
    rest: nat,
)
    requires
        f <= fuel,
        eached(assembly, first, a, i, s, fuel, m, kept, f),
        operand(assembly, first, m.pushed(element(a, i as int)), f, after, rest),
        after.stack.len() > 0,
    ensures
        eached(
            assembly,
            first,
            a,
            i + 1,
            s,
            fuel,
            after.popped(),
            kept.push(after.stack.last()),
            rest,
        ),
{
    let n = i + 1;
    assert((n - 1) as nat == i);
    assert(round(m, kept, f, after, fuel));
}

/// One instruction more of a code.
pub proof fn lemma_ran_code_next(
    assembly: Assembly,
    code: Seq<Instr>,
    n: nat,
    s: State,
    fuel: nat,
    m: State,
    f: nat,
    t: State,
    rest: nat,
)
    requires
        n < code.len(),
        0 < f <= fuel,
        ran_code(assembly, code, n, s, fuel, m, f),
        does(assembly, code[n as int], m, (f - 1) as nat, t, rest),
    ensures
        ran_code(assembly, code, n + 1, s, fuel, t, rest),
{
    let next = n + 1;
    assert((next - 1) as nat == n);
    assert(midway(m, f, fuel));
}

/// A code that has run as far as a place where it stops is finished.
pub proof fn lemma_finished(
    assembly: Assembly,
    code: Seq<Instr>,
    n: nat,
    spent: nat,
    s: State,
    fuel: nat,
    t: State,
    rest: nat,
)
    requires
        stops(code, n, spent),
        ran_code(assembly, code, n, s, fuel, t, rest + spent),
    ensures
        finished(assembly, code, s, fuel, t, rest),
{
}

/// A call of a function that declares a signature changes the height of the
/// stack by the outputs less the arguments that it declares.
pub proof fn lemma_call_keeps_signature(
    assembly: Assembly,
    f: int,
    s: State,
    fuel: nat,
    t: State,
    rest: nat,
)
    requires
        calls(assembly, f, s, fuel, t, rest),
    ensures
        0 <= f < assembly.functions@.len(),
        assembly.functions@[f].signature matches Some(sig) ==> t.stack.len() - s.stack.len()
            == sig.outputs - sig.args,
        rest < fuel,
{
    let code = assembly.functions@[f].code@;
    let (n, spent) = choose|n: nat, spent: nat| #[trigger]
        stops(code, n, spent) && ran_code(assembly, code, n, s, (fuel - 1) as nat, t, rest + spent);
    lemma_ran_code_spends(assembly, code, n, s, (fuel - 1) as nat, t, rest + spent);
}

/// An instruction that calls a function with a declared signature, in a
/// run that goes on, has changed the height of the stack by the outputs
/// less the arguments that the function declares.
pub proof fn lemma_instruction_keeps_signature(
    assembly: Assembly,
    f: usize,
    s: State,
    fuel: nat,
    t: State,
    rest: nat,
)
    requires
        does(assembly, Instr::CallFunction(f), s, fuel, t, rest),
    ensures
        f < assembly.functions@.len(),
        assembly.functions@[f as int].signature matches Some(sig) ==> t.stack.len()
            - s.stack.len() == sig.outputs - sig.args,
{
    lemma_call_keeps_signature(assembly, f as int, s, fuel, t, rest);
}

/// Running instructions gives no steps back.
pub proof fn lemma_ran_code_spends(
    assembly: Assembly,
    code: Seq<Instr>,
    n: nat,
    s: State,
    fuel: nat,
    t: State,
    rest: nat,
)
    requires
        ran_code(assembly, code, n, s, fuel, t, rest),
    ensures
        rest <= fuel,
    decreases fuel, 5int, n,
{
    if n > 0 {
        let (m, f) = choose|m: State, f: nat| #[trigger]
            midway(m, f, fuel) && 0 < f && ran_code(
                assembly,
                code,
                (n - 1) as nat,
                s,
                fuel,
                m,
                f,
            ) && does(assembly, code[n - 1], m, (f - 1) as nat, t, rest);
        lemma_does_spends(assembly, code[n - 1], m, (f - 1) as nat, t, rest);
    }
}

/// An instruction gives no steps back.
pub proof fn lemma_does_spends(
    assembly: Assembly,
    instr: Instr,
    s: State,
    fuel: nat,
    t: State,
    rest: nat,
)
    requires
        does(assembly, instr, s, fuel, t, rest),
    ensures
        rest <= fuel,
    decreases fuel, 4int, 0nat,
{
    match instr {
        Instr::CallFunction(f) => {
            lemma_calls_spends(assembly, f as int, s, fuel, t, rest);
        },
        Instr::ApplyModifier(prim, first, second) => {
            lemma_modified_spends(assembly, prim, first, second, s, fuel, t, rest);
        },
        Instr::LoadGlobal(i) => {
            if let Some(ValueView::Func(id)) = s.globals[i as int] {
                let f = place(assembly, id)->0;
                lemma_calls_spends(assembly, f, s, fuel, t, rest);
            }
        },
        _ => {},
    }
}

/// A call gives no steps back.
pub proof fn lemma_calls_spends(assembly: Assembly, f: int, s: State, fuel: nat, t: State, rest: nat)
    requires
        calls(assembly, f, s, fuel, t, rest),
    ensures
        rest < fuel,
    decreases fuel, 0int, 0nat,
{
    let code = assembly.functions@[f].code@;
    let (n, spent) = choose|n: nat, spent: nat| #[trigger]
        stops(code, n, spent) && ran_code(assembly, code, n, s, (fuel - 1) as nat, t, rest + spent);
    lemma_ran_code_spends(assembly, code, n, s, (fuel - 1) as nat, t, rest + spent);
}

/// A call of an operand gives no steps back.
pub proof fn lemma_operand_spends(
    assembly: Assembly,
    at: Option<usize>,
    s: State,
    fuel: nat,
    t: State,
    rest: nat,
)
    requires
        operand(assembly, at, s, fuel, t, rest),
    ensures
        rest <= fuel,
    decreases fuel, 1int, 0nat,
{
    if let Some(f) = at {
        lemma_calls_spends(assembly, f as int, s, fuel, t, rest);
    }
}

/// A modifier gives no steps back.
pub proof fn lemma_modified_spends(
    assembly: Assembly,
    prim: Primitive,
    first: Option<usize>,
    second: Option<usize>,
    s: State,
    fuel: nat,
    t: State,
    rest: nat,
)
    requires
        modified(assembly, prim, first, second, s, fuel, t, rest),
    ensures
        rest <= fuel,
    decreases fuel, 3int, 0nat,
{
    let top = s.stack.last();
    match prim {
        Primitive::Reduce => {
            let a = top->Array_0;
            if !(a.rank() == 0 || a.shape[0] == 0) {
                lemma_reduced_spends(assembly, first, a, a.shape[0] as nat, s.popped(), fuel, t, rest);
            }
        },
        Primitive::Each => {
            let a = top->Array_0;
            let (m, results) = choose|m: State, results: Seq<ValueView>|
                eached(assembly, first, a, a.data.len(), s.popped(), fuel, m, results, rest)
                    && stackable(results) && #[trigger] m.pushed(gathered(a, results)) == t;
            lemma_eached_spends(assembly, first, a, a.data.len(), s.popped(), fuel, m, results, rest);
        },
        Primitive::Fork => {
            let (m, f) = choose|m: State, f: nat| #[trigger]
                midway(m, f, fuel) && operand(assembly, first, s, fuel, m, f) && operand(
                    assembly,
                    second,
                    m.pushed(top),
                    f,
                    t,
                    rest,
                );
            lemma_operand_spends(assembly, second, m.pushed(top), f, t, rest);
        },
        _ => {},
    }
}

/// The rounds of a reduction give no steps back.
pub proof fn lemma_reduced_spends(
    assembly: Assembly,
    first: Option<usize>,
    a: ArrayView,
    i: nat,
    s: State,
    fuel: nat,
    t: State,
    rest: nat,
)
    requires
        reduced(assembly, first, a, i, s, fuel, t, rest),
    ensures
        rest <= fuel,
    decreases fuel, 2int, i,
{
    if i > 0 {
        let (m, f) = choose|m: State, f: nat| #[trigger]
            midway(m, f, fuel) && reduced(assembly, first, a, (i - 1) as nat, s, fuel, m, f)
                && if i == 1 {
                t == m.pushed(ValueView::Array(row_spec(a, 0))) && rest == f
            } else {
                operand(assembly, first, m.pushed(ValueView::Array(row_spec(a, i - 1))), f, t, rest)
            };
        if i > 1 {
            lemma_operand_spends(
                assembly,
                first,
                m.pushed(ValueView::Array(row_spec(a, i - 1))),
                f,
                t,
                rest,
            );
        }
    }
}

/// The rounds of a walk over elements give no steps back.
pub proof fn lemma_eached_spends(
    assembly: Assembly,
    first: Option<usize>,
    a: ArrayView,
    i: nat,
    s: State,
    fuel: nat,
    t: State,
    results: Seq<ValueView>,
    rest: nat,
)
    requires
        eached(assembly, first, a, i, s, fuel, t, results, rest),
    ensures
        rest <= fuel,
    decreases fuel, 2int, i,
{
    if i > 0 {
        let (m, kept, f, after) = choose|m: State, kept: Seq<ValueView>, f: nat, after: State|
            {
                &&& #[trigger] round(m, kept, f, after, fuel)
                &&& eached(assembly, first, a, (i - 1) as nat, s, fuel, m, kept, f)
                &&& operand(assembly, first, m.pushed(element(a, i - 1)), f, after, rest)
                &&& t == after.popped()
                &&& results == kept.push(after.stack.last())
            };
        lemma_operand_spends(assembly, first, m.pushed(element(a, i - 1)), f, after, rest);
    }
}

} // verus!
