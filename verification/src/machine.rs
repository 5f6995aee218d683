//! The machine: it runs the instructions of an assembly against an operand
//! stack, a backend and a kernel.
//!
//! Every instruction costs one step and so does every call; a program that
//! needs more steps than it was given is stopped. A call records a frame, and
//! when the function returns the height of the stack is held against the
//! signature it declared.

use vstd::prelude::*;
use vstd::string::*;
use crate::backend::IoBackend;
use crate::ast::Item;
use crate::compile::{code_of_program, compile, Assembly, Instr};
use crate::driver::RunMode;
use crate::error::{Expected, RuntimeError};
use crate::function::FunctionId;
use crate::kernel::Kernel;
use crate::kernel_ops::{
    arithmetic,
    count_value,
    is_count,
    is_numbers_of,
    is_numeric,
    negate,
    numbers_in,
    pervade,
    pervaded_shape,
    reverse,
    reversed,
    shape_of,
    shape_value,
    Arithmetic,
};
use crate::names::{check_names, undefined, CompileError};
use crate::ops::{
    append,
    appended,
    join,
    joinable,
    joined,
    lemma_product_one,
    lemma_product_split,
    row_count,
    row_len,
    row_spec,
};
use crate::parse::{parse, parsed, Fault, ParseError};
use crate::primitive::Primitive;
use crate::semantics::{
    admitted,
    bound,
    call_fails,
    calls,
    does,
    each_fails,
    eached,
    element,
    failing,
    failing_each,
    fails,
    finished,
    gathered,
    is_place,
    lemma_eached_next,
    lemma_finished,
    lemma_ran_code_next,
    lemma_reduced_next,
    lemma_place_among,
    lemma_place_stays,
    load_fails,
    midway,
    modified,
    modifier_fails,
    no_array,
    operand,
    operand_fails,
    ran_code,
    reduce_fails,
    reduced,
    stopped,
    place,
    place_among,
    State,
};
use crate::syntax::{item_list, ItemSyntax};
use crate::timing::{name_of, recorded, Started, Timings};
use crate::token::{lex, LexError};
use crate::value::{shape_product, Array, ArrayView, Buffer, BufferView, Value, ValueView};
use crate::vm::{values_view, Env, Frame};

verus! {

/// The stack after a primitive that only moves values about; `None` where
/// the stack holds too few values, or the primitive is none of these.
pub open spec fn shuffled(prim: Primitive, stack: Seq<ValueView>) -> Option<Seq<ValueView>> {
    let n = stack.len() as int;
    match prim {
        Primitive::Dup => if n >= 1 {
            Some(stack.push(stack[n - 1]))
        } else {
            None
        },
        Primitive::Pop => if n >= 1 {
            Some(stack.drop_last())
        } else {
            None
        },
        Primitive::Flip => if n >= 2 {
            Some(stack.take(n - 2).push(stack[n - 1]).push(stack[n - 2]))
        } else {
            None
        },
        Primitive::Over => if n >= 2 {
            Some(stack.push(stack[n - 2]))
        } else {
            None
        },
        _ => None,
    }
}

/// What holds of the stack after a primitive that runs by itself has
/// succeeded on the stack `before`.
pub open spec fn primitive_done(prim: Primitive, before: Seq<ValueView>, after: Seq<ValueView>) -> bool {
    let n = before.len() as int;
    match prim {
        Primitive::Dup | Primitive::Pop | Primitive::Flip | Primitive::Over => shuffled(
            prim,
            before,
        ) == Some(after),
        Primitive::Len => n >= 1 && before[n - 1] is Array && after.len() == n && after.take(n - 1)
            == before.take(n - 1) && is_numbers_of(after[n - 1], seq![]) && is_count(
            numbers_in(after[n - 1])[0],
            if shape_of(before[n - 1]).len() == 0 {
                1
            } else {
                shape_of(before[n - 1])[0] as nat
            },
        ),
        Primitive::Shape => n >= 1 && before[n - 1] is Array && after.len() == n && after.take(
            n - 1,
        ) == before.take(n - 1) && is_numbers_of(
            after[n - 1],
            seq![shape_of(before[n - 1]).len() as usize],
        ) && forall|i: int|
            0 <= i < shape_of(before[n - 1]).len() ==> is_count(
                #[trigger] numbers_in(after[n - 1])[i],
                shape_of(before[n - 1])[i] as nat,
            ),
        Primitive::Reverse => n >= 1 && before[n - 1] is Array && after.len() == n && after.take(
            n - 1,
        ) == before.take(n - 1) && after[n - 1] is Array && shape_of(after[n - 1]) == shape_of(
            before[n - 1],
        ) && (shape_of(before[n - 1]).len() == 0 ==> after[n - 1] == before[n - 1]) && (shape_of(
            before[n - 1],
        ).len() > 0 ==> after[n - 1]->Array_0.data == reversed(
            before[n - 1]->Array_0.data,
            shape_of(before[n - 1])[0] as nat,
            row_len(shape_of(before[n - 1])),
            shape_of(before[n - 1])[0] as nat,
        )),
        Primitive::Join => n >= 2 && before[n - 2] is Array && before[n - 1] is Array && joinable(
            before[n - 2]->Array_0,
            before[n - 1]->Array_0,
        ) && after == before.take(n - 2).push(
            ValueView::Array(joined(before[n - 2]->Array_0, before[n - 1]->Array_0)),
        ),
        Primitive::Neg => n >= 1 && is_numeric(before[n - 1]) && after.len() == n && after.take(
            n - 1,
        ) == before.take(n - 1) && is_numbers_of(after[n - 1], shape_of(before[n - 1])),
        Primitive::Add | Primitive::Sub | Primitive::Mul | Primitive::Div => n >= 2 && pervade(
            before[n - 2],
            before[n - 1],
        ) && after.len() == n - 1 && after.take(n - 2) == before.take(n - 2) && is_numbers_of(
            after[n - 2],
            pervaded_shape(before[n - 2], before[n - 1]),
        ),
        _ => false,
    }
}

/// The error with which a primitive that runs by itself fails on a stack;
/// `None` where it succeeds. Arguments are fetched the topmost first, and the
/// first that is missing or of the wrong kind is the one reported.
pub open spec fn primitive_error(prim: Primitive, before: Seq<ValueView>) -> Option<RuntimeError> {
    let n = before.len() as int;
    match prim {
        Primitive::Dup | Primitive::Pop => if n < 1 {
            Some(RuntimeError::StackUnderflow(1))
        } else {
            None
        },
        Primitive::Flip | Primitive::Over => if n < 1 {
            Some(RuntimeError::StackUnderflow(1))
        } else if n < 2 {
            Some(RuntimeError::StackUnderflow(2))
        } else {
            None
        },
        Primitive::Len | Primitive::Shape | Primitive::Reverse => if n < 1 {
            Some(RuntimeError::StackUnderflow(1))
        } else if before[n - 1] is Func {
            Some(RuntimeError::TypeMismatch(Expected::Array))
        } else {
            None
        },
        Primitive::Join => if n < 1 {
            Some(RuntimeError::StackUnderflow(1))
        } else if before[n - 1] is Func {
            Some(RuntimeError::TypeMismatch(Expected::Array))
        } else if n < 2 {
            Some(RuntimeError::StackUnderflow(2))
        } else if before[n - 2] is Func {
            Some(RuntimeError::TypeMismatch(Expected::Array))
        } else {
            let (a, b) = (before[n - 2]->Array_0, before[n - 1]->Array_0);
            if joinable(a, b) {
                None
            } else if a.data.kind() != b.data.kind() {
                Some(RuntimeError::TypeMismatch(Expected::NumericContents))
            } else if a.rank() == 0 || b.rank() == 0 {
                Some(RuntimeError::RankTooLow)
            } else {
                Some(RuntimeError::ShapeMismatch)
            }
        },
        Primitive::Neg => if n < 1 {
            Some(RuntimeError::StackUnderflow(1))
        } else if !is_numeric(before[n - 1]) {
            Some(RuntimeError::TypeMismatch(Expected::NumericContents))
        } else {
            None
        },
        Primitive::Add | Primitive::Sub | Primitive::Mul | Primitive::Div => if n < 1 {
            Some(RuntimeError::StackUnderflow(1))
        } else if n < 2 {
            Some(RuntimeError::StackUnderflow(2))
        } else if pervade(before[n - 2], before[n - 1]) {
            None
        } else if is_numeric(before[n - 2]) && is_numeric(before[n - 1]) {
            Some(RuntimeError::ShapeMismatch)
        } else {
            Some(RuntimeError::TypeMismatch(Expected::NumericContents))
        },
        _ => Some(RuntimeError::TypeMismatch(Expected::PurePrimitive)),
    }
}

/// Takes the array that is on top of the stack.
fn pop_array(env: &mut Env, arg: usize) -> (popped: Result<Array, RuntimeError>)
    ensures
        final(env).frames == old(env).frames,
        final(env).values() == if old(env).values().len() == 0 {
            old(env).values()
        } else {
            old(env).values().drop_last()
        },
        match popped {
            Ok(a) => old(env).values().len() > 0 && old(env).values().last() == ValueView::Array(
                a@,
            ),
            Err(e) => if old(env).values().len() == 0 {
                e == RuntimeError::StackUnderflow(arg)
            } else {
                e == RuntimeError::TypeMismatch(Expected::Array) && old(env).values().last()
                    is Func
            },
        },
{
    match env.pop(arg)? {
        Value::Array(a) => Ok(a),
        Value::Func(_) => Err(RuntimeError::TypeMismatch(Expected::Array)),
    }
}

/// Runs a primitive that runs by itself: one that is no modifier and no
/// effect operation. It takes its arguments from the stack, the topmost
/// first, and leaves its results there; where it succeeds, the height of the
/// stack has changed by its outputs less its arguments. Whether it succeeds,
/// and with which error it fails, is decided by the stack alone. A modifier
/// or an effect operation is refused and the stack is left as it is.
pub fn call_primitive<K: Kernel>(prim: Primitive, env: &mut Env, kernel: &mut K) -> (done: Result<
    (),
    RuntimeError,
>)
    ensures
        final(env).frames == old(env).frames,
        match done {
            Ok(()) => primitive_error(prim, old(env).values()) is None && primitive_done(
                prim,
                old(env).values(),
                final(env).values(),
            ),
            Err(e) => primitive_error(prim, old(env).values()) == Some(e),
        },
        done is Ok ==> prim.outputs_spec() is Some && final(env).values().len() == old(
            env,
        ).values().len() - prim.args_spec() + prim.outputs_spec()->0,
        old(env).values().len() < prim.args_spec() ==> done is Err,
        prim.modifier_args_spec() > 0 || prim is Io ==> done == Err::<(), RuntimeError>(
            RuntimeError::TypeMismatch(Expected::PurePrimitive),
        ) && final(env).values() == old(env).values(),
{
    let ghost before = env.values();
    let ghost n = before.len() as int;
    match prim {
        Primitive::Dup => {
            let top = env.pop(1)?;
            let copy = top.duplicate();
            env.push(top);
            env.push(copy);
            assert(env.values() == before.push(before[n - 1]));
            Ok(())
        },
        Primitive::Pop => {
            let _ = env.pop(1)?;
            Ok(())
        },
        Primitive::Flip => {
            let b = env.pop(1)?;
            let a = env.pop(2)?;
            env.push(b);
            env.push(a);
            assert(env.values() == before.take(n - 2).push(before[n - 1]).push(before[n - 2]));
            Ok(())
        },
        Primitive::Over => {
            let b = env.pop(1)?;
            let a = env.pop(2)?;
            let copy = a.duplicate();
            env.push(a);
            env.push(b);
            env.push(copy);
            assert(env.values() == before.push(before[n - 2]));
            Ok(())
        },
        Primitive::Len => {
            let a = pop_array(env, 1)?;
            env.push(count_value(row_count(&a), kernel));
            assert(env.values().take(n - 1) == before.take(n - 1));
            Ok(())
        },
        Primitive::Shape => {
            let a = pop_array(env, 1)?;
            env.push(shape_value(&a, kernel));
            assert(env.values().take(n - 1) == before.take(n - 1));
            Ok(())
        },
        Primitive::Reverse => {
            let a = pop_array(env, 1)?;
            env.push(Value::Array(reverse(&a)));
            assert(env.values().take(n - 1) == before.take(n - 1));
            Ok(())
        },
        Primitive::Join => {
            let b = pop_array(env, 1)?;
            let a = pop_array(env, 2)?;
            assert(env.values() == before.take(n - 2));
            match join(&a, &b) {
                Ok(both) => {
                    env.push(Value::Array(both));
                    Ok(())
                },
                Err(e) => Err(RuntimeError::from_array(e)),
            }
        },
        Primitive::Neg => {
            let a = env.pop(1)?;
            let made = negate(&a, kernel)?;
            env.push(made);
            assert(env.values().take(n - 1) == before.take(n - 1));
            Ok(())
        },
        Primitive::Add | Primitive::Sub | Primitive::Mul | Primitive::Div => {
            let b = env.pop(1)?;
            let a = env.pop(2)?;
            assert(env.values() == before.take(n - 2));
            let op = match prim {
                Primitive::Add => Arithmetic::Add,
                Primitive::Sub => Arithmetic::Sub,
                Primitive::Mul => Arithmetic::Mul,
                _ => Arithmetic::Div,
            };
            let made = arithmetic(op, &a, &b, kernel)?;
            env.push(made);
            assert(env.values().take(n - 2) == before.take(n - 2));
            Ok(())
        },
        _ => Err(RuntimeError::TypeMismatch(Expected::PurePrimitive)),
    }
}

/// The array that the values of a list are the rows of: all must be arrays
/// of one kind and one shape. No values make the empty list of numbers.
pub open spec fn stackable(values: Seq<ValueView>) -> bool {
    forall|i: int|
        0 <= i < values.len() ==> (#[trigger] values[i]) is Array && values[i]->Array_0.shape
            == values[0]->Array_0.shape && values[i]->Array_0.data.kind()
            == values[0]->Array_0.data.kind()
}

/// The elements of the first `n` values of a list, one after the other.
pub open spec fn stacked_data(values: Seq<ValueView>, n: nat) -> BufferView
    decreases n,
{
    if n == 0 || n > values.len() {
        BufferView::Num(seq![])
    } else if n == 1 {
        values[0]->Array_0.data
    } else {
        appended(stacked_data(values, (n - 1) as nat), values[n - 1]->Array_0.data)
    }
}

/// The array that has the values of a list as its rows.
pub open spec fn stacked(values: Seq<ValueView>) -> ArrayView {
    ArrayView {
        shape: seq![values.len() as usize] + if values.len() == 0 {
            seq![]
        } else {
            values[0]->Array_0.shape
        },
        data: stacked_data(values, values.len()),
    }
}

/// Whether the value of an index goes with the first as a row: it is an
/// array of the shape and the kind of the first.
pub open spec fn goes_with_first(values: Seq<ValueView>, i: int) -> bool {
    &&& values[i] is Array
    &&& values[0] is Array
    &&& values[i]->Array_0.shape == values[0]->Array_0.shape
    &&& values[i]->Array_0.data.kind() == values[0]->Array_0.data.kind()
}

/// The index of the first of the first `n` values that does not go with
/// the first value.
pub open spec fn misfit(values: Seq<ValueView>, n: nat) -> Option<int>
    decreases n,
{
    if n == 0 || n > values.len() {
        None
    } else {
        match misfit(values, (n - 1) as nat) {
            Some(i) => Some(i),
            None => if goes_with_first(values, n - 1) {
                None
            } else {
                Some(n - 1)
            },
        }
    }
}

/// A value that does not go with the first among some values is the one
/// found among more.
proof fn lemma_misfit_stays(values: Seq<ValueView>, n: nat, m: nat)
    requires
        n <= m <= values.len(),
        misfit(values, n) is Some,
    ensures
        misfit(values, m) == misfit(values, n),
    decreases m - n,
{
    if n < m {
        lemma_misfit_stays(values, n, (m - 1) as nat);
    }
}

/// The error of values that are not the rows of one array: that of the
/// first that does not go with the first, a `TypeMismatch` for a function
/// and a `ShapeMismatch` for an array.
pub open spec fn rows_error(values: Seq<ValueView>) -> Option<RuntimeError> {
    match misfit(values, values.len()) {
        Some(i) => Some(
            if values[i] is Func {
                RuntimeError::TypeMismatch(Expected::Array)
            } else {
                RuntimeError::ShapeMismatch
            },
        ),
        None => None,
    }
}

/// Makes one array of values, which become its rows. A function among them
/// is a `TypeMismatch`, rows of different kinds or shapes are a
/// `ShapeMismatch`.
pub fn stack_rows(values: &Vec<Value>) -> (made: Result<Array, RuntimeError>)
    ensures
        match made {
            Ok(a) => stackable(values_view(values@)) && a@ == stacked(values_view(values@)) && a@.wf(),
            Err(e) => !stackable(values_view(values@)) && rows_error(values_view(values@)) == Some(
                e,
            ),
        },
{
    let ghost all = values_view(values@);
    if values.len() == 0 {
        let empty: Vec<u64> = Vec::new();
        let made = Array::list(Buffer::Num(empty));
        assert(made@.shape =~= seq![0usize] + Seq::<usize>::empty());
        return Ok(made);
    }
    assert(all[0] == values@[0]@);
    let first = match &values[0] {
        Value::Array(a) => a,
        Value::Func(_) => {
            proof {
                assert(misfit(all, 0) is None);
                assert(misfit(all, 1) == Some(0int));
                lemma_misfit_stays(all, 1, all.len());
            }
            return Err(RuntimeError::TypeMismatch(Expected::Array));
        },
    };
    assert(misfit(all, 0) is None);
    assert(misfit(all, 1) is None);
    let shape = first.shape();
    let per = first.len();
    let mut data = first.data().duplicate();
    let mut i: usize = 1;
    while i < values.len()
        invariant
            1 <= i <= values.len(),
            all == values_view(values@),
            all[0] == ValueView::Array(first@),
            shape@ == first@.shape,
            per == shape_product(shape@),
            data@ == stacked_data(all, i as nat),
            data@.kind() == first@.data.kind(),
            data@.len() == i * per,
            misfit(all, i as nat) is None,
            forall|j: int|
                0 <= j < i ==> (#[trigger] all[j]) is Array && all[j]->Array_0.shape == shape@
                    && all[j]->Array_0.data.kind() == first@.data.kind(),
        decreases values.len() - i,
    {
        assert(all[i as int] == values@[i as int]@);
        let row = match &values[i] {
            Value::Array(a) => a,
            Value::Func(_) => {
                proof {
                    lemma_misfit_stays(all, (i + 1) as nat, all.len());
                }
                return Err(RuntimeError::TypeMismatch(Expected::Array));
            },
        };
        if !same_dims(row.shape(), shape) {
            proof {
                lemma_misfit_stays(all, (i + 1) as nat, all.len());
            }
            return Err(RuntimeError::ShapeMismatch);
        }
        data = match append(&data, row.data()) {
            Some(both) => both,
            None => {
                proof {
                    lemma_misfit_stays(all, (i + 1) as nat, all.len());
                }
                return Err(RuntimeError::ShapeMismatch);
            },
        };
        proof {
            assert(row@.data.len() == per);
            assert((i + 1) * per == i * per + per) by (nonlinear_arith);
        }
        i += 1;
    }
    let rows = values.len();
    let mut full: Vec<usize> = Vec::new();
    full.push(rows);
    let mut k: usize = 0;
    while k < shape.len()
        invariant
            k <= shape.len(),
            full@ == seq![rows] + shape@.take(k as int),
        decreases shape.len() - k,
    {
        assert(shape@.take(k + 1) == shape@.take(k as int).push(shape@[k as int]));
        full.push(shape[k]);
        k += 1;
    }
    proof {
        assert(shape@.take(shape@.len() as int) == shape@);
        lemma_product_split(full@, 1);
        lemma_product_one(full@.take(1));
        assert(full@.skip(1) == shape@);
        assert(full@.take(1)[0] == rows);
        assert(stackable(all));
    }
    match Array::new(full, data) {
        Ok(a) => Ok(a),
        Err(_) => Err(RuntimeError::ShapeMismatch),
    }
}

fn same_dims(a: &Vec<usize>, b: &Vec<usize>) -> (same: bool)
    ensures
        same == (a@ == b@),
{
    if a.len() != b.len() {
        return false;
    }
    let mut i: usize = 0;
    while i < a.len()
        invariant
            i <= a.len(),
            a.len() == b.len(),
            a@.take(i as int) == b@.take(i as int),
        decreases a.len() - i,
    {
        if a[i] != b[i] {
            return false;
        }
        assert(a@.take(i + 1) == a@.take(i as int).push(a@[i as int]));
        assert(b@.take(i + 1) == b@.take(i as int).push(b@[i as int]));
        i += 1;
    }
    assert(a@.take(a@.len() as int) == a@);
    assert(b@.take(b@.len() as int) == b@);
    true
}

/// The state of a running program.
#[derive(Debug)]
pub struct Machine {
    /// The operand stack and the call stack.
    pub env: Env,
    /// What is bound to each name of the assembly, at the place of the name.
    pub globals: Vec<Option<Value>>,
    /// The heights at which the arrays that are being made began.
    pub marks: Vec<usize>,
    /// The time that the instructions took so far, by name, where the
    /// machine times its instructions.
    pub timings: Option<Timings>,
}

/// The place of the function of an identity in the table, if it is there.
pub fn find_function(assembly: &Assembly, id: FunctionId) -> (at: Option<usize>)
    ensures
        match at {
            Some(i) => place(*assembly, id) == Some(i as int) && is_place(*assembly, id, i as int),
            None => place(*assembly, id) is None,
        },
{
    let mut i: usize = 0;
    while i < assembly.functions.len()
        invariant
            i <= assembly.functions@.len(),
            place_among(*assembly, id, i as nat) is None,
        decreases assembly.functions.len() - i,
    {
        if assembly.functions[i].id == id {
            proof {
                lemma_place_stays(*assembly, id, (i + 1) as nat, assembly.functions@.len());
                lemma_place_among(*assembly, id, assembly.functions@.len());
            }
            return Some(i);
        }
        i += 1;
    }
    None
}

/// The bindings of a machine as mathematical values.
pub open spec fn globals_view(globals: Seq<Option<Value>>) -> Seq<Option<ValueView>> {
    Seq::new(
        globals.len(),
        |i: int|
            match globals[i] {
                Some(value) => Some(value@),
                None => None,
            },
    )
}

impl Machine {
    /// What the machine holds, but for its call stack.
    pub open spec fn state(&self) -> State {
        State {
            stack: self.env.values(),
            globals: globals_view(self.globals@),
            marks: self.marks@,
        }
    }
}

/// Calls the function at a place of the table: records a frame, runs the
/// body, and holds the height of the stack against the declared signature.
/// The call itself costs one step.
fn call<B: IoBackend, K: Kernel>(
    assembly: &Assembly,
    at: usize,
    machine: &mut Machine,
    io: &mut B,
    kernel: &mut K,
    fuel: usize,
) -> (left: Result<usize, RuntimeError>)
    ensures
        final(machine).timings is Some == old(machine).timings is Some,
        match left {
            Ok(rest) => rest <= fuel && final(machine).env.frames@ == old(machine).env.frames@
                && calls(
                *assembly,
                at as int,
                old(machine).state(),
                fuel as nat,
                final(machine).state(),
                rest as nat,
            ),
            Err(e) => call_fails(*assembly, at as int, old(machine).state(), fuel as nat, e),
        },
    decreases fuel, 0int,
{
    if at >= assembly.functions.len() {
        return Err(RuntimeError::BadAssembly);
    }
    if fuel == 0 {
        return Err(RuntimeError::StepLimit);
    }
    let function = &assembly.functions[at];
    let before = machine.env.height();
    machine.env.enter(0, function.signature, None);
    assert(machine.state() == old(machine).state());
    let ghost frame = machine.env.frames@.last();
    let rest = match run_code(assembly, &function.code, machine, io, kernel, fuel - 1) {
        Ok(rest) => rest,
        Err(e) => {
            return Err(e);
        },
    };
    assert(machine.env.frames@.last() == frame);
    let ghost after = machine.env.stack@.len();
    let ghost t = machine.state();
    match machine.env.exit() {
        Ok(_) => {
            proof {
                assert(machine.env.frames@ == old(machine).env.frames@);
                assert(Env::may_exit(frame, after));
                assert(frame.base == before);
                assert(machine.state().stack.len() == after);
                assert(admitted(function.signature, before as nat, after));
            }
            Ok(rest)
        },
        Err(e) => {
            proof {
                assert(frame.base == before);
                assert(t.stack.len() == after);
                assert(old(machine).state().stack.len() == before);
                assert(midway(t, rest as nat, fuel as nat));
                assert(!admitted(function.signature, before as nat, after));
            }
            Err(e)
        },
    }
}

/// Calls the function at a place, or does nothing where the place is left
/// out.
fn call_operand<B: IoBackend, K: Kernel>(
    assembly: &Assembly,
    at: Option<usize>,
    machine: &mut Machine,
    io: &mut B,
    kernel: &mut K,
    fuel: usize,
) -> (left: Result<usize, RuntimeError>)
    ensures
        final(machine).timings is Some == old(machine).timings is Some,
        match left {
            Ok(rest) => rest <= fuel && final(machine).env.frames@ == old(machine).env.frames@
                && operand(
                *assembly,
                at,
                old(machine).state(),
                fuel as nat,
                final(machine).state(),
                rest as nat,
            ),
            Err(e) => operand_fails(*assembly, at, old(machine).state(), fuel as nat, e),
        },
    decreases fuel, 1int,
{
    match at {
        Some(f) => call(assembly, f, machine, io, kernel, fuel),
        None => Ok(fuel),
    }
}

/// Reduces the array that is on top of the stack with a function.
fn reduce<B: IoBackend, K: Kernel>(
    assembly: &Assembly,
    first: Option<usize>,
    machine: &mut Machine,
    io: &mut B,
    kernel: &mut K,
    fuel: usize,
) -> (left: Result<usize, RuntimeError>)
    ensures
        final(machine).timings is Some == old(machine).timings is Some,
        match left {
            Ok(rest) => rest <= fuel && final(machine).env.frames@ == old(machine).env.frames@
                && modified(
                *assembly,
                Primitive::Reduce,
                first,
                None,
                old(machine).state(),
                fuel as nat,
                final(machine).state(),
                rest as nat,
            ),
            Err(e) => reduce_fails(*assembly, first, old(machine).state(), fuel as nat, e),
        },
    decreases fuel, 2int,
{
    let ghost s = machine.state();
    let array = match pop_array(&mut machine.env, 1) {
        Ok(array) => array,
        Err(e) => {
            assert(no_array(s.stack) == Some(e));
            return Err(e);
        },
    };
    let ghost base = machine.state();
    assert(base == s.popped());
    assert(no_array(s.stack) is None);
    let rows = if array.rank() == 0 {
        0
    } else {
        row_count(&array)
    };
    if rows == 0 {
        machine.env.push(Value::Array(array));
        assert(machine.state().stack =~= s.stack);
        return Ok(fuel);
    }
    let mut fuel_left = fuel;
    let mut i: usize = 0;
    while i < rows
        invariant
            i <= rows,
            array@.rank() > 0,
            rows == array@.shape[0],
            fuel_left <= fuel,
            machine.env.frames@ == old(machine).env.frames@,
            machine.timings is Some == old(machine).timings is Some,
            s == old(machine).state(),
            no_array(s.stack) is None,
            s.stack.last() == ValueView::Array(array@),
            base == s.popped(),
            reduced(
                *assembly,
                first,
                array@,
                i as nat,
                base,
                fuel as nat,
                machine.state(),
                fuel_left as nat,
            ),
        decreases rows - i,
    {
        let ghost m = machine.state();
        let ghost f = fuel_left as nat;
        let row = match crate::ops::row(&array, i) {
            Ok(r) => r,
            Err(e) => {
                assert(false);
                return Err(RuntimeError::from_array(e));
            },
        };
        machine.env.push(Value::Array(row));
        assert(machine.state() == m.pushed(ValueView::Array(row_spec(array@, i as int))));
        if i > 0 {
            fuel_left = match call_operand(assembly, first, machine, io, kernel, fuel_left) {
                Ok(rest) => rest,
                Err(e) => {
                    assert(failing(i as nat, rows as nat, m, f, fuel as nat));
                    return Err(e);
                },
            };
        }
        proof {
            lemma_reduced_next(
                *assembly,
                first,
                array@,
                i as nat,
                base,
                fuel as nat,
                m,
                f,
                machine.state(),
                fuel_left as nat,
            );
        }
        i += 1;
    }
    Ok(fuel_left)
}

/// Calls a function on each element of the array that is on top of the
/// stack, and makes an array of what the calls leave.
fn each<B: IoBackend, K: Kernel>(
    assembly: &Assembly,
    first: Option<usize>,
    machine: &mut Machine,
    io: &mut B,
    kernel: &mut K,
    fuel: usize,
) -> (left: Result<usize, RuntimeError>)
    ensures
        final(machine).timings is Some == old(machine).timings is Some,
        match left {
            Ok(rest) => rest <= fuel && final(machine).env.frames@ == old(machine).env.frames@
                && modified(
                *assembly,
                Primitive::Each,
                first,
                None,
                old(machine).state(),
                fuel as nat,
                final(machine).state(),
                rest as nat,
            ),
            Err(e) => each_fails(*assembly, first, old(machine).state(), fuel as nat, e),
        },
    decreases fuel, 2int,
{
    let ghost s = machine.state();
    let array = match pop_array(&mut machine.env, 1) {
        Ok(array) => array,
        Err(e) => {
            assert(no_array(s.stack) == Some(e));
            return Err(e);
        },
    };
    let ghost base = machine.state();
    assert(base == s.popped());
    assert(no_array(s.stack) is None);
    let count = array.len();
    let mut results: Vec<Value> = Vec::new();
    let mut fuel_left = fuel;
    let mut i: usize = 0;
    assert(values_view(results@) =~= Seq::<ValueView>::empty());
    while i < count
        invariant
            i <= count,
            count == array@.data.len(),
            fuel_left <= fuel,
            machine.env.frames@ == old(machine).env.frames@,
            machine.timings is Some == old(machine).timings is Some,
            s == old(machine).state(),
            no_array(s.stack) is None,
            s.stack.last() == ValueView::Array(array@),
            base == s.popped(),
            results@.len() == i,
            eached(
                *assembly,
                first,
                array@,
                i as nat,
                base,
                fuel as nat,
                machine.state(),
                values_view(results@),
                fuel_left as nat,
            ),
        decreases count - i,
    {
        let ghost m = machine.state();
        let ghost f = fuel_left as nat;
        let ghost kept = values_view(results@);
        let one = match Array::new(Vec::new(), array.data().slice(i, i + 1)) {
            Ok(e) => e,
            Err(e) => {
                proof {
                    assert(shape_product(Seq::<usize>::empty()) == 1);
                    assert(array@.data.subrange(i as int, i + 1).len() == 1);
                    assert(false);
                }
                return Err(RuntimeError::from_array(e));
            },
        };
        assert(ValueView::Array(one@) == element(array@, i as int));
        machine.env.push(Value::Array(one));
        fuel_left = match call_operand(assembly, first, machine, io, kernel, fuel_left) {
            Ok(rest) => rest,
            Err(e) => {
                assert(failing_each(i as nat, count as nat, m, kept, f, m, 0, fuel as nat));
                return Err(e);
            },
        };
        let ghost after = machine.state();
        let result = match machine.env.pop(1) {
            Ok(result) => result,
            Err(e) => {
                assert(failing_each(
                    i as nat,
                    count as nat,
                    m,
                    kept,
                    f,
                    after,
                    fuel_left as nat,
                    fuel as nat,
                ));
                return Err(e);
            },
        };
        results.push(result);
        proof {
            assert(values_view(results@) =~= kept.push(after.stack.last()));
            lemma_eached_next(
                *assembly,
                first,
                array@,
                i as nat,
                base,
                fuel as nat,
                m,
                kept,
                f,
                after,
                fuel_left as nat,
            );
        }
        i += 1;
    }
    let ghost m = machine.state();
    let made = match stack_rows(&results) {
        Ok(made) => made,
        Err(e) => {
            assert(failing_each(
                count as nat,
                count as nat,
                m,
                values_view(results@),
                fuel_left as nat,
                m,
                0,
                fuel as nat,
            ));
            return Err(e);
        },
    };
    let mut shape = array.shape().clone();
    let inner = made.shape();
    let mut k: usize = 1;
    while k < inner.len()
        invariant
            1 <= k <= inner@.len(),
            shape@ == array@.shape + inner@.subrange(1, k as int),
        decreases inner.len() - k,
    {
        shape.push(inner[k]);
        k += 1;
    }
    assert(inner@.subrange(1, inner@.len() as int) == inner@.skip(1));
    match Array::new(shape, made.data().duplicate()) {
        Ok(a) => {
            machine.env.push(Value::Array(a));
            assert(machine.state() == m.pushed(gathered(array@, values_view(results@))));
            Ok(fuel_left)
        },
        Err(e) => {
            proof {
                // What the calls left has a row for each element of the
                // array, so its elements fill the shape.
                let rows = values_view(results@);
                let tail = inner@.skip(1);
                assert(inner@ == seq![rows.len() as usize] + tail);
                lemma_product_split(inner@, 1);
                lemma_product_one(inner@.take(1));
                assert(inner@.take(1)[0] == rows.len());
                lemma_product_split(shape@, array@.shape.len() as int);
                assert(shape@.take(array@.shape.len() as int) =~= array@.shape);
                assert(shape@.skip(array@.shape.len() as int) =~= tail);
                assert(false);
            }
            Err(RuntimeError::from_array(e))
        },
    }
}

/// Runs a modifier on its operands.
fn apply_modifier<B: IoBackend, K: Kernel>(
    assembly: &Assembly,
    prim: Primitive,
    first: Option<usize>,
    second: Option<usize>,
    machine: &mut Machine,
    io: &mut B,
    kernel: &mut K,
    fuel: usize,
) -> (left: Result<usize, RuntimeError>)
    ensures
        final(machine).timings is Some == old(machine).timings is Some,
        match left {
            Ok(rest) => rest <= fuel && final(machine).env.frames@ == old(machine).env.frames@
                && modified(
                *assembly,
                prim,
                first,
                second,
                old(machine).state(),
                fuel as nat,
                final(machine).state(),
                rest as nat,
            ),
            Err(e) => modifier_fails(
                *assembly,
                prim,
                first,
                second,
                old(machine).state(),
                fuel as nat,
                e,
            ),
        },
    decreases fuel, 3int,
{
    match prim {
        Primitive::Reduce => reduce(assembly, first, machine, io, kernel, fuel),
        Primitive::Each => each(assembly, first, machine, io, kernel, fuel),
        Primitive::Fork => {
            let ghost s = machine.state();
            let value = match machine.env.pop(1) {
                Ok(value) => value,
                Err(e) => {
                    return Err(e);
                },
            };
            machine.env.push(value.duplicate());
            assert(machine.state().stack =~= s.stack);
            assert(machine.state() == s);
            let middle = match call_operand(assembly, first, machine, io, kernel, fuel) {
                Ok(middle) => middle,
                Err(e) => {
                    return Err(e);
                },
            };
            let ghost m = machine.state();
            machine.env.push(value);
            assert(midway(m, middle as nat, fuel as nat));
            assert(machine.state() == m.pushed(s.stack.last()));
            call_operand(assembly, second, machine, io, kernel, middle)
        },
        _ => Err(RuntimeError::BadAssembly),
    }
}

/// Binds a value to the name at a place.
fn bind(machine: &mut Machine, i: usize, value: Value)
    ensures
        final(machine).env == old(machine).env,
        final(machine).marks == old(machine).marks,
        final(machine).timings == old(machine).timings,
        globals_view(final(machine).globals@) == bound(
            globals_view(old(machine).globals@),
            i as int,
            value@,
        ),
{
    let ghost before = machine.globals@;
    while machine.globals.len() <= i
        invariant
            machine.env == old(machine).env,
            machine.marks == old(machine).marks,
            machine.timings == old(machine).timings,
            before.len() <= machine.globals@.len(),
            machine.globals@.len() <= i + 1 || machine.globals@.len() == before.len(),
            forall|j: int| 0 <= j < before.len() ==> machine.globals@[j] == before[j],
            forall|j: int| before.len() <= j < machine.globals@.len() ==> machine.globals@[j] is None,
        decreases i + 1 - machine.globals.len(),
    {
        machine.globals.push(None);
    }
    machine.globals[i] = Some(value);
    assert(globals_view(machine.globals@) =~= bound(globals_view(before), i as int, value@));
}

/// Runs one instruction that does not stop the program.
fn step<B: IoBackend, K: Kernel>(
    assembly: &Assembly,
    instr: Instr,
    machine: &mut Machine,
    io: &mut B,
    kernel: &mut K,
    fuel: usize,
) -> (left: Result<usize, RuntimeError>)
    ensures
        final(machine).timings is Some == old(machine).timings is Some,
        match left {
            Ok(rest) => rest <= fuel && final(machine).env.frames@ == old(machine).env.frames@
                && does(
                *assembly,
                instr,
                old(machine).state(),
                fuel as nat,
                final(machine).state(),
                rest as nat,
            ),
            Err(e) => fails(*assembly, instr, old(machine).state(), fuel as nat, e),
        },
    decreases fuel, 4int,
{
    let ghost s = machine.state();
    match instr {
        Instr::PushConstant(i) => {
            if i >= assembly.constants.len() {
                return Err(RuntimeError::BadAssembly);
            }
            machine.env.push(assembly.constants[i].duplicate());
            assert(does(*assembly, instr, s, fuel as nat, machine.state(), fuel as nat));
            Ok(fuel)
        },
        Instr::PushFunction(f) => {
            if f >= assembly.functions.len() {
                return Err(RuntimeError::BadAssembly);
            }
            machine.env.push(Value::Func(assembly.functions[f].id));
            assert(does(*assembly, instr, s, fuel as nat, machine.state(), fuel as nat));
            Ok(fuel)
        },
        Instr::CallPrimitive(Primitive::Io(op)) => {
            if let Err(e) = op.run(&mut machine.env, io, kernel) {
                assert(op.ran(s.stack, machine.env.values(), Err(e)));
                assert(fails(*assembly, instr, s, fuel as nat, e));
                return Err(e);
            }
            assert(does(*assembly, instr, s, fuel as nat, machine.state(), fuel as nat));
            Ok(fuel)
        },
        Instr::CallPrimitive(prim) => {
            if let Err(e) = call_primitive(prim, &mut machine.env, kernel) {
                assert(fails(*assembly, instr, s, fuel as nat, e));
                return Err(e);
            }
            assert(does(*assembly, instr, s, fuel as nat, machine.state(), fuel as nat));
            Ok(fuel)
        },
        Instr::CallFunction(f) => call(assembly, f, machine, io, kernel, fuel),
        Instr::CallIoOp(op) => {
            if let Err(e) = op.run(&mut machine.env, io, kernel) {
                assert(op.ran(s.stack, machine.env.values(), Err(e)));
                assert(fails(*assembly, instr, s, fuel as nat, e));
                return Err(e);
            }
            assert(does(*assembly, instr, s, fuel as nat, machine.state(), fuel as nat));
            Ok(fuel)
        },
        Instr::ApplyModifier(prim, first, second) => {
            let rest = match apply_modifier(
                assembly,
                prim,
                first,
                second,
                machine,
                io,
                kernel,
                fuel,
            ) {
                Ok(rest) => rest,
                Err(e) => {
                    assert(fails(*assembly, instr, s, fuel as nat, e));
                    return Err(e);
                },
            };
            assert(does(*assembly, instr, s, fuel as nat, machine.state(), rest as nat));
            Ok(rest)
        },
        Instr::BindGlobal(i) => {
            let value = match machine.env.pop(1) {
                Ok(value) => value,
                Err(e) => {
                    assert(fails(*assembly, instr, s, fuel as nat, e));
                    return Err(e);
                },
            };
            bind(machine, i, value);
            assert(does(*assembly, instr, s, fuel as nat, machine.state(), fuel as nat));
            Ok(fuel)
        },
        Instr::LoadGlobal(i) => load(assembly, i, machine, io, kernel, fuel),
        Instr::BeginArray => {
            let height = machine.env.height();
            machine.marks.push(height);
            assert(does(*assembly, instr, s, fuel as nat, machine.state(), fuel as nat));
            Ok(fuel)
        },
        Instr::EndArray => {
            let mark = match machine.marks.pop() {
                Some(m) => m,
                None => {
                    assert(fails(*assembly, instr, s, fuel as nat, RuntimeError::BadAssembly));
                    return Err(RuntimeError::BadAssembly);
                },
            };
            if mark > machine.env.height() {
                assert(fails(*assembly, instr, s, fuel as nat, RuntimeError::StackUnderflow(1)));
                return Err(RuntimeError::StackUnderflow(1));
            }
            let rows = machine.env.stack.split_off(mark);
            assert(values_view(rows@) =~= s.stack.skip(mark as int));
            assert(machine.env.values() =~= s.stack.take(mark as int));
            let made = match stack_rows(&rows) {
                Ok(made) => made,
                Err(e) => {
                    assert(fails(*assembly, instr, s, fuel as nat, e));
                    return Err(e);
                },
            };
            machine.env.push(Value::Array(made));
            assert(does(*assembly, instr, s, fuel as nat, machine.state(), fuel as nat));
            Ok(fuel)
        },
        Instr::EndOfAssembly => Err(RuntimeError::BadAssembly),
    }
}

/// Pushes what is bound to the name at a place, or calls it if it is a
/// function.
fn load<B: IoBackend, K: Kernel>(
    assembly: &Assembly,
    i: usize,
    machine: &mut Machine,
    io: &mut B,
    kernel: &mut K,
    fuel: usize,
) -> (left: Result<usize, RuntimeError>)
    ensures
        final(machine).timings is Some == old(machine).timings is Some,
        match left {
            Ok(rest) => rest <= fuel && final(machine).env.frames@ == old(machine).env.frames@
                && does(
                *assembly,
                Instr::LoadGlobal(i),
                old(machine).state(),
                fuel as nat,
                final(machine).state(),
                rest as nat,
            ),
            Err(e) => load_fails(*assembly, i, old(machine).state(), fuel as nat, e),
        },
    decreases fuel, 3int,
{
    let ghost s = machine.state();
    if i >= assembly.globals.len() {
        return Err(RuntimeError::BadAssembly);
    }
    let held = if i < machine.globals.len() {
        match &machine.globals[i] {
            Some(value) => Some(value.duplicate()),
            None => None,
        }
    } else {
        None
    };
    match held {
        None => Err(RuntimeError::Unbound(assembly.globals[i].clone())),
        Some(Value::Func(id)) => {
            match find_function(assembly, id) {
                Some(f) => {
                    assert(s.globals[i as int] == Some(ValueView::Func(id)));
                    assert(place(*assembly, id) == Some(f as int));
                    let rest = match call(assembly, f, machine, io, kernel, fuel) {
                        Ok(rest) => rest,
                        Err(e) => {
                            return Err(e);
                        },
                    };
                    proof {
                        assert(s.globals[i as int] == Some(ValueView::Func(id)));
                        let t = machine.state();
                        assert(calls(*assembly, f as int, s, fuel as nat, t, rest as nat));
                        assert(does(
                            *assembly,
                            Instr::LoadGlobal(i),
                            s,
                            fuel as nat,
                            machine.state(),
                            rest as nat,
                        ));
                    }
                    Ok(rest)
                },
                None => {
                    assert(s.globals[i as int] == Some(ValueView::Func(id)));
                    assert(place(*assembly, id) is None);
                    Err(RuntimeError::BadAssembly)
                },
            }
        },
        Some(value) => {
            let ghost v = value@;
            machine.env.push(value);
            assert(s.globals[i as int] == Some(v));
            assert(does(*assembly, Instr::LoadGlobal(i), s, fuel as nat, machine.state(), fuel as nat));
            Ok(fuel)
        },
    }
}

/// Records the time that an instruction took, where the machine times its
/// instructions.
pub fn note(machine: &mut Machine, name: &str, micros: u128)
    ensures
        final(machine).env == old(machine).env,
        final(machine).globals == old(machine).globals,
        final(machine).marks == old(machine).marks,
        match old(machine).timings {
            Some(before) => final(machine).timings matches Some(after) && after@ == recorded(
                before@,
                name@,
                micros,
            ),
            None => final(machine).timings is None,
        },
{
    let mut held: Option<Timings> = None;
    core::mem::swap(&mut held, &mut machine.timings);
    match held {
        Some(mut timings) => {
            timings.record(name, micros);
            machine.timings = Some(timings);
        },
        None => {},
    }
}

/// Runs instructions, one after the other, until they end or one of them
/// stops the program. Each costs one step. Gives the steps that are left.
/// Where the machine times its instructions, the clock is read before and
/// after each instruction that runs, and the time between is recorded under
/// the name of the instruction.
fn run_code<B: IoBackend, K: Kernel>(
    assembly: &Assembly,
    code: &Vec<Instr>,
    machine: &mut Machine,
    io: &mut B,
    kernel: &mut K,
    fuel: usize,
) -> (left: Result<usize, RuntimeError>)
    ensures
        final(machine).timings is Some == old(machine).timings is Some,
        match left {
            Ok(rest) => rest <= fuel && final(machine).env.frames@ == old(machine).env.frames@
                && finished(
                *assembly,
                code@,
                old(machine).state(),
                fuel as nat,
                final(machine).state(),
                rest as nat,
            ),
            Err(e) => stopped(*assembly, code@, old(machine).state(), fuel as nat, e),
        },
    decreases fuel, 5int,
{
    let ghost s = machine.state();
    let mut fuel_left = fuel;
    let mut pc: usize = 0;
    while pc < code.len()
        invariant
            pc <= code.len(),
            fuel_left <= fuel,
            machine.env.frames@ == old(machine).env.frames@,
            machine.timings is Some == old(machine).timings is Some,
            s == old(machine).state(),
            ran_code(
                *assembly,
                code@,
                pc as nat,
                s,
                fuel as nat,
                machine.state(),
                fuel_left as nat,
            ),
        decreases code.len() - pc,
    {
        let ghost m = machine.state();
        let ghost f = fuel_left as nat;
        if fuel_left == 0 {
            assert(failing(pc as nat, code@.len(), m, 0, fuel as nat));
            return Err(RuntimeError::StepLimit);
        }
        if let Instr::EndOfAssembly = code[pc] {
            let rest = fuel_left - 1;
            proof {
                lemma_finished(*assembly, code@, pc as nat, 1, s, fuel as nat, m, rest as nat);
            }
            return Ok(rest);
        }
        let started = if machine.timings.is_some() {
            Some(Started::now())
        } else {
            None
        };
        fuel_left = match step(assembly, code[pc], machine, io, kernel, fuel_left - 1) {
            Ok(rest) => rest,
            Err(e) => {
                assert(failing(pc as nat, code@.len(), m, f, fuel as nat));
                return Err(e);
            },
        };
        if let Some(started) = started {
            let ghost after = machine.state();
            note(machine, name_of(code[pc]), started.micros());
            assert(machine.state() == after);
        }
        proof {
            lemma_ran_code_next(
                *assembly,
                code@,
                pc as nat,
                s,
                fuel as nat,
                m,
                f,
                machine.state(),
                fuel_left as nat,
            );
        }
        pc += 1;
    }
    proof {
        lemma_finished(
            *assembly,
            code@,
            pc as nat,
            0,
            s,
            fuel as nat,
            machine.state(),
            fuel_left as nat,
        );
    }
    Ok(fuel_left)
}

impl Machine {
    /// A machine with empty stacks and nothing bound.
    pub fn new() -> (machine: Machine)
        ensures
            machine.env.values() == Seq::<ValueView>::empty(),
            machine.env.frames@ == Seq::<Frame>::empty(),
            machine.globals@.len() == 0,
            machine.marks@.len() == 0,
    {
        Machine { env: Env::new(), globals: Vec::new(), marks: Vec::new(), timings: None }
    }

    /// A machine with empty stacks and nothing bound that times its
    /// instructions: each instruction that has run is recorded with the time
    /// between a reading of the clock before it and one after it.
    pub fn timed() -> (machine: Machine)
        ensures
            machine.env.values() == Seq::<ValueView>::empty(),
            machine.env.frames@ == Seq::<Frame>::empty(),
            machine.globals@.len() == 0,
            machine.marks@.len() == 0,
            machine.timings matches Some(t) && t@.len() == 0,
    {
        Machine {
            env: Env::new(),
            globals: Vec::new(),
            marks: Vec::new(),
            timings: Some(Timings::new()),
        }
    }

    /// Runs the program of an assembly in at most `steps` steps, and gives
    /// the steps that are left. Where it succeeds the program has run until
    /// it stopped, and every call has returned: the call stack is as it was.
    /// Where it fails, some instructions have run and the next has failed
    /// with the error, or found no step left.
    pub fn run<B: IoBackend, K: Kernel>(
        &mut self,
        assembly: &Assembly,
        io: &mut B,
        kernel: &mut K,
        steps: usize,
    ) -> (left: Result<usize, RuntimeError>)
        ensures
            final(self).timings is Some == old(self).timings is Some,
            match left {
                Ok(rest) => rest <= steps && final(self).env.frames@ == old(self).env.frames@
                    && finished(
                    *assembly,
                    assembly.main@,
                    old(self).state(),
                    steps as nat,
                    final(self).state(),
                    rest as nat,
                ),
                Err(e) => stopped(*assembly, assembly.main@, old(self).state(), steps as nat, e),
            },
    {
        run_code(assembly, &assembly.main, self, io, kernel, steps)
    }
}

/// Why a text could not be run.
#[derive(Debug, PartialEq, Eq)]
pub enum UiuaError {
    /// The text cannot be read as tokens.
    Format(LexError),
    /// The tokens are no program.
    Parse(ParseError),
    /// The program cannot be compiled.
    Compile(CompileError),
    /// The program failed.
    Runtime(RuntimeError),
}

/// Whether a text is read and compiled as some items and an assembly: the
/// text is read as the items, which differ from what the text says only in
/// the numbers the kernel read; the items look up no name before it is
/// bound; and the assembly is well formed and has their code.
pub open spec fn compiled(text: Seq<char>, mode: RunMode, items: Seq<Item>, assembly: Assembly) -> bool {
    &&& parsed(text) == Some(Ok::<Seq<ItemSyntax>, (Fault, int, int)>(item_list(items, items.len())))
    &&& undefined(items, mode) is None
    &&& assembly.wf()
    &&& assembly.code() == code_of_program(items, mode)
}

/// Whether running a text from the state `s` in at most `steps` steps may
/// leave the state `t`: the text is compiled, and the program of the
/// assembly runs from `s` until it stops, and leaves `t`.
pub open spec fn ran_text(text: Seq<char>, mode: RunMode, s: State, steps: nat, t: State) -> bool {
    exists|items: Seq<Item>, assembly: Assembly, rest: nat|
        #![trigger compiled(text, mode, items, assembly), finished(assembly, assembly.main@, s, steps, t, rest)]
        compiled(text, mode, items, assembly) && rest <= steps && finished(
            assembly,
            assembly.main@,
            s,
            steps,
            t,
            rest,
        )
}

/// Whether running a text from the state `s` in at most `steps` steps may
/// fail with the error `e`: the text is compiled, and the program of the
/// assembly fails with `e`.
pub open spec fn failed_text(
    text: Seq<char>,
    mode: RunMode,
    s: State,
    steps: nat,
    e: RuntimeError,
) -> bool {
    exists|items: Seq<Item>, assembly: Assembly| #[trigger]
        compiled(text, mode, items, assembly) && stopped(assembly, assembly.main@, s, steps, e)
}

/// Whether a text is read as items of which the first name that is looked
/// up before it is bound is the one of the error, at its place.
pub open spec fn names_undefined(text: Seq<char>, mode: RunMode, e: CompileError) -> bool {
    exists|items: Seq<Item>|
        parsed(text) == Some(
            Ok::<Seq<ItemSyntax>, (Fault, int, int)>(item_list(items, items.len())),
        ) && (e matches CompileError::UndefinedName(name, span) && #[trigger] undefined(
            items,
            mode,
        ) == Some((name@, span)))
}

/// Reads a text, compiles it for a mode and runs it on a machine, in at most
/// `steps` steps. A text that cannot be read fails with `Format`, one that is
/// no program with `Parse`; a program that looks up a name before it is bound
/// fails with `Compile` and that name; and a program that is compiled fails
/// with `Runtime` and the error with which its run fails.
pub fn load_str<B: IoBackend, K: Kernel>(
    machine: &mut Machine,
    text: &str,
    mode: RunMode,
    io: &mut B,
    kernel: &mut K,
    steps: usize,
) -> (done: Result<(), UiuaError>)
    ensures
        match done {
            Ok(()) => final(machine).env.frames@ == old(machine).env.frames@ && ran_text(
                text@,
                mode,
                old(machine).state(),
                steps as nat,
                final(machine).state(),
            ),
            Err(UiuaError::Format(_)) => parsed(text@) is None,
            Err(UiuaError::Parse(e)) => parsed(text@) matches Some(Err((fault, _, _))) && e.fault
                == fault,
            Err(UiuaError::Compile(e)) => names_undefined(text@, mode, e),
            Err(UiuaError::Runtime(e)) => failed_text(
                text@,
                mode,
                old(machine).state(),
                steps as nat,
                e,
            ),
        },
{
    let lines = match lex(text, 0) {
        Ok(lines) => lines,
        Err(e) => {
            return Err(UiuaError::Format(e));
        },
    };
    let items = match parse(&lines, kernel) {
        Ok(items) => items,
        Err(e) => {
            return Err(UiuaError::Parse(e));
        },
    };
    if let Err(e) = check_names(&items, mode) {
        assert(names_undefined(text@, mode, e));
        return Err(UiuaError::Compile(e));
    }
    let assembly = compile(&items, mode);
    assert(compiled(text@, mode, items@, assembly));
    match machine.run(&assembly, io, kernel, steps) {
        Ok(_) => Ok(()),
        Err(e) => Err(UiuaError::Runtime(e)),
    }
}

} // verus!
