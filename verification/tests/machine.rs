use uiua::timing::{name_of, Timings};
use uiua::compile::Function;
use uiua::function::FunctionId;
use uiua::backend::IoBackend;
use uiua::compile::{compile, Assembly, Instr};
use uiua::driver::RunMode;
use uiua::error::{Expected, RuntimeError};
use uiua::function::Signature;
use uiua::kernel::Kernel;
use uiua::machine::{call_primitive, load_str, stack_rows, Machine, UiuaError};
use uiua::names::CompileError;
use uiua::parse::{parse, Fault};
use uiua::primitive::Primitive;
use uiua::token::{lex, LexError};
use uiua::value::{Array, Buffer, Value};
use uiua::vm::Env;

struct Floats;

impl Kernel for Floats {
    fn read(&mut self, literal: &str) -> u64 {
        literal.replace('\u{af}', "-").parse::<f64>().unwrap().to_bits()
    }
    fn text(&mut self, a: u64) -> String {
        f64::from_bits(a).to_string()
    }
    fn neg(&mut self, a: u64) -> u64 {
        (-f64::from_bits(a)).to_bits()
    }
    fn add(&mut self, a: u64, b: u64) -> u64 {
        (f64::from_bits(a) + f64::from_bits(b)).to_bits()
    }
    fn sub(&mut self, a: u64, b: u64) -> u64 {
        (f64::from_bits(a) - f64::from_bits(b)).to_bits()
    }
    fn mul(&mut self, a: u64, b: u64) -> u64 {
        (f64::from_bits(a) * f64::from_bits(b)).to_bits()
    }
    fn div(&mut self, a: u64, b: u64) -> u64 {
        (f64::from_bits(a) / f64::from_bits(b)).to_bits()
    }
}

#[derive(Default)]
struct Console {
    printed: String,
}

impl IoBackend for Console {
    fn print_str(&mut self, s: &str) {
        self.printed.push_str(s);
    }
    fn rand(&mut self) -> u64 {
        0
    }
}

fn n(x: f64) -> Value {
    Value::Array(Array::number(x.to_bits()))
}

fn list(xs: &[f64]) -> Value {
    Value::Array(Array::list(Buffer::Num(xs.iter().map(|x| x.to_bits()).collect())))
}

fn table(shape: &[usize], xs: &[f64]) -> Value {
    let data = Buffer::Num(xs.iter().map(|x| x.to_bits()).collect());
    Value::Array(Array::new(shape.to_vec(), data).unwrap())
}

/// The stack that a text leaves, and what it prints.
fn eval_in(text: &str, mode: RunMode) -> Result<(Vec<Value>, String), UiuaError> {
    let mut machine = Machine::new();
    let mut console = Console::default();
    load_str(&mut machine, text, mode, &mut console, &mut Floats, 100_000)?;
    Ok((machine.env.take_stack(), console.printed))
}

fn eval(text: &str) -> Vec<Value> {
    eval_in(text, RunMode::Normal).unwrap().0
}

fn fails(text: &str) -> RuntimeError {
    match eval_in(text, RunMode::Normal) {
        Err(UiuaError::Runtime(e)) => e,
        other => panic!("a runtime error, not {other:?}"),
    }
}

fn show(value: &Value) -> String {
    uiua::show::value_text(value, &mut Floats, true)
}

#[test]
fn one_and_two_make_three() {
    let stack = eval("1 2 +");
    assert_eq!(stack, vec![n(3.0)]);
    assert_eq!(show(&stack[0]), "3");
}

#[test]
fn a_bracket_makes_a_list() {
    let stack = eval("[1 2 3]");
    assert_eq!(stack, vec![list(&[1.0, 2.0, 3.0])]);
    let Value::Array(a) = &stack[0] else { panic!("an array") };
    assert_eq!(a.shape(), &vec![3]);
    assert_eq!(a.rank(), 1);
    assert_eq!(show(&stack[0]), "1 2 3");
}

#[test]
fn a_string_is_itself() {
    let stack = eval("\"hello\"");
    assert_eq!(stack, vec![Value::Array(Array::string("hello"))]);
    assert_eq!(show(&stack[0]), "hello");
}

#[test]
fn printing_goes_to_the_backend() {
    let (stack, printed) = eval_in("\"hello\" println 1 2 + show", RunMode::Normal).unwrap();
    assert!(stack.is_empty());
    assert_eq!(printed, "hello\n3\n");
}

#[test]
fn values_are_moved_about() {
    assert_eq!(eval("1 2 flip"), vec![n(2.0), n(1.0)]);
    assert_eq!(eval("1 dup"), vec![n(1.0), n(1.0)]);
    assert_eq!(eval("1 2 over"), vec![n(1.0), n(2.0), n(1.0)]);
    assert_eq!(eval("1 2 pop"), vec![n(1.0)]);
    assert_eq!(eval("1 2 : . ; ,"), vec![n(2.0), n(1.0), n(2.0)]);
}

#[test]
fn arithmetic_goes_element_by_element() {
    assert_eq!(eval("[1 2 3] [10 20 30] +"), vec![list(&[11.0, 22.0, 33.0])]);
    assert_eq!(eval("[1 2 3] 10 \u{d7}"), vec![list(&[10.0, 20.0, 30.0])]);
    assert_eq!(eval("10 [1 2 4] -"), vec![list(&[9.0, 8.0, 6.0])]);
    assert_eq!(eval("1 4 \u{f7}"), vec![n(0.25)]);
    assert_eq!(eval("[1 \u{af}2] neg"), vec![list(&[-1.0, 2.0])]);
    assert_eq!(eval("1.5 2.25 +"), vec![n(3.75)]);
    assert_eq!(
        eval("[[10] [20]] [1 2 3] +"),
        vec![table(&[2, 3], &[11.0, 12.0, 13.0, 21.0, 22.0, 23.0])]
    );
    assert_eq!(
        eval("[[1 2 3] [4 5 6]] [1 0 1] \u{d7}"),
        vec![table(&[2, 3], &[1.0, 0.0, 3.0, 4.0, 0.0, 6.0])]
    );
    assert_eq!(fails("[1 2] [1 2 3] +"), RuntimeError::ShapeMismatch);
    assert_eq!(fails("1 \"a\" +"), RuntimeError::TypeMismatch(Expected::NumericContents));
}

#[test]
fn shapes_and_rows() {
    assert_eq!(eval("[1 2 3] len"), vec![n(3.0)]);
    assert_eq!(eval("[[1 2 3] [4 5 6]] shape"), vec![list(&[2.0, 3.0])]);
    assert_eq!(eval("5 shape"), vec![list(&[])]);
    assert_eq!(eval("5 len"), vec![n(1.0)]);
    assert_eq!(eval("[1 2 3] reverse"), vec![list(&[3.0, 2.0, 1.0])]);
    assert_eq!(
        eval("[[1 2] [3 4] [5 6]] reverse"),
        vec![table(&[3, 2], &[5.0, 6.0, 3.0, 4.0, 1.0, 2.0])]
    );
    assert_eq!(eval("7 reverse"), vec![n(7.0)]);
    assert_eq!(eval("[1 2] [3] join"), vec![list(&[1.0, 2.0, 3.0])]);
    assert_eq!(eval("\"ab\" \"cd\" join"), vec![Value::Array(Array::string("abcd"))]);
    assert_eq!(fails("1 [2] join"), RuntimeError::RankTooLow);
}

#[test]
fn arrays_are_made_of_rows() {
    assert_eq!(eval("[[1 2] [3 4]]"), vec![table(&[2, 2], &[1.0, 2.0, 3.0, 4.0])]);
    assert_eq!(eval("1_2_3"), vec![list(&[1.0, 2.0, 3.0])]);
    assert_eq!(eval("[]"), vec![list(&[])]);
    assert_eq!(eval("[1 2 +]"), vec![list(&[3.0])]);
    assert_eq!(eval("[\"ab\" \"cd\"]"), vec![Value::Array(
        Array::new(vec![2, 2], Buffer::Char("abcd".chars().collect())).unwrap()
    )]);
    assert_eq!(fails("[[1 2] [3]]"), RuntimeError::ShapeMismatch);
    assert_eq!(fails("[1 \"a\"]"), RuntimeError::ShapeMismatch);
    assert_eq!(fails("[1 (2)]"), RuntimeError::TypeMismatch(Expected::Array));
    assert_eq!(
        stack_rows(&vec![n(1.0), n(2.0)]),
        Ok(Array::list(Buffer::Num(vec![1f64.to_bits(), 2f64.to_bits()])))
    );
}

#[test]
fn modifiers_call_their_functions() {
    assert_eq!(eval("[1 2 3 4] reduce +"), vec![n(10.0)]);
    assert_eq!(eval("[1 2 3 4] / \u{d7}"), vec![n(24.0)]);
    assert_eq!(eval("[[1 2] [3 4]] reduce +"), vec![list(&[4.0, 6.0])]);
    assert_eq!(eval("[5] reduce +"), vec![n(5.0)]);
    assert_eq!(eval("[] reduce +"), vec![list(&[])]);
    assert_eq!(eval("[1 2 3] each (2 \u{d7})"), vec![list(&[2.0, 4.0, 6.0])]);
    assert_eq!(eval("[[1 2] [3 4]] each neg"), vec![table(&[2, 2], &[-1.0, -2.0, -3.0, -4.0])]);
    assert_eq!(eval("3 fork (1 +) (2 \u{d7})"), vec![n(4.0), n(6.0)]);
    assert_eq!(eval("3 fork neg |"), vec![n(-3.0), n(3.0)]);
}

#[test]
fn names_are_bound_and_looked_up() {
    assert_eq!(eval("x = 5\nx x +"), vec![n(10.0)]);
    assert_eq!(eval("double = (2 \u{d7})\n4 double double"), vec![n(16.0)]);
    assert_eq!(eval("a = 1\nb = a 1 +\nb"), vec![n(2.0)]);
    assert_eq!(fails("x ="), RuntimeError::StackUnderflow(1));
    assert_eq!(RuntimeError::Unbound("y".to_string()).message(), "Unknown identifier `y`");
}

#[test]
fn modes_choose_what_runs() {
    let text = "1\n~~~\n2\n~~~\n---\n3\n---";
    assert_eq!(eval_in(text, RunMode::Normal).unwrap().0, vec![n(1.0), n(3.0)]);
    assert_eq!(eval_in(text, RunMode::Test).unwrap().0, vec![n(2.0)]);
    assert_eq!(eval_in(text, RunMode::All).unwrap().0, vec![n(1.0), n(2.0), n(3.0)]);
}

#[test]
fn the_stack_must_hold_what_is_taken() {
    assert_eq!(fails("+"), RuntimeError::StackUnderflow(1));
    assert_eq!(fails("1 +"), RuntimeError::StackUnderflow(2));
    assert_eq!(fails("dup"), RuntimeError::StackUnderflow(1));
    assert_eq!(fails("1 flip"), RuntimeError::StackUnderflow(2));
    assert_eq!(fails("println"), RuntimeError::StackUnderflow(1));
}

#[test]
fn a_primitive_changes_the_height_by_outputs_less_args() {
    let prims = [
        Primitive::Dup,
        Primitive::Over,
        Primitive::Flip,
        Primitive::Pop,
        Primitive::Len,
        Primitive::Shape,
        Primitive::Reverse,
        Primitive::Join,
        Primitive::Neg,
        Primitive::Add,
        Primitive::Sub,
        Primitive::Mul,
        Primitive::Div,
    ];
    for prim in prims {
        for extra in 0..3usize {
            let mut env = Env::new();
            for _ in 0..extra + prim.args() as usize {
                env.push(list(&[1.0, 2.0]));
            }
            let before = env.height();
            assert_eq!(call_primitive(prim, &mut env, &mut Floats), Ok(()), "{prim:?}");
            assert_eq!(
                env.height(),
                before - prim.args() as usize + prim.outputs().unwrap() as usize,
                "{prim:?}"
            );
        }
        let mut env = Env::new();
        for _ in 1..prim.args() {
            env.push(list(&[1.0]));
        }
        assert!(call_primitive(prim, &mut env, &mut Floats).is_err(), "{prim:?}");
    }
}

#[test]
fn a_modifier_does_not_run_by_itself() {
    for prim in [Primitive::Reduce, Primitive::Each, Primitive::Fork] {
        let mut env = Env::new();
        env.push(n(1.0));
        assert_eq!(
            call_primitive(prim, &mut env, &mut Floats),
            Err(RuntimeError::TypeMismatch(Expected::PurePrimitive))
        );
        assert_eq!(env.height(), 1);
    }
}

#[test]
fn a_function_must_keep_its_signature() {
    let items = parse(&lex("1 2 f", 0).unwrap(), &mut Floats).unwrap();
    let mut assembly = compile(&items, RunMode::Normal);
    // `f` is bound to a function that declares two arguments and one output.
    let adds = uiua::compile::Function {
        id: uiua::function::FunctionId { line: 9, index: 9 },
        signature: Some(Signature::new(2, 1)),
        code: vec![Instr::CallPrimitive(Primitive::Add)],
    };
    let drops = uiua::compile::Function {
        id: uiua::function::FunctionId { line: 9, index: 10 },
        signature: Some(Signature::new(2, 1)),
        code: vec![Instr::CallPrimitive(Primitive::Pop), Instr::CallPrimitive(Primitive::Pop)],
    };
    assembly.functions.push(adds);
    assembly.functions.push(drops);
    let run = |assembly: &Assembly, f: usize| {
        let mut machine = Machine::new();
        machine.globals.push(Some(Value::Func(assembly.functions[f].id)));
        let done = machine.run(assembly, &mut Console::default(), &mut Floats, 1000);
        (done, machine.env.take_stack())
    };
    let (done, stack) = run(&assembly, 0);
    assert!(done.is_ok());
    assert_eq!(stack, vec![n(3.0)]);
    let (done, _) = run(&assembly, 1);
    assert_eq!(done, Err(RuntimeError::SignatureMismatch(Signature::new(2, 1), 2, 0)));
}

#[test]
fn a_program_is_stopped_when_its_steps_are_used_up() {
    let mut machine = Machine::new();
    let done = load_str(
        &mut machine,
        "1 2 3",
        RunMode::Normal,
        &mut Console::default(),
        &mut Floats,
        2,
    );
    assert_eq!(done, Err(UiuaError::Runtime(RuntimeError::StepLimit)));
    let mut machine = Machine::new();
    let left = machine
        .run(&compile(&Vec::new(), RunMode::Normal), &mut Console::default(), &mut Floats, 10)
        .unwrap();
    assert_eq!(left, 9);
}

#[test]
fn a_damaged_assembly_is_refused() {
    let broken = |instr: Instr| {
        let assembly = Assembly {
            main: vec![instr, Instr::EndOfAssembly],
            functions: Vec::new(),
            constants: Vec::new(),
            globals: Vec::new(),
        };
        Machine::new().run(&assembly, &mut Console::default(), &mut Floats, 10)
    };
    assert_eq!(broken(Instr::PushConstant(0)), Err(RuntimeError::BadAssembly));
    assert_eq!(broken(Instr::PushFunction(3)), Err(RuntimeError::BadAssembly));
    assert_eq!(broken(Instr::LoadGlobal(0)), Err(RuntimeError::BadAssembly));
    assert_eq!(broken(Instr::EndArray), Err(RuntimeError::BadAssembly));
    assert_eq!(
        broken(Instr::ApplyModifier(Primitive::Add, None, None)),
        Err(RuntimeError::BadAssembly)
    );
}

#[test]
fn texts_that_are_no_programs_do_not_run() {
    assert!(matches!(
        eval_in("\"open", RunMode::Normal),
        Err(UiuaError::Format(LexError::UnterminatedString(_)))
    ));
    match eval_in("1 ]", RunMode::Normal) {
        Err(UiuaError::Parse(e)) => assert_eq!(e.fault, Fault::Unexpected),
        other => panic!("a parse error, not {other:?}"),
    }
}

#[test]
fn the_compiler_ends_the_program() {
    let items = parse(&lex("1 \"a\" x [2] (3) / + # c", 0).unwrap(), &mut Floats).unwrap();
    let assembly = compile(&items, RunMode::Normal);
    assert_eq!(
        assembly.main,
        vec![
            Instr::PushConstant(0),
            Instr::PushConstant(1),
            Instr::LoadGlobal(0),
            Instr::BeginArray,
            Instr::PushConstant(2),
            Instr::EndArray,
            Instr::PushFunction(0),
            Instr::ApplyModifier(Primitive::Reduce, Some(1), None),
            Instr::EndOfAssembly,
        ]
    );
    assert_eq!(assembly.constants, vec![n(1.0), Value::Array(Array::string("a")), n(2.0), n(3.0)]);
    assert_eq!(assembly.globals, vec!["x".to_string()]);
    assert_eq!(assembly.functions[0].code, vec![Instr::PushConstant(3)]);
    assert_eq!(assembly.functions[1].code, vec![Instr::CallPrimitive(Primitive::Add)]);
    assert_eq!(compile(&Vec::new(), RunMode::All).main, vec![Instr::EndOfAssembly]);
}

fn undefined(text: &str, mode: RunMode) -> (String, usize, usize) {
    match eval_in(text, mode) {
        Err(UiuaError::Compile(CompileError::UndefinedName(name, span))) => {
            (name, span.start.line, span.start.col)
        }
        other => panic!("an undefined name, not {other:?}"),
    }
}

#[test]
fn a_name_must_be_bound_before_it_is_looked_up() {
    assert_eq!(undefined("y", RunMode::Normal), ("y".to_string(), 0, 0));
    assert_eq!(undefined("x = x", RunMode::Normal), ("x".to_string(), 0, 4));
    assert_eq!(undefined("1 2\nx = 1\n[x (y)]", RunMode::Normal), ("y".to_string(), 2, 4));
    assert_eq!(undefined("f = (x +)\nx = 5", RunMode::Normal), ("x".to_string(), 0, 5));
    assert_eq!(undefined("a = 1\n3 fork b a", RunMode::Normal), ("b".to_string(), 1, 7));
    assert_eq!(undefined("1_z", RunMode::Normal), ("z".to_string(), 0, 2));
}

#[test]
fn nothing_runs_when_a_name_is_undefined() {
    let (stack, printed) = match eval_in("\"seen\" println\nx = 1", RunMode::Normal) {
        Ok(left) => left,
        Err(e) => panic!("{e:?}"),
    };
    assert_eq!((stack.len(), printed.as_str()), (0, "seen\n"));
    let mut machine = Machine::new();
    let mut console = Console::default();
    let done = load_str(
        &mut machine,
        "\"seen\" println\ny",
        RunMode::Normal,
        &mut console,
        &mut Floats,
        1000,
    );
    assert!(matches!(done, Err(UiuaError::Compile(_))));
    assert_eq!(console.printed, "");
    assert_eq!(machine.env.height(), 0);
}

#[test]
fn a_program_that_is_run_directly_may_find_a_name_unbound() {
    let assembly = Assembly {
        main: vec![Instr::LoadGlobal(0), Instr::EndOfAssembly],
        functions: vec![],
        constants: vec![],
        globals: vec!["y".to_string()],
    };
    let mut machine = Machine::new();
    let mut console = Console::default();
    assert_eq!(
        machine.run(&assembly, &mut console, &mut Floats, 10),
        Err(RuntimeError::Unbound("y".to_string()))
    );
}

#[test]
fn a_function_is_called_by_its_place() {
    let double = Function {
        id: FunctionId { line: 0, index: 0 },
        signature: Some(Signature::new(1, 2)),
        code: vec![Instr::CallPrimitive(Primitive::Dup)],
    };
    let assembly = Assembly {
        main: vec![Instr::PushConstant(0), Instr::CallFunction(0), Instr::EndOfAssembly],
        functions: vec![double],
        constants: vec![n(7.0)],
        globals: vec![],
    };
    let mut machine = Machine::new();
    let mut console = Console::default();
    assert_eq!(machine.run(&assembly, &mut console, &mut Floats, 10), Ok(5));
    assert_eq!(machine.env.take_stack(), vec![n(7.0), n(7.0)]);
    let broken = Assembly {
        main: vec![Instr::CallFunction(3)],
        functions: vec![],
        constants: vec![],
        globals: vec![],
    };
    assert_eq!(
        machine.run(&broken, &mut console, &mut Floats, 10),
        Err(RuntimeError::BadAssembly)
    );
}

#[test]
fn a_timed_machine_records_each_kind_of_instruction_once() {
    let mut machine = Machine::timed();
    let mut console = Console::default();
    load_str(&mut machine, "1 2 + dup dup pop", RunMode::Normal, &mut console, &mut Floats, 1000)
        .unwrap();
    let totals = machine.timings.as_ref().unwrap().totals();
    let names: Vec<&str> = totals.iter().map(|(name, _)| name.as_str()).collect();
    assert_eq!(names, vec!["push", "add", "dup", "pop"]);
    let mut plain = Machine::new();
    load_str(&mut plain, "1 2 +", RunMode::Normal, &mut console, &mut Floats, 1000).unwrap();
    assert!(plain.timings.is_none());
}

#[test]
fn times_are_summed_by_name() {
    let mut timings = Timings::new();
    timings.record("add", 5);
    timings.record("dup", 7);
    timings.record("add", 11);
    timings.record("dup", u128::MAX);
    assert_eq!(
        timings.totals(),
        vec![("add".to_string(), 16), ("dup".to_string(), u128::MAX)]
    );
    assert_eq!(name_of(Instr::CallPrimitive(Primitive::Flip)), "flip");
    assert_eq!(name_of(Instr::BeginArray), "begin array");
    assert_eq!(name_of(Instr::CallFunction(0)), "call");
}
