use uiua::io::{time_number, LATEST};
use std::collections::BTreeMap;

use uiua::backend::IoBackend;
use uiua::error::{Expected, RuntimeError};
use uiua::imports::ImportCache;
use uiua::io::{bytes_of, read_text, text_of, IoOp, IoRequest, IoResponse};
use uiua::kernel::Kernel;
use uiua::picture::Image;
use uiua::value::{Array, Buffer, Value};
use uiua::vm::Env;

/// Arithmetic by the floats of the machine.
struct Floats;

impl Kernel for Floats {
    fn read(&mut self, literal: &str) -> u64 {
        literal.replace('\u{af}', "-").parse::<f64>().unwrap().to_bits()
    }
    fn text(&mut self, a: u64) -> String {
        f64::from_bits(a).to_string()
    }
    fn neg(&mut self, a: u64) -> u64 {
        (-f64::from_bits(a)).to_bits()
    }
    fn add(&mut self, a: u64, b: u64) -> u64 {
        (f64::from_bits(a) + f64::from_bits(b)).to_bits()
    }
    fn sub(&mut self, a: u64, b: u64) -> u64 {
        (f64::from_bits(a) - f64::from_bits(b)).to_bits()
    }
    fn mul(&mut self, a: u64, b: u64) -> u64 {
        (f64::from_bits(a) * f64::from_bits(b)).to_bits()
    }
    fn div(&mut self, a: u64, b: u64) -> u64 {
        (f64::from_bits(a) / f64::from_bits(b)).to_bits()
    }
}

/// A backend that is all memory: what is printed is kept, files live in a
/// map, and the one importable file leaves the number ten.
struct MemoryIo {
    printed: String,
    input: Vec<String>,
    files: BTreeMap<String, Vec<u8>>,
    vars: BTreeMap<String, String>,
    imports: ImportCache,
    runs: usize,
    shown: Vec<Image>,
}

impl MemoryIo {
    fn new() -> Self {
        MemoryIo {
            printed: String::new(),
            input: Vec::new(),
            files: BTreeMap::new(),
            vars: BTreeMap::new(),
            imports: ImportCache::new(),
            runs: 0,
            shown: Vec::new(),
        }
    }
}

impl IoBackend for MemoryIo {
    fn print_str(&mut self, s: &str) {
        self.printed.push_str(s);
    }
    fn rand(&mut self) -> u64 {
        0.25f64.to_bits()
    }
    fn show_image(&mut self, image: Image, _env: &Env) -> Result<(), RuntimeError> {
        self.shown.push(image);
        Ok(())
    }
    fn scan_line(&mut self) -> String {
        if self.input.is_empty() {
            String::new()
        } else {
            self.input.remove(0)
        }
    }
    fn import(&mut self, name: &str, _env: &Env) -> Result<Vec<Value>, RuntimeError> {
        if let Some(stack) = self.imports.lookup(name) {
            return Ok(stack);
        }
        if name != "lib.ua" {
            return Err(RuntimeError::Import(name.to_string(), "no such file".to_string()));
        }
        self.runs += 1;
        self.print_str("running lib.ua\n");
        let stack = vec![Value::Array(Array::number(10f64.to_bits()))];
        Ok(self.imports.remember(name, stack))
    }
    fn var(&mut self, name: &str) -> Option<String> {
        self.vars.get(name).cloned()
    }
    fn args(&mut self) -> Vec<String> {
        vec!["prog".to_string(), "--flag".to_string()]
    }
    fn file_exists(&self, path: &str) -> bool {
        self.files.contains_key(path)
    }
    fn list_dir(&self, path: &str, _env: &Env) -> Result<Vec<String>, RuntimeError> {
        let prefix = format!("{path}/");
        Ok(self.files.keys().filter(|k| k.starts_with(&prefix)).cloned().collect())
    }
    fn is_file(&self, path: &str, _env: &Env) -> Result<bool, RuntimeError> {
        Ok(self.files.contains_key(path))
    }
    fn read_file(&mut self, path: &str, _env: &Env) -> Result<Vec<u8>, RuntimeError> {
        self.files.get(path).cloned().ok_or_else(|| RuntimeError::Io(format!("{path} not found")))
    }
    fn write_file(&mut self, path: &str, contents: Vec<u8>, _env: &Env) -> Result<(), RuntimeError> {
        self.files.insert(path.to_string(), contents);
        Ok(())
    }
}

/// A backend that offers only what it must.
struct BareIo;

impl IoBackend for BareIo {
    fn print_str(&mut self, _s: &str) {}
    fn rand(&mut self) -> u64 {
        0
    }
}

fn string(s: &str) -> Value {
    Value::Array(Array::string(s))
}

fn number(x: f64) -> Value {
    Value::Array(Array::number(x.to_bits()))
}

fn numbers(xs: &[f64]) -> Value {
    Value::Array(Array::list(Buffer::Num(xs.iter().map(|x| x.to_bits()).collect())))
}

fn env_with(values: Vec<Value>) -> Env {
    let mut env = Env::new();
    for v in values {
        env.push(v);
    }
    env
}

fn text(value: &Value) -> String {
    value.as_chars().expect("a string").iter().collect()
}

const ALL: [IoOp; 20] = [
    IoOp::Show,
    IoOp::Print,
    IoOp::Println,
    IoOp::ScanLn,
    IoOp::Args,
    IoOp::Var,
    IoOp::Rand,
    IoOp::FReadStr,
    IoOp::FWriteStr,
    IoOp::FReadBytes,
    IoOp::FWriteBytes,
    IoOp::FLines,
    IoOp::FExists,
    IoOp::FListDir,
    IoOp::FIsFile,
    IoOp::Import,
    IoOp::Now,
    IoOp::ImRead,
    IoOp::ImWrite,
    IoOp::ImShow,
];

#[test]
fn every_operation_is_found_by_its_name() {
    for op in ALL {
        assert_eq!(IoOp::from_name(op.name()), Some(op));
    }
    assert_eq!(IoOp::from_name("show"), Some(IoOp::Show));
    assert_eq!(IoOp::from_name("imwrite"), Some(IoOp::ImWrite));
    assert_eq!(IoOp::from_name("Show"), None);
    assert_eq!(IoOp::from_name(""), None);
    assert_eq!(IoOp::from_name("printl"), None);
}

#[test]
fn arities_follow_the_table() {
    let table: [(IoOp, u8, Option<u8>); 20] = [
        (IoOp::Show, 1, Some(0)),
        (IoOp::Print, 1, Some(0)),
        (IoOp::Println, 1, Some(0)),
        (IoOp::ScanLn, 0, Some(1)),
        (IoOp::Args, 0, Some(1)),
        (IoOp::Var, 1, Some(1)),
        (IoOp::Rand, 0, Some(1)),
        (IoOp::Now, 0, Some(1)),
        (IoOp::FReadStr, 1, Some(1)),
        (IoOp::FReadBytes, 1, Some(1)),
        (IoOp::FLines, 1, Some(1)),
        (IoOp::FWriteStr, 2, Some(0)),
        (IoOp::FWriteBytes, 2, Some(0)),
        (IoOp::FExists, 1, Some(1)),
        (IoOp::FIsFile, 1, Some(1)),
        (IoOp::FListDir, 1, Some(1)),
        (IoOp::Import, 1, None),
        (IoOp::ImRead, 1, Some(1)),
        (IoOp::ImWrite, 2, Some(0)),
        (IoOp::ImShow, 1, Some(0)),
    ];
    for (op, args, outputs) in table {
        assert_eq!(op.args(), args, "args of {op:?}");
        assert_eq!(op.outputs(), outputs, "outputs of {op:?}");
    }
}

#[test]
fn print_writes_the_string() {
    let mut io = MemoryIo::new();
    let mut env = env_with(vec![string("hello")]);
    assert_eq!(IoOp::Print.run(&mut env, &mut io, &mut Floats), Ok(()));
    assert_eq!(io.printed, "hello");
    assert_eq!(env.height(), 0);
}

#[test]
fn println_and_show_end_the_line() {
    let mut io = MemoryIo::new();
    let mut env = env_with(vec![numbers(&[1.0, 2.0, 3.0]), string("hi")]);
    assert_eq!(IoOp::Println.run(&mut env, &mut io, &mut Floats), Ok(()));
    assert_eq!(IoOp::Show.run(&mut env, &mut io, &mut Floats), Ok(()));
    assert_eq!(io.printed, "hi\n1 2 3\n");
}

#[test]
fn scanln_pushes_the_line_and_the_empty_string_at_the_end() {
    let mut io = MemoryIo::new();
    io.input.push("first".to_string());
    let mut env = Env::new();
    assert_eq!(IoOp::ScanLn.run(&mut env, &mut io, &mut Floats), Ok(()));
    assert_eq!(IoOp::ScanLn.run(&mut env, &mut io, &mut Floats), Ok(()));
    assert_eq!(text(&env.pop(1).unwrap()), "");
    assert_eq!(text(&env.pop(1).unwrap()), "first");
}

#[test]
fn args_pushes_a_list_of_strings() {
    let mut io = MemoryIo::new();
    let mut env = Env::new();
    assert_eq!(IoOp::Args.run(&mut env, &mut io, &mut Floats), Ok(()));
    let Value::Array(a) = env.pop(1).unwrap() else { panic!("an array") };
    assert_eq!(a.shape(), &vec![2]);
    assert_eq!(a.data(), &Buffer::Str(vec!["prog".to_string(), "--flag".to_string()]));
}

#[test]
fn var_gives_the_value_or_the_empty_string() {
    let mut io = MemoryIo::new();
    io.vars.insert("HOME".to_string(), "/root".to_string());
    let mut env = env_with(vec![string("UNSET"), string("HOME")]);
    assert_eq!(IoOp::Var.run(&mut env, &mut io, &mut Floats), Ok(()));
    assert_eq!(text(&env.pop(1).unwrap()), "/root");
    assert_eq!(IoOp::Var.run(&mut env, &mut io, &mut Floats), Ok(()));
    assert_eq!(text(&env.pop(1).unwrap()), "");
}

#[test]
fn var_wants_a_string() {
    let mut io = MemoryIo::new();
    let mut env = env_with(vec![number(1.0)]);
    assert_eq!(
        IoOp::Var.run(&mut env, &mut io, &mut Floats),
        Err(RuntimeError::TypeMismatch(Expected::VarName))
    );
    assert_eq!(env.height(), 0);
    assert_eq!(
        RuntimeError::TypeMismatch(Expected::VarName).message(),
        "Argument to var must be a string"
    );
}

#[test]
fn rand_and_now_push_a_number() {
    let mut io = MemoryIo::new();
    let mut env = Env::new();
    assert_eq!(IoOp::Rand.run(&mut env, &mut io, &mut Floats), Ok(()));
    assert_eq!(env.pop(1).unwrap(), number(0.25));
    assert_eq!(IoOp::Now.run(&mut env, &mut io, &mut Floats), Ok(()));
    let Value::Array(a) = env.pop(1).unwrap() else { panic!("an array") };
    let Buffer::Num(n) = a.data() else { panic!("a number") };
    assert!(a.shape().is_empty());
    assert!(f64::from_bits(n[0]) > 1.6e12);
}

#[test]
fn a_written_string_is_read_back() {
    let mut io = MemoryIo::new();
    let mut env = env_with(vec![string("grüße\nwelt"), string("out.txt")]);
    assert_eq!(IoOp::FWriteStr.run(&mut env, &mut io, &mut Floats), Ok(()));
    assert_eq!(env.height(), 0);
    assert_eq!(io.files["out.txt"], "grüße\nwelt".as_bytes());
    env.push(string("out.txt"));
    assert_eq!(IoOp::FReadStr.run(&mut env, &mut io, &mut Floats), Ok(()));
    assert_eq!(text(&env.pop(1).unwrap()), "grüße\nwelt");
    env.push(string("out.txt"));
    assert_eq!(IoOp::FLines.run(&mut env, &mut io, &mut Floats), Ok(()));
    let Value::Array(a) = env.pop(1).unwrap() else { panic!("an array") };
    assert_eq!(a.data(), &Buffer::Str(vec!["grüße".to_string(), "welt".to_string()]));
}

#[test]
fn write_operations_take_the_path_from_the_top() {
    let mut io = MemoryIo::new();
    let mut env = env_with(vec![string("bottom"), string("contents"), string("path")]);
    assert_eq!(IoOp::FWriteStr.run(&mut env, &mut io, &mut Floats), Ok(()));
    assert_eq!(io.files["path"], b"contents");
    assert_eq!(env.height(), 1);
}

#[test]
fn write_operations_check_the_path_before_the_contents() {
    let mut io = MemoryIo::new();
    let mut env = env_with(vec![number(1.0), number(2.0)]);
    assert_eq!(
        IoOp::FWriteStr.run(&mut env, &mut io, &mut Floats),
        Err(RuntimeError::TypeMismatch(Expected::Path))
    );
    let mut env = env_with(vec![number(1.0), string("p")]);
    assert_eq!(
        IoOp::FWriteStr.run(&mut env, &mut io, &mut Floats),
        Err(RuntimeError::TypeMismatch(Expected::StringContents))
    );
    let mut env = env_with(vec![string("text"), string("p")]);
    assert_eq!(
        IoOp::FWriteBytes.run(&mut env, &mut io, &mut Floats),
        Err(RuntimeError::TypeMismatch(Expected::NumericContents))
    );
    assert!(io.files.is_empty());
}

#[test]
fn fwritebytes_cuts_numbers_down_to_bytes() {
    let mut io = MemoryIo::new();
    let mut env = env_with(vec![numbers(&[0.0, 1.9, 255.0, 300.0, -4.0, f64::NAN]), string("n")]);
    assert_eq!(IoOp::FWriteBytes.run(&mut env, &mut io, &mut Floats), Ok(()));
    assert_eq!(io.files["n"], vec![0, 1, 255, 255, 0, 0]);
    let mut env = env_with(vec![Value::Array(Array::bytes(vec![7, 8, 9])), string("b")]);
    assert_eq!(IoOp::FWriteBytes.run(&mut env, &mut io, &mut Floats), Ok(()));
    assert_eq!(io.files["b"], vec![7, 8, 9]);
    env.push(string("b"));
    assert_eq!(IoOp::FReadBytes.run(&mut env, &mut io, &mut Floats), Ok(()));
    assert_eq!(env.pop(1).unwrap(), Value::Array(Array::bytes(vec![7, 8, 9])));
}

#[test]
fn bytes_of_refuses_what_is_no_array_of_numbers() {
    assert_eq!(bytes_of(&numbers(&[2.5])), Ok(vec![2]));
    assert_eq!(
        bytes_of(&string("x")),
        Err(RuntimeError::TypeMismatch(Expected::NumericContents))
    );
    assert_eq!(
        bytes_of(&Value::Func(uiua::function::FunctionId { line: 0, index: 3 })),
        Err(RuntimeError::TypeMismatch(Expected::ArrayContents))
    );
}

#[test]
fn freadstr_reports_bytes_that_are_no_text() {
    let mut io = MemoryIo::new();
    io.files.insert("bad".to_string(), vec![b'a', 0xff, b'b']);
    let mut env = env_with(vec![string("bad")]);
    let expected = format!(
        "Failed to read file: {}",
        String::from_utf8(vec![b'a', 0xff, b'b']).unwrap_err()
    );
    assert_eq!(IoOp::FReadStr.run(&mut env, &mut io, &mut Floats), Err(RuntimeError::Io(expected.clone())));
    assert_eq!(read_text(vec![b'a', 0xff, b'b']), Err(RuntimeError::Io(expected)));
    assert_eq!(read_text(vec![0xe2, 0x82, 0xac]), Ok("€".to_string()));
}

#[test]
fn a_missing_file_fails_with_the_error_of_the_backend() {
    let mut io = MemoryIo::new();
    let mut env = env_with(vec![string("keep"), string("nowhere")]);
    assert_eq!(
        IoOp::FReadBytes.run(&mut env, &mut io, &mut Floats),
        Err(RuntimeError::Io("nowhere not found".to_string()))
    );
    assert_eq!(env.height(), 1);
}

#[test]
fn fexists_and_fisfile_push_a_truth_value() {
    let mut io = MemoryIo::new();
    io.files.insert("there".to_string(), Vec::new());
    let mut env = env_with(vec![string("gone"), string("there")]);
    assert_eq!(IoOp::FExists.run(&mut env, &mut io, &mut Floats), Ok(()));
    assert_eq!(env.pop(1).unwrap(), Value::Array(Array::byte(1)));
    assert_eq!(IoOp::FIsFile.run(&mut env, &mut io, &mut Floats), Ok(()));
    assert_eq!(env.pop(1).unwrap(), Value::Array(Array::boolean(false)));
}

#[test]
fn flistdir_pushes_the_entries() {
    let mut io = MemoryIo::new();
    io.files.insert("d/a".to_string(), Vec::new());
    io.files.insert("d/b".to_string(), Vec::new());
    io.files.insert("e/c".to_string(), Vec::new());
    let mut env = env_with(vec![string("d")]);
    assert_eq!(IoOp::FListDir.run(&mut env, &mut io, &mut Floats), Ok(()));
    assert_eq!(
        env.pop(1).unwrap(),
        Value::Array(Array::strings(vec!["d/a".to_string(), "d/b".to_string()]))
    );
}

#[test]
fn import_replays_the_stack_and_runs_the_file_once() {
    let mut io = MemoryIo::new();
    let mut env = env_with(vec![string("lib.ua")]);
    assert_eq!(IoOp::Import.run(&mut env, &mut io, &mut Floats), Ok(()));
    assert_eq!(env.pop(1).unwrap(), number(10.0));
    env.push(string("lib.ua"));
    assert_eq!(IoOp::Import.run(&mut env, &mut io, &mut Floats), Ok(()));
    assert_eq!(env.pop(1).unwrap(), number(10.0));
    assert_eq!(io.runs, 1);
    assert_eq!(io.printed, "running lib.ua\n");
}

#[test]
fn import_pushes_the_imported_stack_in_order() {
    let mut env = env_with(vec![string("below")]);
    let values = vec![number(1.0), string("two"), number(3.0)];
    assert_eq!(IoOp::Import.complete(&mut env, IoResponse::Values(values)), Ok(()));
    assert_eq!(env.take_stack(), vec![string("below"), number(1.0), string("two"), number(3.0)]);
}

#[test]
fn import_of_a_missing_file_wraps_the_error() {
    let mut io = MemoryIo::new();
    let mut env = env_with(vec![string("other.ua")]);
    let err = IoOp::Import.run(&mut env, &mut io, &mut Floats).unwrap_err();
    assert_eq!(err.message(), "Failed to import other.ua: no such file");
    let mut env = env_with(vec![number(1.0)]);
    assert_eq!(
        IoOp::Import.run(&mut env, &mut io, &mut Floats),
        Err(RuntimeError::TypeMismatch(Expected::ImportPath))
    );
}

#[test]
fn an_empty_stack_underflows_at_the_first_argument() {
    let mut io = MemoryIo::new();
    for op in ALL {
        if op.args() == 0 {
            continue;
        }
        let mut env = Env::new();
        assert_eq!(op.run(&mut env, &mut io, &mut Floats), Err(RuntimeError::StackUnderflow(1)), "{op:?}");
    }
}

#[test]
fn a_stack_of_one_underflows_at_the_second_argument_and_loses_the_first() {
    let mut io = MemoryIo::new();
    for op in [IoOp::FWriteStr, IoOp::FWriteBytes, IoOp::ImWrite] {
        let mut env = env_with(vec![string("path")]);
        assert_eq!(op.run(&mut env, &mut io, &mut Floats), Err(RuntimeError::StackUnderflow(2)), "{op:?}");
        assert_eq!(env.height(), 0);
    }
    assert_eq!(
        RuntimeError::StackUnderflow(2).message(),
        "Stack was empty when evaluating argument 2"
    );
}

#[test]
fn success_changes_the_height_by_outputs_less_args() {
    let mut io = MemoryIo::new();
    io.files.insert("f".to_string(), b"x\ny".to_vec());
    let picture = || Value::Array(Array::new(vec![1, 1, 3], Buffer::Byte(vec![1, 2, 3])).unwrap());
    let png = uiua::picture::value_to_image_bytes(&picture(), uiua::picture::ImageFormat::Png).unwrap();
    io.files.insert("p.png".to_string(), png);
    for op in ALL {
        let mut env = env_with(vec![string("base"), string("base")]);
        match op {
            IoOp::FWriteStr => {
                env.push(string("contents"));
                env.push(string("f"));
            }
            IoOp::FWriteBytes => {
                env.push(numbers(&[1.0]));
                env.push(string("f"));
            }
            IoOp::ImWrite => {
                env.push(picture());
                env.push(string("q.png"));
            }
            IoOp::ImShow => env.push(picture()),
            IoOp::ImRead => env.push(string("p.png")),
            IoOp::Import => env.push(string("lib.ua")),
            _ if op.args() == 1 => env.push(string("f")),
            _ => {}
        }
        let before = env.height();
        assert_eq!(op.run(&mut env, &mut io, &mut Floats), Ok(()), "{op:?}");
        if let Some(outputs) = op.outputs() {
            assert_eq!(
                env.height(),
                before - op.args() as usize + outputs as usize,
                "{op:?}"
            );
        }
    }
}

#[test]
fn a_backend_without_files_refuses_them() {
    let mut io = BareIo;
    let cases = [
        (IoOp::FReadStr, "File IO not supported in this environment"),
        (IoOp::FReadBytes, "File IO not supported in this environment"),
        (IoOp::FLines, "File IO not supported in this environment"),
        (IoOp::FListDir, "File IO not supported in this environment"),
        (IoOp::FIsFile, "File IO not supported in this environment"),
        (IoOp::ImRead, "File IO not supported in this environment"),
        (IoOp::Import, "Import not supported in this environment"),
    ];
    for (op, message) in cases {
        let mut env = env_with(vec![string("x")]);
        assert_eq!(op.run(&mut env, &mut io, &mut Floats), Err(RuntimeError::Io(message.to_string())), "{op:?}");
    }
    let mut env = env_with(vec![string("c"), string("x")]);
    assert_eq!(
        IoOp::FWriteStr.run(&mut env, &mut io, &mut Floats),
        Err(RuntimeError::Io("File IO not supported in this environment".to_string()))
    );
    let mut env = env_with(vec![Value::Array(
        Array::new(vec![1, 1, 1], Buffer::Byte(vec![9])).unwrap(),
    )]);
    assert_eq!(
        IoOp::ImShow.run(&mut env, &mut io, &mut Floats),
        Err(RuntimeError::Io("Showing images not supported in this environment".to_string()))
    );
}

#[test]
fn a_backend_without_console_answers_with_nothing() {
    let mut io = BareIo;
    let mut env = env_with(vec![string("x"), string("HOME")]);
    assert_eq!(IoOp::Var.run(&mut env, &mut io, &mut Floats), Ok(()));
    assert_eq!(text(&env.pop(1).unwrap()), "");
    assert_eq!(IoOp::FExists.run(&mut env, &mut io, &mut Floats), Ok(()));
    assert_eq!(env.pop(1).unwrap(), Value::Array(Array::boolean(false)));
    assert_eq!(IoOp::ScanLn.run(&mut env, &mut io, &mut Floats), Ok(()));
    assert_eq!(text(&env.pop(1).unwrap()), "");
    assert_eq!(IoOp::Args.run(&mut env, &mut io, &mut Floats), Ok(()));
    assert_eq!(env.pop(1).unwrap(), Value::Array(Array::strings(Vec::new())));
}

#[test]
fn a_borrowed_backend_is_a_backend() {
    fn run_on<B: IoBackend>(mut io: B, env: &mut Env) -> Result<(), RuntimeError> {
        IoOp::Print.run(env, &mut io, &mut Floats)
    }
    let mut io = MemoryIo::new();
    let mut env = env_with(vec![string("through")]);
    assert_eq!(run_on(&mut io, &mut env), Ok(()));
    assert_eq!(io.printed, "through");
}

#[test]
fn prepare_says_what_is_asked() {
    let mut env = env_with(vec![string("a.txt")]);
    assert_eq!(IoOp::FExists.prepare(&mut env), Ok(IoRequest::Exists("a.txt".to_string())));
    let mut env = env_with(vec![string("a.txt")]);
    assert_eq!(IoOp::FLines.prepare(&mut env), Ok(IoRequest::ReadFile("a.txt".to_string())));
    let mut env = env_with(vec![string("héllo"), string("a.txt")]);
    assert_eq!(
        IoOp::FWriteStr.prepare(&mut env),
        Ok(IoRequest::WriteFile("a.txt".to_string(), "héllo".as_bytes().to_vec()))
    );
    let mut env = Env::new();
    assert_eq!(IoOp::Now.prepare(&mut env), Ok(IoRequest::Now));
}

#[test]
fn complete_refuses_an_answer_of_the_wrong_kind() {
    let mut env = Env::new();
    assert_eq!(
        IoOp::Rand.complete(&mut env, IoResponse::Text("x".to_string())),
        Err(RuntimeError::UnexpectedResponse)
    );
    assert_eq!(
        IoOp::Print.complete(&mut env, IoResponse::Number(0)),
        Err(RuntimeError::UnexpectedResponse)
    );
    assert_eq!(env.height(), 0);
}

#[test]
fn text_of_takes_every_array_of_characters() {
    assert_eq!(text_of(&string("abc"), Expected::Path), Ok("abc".to_string()));
    assert_eq!(
        text_of(&Value::Array(Array::character('x')), Expected::Path),
        Ok("x".to_string())
    );
    assert_eq!(
        text_of(&Value::Array(Array::bytes(vec![65])), Expected::Path),
        Err(RuntimeError::TypeMismatch(Expected::Path))
    );
}

#[test]
fn a_variable_that_is_not_set_is_the_empty_text() {
    assert_eq!(uiua::io::var_answer(None), "");
    assert_eq!(uiua::io::var_answer(Some("x y".to_string())), "x y");
}

#[test]
fn the_time_is_a_whole_number_of_milliseconds() {
    assert_eq!(time_number(None), 0f64.to_bits());
    assert_eq!(time_number(Some(0)), 0f64.to_bits());
    assert_eq!(time_number(Some(1_700_000_000_123)), 1_700_000_000_123f64.to_bits());
    assert_eq!(time_number(Some(LATEST as u128)), (LATEST as f64).to_bits());
    assert_eq!(time_number(Some(u128::MAX)), (LATEST as f64).to_bits());
}
