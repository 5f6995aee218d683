//! The effect operations: what each takes from the stack, what it asks of
//! the backend, and what it leaves on the stack.
//!
//! An operation runs in three steps. `prepare` takes the arguments off the
//! stack, checks them and says what is asked of the host. `perform` hands that
//! request to the backend. `complete` turns the answer into values and puts
//! them on the stack. `run` is the three in a row.

use vstd::prelude::*;
use vstd::string::*;
use vstd::utf8::*;
use crate::backend::IoBackend;
use crate::error::{Expected, RuntimeError};
use crate::kernel::Kernel;
use crate::number::{as_byte, from_whole, of_whole, to_byte};
use crate::picture::{
    encoded_image,
    format_named,
    image_from_bytes,
    image_of,
    picture_read,
    starts_with,
    suffix,
    value_to_image,
    value_to_image_bytes,
    Image,
    ImageFormat,
    ImageView,
};
use crate::show::{shows_value, value_text};
use crate::text::{
    chars_of,
    lines_of,
    push_str,
    same_text,
    split_lines,
    string_from_chars,
    string_from_utf8,
    utf8_error_text,
};
use crate::value::{
    strings_view,
    Array,
    ArrayView,
    Buffer,
    BufferView,
    Value,
    ValueView,
};
use crate::vm::{values_view, Env};

verus! {

/// The effect operations.
#[derive(Clone, Copy, Debug, PartialEq, Eq, PartialOrd, Ord, Hash, Structural)]
pub enum IoOp {
    Show,
    Print,
    Println,
    ScanLn,
    Args,
    Var,
    Rand,
    FReadStr,
    FWriteStr,
    FReadBytes,
    FWriteBytes,
    FLines,
    FExists,
    FListDir,
    FIsFile,
    Import,
    Now,
    ImRead,
    ImWrite,
    ImShow,
}

impl IoOp {
    /// The name of the operation in source text.
    pub open spec fn name_spec(self) -> Seq<char> {
        match self {
            IoOp::Show => "show"@,
            IoOp::Print => "print"@,
            IoOp::Println => "println"@,
            IoOp::ScanLn => "scanln"@,
            IoOp::Args => "args"@,
            IoOp::Var => "var"@,
            IoOp::Rand => "rand"@,
            IoOp::FReadStr => "freadstr"@,
            IoOp::FWriteStr => "fwritestr"@,
            IoOp::FReadBytes => "freadbytes"@,
            IoOp::FWriteBytes => "fwritebytes"@,
            IoOp::FLines => "flines"@,
            IoOp::FExists => "fexists"@,
            IoOp::FListDir => "flistdir"@,
            IoOp::FIsFile => "fisfile"@,
            IoOp::Import => "import"@,
            IoOp::Now => "now"@,
            IoOp::ImRead => "imread"@,
            IoOp::ImWrite => "imwrite"@,
            IoOp::ImShow => "imshow"@,
        }
    }

    /// The operation of the given name, if there is one.
    pub open spec fn from_name_spec(name: Seq<char>) -> Option<IoOp> {
        if name == "show"@ {
            Some(IoOp::Show)
        } else if name == "print"@ {
            Some(IoOp::Print)
        } else if name == "println"@ {
            Some(IoOp::Println)
        } else if name == "scanln"@ {
            Some(IoOp::ScanLn)
        } else if name == "args"@ {
            Some(IoOp::Args)
        } else if name == "var"@ {
            Some(IoOp::Var)
        } else if name == "rand"@ {
            Some(IoOp::Rand)
        } else if name == "freadstr"@ {
            Some(IoOp::FReadStr)
        } else if name == "fwritestr"@ {
            Some(IoOp::FWriteStr)
        } else if name == "freadbytes"@ {
            Some(IoOp::FReadBytes)
        } else if name == "fwritebytes"@ {
            Some(IoOp::FWriteBytes)
        } else if name == "flines"@ {
            Some(IoOp::FLines)
        } else if name == "fexists"@ {
            Some(IoOp::FExists)
        } else if name == "flistdir"@ {
            Some(IoOp::FListDir)
        } else if name == "fisfile"@ {
            Some(IoOp::FIsFile)
        } else if name == "import"@ {
            Some(IoOp::Import)
        } else if name == "now"@ {
            Some(IoOp::Now)
        } else if name == "imread"@ {
            Some(IoOp::ImRead)
        } else if name == "imwrite"@ {
            Some(IoOp::ImWrite)
        } else if name == "imshow"@ {
            Some(IoOp::ImShow)
        } else {
            None
        }
    }

    /// How many values the operation takes from the stack.
    pub open spec fn args_spec(self) -> nat {
        match self {
            IoOp::ScanLn | IoOp::Args | IoOp::Rand | IoOp::Now => 0,
            IoOp::FWriteStr | IoOp::FWriteBytes | IoOp::ImWrite => 2,
            _ => 1,
        }
    }

    /// How many values the operation leaves on the stack; `None` where the
    /// number is not fixed.
    pub open spec fn outputs_spec(self) -> Option<nat> {
        match self {
            IoOp::Show | IoOp::Print | IoOp::Println | IoOp::ImShow => Some(0),
            IoOp::FWriteStr | IoOp::FWriteBytes | IoOp::ImWrite => Some(0),
            IoOp::Import => None,
            _ => Some(1),
        }
    }

    /// The operation of the given name, if there is one.
    pub fn from_name(s: &str) -> (op: Option<IoOp>)
        ensures
            op == IoOp::from_name_spec(s@),
    {
        if same_text(s, "show") {
            Some(IoOp::Show)
        } else if same_text(s, "print") {
            Some(IoOp::Print)
        } else if same_text(s, "println") {
            Some(IoOp::Println)
        } else if same_text(s, "scanln") {
            Some(IoOp::ScanLn)
        } else if same_text(s, "args") {
            Some(IoOp::Args)
        } else if same_text(s, "var") {
            Some(IoOp::Var)
        } else if same_text(s, "rand") {
            Some(IoOp::Rand)
        } else if same_text(s, "freadstr") {
            Some(IoOp::FReadStr)
        } else if same_text(s, "fwritestr") {
            Some(IoOp::FWriteStr)
        } else if same_text(s, "freadbytes") {
            Some(IoOp::FReadBytes)
        } else if same_text(s, "fwritebytes") {
            Some(IoOp::FWriteBytes)
        } else if same_text(s, "flines") {
            Some(IoOp::FLines)
        } else if same_text(s, "fexists") {
            Some(IoOp::FExists)
        } else if same_text(s, "flistdir") {
            Some(IoOp::FListDir)
        } else if same_text(s, "fisfile") {
            Some(IoOp::FIsFile)
        } else if same_text(s, "import") {
            Some(IoOp::Import)
        } else if same_text(s, "now") {
            Some(IoOp::Now)
        } else if same_text(s, "imread") {
            Some(IoOp::ImRead)
        } else if same_text(s, "imwrite") {
            Some(IoOp::ImWrite)
        } else if same_text(s, "imshow") {
            Some(IoOp::ImShow)
        } else {
            None
        }
    }

    /// The name of the operation in source text.
    pub fn name(&self) -> (s: &'static str)
        ensures
            s@ == self.name_spec(),
    {
        match self {
            IoOp::Show => "show",
            IoOp::Print => "print",
            IoOp::Println => "println",
            IoOp::ScanLn => "scanln",
            IoOp::Args => "args",
            IoOp::Var => "var",
            IoOp::Rand => "rand",
            IoOp::FReadStr => "freadstr",
            IoOp::FWriteStr => "fwritestr",
            IoOp::FReadBytes => "freadbytes",
            IoOp::FWriteBytes => "fwritebytes",
            IoOp::FLines => "flines",
            IoOp::FExists => "fexists",
            IoOp::FListDir => "flistdir",
            IoOp::FIsFile => "fisfile",
            IoOp::Import => "import",
            IoOp::Now => "now",
            IoOp::ImRead => "imread",
            IoOp::ImWrite => "imwrite",
            IoOp::ImShow => "imshow",
        }
    }

    /// How many values the operation takes from the stack.
    pub fn args(&self) -> (n: u8)
        ensures
            n == self.args_spec(),
    {
        match self {
            IoOp::ScanLn | IoOp::Args | IoOp::Rand | IoOp::Now => 0,
            IoOp::FWriteStr | IoOp::FWriteBytes | IoOp::ImWrite => 2,
            _ => 1,
        }
    }

    /// How many values the operation leaves on the stack; `None` where the
    /// number is not fixed.
    pub fn outputs(&self) -> (n: Option<u8>)
        ensures
            match n {
                Some(k) => self.outputs_spec() == Some(k as nat),
                None => self.outputs_spec() is None,
            },
    {
        match self {
            IoOp::Show | IoOp::Print | IoOp::Println | IoOp::ImShow => Some(0),
            IoOp::FWriteStr | IoOp::FWriteBytes | IoOp::ImWrite => Some(0),
            IoOp::Import => None,
            _ => Some(1),
        }
    }
}

/// What an operation asks of the host.
#[derive(Debug, PartialEq, Eq)]
pub enum IoRequest {
    /// Write the value as a grid, and end the line.
    Show(Value),
    /// Write the value.
    Print(Value),
    /// Write the value, and end the line.
    Println(Value),
    /// Read a line from the console.
    ScanLn,
    /// Give the program's arguments.
    Args,
    /// Give the value of the environment variable of this name.
    Var(String),
    /// Give a random number.
    Rand,
    /// Give the time.
    Now,
    /// Read the file at this path.
    ReadFile(String),
    /// Write these bytes to the file at this path.
    WriteFile(String, Vec<u8>),
    /// Say whether anything exists at this path.
    Exists(String),
    /// Say whether this path names a file.
    IsFile(String),
    /// List the directory at this path.
    ListDir(String),
    /// Run the file at this path and give the stack it leaves.
    Import(String),
    /// Show this picture.
    ShowImage(Image),
}

/// The mathematical content of a request.
pub enum RequestView {
    Show(ValueView),
    Print(ValueView),
    Println(ValueView),
    ScanLn,
    Args,
    Var(Seq<char>),
    Rand,
    Now,
    ReadFile(Seq<char>),
    WriteFile(Seq<char>, Seq<u8>),
    Exists(Seq<char>),
    IsFile(Seq<char>),
    ListDir(Seq<char>),
    Import(Seq<char>),
    ShowImage(ImageView),
}

impl View for IoRequest {
    type V = RequestView;

    open spec fn view(&self) -> RequestView {
        match self {
            IoRequest::Show(v) => RequestView::Show(v@),
            IoRequest::Print(v) => RequestView::Print(v@),
            IoRequest::Println(v) => RequestView::Println(v@),
            IoRequest::ScanLn => RequestView::ScanLn,
            IoRequest::Args => RequestView::Args,
            IoRequest::Var(name) => RequestView::Var(name@),
            IoRequest::Rand => RequestView::Rand,
            IoRequest::Now => RequestView::Now,
            IoRequest::ReadFile(path) => RequestView::ReadFile(path@),
            IoRequest::WriteFile(path, bytes) => RequestView::WriteFile(path@, bytes@),
            IoRequest::Exists(path) => RequestView::Exists(path@),
            IoRequest::IsFile(path) => RequestView::IsFile(path@),
            IoRequest::ListDir(path) => RequestView::ListDir(path@),
            IoRequest::Import(path) => RequestView::Import(path@),
            IoRequest::ShowImage(image) => RequestView::ShowImage(image@),
        }
    }
}

/// What the host answers.
#[derive(Debug, PartialEq, Eq)]
pub enum IoResponse {
    /// It is done; there is nothing to hand back.
    Done,
    /// A text.
    Text(String),
    /// A list of texts.
    Texts(Vec<String>),
    /// A number, as a binary64 bit pattern.
    Number(u64),
    /// Bytes.
    Bytes(Vec<u8>),
    /// Yes or no.
    Flag(bool),
    /// Values, bottom first.
    Values(Vec<Value>),
}

/// The mathematical content of an answer.
pub enum ResponseView {
    Done,
    Text(Seq<char>),
    Texts(Seq<Seq<char>>),
    Number(u64),
    Bytes(Seq<u8>),
    Flag(bool),
    Values(Seq<ValueView>),
}

impl View for IoResponse {
    type V = ResponseView;

    open spec fn view(&self) -> ResponseView {
        match self {
            IoResponse::Done => ResponseView::Done,
            IoResponse::Text(t) => ResponseView::Text(t@),
            IoResponse::Texts(ts) => ResponseView::Texts(strings_view(ts@)),
            IoResponse::Number(n) => ResponseView::Number(*n),
            IoResponse::Bytes(b) => ResponseView::Bytes(b@),
            IoResponse::Flag(f) => ResponseView::Flag(*f),
            IoResponse::Values(vs) => ResponseView::Values(values_view(vs@)),
        }
    }
}

/// What comes of preparing an operation.
pub enum Outcome {
    /// The host is asked this.
    Request(RequestView),
    /// The operation fails with this error.
    Fail(RuntimeError),
    /// The picture could not be written: the operation fails with an `Io`
    /// error whose message begins with `Failed to write image: `.
    Refused,
}

/// What preparing an operation does: the outcome, and the stack it leaves.
pub struct Plan {
    pub outcome: Outcome,
    pub rest: Seq<ValueView>,
}

/// The string that is a list of the given characters.
pub open spec fn string_value(text: Seq<char>) -> ValueView {
    ValueView::Array(ArrayView { shape: seq![text.len() as usize], data: BufferView::Char(text) })
}

/// The list of the given strings.
pub open spec fn strings_value(texts: Seq<Seq<char>>) -> ValueView {
    ValueView::Array(ArrayView { shape: seq![texts.len() as usize], data: BufferView::Str(texts) })
}

/// The list of the given bytes.
pub open spec fn bytes_value(bytes: Seq<u8>) -> ValueView {
    ValueView::Array(ArrayView { shape: seq![bytes.len() as usize], data: BufferView::Byte(bytes) })
}

/// The scalar number with the given bit pattern.
pub open spec fn number_value(bits: u64) -> ValueView {
    ValueView::Array(ArrayView { shape: seq![], data: BufferView::Num(seq![bits]) })
}

/// The truth value as a scalar byte.
pub open spec fn flag_value(flag: bool) -> ValueView {
    ValueView::Array(
        ArrayView {
            shape: seq![],
            data: BufferView::Byte(
                seq![if flag {
                    1u8
                } else {
                    0u8
                }],
            ),
        },
    )
}

/// What comes of completing an operation.
pub enum Ending {
    /// These values are put on the stack, in order.
    Push(Seq<ValueView>),
    /// The operation fails with this error.
    Fail(RuntimeError),
    /// The operation fails with an `Io` error of exactly this message.
    FailWith(Seq<char>),
    /// The picture could not be read: the operation fails with an `Io` error
    /// whose message begins with `Failed to read image: `.
    Unreadable,
}

impl IoOp {
    /// What an operation asks for a path: the path as a string, or the
    /// error for a value that is none.
    pub open spec fn with_path(self, value: ValueView) -> Outcome {
        if !value.is_string() {
            Outcome::Fail(
                RuntimeError::TypeMismatch(
                    match self {
                        IoOp::Var => Expected::VarName,
                        IoOp::Import => Expected::ImportPath,
                        _ => Expected::Path,
                    },
                ),
            )
        } else {
            let path = value.chars();
            Outcome::Request(
                match self {
                    IoOp::Var => RequestView::Var(path),
                    IoOp::Import => RequestView::Import(path),
                    IoOp::FExists => RequestView::Exists(path),
                    IoOp::FListDir => RequestView::ListDir(path),
                    IoOp::FIsFile => RequestView::IsFile(path),
                    _ => RequestView::ReadFile(path),
                },
            )
        }
    }

    /// What comes of an operation that takes one value, for that value.
    pub open spec fn with_one(self, value: ValueView) -> Outcome {
        match self {
            IoOp::Show => Outcome::Request(RequestView::Show(value)),
            IoOp::Print => Outcome::Request(RequestView::Print(value)),
            IoOp::Println => Outcome::Request(RequestView::Println(value)),
            IoOp::ImShow => match image_of(value) {
                Ok(image) => Outcome::Request(RequestView::ShowImage(image)),
                Err(e) => Outcome::Fail(e),
            },
            _ => self.with_path(value),
        }
    }

    /// The bytes that `fwritebytes` writes for a value, or why it writes none:
    /// an array of numbers gives each number cut down to a byte, an array of
    /// bytes gives its bytes.
    pub open spec fn bytes_to_write(contents: ValueView) -> Result<Seq<u8>, RuntimeError> {
        match contents {
            ValueView::Func(_) => Err(RuntimeError::TypeMismatch(Expected::ArrayContents)),
            ValueView::Array(array) => match array.data {
                BufferView::Num(s) => Ok(s.map_values(|n: u64| as_byte(n))),
                BufferView::Byte(s) => Ok(s),
                _ => Err(RuntimeError::TypeMismatch(Expected::NumericContents)),
            },
        }
    }

    /// What comes of an operation that writes a file, for the path and the
    /// contents it took from the stack.
    pub open spec fn with_two(self, path: ValueView, contents: ValueView) -> Outcome {
        if !path.is_string() {
            Outcome::Fail(RuntimeError::TypeMismatch(Expected::Path))
        } else {
            match self {
                IoOp::FWriteStr => if contents.is_string() {
                    Outcome::Request(
                        RequestView::WriteFile(path.chars(), encode_utf8(contents.chars())),
                    )
                } else {
                    Outcome::Fail(RuntimeError::TypeMismatch(Expected::StringContents))
                },
                IoOp::FWriteBytes => match IoOp::bytes_to_write(contents) {
                    Ok(bytes) => Outcome::Request(RequestView::WriteFile(path.chars(), bytes)),
                    Err(e) => Outcome::Fail(e),
                },
                _ => match image_of(contents) {
                    Err(e) => Outcome::Fail(e),
                    Ok(image) => match encoded_image(
                        image.width,
                        image.height,
                        image.channels,
                        image.bytes,
                        format_named(suffix(path.chars())),
                    ) {
                        Some(file) => Outcome::Request(RequestView::WriteFile(path.chars(), file)),
                        None => Outcome::Refused,
                    },
                },
            }
        }
    }

    /// What preparing the operation does on a stack, bottom first.
    ///
    /// The arguments are taken from the top, the topmost first. Where the
    /// stack runs out, the operation fails with `StackUnderflow` of the
    /// argument that was missing, and what was taken before stays taken.
    pub open spec fn plan(self, stack: Seq<ValueView>) -> Plan {
        if self.args_spec() == 0 {
            Plan {
                outcome: Outcome::Request(
                    match self {
                        IoOp::ScanLn => RequestView::ScanLn,
                        IoOp::Args => RequestView::Args,
                        IoOp::Rand => RequestView::Rand,
                        _ => RequestView::Now,
                    },
                ),
                rest: stack,
            }
        } else if stack.len() == 0 {
            Plan { outcome: Outcome::Fail(RuntimeError::StackUnderflow(1)), rest: stack }
        } else if self.args_spec() == 1 {
            Plan { outcome: self.with_one(stack.last()), rest: stack.drop_last() }
        } else if stack.len() == 1 {
            Plan {
                outcome: Outcome::Fail(RuntimeError::StackUnderflow(2)),
                rest: stack.drop_last(),
            }
        } else {
            Plan {
                outcome: self.with_two(stack[stack.len() - 1], stack[stack.len() - 2]),
                rest: stack.take(stack.len() - 2),
            }
        }
    }

    /// Whether preparing the operation on the stack `before` may leave the
    /// stack `after` and give `request`.
    pub open spec fn planned(
        self,
        before: Seq<ValueView>,
        after: Seq<ValueView>,
        request: Result<IoRequest, RuntimeError>,
    ) -> bool {
        let plan = self.plan(before);
        &&& after == plan.rest
        &&& match plan.outcome {
            Outcome::Request(asked) => request matches Ok(r) && r@ == asked,
            Outcome::Fail(e) => request == Err::<IoRequest, RuntimeError>(e),
            Outcome::Refused => request matches Err(RuntimeError::Io(m)) && starts_with(
                m@,
                "Failed to write image: "@,
            ),
        }
    }

    /// Whether an answer is of the kind that a request gets.
    pub open spec fn replies(request: RequestView, response: ResponseView) -> bool {
        match request {
            RequestView::Show(_) | RequestView::Print(_) | RequestView::Println(_) => response
                is Done,
            RequestView::WriteFile(_, _) | RequestView::ShowImage(_) => response is Done,
            RequestView::ScanLn | RequestView::Var(_) => response is Text,
            RequestView::Args | RequestView::ListDir(_) => response is Texts,
            RequestView::Rand | RequestView::Now => response is Number,
            RequestView::ReadFile(_) => response is Bytes,
            RequestView::Exists(_) | RequestView::IsFile(_) => response is Flag,
            RequestView::Import(_) => response is Values,
        }
    }

    /// Whether the host may fail a request: it may where it touches files,
    /// runs another program or shows a picture.
    pub open spec fn may_fail(request: RequestView) -> bool {
        match request {
            RequestView::ReadFile(_) | RequestView::WriteFile(_, _) => true,
            RequestView::IsFile(_) | RequestView::ListDir(_) => true,
            RequestView::Import(_) | RequestView::ShowImage(_) => true,
            _ => false,
        }
    }

    /// What completing the operation does with an answer.
    ///
    /// An answer of a kind that the operation does not get gives
    /// `UnexpectedResponse`.
    pub open spec fn ending(self, response: ResponseView) -> Ending {
        match (self, response) {
            (IoOp::Show, ResponseView::Done) => Ending::Push(seq![]),
            (IoOp::Print, ResponseView::Done) => Ending::Push(seq![]),
            (IoOp::Println, ResponseView::Done) => Ending::Push(seq![]),
            (IoOp::FWriteStr, ResponseView::Done) => Ending::Push(seq![]),
            (IoOp::FWriteBytes, ResponseView::Done) => Ending::Push(seq![]),
            (IoOp::ImWrite, ResponseView::Done) => Ending::Push(seq![]),
            (IoOp::ImShow, ResponseView::Done) => Ending::Push(seq![]),
            (IoOp::ScanLn, ResponseView::Text(t)) => Ending::Push(seq![string_value(t)]),
            (IoOp::Var, ResponseView::Text(t)) => Ending::Push(seq![string_value(t)]),
            (IoOp::Args, ResponseView::Texts(ts)) => Ending::Push(seq![strings_value(ts)]),
            (IoOp::FListDir, ResponseView::Texts(ts)) => Ending::Push(seq![strings_value(ts)]),
            (IoOp::Rand, ResponseView::Number(n)) => Ending::Push(seq![number_value(n)]),
            (IoOp::Now, ResponseView::Number(n)) => Ending::Push(seq![number_value(n)]),
            (IoOp::FExists, ResponseView::Flag(f)) => Ending::Push(seq![flag_value(f)]),
            (IoOp::FIsFile, ResponseView::Flag(f)) => Ending::Push(seq![flag_value(f)]),
            (IoOp::Import, ResponseView::Values(vs)) => Ending::Push(vs),
            (IoOp::FReadBytes, ResponseView::Bytes(b)) => Ending::Push(seq![bytes_value(b)]),
            (IoOp::FReadStr, ResponseView::Bytes(b)) => if valid_utf8(b) {
                Ending::Push(seq![string_value(decode_utf8(b))])
            } else {
                Ending::FailWith("Failed to read file: "@ + utf8_error_text(b))
            },
            (IoOp::FLines, ResponseView::Bytes(b)) => if valid_utf8(b) {
                Ending::Push(seq![strings_value(lines_of(decode_utf8(b)))])
            } else {
                Ending::FailWith("Failed to read file: "@ + utf8_error_text(b))
            },
            (IoOp::ImRead, ResponseView::Bytes(b)) => match picture_read(b) {
                None => Ending::Unreadable,
                Some(array) => Ending::Push(seq![ValueView::Array(array)]),
            },
            _ => Ending::Fail(RuntimeError::UnexpectedResponse),
        }
    }

    /// Whether completing the operation with `response` on the stack `before`
    /// may leave the stack `after` and give `done`. A failure leaves the
    /// stack as it was.
    pub open spec fn completed(
        self,
        response: ResponseView,
        before: Seq<ValueView>,
        after: Seq<ValueView>,
        done: Result<(), RuntimeError>,
    ) -> bool {
        match self.ending(response) {
            Ending::Push(values) => done is Ok && after == before + values,
            Ending::Fail(e) => done == Err::<(), RuntimeError>(e) && after == before,
            Ending::FailWith(text) => done matches Err(RuntimeError::Io(m)) && m@ == text && after
                == before,
            Ending::Unreadable => done matches Err(RuntimeError::Io(m)) && starts_with(
                m@,
                "Failed to read image: "@,
            ) && after == before,
        }
    }

    /// Whether the operation, run on the stack `before`, may fail with the
    /// error `e`, whatever it leaves of the stack.
    pub open spec fn fails_with(self, before: Seq<ValueView>, e: RuntimeError) -> bool {
        exists|after: Seq<ValueView>| #[trigger] self.ran(before, after, Err(e))
    }

    /// Whether running the operation on the stack `before` may leave the
    /// stack `after` and give `done`: it fails as planned; or the host fails
    /// a request that it may fail, and the arguments are gone; or the host
    /// gives some answer of the kind the request gets, and the operation is
    /// completed with it.
    pub open spec fn ran(
        self,
        before: Seq<ValueView>,
        after: Seq<ValueView>,
        done: Result<(), RuntimeError>,
    ) -> bool {
        let plan = self.plan(before);
        match plan.outcome {
            Outcome::Fail(e) => done == Err::<(), RuntimeError>(e) && after == plan.rest,
            Outcome::Refused => done matches Err(RuntimeError::Io(m)) && starts_with(
                m@,
                "Failed to write image: "@,
            ) && after == plan.rest,
            Outcome::Request(asked) => {
                ||| done is Err && IoOp::may_fail(asked) && after == plan.rest
                ||| exists|response: ResponseView| #[trigger]
                    IoOp::replies(asked, response) && self.completed(
                        response,
                        plan.rest,
                        after,
                        done,
                    )
            },
        }
    }
}

/// The characters of a value that must be a string, as a `String`; the
/// `TypeMismatch` of what was expected for any other value.
pub fn text_of(value: &Value, expected: Expected) -> (text: Result<String, RuntimeError>)
    ensures
        match text {
            Ok(s) => value@.is_string() && s@ == value@.chars(),
            Err(e) => !value@.is_string() && e == RuntimeError::TypeMismatch(expected),
        },
{
    match value.as_chars() {
        Some(chars) => Ok(string_from_chars(chars)),
        None => Err(RuntimeError::TypeMismatch(expected)),
    }
}

/// The system clock of std.
#[verifier::external_type_specification]
#[verifier::external_body]
pub struct ExSystemTime(std::time::SystemTime);

/// Reads the system clock.
///
/// Stands for `SystemTime::now`. Nothing is known of the answer.
#[verifier::external_body]
fn system_now() -> (now: std::time::SystemTime) {
    std::time::SystemTime::now()
}

/// The time that has passed since the Unix epoch at a reading of the clock,
/// or `None` where the reading lies before the epoch.
///
/// Stands for `SystemTime::duration_since`, asked with `UNIX_EPOCH`, which
/// is an error where the reading is the earlier of the two.
#[verifier::external_body]
fn since_epoch(now: &std::time::SystemTime) -> (passed: Option<core::time::Duration>) {
    now.duration_since(std::time::UNIX_EPOCH).ok()
}

/// The whole milliseconds of a length of time.
///
/// Stands for `Duration::as_millis`.
#[verifier::external_body]
fn whole_millis(passed: &core::time::Duration) -> (ms: u128) {
    passed.as_millis()
}

/// The largest time in milliseconds that is a number exactly.
pub const LATEST: u64 = 0x001F_FFFF_FFFF_FFFF;

/// The number of a time in whole milliseconds since the Unix epoch. A clock
/// that stands before the epoch reads as zero, and one that stands after the
/// latest time that is a number exactly reads as that time.
pub open spec fn time_bits(ms: Option<u128>) -> u64 {
    match ms {
        Some(m) => if m <= LATEST {
            of_whole(m as nat)
        } else {
            of_whole(LATEST as nat)
        },
        None => 0,
    }
}

/// The number of a time in whole milliseconds since the Unix epoch.
pub fn time_number(ms: Option<u128>) -> (bits: u64)
    ensures
        bits == time_bits(ms),
{
    match ms {
        Some(m) => if m <= LATEST as u128 {
            from_whole(m as u64)
        } else {
            from_whole(LATEST)
        },
        None => 0,
    }
}

/// The time now, as the number of whole milliseconds since the Unix epoch.
fn clock() -> (bits: u64)
    ensures
        exists|ms: Option<u128>| bits == #[trigger] time_bits(ms),
{
    let now = system_now();
    let ms = match since_epoch(&now) {
        Some(passed) => Some(whole_millis(&passed)),
        None => None,
    };
    time_number(ms)
}

/// The text for the value of an environment variable: the value, or the
/// empty text where the variable is not set.
pub open spec fn var_text(value: Option<String>) -> Seq<char> {
    match value {
        Some(text) => text@,
        None => Seq::empty(),
    }
}

/// The text for the value of an environment variable.
pub fn var_answer(value: Option<String>) -> (text: String)
    ensures
        text@ == var_text(value),
{
    match value {
        Some(text) => text,
        None => String::new(),
    }
}

/// Whether a line is what writing a value asks to be printed: the text of
/// the value, as a grid for `show`, with a line break behind it for `show`
/// and `println`.
pub open spec fn is_printed(request: IoRequest, line: Seq<char>) -> bool {
    match request {
        IoRequest::Show(value) => line.len() > 0 && line.last() == '\n' && shows_value(
            value@,
            true,
            line.drop_last(),
        ),
        IoRequest::Print(value) => shows_value(value@, false, line),
        IoRequest::Println(value) => line.len() > 0 && line.last() == '\n' && shows_value(
            value@,
            false,
            line.drop_last(),
        ),
        _ => false,
    }
}

/// The answer to a request for which the host gave a result that may be an
/// error: the error, or what `made` makes of what it gave.
pub open spec fn passed_on<T>(
    result: Result<T, RuntimeError>,
    made: spec_fn(T) -> IoResponse,
) -> Result<IoResponse, RuntimeError> {
    match result {
        Ok(given) => Ok(made(given)),
        Err(e) => Err(e),
    }
}

/// Whether a backend that is lent as `inner` may answer a request that
/// changes it with `response`: the answer is what the service for the
/// request gives when it is called once, with what the request holds.
pub open spec fn answers<B: IoBackend>(
    inner: &mut B,
    request: IoRequest,
    env: &Env,
    response: Result<IoResponse, RuntimeError>,
) -> bool {
    match request {
        IoRequest::Show(_) | IoRequest::Print(_) | IoRequest::Println(_) => exists|line: &str|
            is_printed(request, line@) && #[trigger] call_ensures(B::print_str, (inner, line), ())
                && response == Ok::<IoResponse, RuntimeError>(IoResponse::Done),
        IoRequest::ScanLn => exists|line: String| #[trigger]
            call_ensures(B::scan_line, (inner,), line) && response == Ok::<
                IoResponse,
                RuntimeError,
            >(IoResponse::Text(line)),
        IoRequest::Args => exists|args: Vec<String>| #[trigger]
            call_ensures(B::args, (inner,), args) && response == Ok::<IoResponse, RuntimeError>(
                IoResponse::Texts(args),
            ),
        IoRequest::Var(name) => exists|asked: &str, value: Option<String>|
            asked@ == name@ && #[trigger] call_ensures(B::var, (inner, asked), value) && (
            response matches Ok(IoResponse::Text(text)) && text@ == var_text(value)),
        IoRequest::Rand => exists|number: u64| #[trigger]
            call_ensures(B::rand, (inner,), number) && response == Ok::<IoResponse, RuntimeError>(
                IoResponse::Number(number),
            ),
        IoRequest::ReadFile(path) => exists|asked: &str, result: Result<Vec<u8>, RuntimeError>|
            asked@ == path@ && #[trigger] call_ensures(B::read_file, (inner, asked, env), result)
                && response == passed_on(result, |bytes: Vec<u8>| IoResponse::Bytes(bytes)),
        IoRequest::WriteFile(path, bytes) => exists|asked: &str, result: Result<(), RuntimeError>|
            asked@ == path@ && #[trigger] call_ensures(
                B::write_file,
                (inner, asked, bytes, env),
                result,
            ) && response == passed_on(result, |done: ()| IoResponse::Done),
        IoRequest::Import(path) => exists|asked: &str, result: Result<Vec<Value>, RuntimeError>|
            asked@ == path@ && #[trigger] call_ensures(B::import, (inner, asked, env), result)
                && response == passed_on(result, |stack: Vec<Value>| IoResponse::Values(stack)),
        IoRequest::ShowImage(image) => exists|result: Result<(), RuntimeError>| #[trigger]
            call_ensures(B::show_image, (inner, image, env), result) && response == passed_on(
                result,
                |done: ()| IoResponse::Done,
            ),
        _ => false,
    }
}

/// Whether a backend may answer a request that only looks at it with
/// `response`: the answer is what the service for the request gives when it
/// is called once, with the path that the request holds.
pub open spec fn looks<B: IoBackend>(
    backend: &B,
    request: IoRequest,
    env: &Env,
    response: Result<IoResponse, RuntimeError>,
) -> bool {
    match request {
        IoRequest::Exists(path) => exists|asked: &str, flag: bool|
            asked@ == path@ && #[trigger] call_ensures(B::file_exists, (backend, asked), flag)
                && response == Ok::<IoResponse, RuntimeError>(IoResponse::Flag(flag)),
        IoRequest::IsFile(path) => exists|asked: &str, result: Result<bool, RuntimeError>|
            asked@ == path@ && #[trigger] call_ensures(B::is_file, (backend, asked, env), result)
                && response == passed_on(result, |flag: bool| IoResponse::Flag(flag)),
        IoRequest::ListDir(path) => exists|asked: &str, result: Result<Vec<String>, RuntimeError>|
            asked@ == path@ && #[trigger] call_ensures(B::list_dir, (backend, asked, env), result)
                && response == passed_on(result, |entries: Vec<String>| IoResponse::Texts(entries)),
        _ => false,
    }
}

/// The line that writing a value asks to be printed.
fn line_of<K: Kernel>(request: &IoRequest, kernel: &mut K) -> (line: String)
    requires
        request is Show || request is Print || request is Println,
    ensures
        is_printed(*request, line@),
{
    let (value, grid, ended) = match request {
        IoRequest::Show(value) => (value, true, true),
        IoRequest::Print(value) => (value, false, false),
        IoRequest::Println(value) => (value, false, true),
        _ => {
            assert(false);
            return String::new();
        },
    };
    let text = value_text(value, kernel, grid);
    if ended {
        let mut chars = chars_of(text.as_str());
        chars.push('\n');
        assert(chars@.drop_last() == text@);
        string_from_chars(&chars)
    } else {
        text
    }
}

/// Whether a request only looks at the backend.
pub open spec fn only_looks(request: IoRequest) -> bool {
    request is Exists || request is IsFile || request is ListDir
}

/// Whether an answer tells the time: it is the number of some reading of
/// the clock.
pub open spec fn tells_time(response: Result<IoResponse, RuntimeError>) -> bool {
    response matches Ok(IoResponse::Number(bits)) && exists|ms: Option<u128>|
        bits == #[trigger] time_bits(ms)
}

impl IoOp {
    /// Takes the arguments of the operation off the stack, the topmost
    /// first, checks them, and says what is to be asked of the host.
    pub fn prepare(&self, env: &mut Env) -> (request: Result<IoRequest, RuntimeError>)
        ensures
            final(env).frames == old(env).frames,
            self.planned(old(env).values(), final(env).values(), request),
            request is Ok ==> final(env).values().len() + self.args_spec() == old(
                env,
            ).values().len(),
    {
        let ghost before = env.values();
        match self {
            IoOp::ScanLn => Ok(IoRequest::ScanLn),
            IoOp::Args => Ok(IoRequest::Args),
            IoOp::Rand => Ok(IoRequest::Rand),
            IoOp::Now => Ok(IoRequest::Now),
            IoOp::FWriteStr | IoOp::FWriteBytes | IoOp::ImWrite => {
                let path = env.pop(1)?;
                let contents = env.pop(2)?;
                proof {
                    assert(env.values() == before.take(before.len() - 2));
                    assert(path@ == before[before.len() - 1]);
                    assert(contents@ == before[before.len() - 2]);
                }
                let name = text_of(&path, Expected::Path)?;
                match self {
                    IoOp::FWriteStr => {
                        let text = text_of(&contents, Expected::StringContents)?;
                        Ok(IoRequest::WriteFile(name, text.as_str().as_bytes_vec()))
                    },
                    IoOp::FWriteBytes => {
                        let bytes = bytes_of(&contents)?;
                        Ok(IoRequest::WriteFile(name, bytes))
                    },
                    _ => {
                        let format = match path.as_chars() {
                            Some(chars) => ImageFormat::from_path(chars),
                            None => ImageFormat::Png,
                        };
                        let file = value_to_image_bytes(&contents, format)?;
                        Ok(IoRequest::WriteFile(name, file))
                    },
                }
            },
            _ => {
                let value = env.pop(1)?;
                match self {
                    IoOp::Show => Ok(IoRequest::Show(value)),
                    IoOp::Print => Ok(IoRequest::Print(value)),
                    IoOp::Println => Ok(IoRequest::Println(value)),
                    IoOp::ImShow => {
                        let image = value_to_image(&value)?;
                        Ok(IoRequest::ShowImage(image))
                    },
                    IoOp::Var => Ok(IoRequest::Var(text_of(&value, Expected::VarName)?)),
                    IoOp::Import => Ok(IoRequest::Import(text_of(&value, Expected::ImportPath)?)),
                    IoOp::FExists => Ok(IoRequest::Exists(text_of(&value, Expected::Path)?)),
                    IoOp::FListDir => Ok(IoRequest::ListDir(text_of(&value, Expected::Path)?)),
                    IoOp::FIsFile => Ok(IoRequest::IsFile(text_of(&value, Expected::Path)?)),
                    _ => Ok(IoRequest::ReadFile(text_of(&value, Expected::Path)?)),
                }
            },
        }
    }

    /// Hands a request to the backend and takes its answer: each request
    /// is one call of the service of the backend that is made for it, with
    /// what the request holds, and the answer is what the call gave. A value
    /// that is printed is first turned into text, its numbers by the kernel;
    /// the time is read from the clock, and not asked of the backend.
    pub fn perform<B: IoBackend, K: Kernel>(
        request: IoRequest,
        env: &Env,
        io: &mut B,
        kernel: &mut K,
    ) -> (response: Result<IoResponse, RuntimeError>)
        ensures
            match response {
                Ok(r) => IoOp::replies(request@, r@),
                Err(_) => IoOp::may_fail(request@),
            },
            request is Now ==> *final(io) == *old(io) && tells_time(response),
            only_looks(request) ==> *final(io) == *old(io) && looks(
                &*old(io),
                request,
                env,
                response,
            ),
            !(request is Now) && !only_looks(request) ==> exists|inner: &mut B|
                mut_ref_current(inner) == *old(io) && mut_ref_future(inner) == *final(io)
                    && #[trigger] answers(inner, request, env, response),
    {
        let ghost before = *io;
        let ghost whole = request;
        match request {
            IoRequest::Show(_) | IoRequest::Print(_) | IoRequest::Println(_) => {
                let line = line_of(&request, kernel);
                let asked = line.as_str();
                io.print_str(asked);
                let response = Ok(IoResponse::Done);
                proof {
                    let w = choose|inner: &mut B|
                        mut_ref_current(inner) == before && mut_ref_future(inner) == *io
                            && #[trigger] call_ensures(B::print_str, (inner, asked), ());
                    assert(answers(w, request, env, response));
                }
                response
            },
            IoRequest::ScanLn => {
                let line = io.scan_line();
                let response = Ok(IoResponse::Text(line));
                proof {
                    let w = choose|inner: &mut B|
                        mut_ref_current(inner) == before && mut_ref_future(inner) == *io
                            && #[trigger] call_ensures(B::scan_line, (inner,), line);
                    assert(answers(w, request, env, response));
                }
                response
            },
            IoRequest::Args => {
                let args = io.args();
                let response = Ok(IoResponse::Texts(args));
                proof {
                    let w = choose|inner: &mut B|
                        mut_ref_current(inner) == before && mut_ref_future(inner) == *io
                            && #[trigger] call_ensures(B::args, (inner,), args);
                    assert(answers(w, request, env, response));
                }
                response
            },
            IoRequest::Var(ref name) => {
                let asked = name.as_str();
                let value = io.var(asked);
                let response = Ok(IoResponse::Text(var_answer(value)));
                proof {
                    let w = choose|inner: &mut B|
                        mut_ref_current(inner) == before && mut_ref_future(inner) == *io
                            && #[trigger] call_ensures(B::var, (inner, asked), value);
                    assert(answers(w, request, env, response));
                }
                response
            },
            IoRequest::Rand => {
                let number = io.rand();
                let response = Ok(IoResponse::Number(number));
                proof {
                    let w = choose|inner: &mut B|
                        mut_ref_current(inner) == before && mut_ref_future(inner) == *io
                            && #[trigger] call_ensures(B::rand, (inner,), number);
                    assert(answers(w, request, env, response));
                }
                response
            },
            IoRequest::Now => Ok(IoResponse::Number(clock())),
            IoRequest::ReadFile(ref path) => {
                let asked = path.as_str();
                let result = io.read_file(asked, env);
                let response = match result {
                    Ok(bytes) => Ok(IoResponse::Bytes(bytes)),
                    Err(e) => Err(e),
                };
                proof {
                    let w = choose|inner: &mut B|
                        mut_ref_current(inner) == before && mut_ref_future(inner) == *io
                            && #[trigger] call_ensures(B::read_file, (inner, asked, env), result);
                    assert(answers(w, request, env, response));
                }
                response
            },
            IoRequest::WriteFile(path, bytes) => {
                let asked = path.as_str();
                let ghost given = bytes;
                let result = io.write_file(asked, bytes, env);
                let response = match result {
                    Ok(()) => Ok(IoResponse::Done),
                    Err(e) => Err(e),
                };
                proof {
                    let w = choose|inner: &mut B|
                        mut_ref_current(inner) == before && mut_ref_future(inner) == *io
                            && #[trigger] call_ensures(
                            B::write_file,
                            (inner, asked, given, env),
                            result,
                        );
                    assert(answers(w, whole, env, response));
                }
                response
            },
            IoRequest::Exists(ref path) => {
                let asked = path.as_str();
                let flag = io.file_exists(asked);
                let response = Ok(IoResponse::Flag(flag));
                assert(call_ensures(B::file_exists, (&before, asked), flag));
                assert(looks(&before, request, env, response));
                response
            },
            IoRequest::IsFile(ref path) => {
                let asked = path.as_str();
                let result = io.is_file(asked, env);
                let response = match result {
                    Ok(flag) => Ok(IoResponse::Flag(flag)),
                    Err(e) => Err(e),
                };
                assert(call_ensures(B::is_file, (&before, asked, env), result));
                assert(looks(&before, request, env, response));
                response
            },
            IoRequest::ListDir(ref path) => {
                let asked = path.as_str();
                let result = io.list_dir(asked, env);
                let response = match result {
                    Ok(entries) => Ok(IoResponse::Texts(entries)),
                    Err(e) => Err(e),
                };
                assert(call_ensures(B::list_dir, (&before, asked, env), result));
                assert(looks(&before, request, env, response));
                response
            },
            IoRequest::Import(ref path) => {
                let asked = path.as_str();
                let result = io.import(asked, env);
                let response = match result {
                    Ok(stack) => Ok(IoResponse::Values(stack)),
                    Err(e) => Err(e),
                };
                proof {
                    let w = choose|inner: &mut B|
                        mut_ref_current(inner) == before && mut_ref_future(inner) == *io
                            && #[trigger] call_ensures(B::import, (inner, asked, env), result);
                    assert(answers(w, request, env, response));
                }
                response
            },
            IoRequest::ShowImage(image) => {
                let ghost shown = image;
                let result = io.show_image(image, env);
                let response = match result {
                    Ok(()) => Ok(IoResponse::Done),
                    Err(e) => Err(e),
                };
                proof {
                    let w = choose|inner: &mut B|
                        mut_ref_current(inner) == before && mut_ref_future(inner) == *io
                            && #[trigger] call_ensures(B::show_image, (inner, shown, env), result);
                    assert(answers(w, whole, env, response));
                }
                response
            },
        }
    }

    /// Turns the answer of the host into values and puts them on the stack.
    pub fn complete(&self, env: &mut Env, response: IoResponse) -> (done: Result<(), RuntimeError>)
        ensures
            final(env).frames == old(env).frames,
            self.completed(response@, old(env).values(), final(env).values(), done),
            done is Ok && self.outputs_spec() is Some ==> final(env).values().len() == old(
                env,
            ).values().len() + self.outputs_spec()->0,
    {
        let ghost before = env.values();
        match (self, response) {
            (IoOp::Show, IoResponse::Done)
            | (IoOp::Print, IoResponse::Done)
            | (IoOp::Println, IoResponse::Done)
            | (IoOp::FWriteStr, IoResponse::Done)
            | (IoOp::FWriteBytes, IoResponse::Done)
            | (IoOp::ImWrite, IoResponse::Done)
            | (IoOp::ImShow, IoResponse::Done) => {
                assert(before + Seq::<ValueView>::empty() == before);
                Ok(())
            },
            (IoOp::ScanLn, IoResponse::Text(t)) | (IoOp::Var, IoResponse::Text(t)) => {
                push_one(env, Value::Array(Array::string(t.as_str())));
                Ok(())
            },
            (IoOp::Args, IoResponse::Texts(ts)) | (IoOp::FListDir, IoResponse::Texts(ts)) => {
                push_one(env, Value::Array(Array::strings(ts)));
                Ok(())
            },
            (IoOp::Rand, IoResponse::Number(n)) | (IoOp::Now, IoResponse::Number(n)) => {
                push_one(env, Value::Array(Array::number(n)));
                Ok(())
            },
            (IoOp::FExists, IoResponse::Flag(f)) | (IoOp::FIsFile, IoResponse::Flag(f)) => {
                push_one(env, Value::Array(Array::boolean(f)));
                Ok(())
            },
            (IoOp::Import, IoResponse::Values(values)) => {
                push_all(env, values);
                Ok(())
            },
            (IoOp::FReadBytes, IoResponse::Bytes(b)) => {
                push_one(env, Value::Array(Array::bytes(b)));
                Ok(())
            },
            (IoOp::FReadStr, IoResponse::Bytes(b)) => {
                let text = read_text(b)?;
                push_one(env, Value::Array(Array::string(text.as_str())));
                Ok(())
            },
            (IoOp::FLines, IoResponse::Bytes(b)) => {
                let text = read_text(b)?;
                let lines = split_lines(&chars_of(text.as_str()));
                push_one(env, Value::Array(Array::strings(lines)));
                Ok(())
            },
            (IoOp::ImRead, IoResponse::Bytes(b)) => {
                let array = image_from_bytes(&b)?;
                push_one(env, Value::Array(array));
                Ok(())
            },
            _ => Err(RuntimeError::UnexpectedResponse),
        }
    }

    /// Whether the operation, run on the stack `before`, has handed the
    /// request to the host with the environment `given` and ended with what
    /// the host answered: the request is the one that was planned, the
    /// environment holds what the plan left on the stack, and the operation
    /// fails with the error of the host or is completed with its answer.
    pub open spec fn handed(
        self,
        request: IoRequest,
        given: Env,
        response: Result<IoResponse, RuntimeError>,
        before: Seq<ValueView>,
        after: Seq<ValueView>,
        done: Result<(), RuntimeError>,
    ) -> bool {
        let plan = self.plan(before);
        &&& plan.outcome == Outcome::Request(request@)
        &&& given.values() == plan.rest
        &&& match response {
            Ok(r) => self.completed(r@, plan.rest, after, done),
            Err(e) => done == Err::<(), RuntimeError>(e) && after == plan.rest,
        }
    }

    /// Runs the operation: takes its arguments from the stack, has the
    /// backend do the work, and puts the results on the stack.
    ///
    /// Where it succeeds, it has taken `args` values and left `outputs`, so
    /// the height of the stack has changed by `outputs - args`. Where a
    /// request is planned, it is handed to the backend, which is called once
    /// as `perform` says, and the operation ends with what that call gave.
    pub fn run<B: IoBackend, K: Kernel>(&self, env: &mut Env, io: &mut B, kernel: &mut K) -> (done:
        Result<(), RuntimeError>)
        ensures
            final(env).frames == old(env).frames,
            self.ran(old(env).values(), final(env).values(), done),
            done is Ok ==> old(env).values().len() >= self.args_spec(),
            done is Ok && self.outputs_spec() is Some ==> final(env).values().len() == old(
                env,
            ).values().len() - self.args_spec() + self.outputs_spec()->0,
            !(self.plan(old(env).values()).outcome is Request) ==> *final(io) == *old(io),
            self.plan(old(env).values()).outcome is Request ==> exists|
                request: IoRequest,
                given: Env,
                response: Result<IoResponse, RuntimeError>,
            |
                {
                    &&& #[trigger] self.handed(
                        request,
                        given,
                        response,
                        old(env).values(),
                        final(env).values(),
                        done,
                    )
                    &&& given.frames == old(env).frames
                    &&& request is Now ==> *final(io) == *old(io) && tells_time(response)
                    &&& only_looks(request) ==> *final(io) == *old(io) && looks(
                        &*old(io),
                        request,
                        &given,
                        response,
                    )
                    &&& !(request is Now) && !only_looks(request) ==> exists|inner: &mut B|
                        mut_ref_current(inner) == *old(io) && mut_ref_future(inner) == *final(io)
                            && #[trigger] answers(inner, request, &given, response)
                },
    {
        let request = match self.prepare(env) {
            Ok(request) => request,
            Err(e) => {
                return Err(e);
            },
        };
        let ghost whole = request;
        let ghost given = *env;
        let response = IoOp::perform(request, env, io, kernel);
        let ghost answer = response;
        let done = match response {
            Ok(response) => {
                assert(IoOp::replies(whole@, response@));
                self.complete(env, response)
            },
            Err(e) => Err(e),
        };
        assert(self.handed(whole, given, answer, old(env).values(), env.values(), done));
        done
    }
}

/// The bytes that `fwritebytes` writes for a value.
pub fn bytes_of(contents: &Value) -> (bytes: Result<Vec<u8>, RuntimeError>)
    ensures
        match bytes {
            Ok(b) => IoOp::bytes_to_write(contents@) == Ok::<Seq<u8>, RuntimeError>(b@),
            Err(e) => IoOp::bytes_to_write(contents@) == Err::<Seq<u8>, RuntimeError>(e),
        },
{
    let array = match contents {
        Value::Array(a) => a,
        Value::Func(_) => {
            return Err(RuntimeError::TypeMismatch(Expected::ArrayContents));
        },
    };
    match array.data() {
        Buffer::Num(numbers) => {
            let mut out: Vec<u8> = Vec::new();
            let mut i: usize = 0;
            while i < numbers.len()
                invariant
                    i <= numbers.len(),
                    out@ == numbers@.take(i as int).map_values(|n: u64| as_byte(n)),
                decreases numbers.len() - i,
            {
                let ghost so_far = numbers@.take(i as int).map_values(|n: u64| as_byte(n));
                out.push(to_byte(numbers[i]));
                i += 1;
                assert(numbers@.take(i as int).map_values(|n: u64| as_byte(n)) == so_far.push(
                    as_byte(numbers@[i - 1]),
                ));
            }
            assert(numbers@.take(numbers@.len() as int) == numbers@);
            Ok(out)
        },
        Buffer::Byte(bytes) => Ok(bytes.clone()),
        _ => Err(RuntimeError::TypeMismatch(Expected::NumericContents)),
    }
}

/// The text of a file that was read: its bytes decoded as UTF-8, or an `Io`
/// error that says why they cannot be.
pub fn read_text(bytes: Vec<u8>) -> (text: Result<String, RuntimeError>)
    ensures
        match text {
            Ok(s) => valid_utf8(bytes@) && s@ == decode_utf8(bytes@),
            Err(e) => !valid_utf8(bytes@) && (e matches RuntimeError::Io(m) && m@
                == "Failed to read file: "@ + utf8_error_text(bytes@)),
        },
{
    match string_from_utf8(bytes) {
        Ok(s) => Ok(s),
        Err(why) => {
            let mut out: Vec<char> = Vec::new();
            push_str(&mut out, "Failed to read file: ");
            push_str(&mut out, why.as_str());
            Err(RuntimeError::Io(string_from_chars(&out)))
        },
    }
}

fn push_one(env: &mut Env, value: Value)
    ensures
        final(env).frames == old(env).frames,
        final(env).values() == old(env).values() + seq![value@],
{
    env.push(value);
    assert(old(env).values().push(value@) == old(env).values() + seq![value@]);
}

fn push_all(env: &mut Env, values: Vec<Value>)
    ensures
        final(env).frames == old(env).frames,
        final(env).values() == old(env).values() + values_view(values@),
{
    let ghost all = values_view(values@);
    let mut rest = values;
    let mut taken: Vec<Value> = Vec::new();
    // Turned round, the values come off the end in the order they had.
    while rest.len() > 0
        invariant
            values_view(taken@).reverse() == all.skip(rest@.len() as int),
            values_view(rest@) == all.take(rest@.len() as int),
            rest@.len() <= all.len(),
        decreases rest.len(),
    {
        let ghost n = rest@.len();
        let ghost seen = values_view(taken@);
        let ghost full = rest@;
        let last = rest.pop().unwrap();
        proof {
            assert(values_view(full)[n - 1] == full[n - 1]@);
            assert(all.take(n as int)[n - 1] == all[n - 1]);
            assert(last@ == all[n - 1]);
            assert(values_view(rest@) == all.take(n - 1)) by {
                assert forall|i: int| 0 <= i < n - 1 implies values_view(rest@)[i] == all.take(
                    n - 1,
                )[i] by {
                    assert(values_view(full)[i] == full[i]@);
                    assert(all.take(n as int)[i] == all[i]);
                }
            }
            assert(values_view(taken@.push(last)) == seen.push(last@));
            assert(seen.push(last@).reverse() == seq![last@] + seen.reverse());
            assert(seq![all[n - 1]] + all.skip(n as int) == all.skip(n - 1));
        }
        taken.push(last);
    }
    let ghost start = env.values();
    proof {
        assert(all.skip(0) == all);
    }
    while taken.len() > 0
        invariant
            env.frames == old(env).frames,
            values_view(taken@).len() <= all.len(),
            env.values() + values_view(taken@).reverse() == start + all,
        decreases taken.len(),
    {
        let ghost left = values_view(taken@);
        let ghost stack = env.values();
        let next = taken.pop().unwrap();
        proof {
            assert(values_view(taken@) == left.drop_last());
            assert(next@ == left.last());
            assert(left.reverse() == seq![left.last()] + left.drop_last().reverse());
            assert(stack.push(next@) + left.drop_last().reverse() == stack + (seq![left.last()]
                + left.drop_last().reverse()));
        }
        env.push(next);
    }
    proof {
        assert(values_view(taken@).reverse() == Seq::<ValueView>::empty());
        assert(env.values() + Seq::<ValueView>::empty() == env.values());
    }
}

/// Every operation is found again by its name.
pub proof fn lemma_name_round_trip(op: IoOp)
    ensures
        IoOp::from_name_spec(op.name_spec()) == Some(op),
{
    reveal_strlit("show");
    reveal_strlit("print");
    reveal_strlit("println");
    reveal_strlit("scanln");
    reveal_strlit("args");
    reveal_strlit("var");
    reveal_strlit("rand");
    reveal_strlit("freadstr");
    reveal_strlit("fwritestr");
    reveal_strlit("freadbytes");
    reveal_strlit("fwritebytes");
    reveal_strlit("flines");
    reveal_strlit("fexists");
    reveal_strlit("flistdir");
    reveal_strlit("fisfile");
    reveal_strlit("import");
    reveal_strlit("now");
    reveal_strlit("imread");
    reveal_strlit("imwrite");
    reveal_strlit("imshow");
    let name = op.name_spec();
    assert(name.len() >= 3);
    if name.len() == 3 {
        assert(name[0] == 'v' || name[0] == 'n');
    } else if name.len() == 4 {
        assert(name[0] == 's' || name[0] == 'a' || name[0] == 'r');
    } else if name.len() == 5 {
        assert(op == IoOp::Print);
    } else if name.len() == 6 {
        assert(name[0] == 's' || name[0] == 'f' || name[3] == 'o' || name[3] == 'e' || name[3]
            == 'h');
    } else if name.len() == 7 {
        assert(name[0] == 'p' || name[1] == 'e' || name[1] == 'i' || name[0] == 'i');
    } else if name.len() == 8 {
        assert(name[1] == 'r' || name[1] == 'l');
    } else if name.len() == 9 {
        assert(op == IoOp::FWriteStr);
    } else if name.len() == 10 {
        assert(op == IoOp::FReadBytes);
    } else {
        assert(op == IoOp::FWriteBytes);
    }
}

} // verus!
