//! The compiler: from a syntax tree to an assembly.
//!
//! An assembly holds the instructions of the program, a table of functions,
//! a pool of constants and a table of names. An instruction names a constant,
//! a function or a name by its place in its table. What an instruction means
//! without the tables is its code; the code of a program is what the compiler
//! answers for.

use vstd::prelude::*;
use vstd::string::*;
use crate::ast::{Binding, Func, Item, Modified, Word};
use crate::driver::RunMode;
use crate::function::{FunctionId, Signature};
use crate::io::IoOp;
use crate::lex::Sp;
use crate::primitive::Primitive;
use crate::io::{number_value, string_value};
use crate::syntax::signature_of;
use crate::text::{flatten, same_text};
use crate::value::{strings_view, Array, ArrayView, BufferView, Value, ValueView};

verus! {

broadcast use {
    vstd::std_specs::vec::axiom_vec_index_decreases,
    vstd::std_specs::vec::axiom_vec_decreases_to_view,
    vstd::seq::axiom_seq_index_decreases,
};

/// An instruction.
#[derive(Clone, Copy, Debug, PartialEq, Eq, Structural)]
pub enum Instr {
    /// Push the constant at this place of the pool.
    PushConstant(usize),
    /// Push a reference to the function at this place of the table.
    PushFunction(usize),
    /// Run a primitive.
    CallPrimitive(Primitive),
    /// Call the function at this place of the table.
    CallFunction(usize),
    /// Run an effect operation.
    CallIoOp(IoOp),
    /// Run a modifier on the functions at these places of the table; a
    /// place that is left out stands for the function that does nothing.
    ApplyModifier(Primitive, Option<usize>, Option<usize>),
    /// Take the top value and bind it to the name at this place.
    BindGlobal(usize),
    /// Push what is bound to the name at this place; call it if it is a
    /// function.
    LoadGlobal(usize),
    /// Remember the height of the stack.
    BeginArray,
    /// Make one array of the values above the height remembered last.
    EndArray,
    /// Stop.
    EndOfAssembly,
}

/// What an instruction means, with what it names in the tables written out.
pub enum Code {
    Push(ValueView),
    /// A function: its declared signature and its body.
    Function(Option<Signature>, Seq<Code>),
    Primitive(Primitive),
    Io(IoOp),
    /// A call of a function, which is the one code that is held.
    Call(Seq<Code>),
    /// A modifier and the functions it is applied to.
    Modified(Primitive, Seq<Code>),
    Bind(Seq<char>),
    Load(Seq<char>),
    BeginArray,
    EndArray,
    End,
    /// An instruction that names a place that is not in its table.
    Broken,
}

/// An entry of the function table.
#[derive(Debug)]
pub struct Function {
    pub id: FunctionId,
    pub signature: Option<Signature>,
    pub code: Vec<Instr>,
}

/// A compiled program.
#[derive(Debug)]
pub struct Assembly {
    /// The instructions of the program.
    pub main: Vec<Instr>,
    /// The functions. The body of a function only names functions that
    /// stand before it.
    pub functions: Vec<Function>,
    /// The constants.
    pub constants: Vec<Value>,
    /// The names that are bound or looked up.
    pub globals: Vec<String>,
}

/// The code of an instruction that may name the first `below` functions.
pub open spec fn resolve(assembly: Assembly, instr: Instr, below: nat) -> Code
    decreases below, 2int,
{
    match instr {
        Instr::PushConstant(i) => if i < assembly.constants@.len() {
            Code::Push(assembly.constants@[i as int]@)
        } else {
            Code::Broken
        },
        Instr::PushFunction(f) => function_code(assembly, f as nat, below),
        Instr::CallPrimitive(p) => Code::Primitive(p),
        Instr::CallFunction(f) => Code::Call(operand_code(assembly, Some(f), below)),
        Instr::CallIoOp(op) => Code::Io(op),
        Instr::ApplyModifier(p, f, g) => Code::Modified(
            p,
            operand_code(assembly, f, below) + operand_code(assembly, g, below),
        ),
        Instr::BindGlobal(i) => if i < assembly.globals@.len() {
            Code::Bind(assembly.globals@[i as int]@)
        } else {
            Code::Broken
        },
        Instr::LoadGlobal(i) => if i < assembly.globals@.len() {
            Code::Load(assembly.globals@[i as int]@)
        } else {
            Code::Broken
        },
        Instr::BeginArray => Code::BeginArray,
        Instr::EndArray => Code::EndArray,
        Instr::EndOfAssembly => Code::End,
    }
}

/// The code of the operand of a modifier: of the function at the place, or
/// nothing where the place is left out.
pub open spec fn operand_code(assembly: Assembly, place: Option<usize>, below: nat) -> Seq<Code>
    decreases below, 1int,
{
    match place {
        Some(f) => seq![function_code(assembly, f as nat, below)],
        None => seq![],
    }
}

/// The code of the function at a place of the table, which must be among
/// the first `below`.
pub open spec fn function_code(assembly: Assembly, f: nat, below: nat) -> Code
    decreases below, 0int,
{
    if f < below && f < assembly.functions@.len() {
        Code::Function(
            assembly.functions@[f as int].signature,
            resolve_all(
                assembly,
                assembly.functions@[f as int].code@,
                f,
                assembly.functions@[f as int].code@.len(),
            ),
        )
    } else {
        Code::Broken
    }
}

/// The code of the first `n` of some instructions that may name the first
/// `below` functions.
pub open spec fn resolve_all(assembly: Assembly, instrs: Seq<Instr>, below: nat, n: nat) -> Seq<
    Code,
>
    decreases below, 3int, n,
{
    if n == 0 || n > instrs.len() {
        seq![]
    } else {
        resolve_all(assembly, instrs, below, (n - 1) as nat).push(
            resolve(assembly, instrs[n - 1], below),
        )
    }
}

/// Whether a code names only places that are in their tables.
pub open spec fn sound(code: Code) -> bool
    decreases code,
{
    match code {
        Code::Broken => false,
        Code::Function(_, body) => sound_first(body, body.len()),
        Code::Call(given) => sound_first(given, given.len()),
        Code::Modified(_, given) => sound_first(given, given.len()),
        _ => true,
    }
}

/// Whether the first `n` codes of a list are sound.
pub open spec fn sound_first(codes: Seq<Code>, n: nat) -> bool
    decreases codes, n,
{
    if n == 0 || n > codes.len() {
        true
    } else {
        sound_first(codes, (n - 1) as nat) && sound(codes[n - 1])
    }
}

/// Whether every code of a list is sound.
pub open spec fn all_sound(codes: Seq<Code>) -> bool {
    sound_first(codes, codes.len())
}

/// Each of the first sound codes of a list is sound.
pub proof fn lemma_sound_each(codes: Seq<Code>, n: nat, i: int)
    requires
        n <= codes.len(),
        sound_first(codes, n),
        0 <= i < n,
    ensures
        sound(codes[i]),
    decreases n,
{
    if i < n - 1 {
        lemma_sound_each(codes, (n - 1) as nat, i);
    }
}

/// A list whose codes are each sound is sound.
pub proof fn lemma_sound_all(codes: Seq<Code>, n: nat)
    requires
        n <= codes.len(),
        forall|i: int| 0 <= i < n ==> sound(#[trigger] codes[i]),
    ensures
        sound_first(codes, n),
    decreases n,
{
    if n > 0 {
        lemma_sound_all(codes, (n - 1) as nat);
    }
}

/// A sound list with one sound code more is sound.
pub proof fn lemma_sound_push(codes: Seq<Code>, last: Code)
    requires
        all_sound(codes),
        sound(last),
    ensures
        all_sound(codes.push(last)),
{
    let longer = codes.push(last);
    assert forall|i: int| 0 <= i < longer.len() implies sound(#[trigger] longer[i]) by {
        if i < codes.len() {
            lemma_sound_each(codes, codes.len(), i);
            assert(longer[i] == codes[i]);
        }
    }
    lemma_sound_all(longer, longer.len());
}

impl Assembly {
    /// The code of the program.
    pub open spec fn code(self) -> Seq<Code> {
        resolve_all(self, self.main@, self.functions@.len(), self.main@.len())
    }

    /// What holds of an assembly: its instructions and the bodies of its
    /// functions name only places that are in their tables, and a body only
    /// functions that stand before its own.
    pub open spec fn wf(self) -> bool {
        &&& all_sound(self.code())
        &&& forall|f: nat|
            f < self.functions@.len() ==> sound(
                #[trigger] function_code(self, f, self.functions@.len()),
            )
    }

    /// Whether this assembly has all that another has, at the same places.
    pub open spec fn extends(self, other: Assembly) -> bool {
        &&& other.functions@.len() <= self.functions@.len()
        &&& other.constants@.len() <= self.constants@.len()
        &&& other.globals@.len() <= self.globals@.len()
        &&& forall|i: int|
            0 <= i < other.functions@.len() ==> self.functions@[i] == #[trigger] other.functions@[i]
        &&& forall|i: int|
            0 <= i < other.constants@.len() ==> self.constants@[i]@
                == (#[trigger] other.constants@[i])@
        &&& forall|i: int|
            0 <= i < other.globals@.len() ==> self.globals@[i]@ == (#[trigger] other.globals@[i])@
    }
}

/// Sound code stays what it is when the tables grow, and when more functions
/// may be named.
pub proof fn lemma_resolve_stable(old: Assembly, new: Assembly, instr: Instr, below: nat, more: nat)
    requires
        new.extends(old),
        below <= more,
        sound(resolve(old, instr, below)),
    ensures
        resolve(new, instr, more) == resolve(old, instr, below),
    decreases below, 2int,
{
    match instr {
        Instr::PushFunction(f) => {
            lemma_function_stable(old, new, f as nat, below, more);
        },
        Instr::CallFunction(f) => {
            let given = operand_code(old, Some(f), below);
            assert(resolve(old, instr, below) == Code::Call(given));
            assert(given[0] == function_code(old, f as nat, below));
            lemma_sound_each(given, given.len(), 0);
            lemma_function_stable(old, new, f as nat, below, more);
        },
        Instr::ApplyModifier(p, f, g) => {
            let first = operand_code(old, f, below);
            let second = operand_code(old, g, below);
            let given = first + second;
            assert(resolve(old, instr, below) == Code::Modified(p, given));
            match f {
                Some(x) => {
                    assert(given[0] == function_code(old, x as nat, below));
                    lemma_sound_each(given, given.len(), 0);
                    lemma_function_stable(old, new, x as nat, below, more);
                },
                None => {},
            }
            match g {
                Some(y) => {
                    assert(given[given.len() - 1] == function_code(old, y as nat, below));
                    lemma_sound_each(given, given.len(), given.len() - 1);
                    lemma_function_stable(old, new, y as nat, below, more);
                },
                None => {},
            }
            assert(operand_code(new, f, more) == first);
            assert(operand_code(new, g, more) == second);
        },
        Instr::PushConstant(i) => {
            if i < old.constants@.len() {
                assert(new.constants@[i as int]@ == old.constants@[i as int]@);
            }
        },
        Instr::BindGlobal(i) => {
            if i < old.globals@.len() {
                assert(new.globals@[i as int]@ == old.globals@[i as int]@);
            }
        },
        Instr::LoadGlobal(i) => {
            if i < old.globals@.len() {
                assert(new.globals@[i as int]@ == old.globals@[i as int]@);
            }
        },
        _ => {},
    }
}

/// The code of a function stays what it is when the tables grow.
pub proof fn lemma_function_stable(old: Assembly, new: Assembly, f: nat, below: nat, more: nat)
    requires
        new.extends(old),
        below <= more,
        sound(function_code(old, f, below)),
    ensures
        function_code(new, f, more) == function_code(old, f, below),
    decreases below, 0int,
{
    if f < below && f < old.functions@.len() {
        let entry = old.functions@[f as int];
        let body = entry.code@;
        let codes = resolve_all(old, body, f, body.len());
        assert(function_code(old, f, below) == Code::Function(entry.signature, codes));
        assert(new.functions@[f as int] == entry);
        lemma_all_stable(old, new, body, f, f, body.len());
    }
}

/// The code of instructions stays what it is when the tables grow.
pub proof fn lemma_all_stable(
    old: Assembly,
    new: Assembly,
    instrs: Seq<Instr>,
    below: nat,
    more: nat,
    n: nat,
)
    requires
        new.extends(old),
        below <= more,
        n <= instrs.len(),
        all_sound(resolve_all(old, instrs, below, n)),
    ensures
        resolve_all(new, instrs, more, n) == resolve_all(old, instrs, below, n),
    decreases below, 3int, n,
{
    if n > 0 {
        let codes = resolve_all(old, instrs, below, n);
        let front = resolve_all(old, instrs, below, (n - 1) as nat);
        lemma_resolve_len(old, instrs, below, n);
        lemma_resolve_len(old, instrs, below, (n - 1) as nat);
        assert(codes == front.push(resolve(old, instrs[n - 1], below)));
        assert forall|i: int| 0 <= i < front.len() implies sound(#[trigger] front[i]) by {
            lemma_sound_each(codes, codes.len(), i);
            assert(front[i] == codes[i]);
        }
        lemma_sound_all(front, front.len());
        assert(codes[n - 1] == resolve(old, instrs[n - 1], below));
        lemma_sound_each(codes, codes.len(), n - 1);
        lemma_all_stable(old, new, instrs, below, more, (n - 1) as nat);
        lemma_resolve_stable(old, new, instrs[n - 1], below, more);
    }
}

/// The number of codes is the number of instructions.
pub proof fn lemma_resolve_len(assembly: Assembly, instrs: Seq<Instr>, below: nat, n: nat)
    requires
        n <= instrs.len(),
    ensures
        resolve_all(assembly, instrs, below, n).len() == n,
    decreases n,
{
    if n > 0 {
        lemma_resolve_len(assembly, instrs, below, (n - 1) as nat);
    }
}

/// The code of instructions depends on the first of them alone.
pub proof fn lemma_resolve_prefix(
    assembly: Assembly,
    longer: Seq<Instr>,
    instrs: Seq<Instr>,
    below: nat,
    n: nat,
)
    requires
        n <= instrs.len() <= longer.len(),
        forall|i: int| 0 <= i < n ==> longer[i] == instrs[i],
    ensures
        resolve_all(assembly, longer, below, n) == resolve_all(assembly, instrs, below, n),
    decreases n,
{
    if n > 0 {
        lemma_resolve_prefix(assembly, longer, instrs, below, (n - 1) as nat);
    }
}

/// The scalar character.
pub open spec fn char_value(c: char) -> ValueView {
    ValueView::Array(ArrayView { shape: seq![], data: BufferView::Char(seq![c]) })
}

/// The texts of the lines of a multi-line string, one after the other, each
/// line after the first behind a line feed.
pub open spec fn multiline_flat(lines: Seq<Sp<Vec<String>>>, n: nat) -> Seq<char>
    decreases n,
{
    if n == 0 || n > lines.len() {
        seq![]
    } else if n == 1 {
        flatten(strings_view(lines[0].value@))
    } else {
        multiline_flat(lines, (n - 1) as nat) + seq!['\n'] + flatten(
            strings_view(lines[n - 1].value@),
        )
    }
}

/// The code of the primitives of a list.
pub open spec fn code_of_primitives(prims: Seq<Sp<Primitive>>, n: nat) -> Seq<Code>
    decreases n,
{
    if n == 0 || n > prims.len() {
        seq![]
    } else {
        code_of_primitives(prims, (n - 1) as nat).push(code_of_primitive(prims[n - 1].value))
    }
}

/// The code of a primitive: an effect operation runs as such.
pub open spec fn code_of_primitive(prim: Primitive) -> Code {
    match prim {
        Primitive::Io(op) => Code::Io(op),
        _ => Code::Primitive(prim),
    }
}

/// The code of the first `n` words of a list, one after the other.
pub open spec fn code_of_words(words: Seq<Sp<Word>>, n: nat) -> Seq<Code>
    decreases words, n,
{
    if n == 0 || n > words.len() {
        seq![]
    } else {
        code_of_words(words, (n - 1) as nat) + code_of_word(words[n - 1].value)
    }
}

/// The code of the words of the first `n` lines.
pub open spec fn code_of_lines(lines: Seq<Vec<Sp<Word>>>, n: nat) -> Seq<Code>
    decreases lines, n,
{
    if n == 0 || n > lines.len() {
        seq![]
    } else {
        code_of_lines(lines, (n - 1) as nat) + code_of_words(lines[n - 1]@, lines[n - 1]@.len())
    }
}

/// The first `n` words of a list, each as a function: a function literal as
/// itself, any other word as the function whose body it is.
pub open spec fn functions_of(words: Seq<Sp<Word>>, n: nat) -> Seq<Code>
    decreases words, n,
{
    if n == 0 || n > words.len() {
        seq![]
    } else {
        functions_of(words, (n - 1) as nat).push(function_of(words[n - 1].value))
    }
}

/// How many of the operands that are given a modifier is applied to: two
/// at most.
pub open spec fn operand_count(given: nat) -> nat {
    if given < 2 {
        given
    } else {
        2
    }
}

/// A word as a function.
pub open spec fn function_of(word: Word) -> Code
    decreases word, 1int,
{
    match word {
        Word::Func(func) => Code::Function(
            signature_of(func.signature),
            code_of_lines(func.lines@, func.lines@.len()),
        ),
        _ => Code::Function(None, code_of_word(word)),
    }
}

/// The code of a word. A literal pushes its value, a name is looked up, an
/// array or a strand runs its words between the two halves of making an
/// array, a function literal pushes the function, a modifier is applied to
/// its operands as functions. A format string pushes its parts as one string,
/// with nothing in its holes. Comments and blank space are no code.
pub open spec fn code_of_word(word: Word) -> Seq<Code>
    decreases word, 0int,
{
    match word {
        Word::Number(_, bits) => seq![Code::Push(number_value(bits))],
        Word::Char(c) => seq![Code::Push(char_value(c))],
        Word::String(s) => seq![Code::Push(string_value(s@))],
        Word::FormatString(parts) => seq![Code::Push(string_value(flatten(strings_view(parts@))))],
        Word::MultilineString(lines) => seq![
            Code::Push(string_value(multiline_flat(lines@, lines@.len()))),
        ],
        Word::Ident(name) => seq![Code::Load(name@)],
        Word::Strand(items) => seq![Code::BeginArray] + code_of_words(items@, items@.len())
            + seq![Code::EndArray],
        Word::Array(arr) => seq![Code::BeginArray] + code_of_lines(arr.lines@, arr.lines@.len())
            + seq![Code::EndArray],
        Word::Func(func) => seq![
            Code::Function(
                signature_of(func.signature),
                code_of_lines(func.lines@, func.lines@.len()),
            ),
        ],
        Word::Ocean(prims) => code_of_primitives(prims@, prims@.len()),
        Word::Primitive(prim) => seq![code_of_primitive(prim)],
        Word::Modified(modified) => seq![
            Code::Modified(
                modified.modifier.value,
                functions_of(modified.operands@, operand_count(modified.operands@.len())),
            ),
        ],
        Word::Comment(_) => seq![],
        Word::Spaces => seq![],
    }
}

/// Whether an item is run in a mode: a block of tests in the modes that run
/// tests, anything else in the modes that run the program. `None` stands for
/// the inside of a block that is run, where everything is run.
pub open spec fn is_run(mode: Option<RunMode>, test: bool) -> bool {
    match mode {
        None => true,
        Some(RunMode::Normal) => !test,
        Some(RunMode::Test) => test,
        Some(RunMode::All) => true,
    }
}

/// The code of the first `n` items of a list.
pub open spec fn code_of_items(items: Seq<Item>, n: nat, mode: Option<RunMode>) -> Seq<Code>
    decreases items, n,
{
    if n == 0 || n > items.len() {
        seq![]
    } else {
        code_of_items(items, (n - 1) as nat, mode) + code_of_item(items[n - 1], mode)
    }
}

/// The code of an item: of a block its items, if it is run; of words the
/// words; of a binding its words and then the binding of the name.
pub open spec fn code_of_item(item: Item, mode: Option<RunMode>) -> Seq<Code>
    decreases item,
{
    match item {
        Item::Scoped { items, test } => if is_run(mode, test) {
            code_of_items(items@, items@.len(), None)
        } else {
            seq![]
        },
        Item::Words(words) => if is_run(mode, false) {
            code_of_words(words@, words@.len())
        } else {
            seq![]
        },
        Item::Binding(binding) => if is_run(mode, false) {
            code_of_words(binding.words@, binding.words@.len()) + seq![
                Code::Bind(binding.name.value@),
            ]
        } else {
            seq![]
        },
        Item::ExtraNewlines(_) => seq![],
    }
}

/// The code of a program: of its items, and the end.
pub open spec fn code_of_program(items: Seq<Item>, mode: RunMode) -> Seq<Code> {
    code_of_items(items, items.len(), Some(mode)).push(Code::End)
}

/// The code of instructions in an assembly.
pub open spec fn resolved(assembly: Assembly, out: Seq<Instr>) -> Seq<Code> {
    resolve_all(assembly, out, assembly.functions@.len(), out.len())
}

/// Whether the functions of an assembly are sound.
pub open spec fn functions_sound(assembly: Assembly) -> bool {
    forall|f: nat|
        f < assembly.functions@.len() ==> sound(
            #[trigger] function_code(assembly, f, assembly.functions@.len()),
        )
}

/// An assembly that has all that another has, has all that a third has which
/// the other has all of.
pub proof fn lemma_extends_trans(a: Assembly, b: Assembly, c: Assembly)
    requires
        c.extends(b),
        b.extends(a),
    ensures
        c.extends(a),
{
    assert forall|i: int| 0 <= i < a.functions@.len() implies c.functions@[i]
        == #[trigger] a.functions@[i] by {
        assert(b.functions@[i] == a.functions@[i]);
    }
    assert forall|i: int| 0 <= i < a.constants@.len() implies c.constants@[i]@ == (
    #[trigger] a.constants@[i])@ by {
        assert(b.constants@[i]@ == a.constants@[i]@);
    }
    assert forall|i: int| 0 <= i < a.globals@.len() implies c.globals@[i]@ == (
    #[trigger] a.globals@[i])@ by {
        assert(b.globals@[i]@ == a.globals@[i]@);
    }
}

/// Sound instructions and sound functions stay what they are when the
/// tables grow.
pub proof fn lemma_grow(old: Assembly, new: Assembly, out: Seq<Instr>)
    requires
        new.extends(old),
        all_sound(resolved(old, out)),
        functions_sound(old),
    ensures
        resolved(new, out) == resolved(old, out),
        forall|f: nat|
            f < old.functions@.len() ==> function_code(new, f, new.functions@.len())
                == #[trigger] function_code(old, f, old.functions@.len()),
{
    lemma_all_stable(old, new, out, old.functions@.len(), new.functions@.len(), out.len());
    assert forall|f: nat| f < old.functions@.len() implies function_code(
        new,
        f,
        new.functions@.len(),
    ) == #[trigger] function_code(old, f, old.functions@.len()) by {
        lemma_function_stable(old, new, f, old.functions@.len(), new.functions@.len());
    }
}

/// Appends an instruction.
fn emit(assembly: &Assembly, out: &mut Vec<Instr>, instr: Instr)
    requires
        all_sound(resolved(*assembly, old(out)@)),
        sound(resolve(*assembly, instr, assembly.functions@.len())),
    ensures
        resolved(*assembly, final(out)@) == resolved(*assembly, old(out)@).push(
            resolve(*assembly, instr, assembly.functions@.len()),
        ),
        all_sound(resolved(*assembly, final(out)@)),
{
    let ghost before = out@;
    out.push(instr);
    proof {
        lemma_resolve_prefix(
            *assembly,
            out@,
            before,
            assembly.functions@.len(),
            before.len(),
        );
        lemma_sound_push(
            resolved(*assembly, before),
            resolve(*assembly, instr, assembly.functions@.len()),
        );
    }
}

/// Adds a constant to the pool and pushes it.
fn emit_constant(assembly: &mut Assembly, out: &mut Vec<Instr>, value: Value)
    requires
        all_sound(resolved(*old(assembly), old(out)@)),
        functions_sound(*old(assembly)),
    ensures
        final(assembly).extends(*old(assembly)),
        final(assembly).functions == old(assembly).functions,
        functions_sound(*final(assembly)),
        resolved(*final(assembly), final(out)@) == resolved(*old(assembly), old(out)@).push(
            Code::Push(value@),
        ),
        all_sound(resolved(*final(assembly), final(out)@)),
{
    let at = assembly.constants.len();
    assembly.constants.push(value);
    proof {
        lemma_grow(*old(assembly), *assembly, out@);
        assert forall|f: nat| f < assembly.functions@.len() implies sound(
            #[trigger] function_code(*assembly, f, assembly.functions@.len()),
        ) by {
            assert(sound(function_code(*old(assembly), f, old(assembly).functions@.len())));
        }
    }
    emit(assembly, out, Instr::PushConstant(at));
}

/// The place of a name in the table of names, where it is put if it is not
/// there.
#[verifier::loop_isolation(false)]
fn place_of(assembly: &mut Assembly, out: &Vec<Instr>, name: &str) -> (at: usize)
    requires
        all_sound(resolved(*old(assembly), out@)),
        functions_sound(*old(assembly)),
    ensures
        final(assembly).extends(*old(assembly)),
        final(assembly).functions == old(assembly).functions,
        functions_sound(*final(assembly)),
        resolved(*final(assembly), out@) == resolved(*old(assembly), out@),
        at < final(assembly).globals@.len(),
        final(assembly).globals@[at as int]@ == name@,
{
    let mut i: usize = 0;
    while i < assembly.globals.len()
        invariant
            i <= assembly.globals@.len(),
            *assembly == *old(assembly),
        decreases assembly.globals.len() - i,
    {
        if same_text(assembly.globals[i].as_str(), name) {
            return i;
        }
        i += 1;
    }
    assembly.globals.push(String::from_str(name));
    proof {
        lemma_grow(*old(assembly), *assembly, out@);
        assert forall|f: nat| f < assembly.functions@.len() implies sound(
            #[trigger] function_code(*assembly, f, assembly.functions@.len()),
        ) by {
            assert(sound(function_code(*old(assembly), f, old(assembly).functions@.len())));
        }
    }
    i
}

/// Adds a function to the table.
fn add_function(
    assembly: &mut Assembly,
    out: &Vec<Instr>,
    id: FunctionId,
    signature: Option<Signature>,
    body: Vec<Instr>,
) -> (at: usize)
    requires
        all_sound(resolved(*old(assembly), out@)),
        all_sound(resolved(*old(assembly), body@)),
        functions_sound(*old(assembly)),
    ensures
        final(assembly).extends(*old(assembly)),
        functions_sound(*final(assembly)),
        resolved(*final(assembly), out@) == resolved(*old(assembly), out@),
        at < final(assembly).functions@.len(),
        function_code(*final(assembly), at as nat, final(assembly).functions@.len())
            == Code::Function(signature, resolved(*old(assembly), body@)),
{
    let at = assembly.functions.len();
    let ghost code = body@;
    assembly.functions.push(Function { id, signature, code: body });
    proof {
        lemma_grow(*old(assembly), *assembly, out@);
        lemma_all_stable(*old(assembly), *assembly, code, at as nat, at as nat, code.len());
        assert(function_code(*assembly, at as nat, assembly.functions@.len()) == Code::Function(
            signature,
            resolved(*old(assembly), code),
        ));
        assert forall|f: nat| f < assembly.functions@.len() implies sound(
            #[trigger] function_code(*assembly, f, assembly.functions@.len()),
        ) by {
            if f < at {
                assert(sound(function_code(*old(assembly), f, old(assembly).functions@.len())));
            }
        }
    }
    at
}

/// Appends the code of words.
fn compile_words(assembly: &mut Assembly, out: &mut Vec<Instr>, words: &Vec<Sp<Word>>)
    requires
        all_sound(resolved(*old(assembly), old(out)@)),
        functions_sound(*old(assembly)),
    ensures
        final(assembly).extends(*old(assembly)),
        functions_sound(*final(assembly)),
        resolved(*final(assembly), final(out)@) == resolved(*old(assembly), old(out)@)
            + code_of_words(words@, words@.len()),
        all_sound(resolved(*final(assembly), final(out)@)),
    decreases words,
{
    let ghost start = resolved(*assembly, out@);
    let mut i: usize = 0;
    assert(start + code_of_words(words@, 0) == start);
    while i < words.len()
        invariant
            i <= words.len(),
            assembly.extends(*old(assembly)),
            functions_sound(*assembly),
            resolved(*assembly, out@) == start + code_of_words(words@, i as nat),
            all_sound(resolved(*assembly, out@)),
        decreases words.len() - i,
    {
        let ghost before = *assembly;
        let ghost so_far = code_of_words(words@, i as nat);
        compile_word(assembly, out, &words[i].value);
        proof {
            lemma_extends_trans(*old(assembly), before, *assembly);
            assert(start + so_far + code_of_word(words@[i as int].value) == start + (so_far
                + code_of_word(words@[i as int].value)));
        }
        i += 1;
    }
}

/// Appends the code of the words of lines.
fn compile_lines(assembly: &mut Assembly, out: &mut Vec<Instr>, lines: &Vec<Vec<Sp<Word>>>)
    requires
        all_sound(resolved(*old(assembly), old(out)@)),
        functions_sound(*old(assembly)),
    ensures
        final(assembly).extends(*old(assembly)),
        functions_sound(*final(assembly)),
        resolved(*final(assembly), final(out)@) == resolved(*old(assembly), old(out)@)
            + code_of_lines(lines@, lines@.len()),
        all_sound(resolved(*final(assembly), final(out)@)),
    decreases lines,
{
    let ghost start = resolved(*assembly, out@);
    let mut i: usize = 0;
    assert(start + code_of_lines(lines@, 0) == start);
    while i < lines.len()
        invariant
            i <= lines.len(),
            assembly.extends(*old(assembly)),
            functions_sound(*assembly),
            resolved(*assembly, out@) == start + code_of_lines(lines@, i as nat),
            all_sound(resolved(*assembly, out@)),
        decreases lines.len() - i,
    {
        let ghost before = *assembly;
        let ghost so_far = code_of_lines(lines@, i as nat);
        compile_words(assembly, out, &lines[i]);
        proof {
            lemma_extends_trans(*old(assembly), before, *assembly);
            let line = code_of_words(lines@[i as int]@, lines@[i as int]@.len());
            assert(start + so_far + line == start + (so_far + line));
        }
        i += 1;
    }
}

/// Adds a word to the table as a function.
fn compile_function(assembly: &mut Assembly, out: &Vec<Instr>, word: &Word) -> (at: usize)
    requires
        all_sound(resolved(*old(assembly), out@)),
        functions_sound(*old(assembly)),
    ensures
        final(assembly).extends(*old(assembly)),
        functions_sound(*final(assembly)),
        resolved(*final(assembly), out@) == resolved(*old(assembly), out@),
        at < final(assembly).functions@.len(),
        function_code(*final(assembly), at as nat, final(assembly).functions@.len())
            == function_of(*word),
    decreases word, 1int,
{
    let mut body: Vec<Instr> = Vec::new();
    assert(resolved(*assembly, body@) == Seq::<Code>::empty());
    let (id, signature) = match word {
        Word::Func(func) => {
            compile_lines(assembly, &mut body, &func.lines);
            let signature = match &func.signature {
                Some(sp) => Some(sp.value),
                None => None,
            };
            (func.id, signature)
        },
        _ => {
            compile_word(assembly, &mut body, word);
            (FunctionId { line: usize::MAX, index: assembly.functions.len() }, None)
        },
    };
    assert(function_of(*word) == Code::Function(signature, function_body(*word)));
    let ghost middle = *assembly;
    proof {
        lemma_grow(*old(assembly), middle, out@);
        assert(Seq::<Code>::empty() + function_body(*word) == function_body(*word));
    }
    let at = add_function(assembly, out, id, signature, body);
    proof {
        lemma_extends_trans(*old(assembly), middle, *assembly);
    }
    at
}

/// The body of a word as a function.
pub open spec fn function_body(word: Word) -> Seq<Code> {
    match word {
        Word::Func(func) => code_of_lines(func.lines@, func.lines@.len()),
        _ => code_of_word(word),
    }
}

/// Appends the code of a word.
fn compile_word(assembly: &mut Assembly, out: &mut Vec<Instr>, word: &Word)
    requires
        all_sound(resolved(*old(assembly), old(out)@)),
        functions_sound(*old(assembly)),
    ensures
        final(assembly).extends(*old(assembly)),
        functions_sound(*final(assembly)),
        resolved(*final(assembly), final(out)@) == resolved(*old(assembly), old(out)@)
            + code_of_word(*word),
        all_sound(resolved(*final(assembly), final(out)@)),
    decreases word, 0int,
{
    let ghost start = resolved(*assembly, out@);
    match word {
        Word::Number(_, bits) => {
            emit_constant(assembly, out, Value::Array(Array::number(*bits)));
            assert(start.push(Code::Push(number_value(*bits))) == start + seq![
                Code::Push(number_value(*bits)),
            ]);
        },
        Word::Char(c) => {
            emit_constant(assembly, out, Value::Array(Array::character(*c)));
            assert(start.push(Code::Push(char_value(*c))) == start + seq![
                Code::Push(char_value(*c)),
            ]);
        },
        Word::String(s) => {
            emit_constant(assembly, out, Value::Array(Array::string(s.as_str())));
            assert(start.push(Code::Push(string_value(s@))) == start + seq![
                Code::Push(string_value(s@)),
            ]);
        },
        Word::FormatString(parts) => {
            let text = flat_text(parts);
            emit_constant(assembly, out, Value::Array(Array::string(text.as_str())));
            assert(start.push(Code::Push(string_value(text@))) == start + seq![
                Code::Push(string_value(text@)),
            ]);
        },
        Word::MultilineString(lines) => {
            let mut all: Vec<char> = Vec::new();
            let mut i: usize = 0;
            while i < lines.len()
                invariant
                    i <= lines.len(),
                    all@ == multiline_flat(lines@, i as nat),
                decreases lines.len() - i,
            {
                if i > 0 {
                    all.push('\n');
                }
                let line = flat_text(&lines[i].value);
                crate::text::push_str(&mut all, line.as_str());
                proof {
                    if i == 0 {
                        assert(Seq::<char>::empty() + line@ == line@);
                    }
                }
                i += 1;
            }
            let text = crate::text::string_from_chars(&all);
            emit_constant(assembly, out, Value::Array(Array::string(text.as_str())));
            assert(start.push(Code::Push(string_value(text@))) == start + seq![
                Code::Push(string_value(text@)),
            ]);
        },
        Word::Ident(name) => {
            let at = place_of(assembly, out, name.as_str());
            emit(assembly, out, Instr::LoadGlobal(at));
            assert(start.push(Code::Load(name@)) == start + seq![Code::Load(name@)]);
        },
        Word::Strand(items) => {
            emit(assembly, out, Instr::BeginArray);
            compile_words(assembly, out, items);
            emit(assembly, out, Instr::EndArray);
            let ghost inner = code_of_words(items@, items@.len());
            assert((start.push(Code::BeginArray) + inner).push(Code::EndArray) == start + (seq![
                Code::BeginArray,
            ] + inner + seq![Code::EndArray]));
        },
        Word::Array(arr) => {
            emit(assembly, out, Instr::BeginArray);
            compile_lines(assembly, out, &arr.lines);
            emit(assembly, out, Instr::EndArray);
            let ghost inner = code_of_lines(arr.lines@, arr.lines@.len());
            assert((start.push(Code::BeginArray) + inner).push(Code::EndArray) == start + (seq![
                Code::BeginArray,
            ] + inner + seq![Code::EndArray]));
        },
        Word::Func(func) => {
            let mut body: Vec<Instr> = Vec::new();
            assert(resolved(*assembly, body@) == Seq::<Code>::empty());
            compile_lines(assembly, &mut body, &func.lines);
            let signature = match &func.signature {
                Some(sp) => Some(sp.value),
                None => None,
            };
            let ghost middle = *assembly;
            let ghost inner = code_of_lines(func.lines@, func.lines@.len());
            proof {
                lemma_grow(*old(assembly), middle, out@);
                assert(Seq::<Code>::empty() + inner == inner);
            }
            let at = add_function(assembly, out, func.id, signature, body);
            proof {
                lemma_extends_trans(*old(assembly), middle, *assembly);
            }
            emit(assembly, out, Instr::PushFunction(at));
            assert(start.push(Code::Function(signature, inner)) == start + seq![
                Code::Function(signature, inner),
            ]);
        },
        Word::Ocean(prims) => {
            let mut i: usize = 0;
            assert(start + code_of_primitives(prims@, 0) == start);
            while i < prims.len()
                invariant
                    i <= prims.len(),
                    *assembly == *old(assembly),
                    resolved(*assembly, out@) == start + code_of_primitives(prims@, i as nat),
                    all_sound(resolved(*assembly, out@)),
                decreases prims.len() - i,
            {
                let ghost so_far = code_of_primitives(prims@, i as nat);
                emit(assembly, out, primitive_instr(prims[i].value));
                assert((start + so_far).push(code_of_primitive(prims@[i as int].value)) == start
                    + so_far.push(code_of_primitive(prims@[i as int].value)));
                i += 1;
            }
        },
        Word::Primitive(prim) => {
            emit(assembly, out, primitive_instr(*prim));
            assert(start.push(code_of_primitive(*prim)) == start + seq![code_of_primitive(*prim)]);
        },
        Word::Modified(modified) => {
            compile_modified(assembly, out, modified);
            let ghost code = Code::Modified(
                modified.modifier.value,
                functions_of(modified.operands@, operand_count(modified.operands@.len())),
            );
            assert(start.push(code) == start + seq![code]);
        },
        Word::Comment(_) => {
            assert(start + Seq::<Code>::empty() == start);
        },
        Word::Spaces => {
            assert(start + Seq::<Code>::empty() == start);
        },
    }
}

/// Appends the code of a modifier with its operands.
fn compile_modified(assembly: &mut Assembly, out: &mut Vec<Instr>, modified: &Modified)
    requires
        all_sound(resolved(*old(assembly), old(out)@)),
        functions_sound(*old(assembly)),
    ensures
        final(assembly).extends(*old(assembly)),
        functions_sound(*final(assembly)),
        resolved(*final(assembly), final(out)@) == resolved(*old(assembly), old(out)@).push(
            Code::Modified(
                modified.modifier.value,
                functions_of(modified.operands@, operand_count(modified.operands@.len())),
            ),
        ),
        all_sound(resolved(*final(assembly), final(out)@)),
    decreases modified,
{
    let given = &modified.operands;
    let ghost before = *assembly;
    let first = if given.len() > 0 {
        Some(compile_function(assembly, out, &given[0].value))
    } else {
        None
    };
    let ghost middle = *assembly;
    let second = if given.len() > 1 {
        Some(compile_function(assembly, out, &given[1].value))
    } else {
        None
    };
    proof {
        lemma_extends_trans(before, middle, *assembly);
        let below = assembly.functions@.len();
        let codes = operand_code(*assembly, first, below) + operand_code(*assembly, second, below);
        let wanted = functions_of(given@, operand_count(given@.len()));
        assert(functions_of(given@, 0) == Seq::<Code>::empty());
        if given.len() > 0 {
            assert(functions_of(given@, 1) == seq![function_of(given@[0].value)]);
            if given.len() > 1 {
                lemma_function_stable(
                    middle,
                    *assembly,
                    first->0 as nat,
                    middle.functions@.len(),
                    below,
                );
                assert(functions_of(given@, 2) == seq![
                    function_of(given@[0].value),
                    function_of(given@[1].value),
                ]);
            }
        }
        assert(codes =~= wanted);
        assert forall|i: int| 0 <= i < codes.len() implies sound(#[trigger] codes[i]) by {
            if i == 0 && first is Some {
                assert(codes[0] == function_code(*assembly, first->0 as nat, below));
            } else {
                assert(codes[i] == function_code(*assembly, second->0 as nat, below));
            }
        }
        lemma_sound_all(codes, codes.len());
    }
    emit(assembly, out, Instr::ApplyModifier(modified.modifier.value, first, second));
}

/// The instruction that runs a primitive.
fn primitive_instr(prim: Primitive) -> (instr: Instr)
    ensures
        forall|assembly: Assembly, below: nat| #[trigger]
            resolve(assembly, instr, below) == code_of_primitive(prim),
{
    match prim {
        Primitive::Io(op) => Instr::CallIoOp(op),
        _ => Instr::CallPrimitive(prim),
    }
}

/// The texts of a list as one text.
fn flat_text(parts: &Vec<String>) -> (text: String)
    ensures
        text@ == flatten(strings_view(parts@)),
{
    let ghost all = strings_view(parts@);
    let mut out: Vec<char> = Vec::new();
    let mut i: usize = 0;
    while i < parts.len()
        invariant
            i <= parts.len(),
            all == strings_view(parts@),
            out@ == flatten(all.take(i as int)),
        decreases parts.len() - i,
    {
        proof {
            let longer = all.take(i + 1);
            assert(longer.drop_last() == all.take(i as int));
            assert(longer.last() == parts@[i as int]@);
        }
        crate::text::push_str(&mut out, parts[i].as_str());
        i += 1;
    }
    assert(all.take(all.len() as int) == all);
    crate::text::string_from_chars(&out)
}

/// Whether an item is run in a mode.
fn runs(mode: Option<RunMode>, test: bool) -> (yes: bool)
    ensures
        yes == is_run(mode, test),
{
    match mode {
        None => true,
        Some(m) => m.runs(test),
    }
}

/// Appends the code of items.
fn compile_items(
    assembly: &mut Assembly,
    out: &mut Vec<Instr>,
    items: &Vec<Item>,
    mode: Option<RunMode>,
)
    requires
        all_sound(resolved(*old(assembly), old(out)@)),
        functions_sound(*old(assembly)),
    ensures
        final(assembly).extends(*old(assembly)),
        functions_sound(*final(assembly)),
        resolved(*final(assembly), final(out)@) == resolved(*old(assembly), old(out)@)
            + code_of_items(items@, items@.len(), mode),
        all_sound(resolved(*final(assembly), final(out)@)),
    decreases items,
{
    let ghost start = resolved(*assembly, out@);
    let mut i: usize = 0;
    assert(start + code_of_items(items@, 0, mode) == start);
    while i < items.len()
        invariant
            i <= items.len(),
            assembly.extends(*old(assembly)),
            functions_sound(*assembly),
            resolved(*assembly, out@) == start + code_of_items(items@, i as nat, mode),
            all_sound(resolved(*assembly, out@)),
        decreases items.len() - i,
    {
        let ghost before = *assembly;
        let ghost so_far = code_of_items(items@, i as nat, mode);
        let ghost here = resolved(*assembly, out@);
        match &items[i] {
            Item::Scoped { items: inner, test } => {
                if runs(mode, *test) {
                    compile_items(assembly, out, inner, None);
                } else {
                    assert(here + Seq::<Code>::empty() == here);
                }
            },
            Item::Words(words) => {
                if runs(mode, false) {
                    compile_words(assembly, out, words);
                } else {
                    assert(here + Seq::<Code>::empty() == here);
                }
            },
            Item::Binding(binding) => {
                if runs(mode, false) {
                    compile_words(assembly, out, &binding.words);
                    let ghost middle = *assembly;
                    let at = place_of(assembly, out, binding.name.value.as_str());
                    emit(assembly, out, Instr::BindGlobal(at));
                    proof {
                        lemma_extends_trans(before, middle, *assembly);
                        let words = code_of_words(binding.words@, binding.words@.len());
                        assert((here + words).push(Code::Bind(binding.name.value@)) == here + (
                        words + seq![Code::Bind(binding.name.value@)]));
                    }
                } else {
                    assert(here + Seq::<Code>::empty() == here);
                }
            },
            Item::ExtraNewlines(_) => {
                assert(here + Seq::<Code>::empty() == here);
            },
        }
        proof {
            lemma_extends_trans(*old(assembly), before, *assembly);
            let item = code_of_item(items@[i as int], mode);
            assert(start + so_far + item == start + (so_far + item));
        }
        i += 1;
    }
}

/// The assembly of a program in a mode.
pub fn compile(items: &Vec<Item>, mode: RunMode) -> (assembly: Assembly)
    ensures
        assembly.wf(),
        assembly.code() == code_of_program(items@, mode),
{
    let mut assembly = Assembly {
        main: Vec::new(),
        functions: Vec::new(),
        constants: Vec::new(),
        globals: Vec::new(),
    };
    let mut out: Vec<Instr> = Vec::new();
    assert(resolved(assembly, out@) == Seq::<Code>::empty());
    compile_items(&mut assembly, &mut out, items, Some(mode));
    emit(&assembly, &mut out, Instr::EndOfAssembly);
    let ghost tables = assembly;
    assert(Seq::<Code>::empty() + code_of_items(items@, items@.len(), Some(mode)) == code_of_items(
        items@,
        items@.len(),
        Some(mode),
    ));
    assembly.main = out;
    proof {
        assert(assembly.extends(tables));
        assert(tables.extends(assembly));
        lemma_grow(tables, assembly, out@);
        assert forall|f: nat| f < assembly.functions@.len() implies sound(
            #[trigger] function_code(assembly, f, assembly.functions@.len()),
        ) by {
            assert(sound(function_code(tables, f, tables.functions@.len())));
        }
    }
    assembly
}

} // verus!
