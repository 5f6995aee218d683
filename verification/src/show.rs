//! The text of values: plain, as `print` writes them, and as a grid, as
//! `show` writes them.
//!
//! Each element becomes a cell of text. In the plain form the cells follow
//! one another on one line; in the grid every row of the last axis gets a line
//! of its own. Cells of characters stand side by side, other cells are
//! parted by one space.

use vstd::prelude::*;
use vstd::string::*;
use crate::kernel::Kernel;
use crate::text::{decimal, decimal_string, push_str, string_from_chars};
use crate::value::{strings_view, Array, ArrayView, Buffer, BufferView, Value, ValueView};

verus! {

/// What stands before the cell of the given index: nothing before the first,
/// a line break where a row of `width` cells is full, else `between`. A
/// width of zero means one row.
pub open spec fn separator(index: nat, between: Seq<char>, width: nat) -> Seq<char> {
    if index == 0 {
        Seq::empty()
    } else if width > 0 && index % width == 0 {
        seq!['\n']
    } else {
        between
    }
}

/// The cells in order, each after its separator.
pub open spec fn laid_out(cells: Seq<Seq<char>>, between: Seq<char>, width: nat) -> Seq<char>
    decreases cells.len(),
{
    if cells.len() == 0 {
        Seq::empty()
    } else {
        laid_out(cells.drop_last(), between, width) + separator(
            (cells.len() - 1) as nat,
            between,
            width,
        ) + cells.last()
    }
}

/// Lays cells out in rows of `width`, or in one row where `width` is zero.
pub fn lay_out(cells: &Vec<String>, between: &str, width: usize) -> (text: String)
    ensures
        text@ == laid_out(strings_view(cells@), between@, width as nat),
{
    let ghost all = strings_view(cells@);
    let mut out: Vec<char> = Vec::new();
    let mut i: usize = 0;
    while i < cells.len()
        invariant
            i <= cells.len(),
            all == strings_view(cells@),
            out@ == laid_out(all.take(i as int), between@, width as nat),
        decreases cells.len() - i,
    {
        proof {
            let longer = all.take(i + 1);
            assert(longer.drop_last() == all.take(i as int));
            assert(longer.last() == cells@[i as int]@);
        }
        let ghost before = out@;
        if i == 0 {
            assert(before + Seq::<char>::empty() == before);
        } else if width > 0 && i % width == 0 {
            out.push('\n');
            assert(out@ == before + seq!['\n']);
        } else {
            push_str(&mut out, between);
        }
        assert(out@ == before + separator(i as nat, between@, width as nat));
        push_str(&mut out, cells[i].as_str());
        i += 1;
    }
    assert(all.take(all.len() as int) == all);
    string_from_chars(&out)
}

/// The cells of a buffer that holds no numbers: a byte as its decimal
/// numeral, a character as itself, a string as itself.
pub open spec fn cell_texts(data: BufferView) -> Seq<Seq<char>> {
    match data {
        BufferView::Num(s) => Seq::empty(),
        BufferView::Byte(s) => s.map_values(|b: u8| decimal(b as nat)),
        BufferView::Char(s) => s.map_values(|c: char| seq![c]),
        BufferView::Str(s) => s,
    }
}

/// What parts two cells of a row.
pub open spec fn between(data: BufferView) -> Seq<char> {
    if data is Char {
        Seq::empty()
    } else {
        seq![' ']
    }
}

/// The number of cells in a row of the grid: the last dimension of an array
/// of rank two or more; zero, for one row, otherwise.
pub open spec fn row_width(shape: Seq<usize>) -> nat {
    if shape.len() >= 2 {
        shape.last() as nat
    } else {
        0
    }
}

/// The cells of an array, one for each element in order. The text of a number
/// is what the kernel says it is.
pub fn cells<K: Kernel>(array: &Array, kernel: &mut K) -> (cells: Vec<String>)
    ensures
        cells@.len() == array@.data.len(),
        !(array@.data is Num) ==> strings_view(cells@) == cell_texts(array@.data),
{
    let mut out: Vec<String> = Vec::new();
    match array.data() {
        Buffer::Num(numbers) => {
            let mut i: usize = 0;
            while i < numbers.len()
                invariant
                    i <= numbers.len(),
                    out@.len() == i,
                decreases numbers.len() - i,
            {
                out.push(kernel.text(numbers[i]));
                i += 1;
            }
        },
        Buffer::Byte(bytes) => {
            let mut i: usize = 0;
            while i < bytes.len()
                invariant
                    i <= bytes.len(),
                    strings_view(out@) == bytes@.take(i as int).map_values(
                        |b: u8| decimal(b as nat),
                    ),
                decreases bytes.len() - i,
            {
                let cell = decimal_string(bytes[i] as u64);
                proof {
                    let before = strings_view(out@);
                    assert(strings_view(out@.push(cell)) == before.push(cell@));
                    assert(bytes@.take(i + 1).map_values(|b: u8| decimal(b as nat))
                        == bytes@.take(i as int).map_values(|b: u8| decimal(b as nat)).push(
                        decimal(bytes@[i as int] as nat),
                    ));
                }
                out.push(cell);
                i += 1;
            }
            assert(bytes@.take(bytes@.len() as int) == bytes@);
        },
        Buffer::Char(chars) => {
            let mut i: usize = 0;
            while i < chars.len()
                invariant
                    i <= chars.len(),
                    strings_view(out@) == chars@.take(i as int).map_values(|c: char| seq![c]),
                decreases chars.len() - i,
            {
                let mut one: Vec<char> = Vec::new();
                one.push(chars[i]);
                let cell = string_from_chars(&one);
                proof {
                    assert(one@ == seq![chars@[i as int]]);
                    let before = strings_view(out@);
                    assert(strings_view(out@.push(cell)) == before.push(cell@));
                    assert(chars@.take(i + 1).map_values(|c: char| seq![c]) == chars@.take(
                        i as int,
                    ).map_values(|c: char| seq![c]).push(seq![chars@[i as int]]));
                }
                out.push(cell);
                i += 1;
            }
            assert(chars@.take(chars@.len() as int) == chars@);
        },
        Buffer::Str(strings) => {
            let mut i: usize = 0;
            while i < strings.len()
                invariant
                    i <= strings.len(),
                    strings_view(out@) == strings_view(strings@).take(i as int),
                decreases strings.len() - i,
            {
                let cell = strings[i].clone();
                proof {
                    let before = strings_view(out@);
                    assert(strings_view(out@.push(cell)) == before.push(cell@));
                    assert(strings_view(strings@).take(i + 1) == strings_view(strings@).take(
                        i as int,
                    ).push(strings@[i as int]@));
                }
                out.push(cell);
                i += 1;
            }
            assert(strings_view(strings@).take(strings@.len() as int) == strings_view(strings@));
        },
    }
    out
}

/// Whether `text` is the text of the array laid out over some cells: as many
/// as it has elements, and for an array without numbers exactly the cells of
/// its elements. `grid` asks for a line per row.
pub open spec fn shows(array: ArrayView, grid: bool, text: Seq<char>) -> bool {
    shows_in_rows(
        array,
        if grid {
            row_width(array.shape)
        } else {
            0
        },
        text,
    )
}

/// Whether `text` is the text of the array laid out in rows of `width` over
/// some cells: as many as it has elements, and for an array without numbers
/// exactly the cells of its elements.
pub open spec fn shows_in_rows(array: ArrayView, width: nat, text: Seq<char>) -> bool {
    exists|cells: Seq<Seq<char>>|
        {
            &&& cells.len() == array.data.len()
            &&& !(array.data is Num) ==> cells == cell_texts(array.data)
            &&& #[trigger] laid_out(cells, between(array.data), width) == text
        }
}

/// The text of an array, plain or as a grid.
pub fn array_text<K: Kernel>(array: &Array, kernel: &mut K, grid: bool) -> (text: String)
    ensures
        shows(array@, grid, text@),
{
    proof {
        reveal_strlit("");
        reveal_strlit(" ");
        assert(""@ =~= Seq::<char>::empty());
        assert(" "@ =~= seq![' ']);
    }
    let cells = cells(array, kernel);
    let width = if grid && array.rank() >= 2 {
        array.shape()[array.rank() - 1]
    } else {
        0
    };
    let text = match array.data() {
        Buffer::Char(_) => lay_out(&cells, "", width),
        _ => lay_out(&cells, " ", width),
    };
    proof {
        let shown = strings_view(cells@);
        assert(shown.len() == array@.data.len());
        let wide: nat = if grid {
            row_width(array@.shape)
        } else {
            0
        };
        assert(wide == width);
        assert(!(array@.data is Num) ==> shown == cell_texts(array@.data));
        assert(laid_out(shown, between(array@.data), wide) == text@);
        assert(shows(array@, grid, text@));
    }
    text
}

/// How a reference to a function is shown.
pub open spec fn function_text() -> Seq<char> {
    "function"@
}

/// Whether `text` is the text of the value.
pub open spec fn shows_value(value: ValueView, grid: bool, text: Seq<char>) -> bool {
    match value {
        ValueView::Array(array) => shows(array, grid, text),
        ValueView::Func(_) => text == function_text(),
    }
}

/// The text of a value, plain or as a grid.
pub fn value_text<K: Kernel>(value: &Value, kernel: &mut K, grid: bool) -> (text: String)
    ensures
        shows_value(value@, grid, text@),
{
    match value {
        Value::Array(array) => array_text(array, kernel, grid),
        Value::Func(_) => String::from_str("function"),
    }
}

} // verus!
