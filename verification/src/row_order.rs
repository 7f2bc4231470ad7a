//! The order of rows under a list of sort keys.

use vstd::prelude::*;
use vstd::utf8::encode_utf8;

use crate::datablock::{Cell, DataArray};

verus! {

/// How one sort key orders its values.
#[derive(Debug, Clone, Copy, PartialEq, Eq, Structural)]
pub struct SortOption {
    /// Greater values first.
    pub descending: bool,
    /// Nulls before all values; else behind them.
    pub nulls_first: bool,
}

/// -1, 0 or 1 as `x` is less than, equal to or greater than `y`.
pub open spec fn sign_of(x: int, y: int) -> int {
    if x < y {
        -1
    } else if x > y {
        1
    } else {
        0
    }
}

/// The order of two byte strings from position `from` on: byte by byte, a
/// string before those that it is a proper prefix of.
pub open spec fn bytes_order(a: Seq<u8>, b: Seq<u8>, from: int) -> int
    decreases a.len() - from,
{
    if from < 0 {
        0
    } else if from >= a.len() {
        if from >= b.len() {
            0
        } else {
            -1
        }
    } else if from >= b.len() {
        1
    } else if a[from] != b[from] {
        sign_of(a[from] as int, b[from] as int)
    } else {
        bytes_order(a, b, from + 1)
    }
}

/// The place of a cell's kind among the kinds.
pub open spec fn kind_rank(a: Cell) -> int {
    match a {
        Cell::Null => 0,
        Cell::Boolean(_) => 1,
        Cell::Int64(_) => 2,
        Cell::UInt64(_) => 3,
        Cell::Utf8(_) => 4,
    }
}

/// The natural order of two cells: `false` before `true`, numbers by
/// value, strings by the bytes of their UTF-8 form; cells of two kinds by
/// kind.
pub open spec fn value_order(a: Cell, b: Cell) -> int {
    match (a, b) {
        (Cell::Boolean(x), Cell::Boolean(y)) => sign_of(
            if x {
                1
            } else {
                0
            },
            if y {
                1
            } else {
                0
            },
        ),
        (Cell::Int64(x), Cell::Int64(y)) => sign_of(x as int, y as int),
        (Cell::UInt64(x), Cell::UInt64(y)) => sign_of(x as int, y as int),
        (Cell::Utf8(x), Cell::Utf8(y)) => bytes_order(encode_utf8(x), encode_utf8(y), 0),
        _ => sign_of(kind_rank(a), kind_rank(b)),
    }
}

/// The order of two cells under a sort key: two nulls are equal, a null
/// stands before or behind every value as the key says, and two values stand
/// in their natural order or in its reverse.
pub open spec fn cell_order(a: Cell, b: Cell, option: SortOption) -> int {
    if a is Null && b is Null {
        0
    } else if a is Null {
        if option.nulls_first {
            -1
        } else {
            1
        }
    } else if b is Null {
        if option.nulls_first {
            1
        } else {
            -1
        }
    } else if option.descending {
        -value_order(a, b)
    } else {
        value_order(a, b)
    }
}

/// The order of two rows of key cells from key `from` on: that of the
/// first key under which they differ.
pub open spec fn row_order(x: Seq<Cell>, y: Seq<Cell>, options: Seq<SortOption>, from: int) -> int
    decreases options.len() - from,
{
    if from < 0 || from >= options.len() {
        0
    } else if cell_order(x[from], y[from], options[from]) != 0 {
        cell_order(x[from], y[from], options[from])
    } else {
        row_order(x, y, options, from + 1)
    }
}

/// The key cells of row `i`: its cell in each of the key columns.
pub open spec fn key_row(keys: Seq<Seq<Cell>>, i: int) -> Seq<Cell> {
    Seq::new(keys.len(), |d: int| keys[d][i])
}

/// The order of row `i` of `left` and row `j` of `right`.
pub open spec fn rows_order(
    left: Seq<Seq<Cell>>,
    i: int,
    right: Seq<Seq<Cell>>,
    j: int,
    options: Seq<SortOption>,
) -> int {
    row_order(key_row(left, i), key_row(right, j), options, 0)
}

/// Whether `o12`, `o23` and `o13` can be the orders of a first and a
/// second, a second and a third, and the first and the third thing.
pub open spec fn chained(o12: int, o23: int, o13: int) -> bool {
    &&& o12 <= 0 && o23 <= 0 ==> o13 <= 0
    &&& o12 <= 0 && o23 < 0 ==> o13 < 0
    &&& o12 < 0 && o23 <= 0 ==> o13 < 0
}

/// Swapping two byte strings reverses their order.
pub proof fn lemma_bytes_order_reverse(a: Seq<u8>, b: Seq<u8>, from: int)
    ensures
        bytes_order(a, b, from) == -bytes_order(b, a, from),
        -1 <= bytes_order(a, b, from) <= 1,
    decreases a.len() - from,
{
    if from >= 0 && from < a.len() && from < b.len() && a[from] == b[from] {
        lemma_bytes_order_reverse(a, b, from + 1);
    }
}

/// The order of byte strings is transitive.
pub proof fn lemma_bytes_order_chained(a: Seq<u8>, b: Seq<u8>, c: Seq<u8>, from: int)
    ensures
        chained(bytes_order(a, b, from), bytes_order(b, c, from), bytes_order(a, c, from)),
    decreases a.len() - from,
{
    if from >= 0 && from < a.len() && from < b.len() && from < c.len() && a[from] == b[from]
        && b[from] == c[from] {
        lemma_bytes_order_chained(a, b, c, from + 1);
    }
}

/// Swapping two cells reverses their order.
pub proof fn lemma_cell_order_reverse(a: Cell, b: Cell, option: SortOption)
    ensures
        cell_order(a, b, option) == -cell_order(b, a, option),
        -1 <= cell_order(a, b, option) <= 1,
{
    match (a, b) {
        (Cell::Utf8(x), Cell::Utf8(y)) => {
            lemma_bytes_order_reverse(encode_utf8(x), encode_utf8(y), 0);
        },
        _ => {},
    }
}

/// The order of cells is transitive.
pub proof fn lemma_cell_order_chained(a: Cell, b: Cell, c: Cell, option: SortOption)
    ensures
        chained(cell_order(a, b, option), cell_order(b, c, option), cell_order(a, c, option)),
{
    match (a, b, c) {
        (Cell::Utf8(x), Cell::Utf8(y), Cell::Utf8(z)) => {
            lemma_bytes_order_chained(encode_utf8(x), encode_utf8(y), encode_utf8(z), 0);
            lemma_bytes_order_chained(encode_utf8(z), encode_utf8(y), encode_utf8(x), 0);
            lemma_bytes_order_reverse(encode_utf8(x), encode_utf8(y), 0);
            lemma_bytes_order_reverse(encode_utf8(y), encode_utf8(z), 0);
            lemma_bytes_order_reverse(encode_utf8(x), encode_utf8(z), 0);
        },
        _ => {},
    }
}

/// Swapping two rows reverses their order.
pub proof fn lemma_row_order_reverse(x: Seq<Cell>, y: Seq<Cell>, options: Seq<SortOption>, from: int)
    ensures
        row_order(x, y, options, from) == -row_order(y, x, options, from),
        -1 <= row_order(x, y, options, from) <= 1,
    decreases options.len() - from,
{
    if 0 <= from < options.len() {
        lemma_cell_order_reverse(x[from], y[from], options[from]);
        lemma_row_order_reverse(x, y, options, from + 1);
    }
}

/// The order of rows is transitive.
pub proof fn lemma_row_order_chained(
    x: Seq<Cell>,
    y: Seq<Cell>,
    z: Seq<Cell>,
    options: Seq<SortOption>,
    from: int,
)
    ensures
        chained(
            row_order(x, y, options, from),
            row_order(y, z, options, from),
            row_order(x, z, options, from),
        ),
    decreases options.len() - from,
{
    if 0 <= from < options.len() {
        lemma_cell_order_chained(x[from], y[from], z[from], options[from]);
        lemma_cell_order_reverse(x[from], y[from], options[from]);
        lemma_cell_order_reverse(y[from], z[from], options[from]);
        lemma_cell_order_reverse(x[from], z[from], options[from]);
        lemma_row_order_chained(x, y, z, options, from + 1);
    }
}

/// The order of two byte strings.
pub fn compare_bytes(a: &[u8], b: &[u8]) -> (c: i8)
    ensures
        c == bytes_order(a@, b@, 0),
{
    let mut k: usize = 0;
    while k < a.len() && k < b.len()
        invariant
            k <= a@.len(),
            k <= b@.len(),
            bytes_order(a@, b@, 0) == bytes_order(a@, b@, k as int),
        decreases a@.len() - k,
    {
        if a[k] < b[k] {
            return -1;
        }
        if a[k] > b[k] {
            return 1;
        }
        k = k + 1;
    }
    if k < b.len() {
        -1
    } else if k < a.len() {
        1
    } else {
        0
    }
}

/// The place of an array's kind among the kinds.
fn array_rank(a: &DataArray) -> (r: i8)
    ensures
        1 <= r <= 4,
        forall|i: int| 0 <= i < a@.len() && !(#[trigger] a@[i] is Null) ==> kind_rank(a@[i]) == r,
{
    match a {
        DataArray::Boolean(_) => 1,
        DataArray::Int64(_) => 2,
        DataArray::UInt64(_) => 3,
        DataArray::Utf8(_) => 4,
    }
}

/// The natural order of row `i` of `a` and row `j` of `b`, neither a null.
fn compare_values(a: &DataArray, i: usize, b: &DataArray, j: usize) -> (c: i8)
    requires
        i < a@.len(),
        j < b@.len(),
        !(a@[i as int] is Null),
        !(b@[j as int] is Null),
    ensures
        c == value_order(a@[i as int], b@[j as int]),
        -1 <= c <= 1,
{
    match (a, b) {
        (DataArray::Boolean(x), DataArray::Boolean(y)) => match (x[i], y[j]) {
            (Some(p), Some(q)) => if p == q {
                0
            } else if q {
                -1
            } else {
                1
            },
            _ => 0,
        },
        (DataArray::Int64(x), DataArray::Int64(y)) => match (x[i], y[j]) {
            (Some(p), Some(q)) => if p < q {
                -1
            } else if p > q {
                1
            } else {
                0
            },
            _ => 0,
        },
        (DataArray::UInt64(x), DataArray::UInt64(y)) => match (x[i], y[j]) {
            (Some(p), Some(q)) => if p < q {
                -1
            } else if p > q {
                1
            } else {
                0
            },
            _ => 0,
        },
        (DataArray::Utf8(x), DataArray::Utf8(y)) => match (&x[i], &y[j]) {
            (Some(p), Some(q)) => {
                proof {
                    lemma_bytes_order_reverse(encode_utf8(p@), encode_utf8(q@), 0);
                }
                compare_bytes(p.as_str().as_bytes(), q.as_str().as_bytes())
            },
            _ => 0,
        },
        _ => {
            let p: i8 = array_rank(a);
            let q: i8 = array_rank(b);
            if p < q {
                -1
            } else if p > q {
                1
            } else {
                0
            }
        },
    }
}

/// The order of row `i` of `a` and row `j` of `b` under a sort key.
pub fn compare_cells(a: &DataArray, i: usize, b: &DataArray, j: usize, option: SortOption) -> (c:
    i8)
    requires
        i < a@.len(),
        j < b@.len(),
    ensures
        c == cell_order(a@[i as int], b@[j as int], option),
{
    let a_null: bool = a.is_null(i);
    let b_null: bool = b.is_null(j);
    if a_null && b_null {
        0
    } else if a_null {
        if option.nulls_first {
            -1
        } else {
            1
        }
    } else if b_null {
        if option.nulls_first {
            1
        } else {
            -1
        }
    } else {
        let v: i8 = compare_values(a, i, b, j);
        if option.descending {
            -v
        } else {
            v
        }
    }
}

/// The cells of the key columns `keys`.
pub open spec fn keys_view(keys: Seq<&DataArray>) -> Seq<Seq<Cell>> {
    Seq::new(keys.len(), |d: int| keys[d]@)
}

/// The order of row `i` of the key columns `left` and row `j` of the key
/// columns `right`.
pub fn compare_rows(
    left: &Vec<&DataArray>,
    i: usize,
    right: &Vec<&DataArray>,
    j: usize,
    options: &Vec<SortOption>,
) -> (c: i8)
    requires
        left@.len() == options@.len(),
        right@.len() == options@.len(),
        forall|d: int| 0 <= d < left@.len() ==> i < (#[trigger] left@[d])@.len(),
        forall|d: int| 0 <= d < right@.len() ==> j < (#[trigger] right@[d])@.len(),
    ensures
        c == rows_order(keys_view(left@), i as int, keys_view(right@), j as int, options@),
{
    let ghost x = key_row(keys_view(left@), i as int);
    let ghost y = key_row(keys_view(right@), j as int);
    let mut d: usize = 0;
    while d < options.len()
        invariant
            d <= options@.len(),
            left@.len() == options@.len(),
            right@.len() == options@.len(),
            forall|e: int| 0 <= e < left@.len() ==> i < (#[trigger] left@[e])@.len(),
            forall|e: int| 0 <= e < right@.len() ==> j < (#[trigger] right@[e])@.len(),
            x == key_row(keys_view(left@), i as int),
            y == key_row(keys_view(right@), j as int),
            row_order(x, y, options@, 0) == row_order(x, y, options@, d as int),
        decreases options@.len() - d,
    {
        let c: i8 = compare_cells(left[d], i, right[d], j, options[d]);
        assert(x[d as int] == left@[d as int]@[i as int]);
        assert(y[d as int] == right@[d as int]@[j as int]);
        if c != 0 {
            return c;
        }
        d = d + 1;
    }
    0
}

} // verus!
