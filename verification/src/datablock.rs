//! Data blocks: a schema and one array of values for each of its fields.

use vstd::prelude::*;

use crate::datavalues::{first_position, lemma_first_position, share, DataSchemaRef, DataType};
use crate::error::ErrorCodes;

verus! {

/// The values of one column; `None` is a null.
#[derive(Debug, PartialEq, Eq)]
pub enum DataArray {
    Boolean(Vec<Option<bool>>),
    Int64(Vec<Option<i64>>),
    UInt64(Vec<Option<u64>>),
    Utf8(Vec<Option<String>>),
}

/// One value of a column, as contracts see it.
pub enum Cell {
    Null,
    Boolean(bool),
    Int64(i64),
    UInt64(u64),
    Utf8(Seq<char>),
}

/// The cell of a Boolean value.
pub open spec fn boolean_cell(v: Option<bool>) -> Cell {
    match v {
        Some(b) => Cell::Boolean(b),
        None => Cell::Null,
    }
}

/// The cell of a signed number.
pub open spec fn int64_cell(v: Option<i64>) -> Cell {
    match v {
        Some(x) => Cell::Int64(x),
        None => Cell::Null,
    }
}

/// The cell of an unsigned number.
pub open spec fn uint64_cell(v: Option<u64>) -> Cell {
    match v {
        Some(x) => Cell::UInt64(x),
        None => Cell::Null,
    }
}

/// The cell of a string.
pub open spec fn utf8_cell(v: Option<String>) -> Cell {
    match v {
        Some(s) => Cell::Utf8(s@),
        None => Cell::Null,
    }
}

impl View for DataArray {
    type V = Seq<Cell>;

    /// The cells of the column, from the first row to the last.
    open spec fn view(&self) -> Seq<Cell> {
        match self {
            DataArray::Boolean(v) => Seq::new(v@.len(), |i: int| boolean_cell(v@[i])),
            DataArray::Int64(v) => Seq::new(v@.len(), |i: int| int64_cell(v@[i])),
            DataArray::UInt64(v) => Seq::new(v@.len(), |i: int| uint64_cell(v@[i])),
            DataArray::Utf8(v) => Seq::new(v@.len(), |i: int| utf8_cell(v@[i])),
        }
    }
}

/// The values of `values` at the positions `indices`, in that order.
fn gather<T: Copy>(values: &Vec<T>, indices: &[u32]) -> (r: Vec<T>)
    requires
        forall|k: int| 0 <= k < indices@.len() ==> (#[trigger] indices@[k] as int) < values@.len(),
    ensures
        r@.len() == indices@.len(),
        forall|k: int| 0 <= k < r@.len() ==> #[trigger] r@[k] == values@[indices@[k] as int],
{
    let mut r: Vec<T> = Vec::new();
    let mut k: usize = 0;
    while k < indices.len()
        invariant
            k <= indices@.len(),
            r@.len() == k,
            forall|m: int| 0 <= m < indices@.len() ==> (#[trigger] indices@[m] as int) < values@.len(),
            forall|m: int| 0 <= m < k ==> #[trigger] r@[m] == values@[indices@[m] as int],
        decreases indices@.len() - k,
    {
        let position: usize = indices[k] as usize;
        r.push(values[position]);
        k = k + 1;
    }
    r
}

/// The strings of `values` at the positions `indices`, in that order.
fn gather_text(values: &Vec<Option<String>>, indices: &[u32]) -> (r: Vec<Option<String>>)
    requires
        forall|k: int| 0 <= k < indices@.len() ==> (#[trigger] indices@[k] as int) < values@.len(),
    ensures
        r@.len() == indices@.len(),
        forall|k: int| 0 <= k < r@.len() ==> #[trigger] r@[k] == values@[indices@[k] as int],
{
    let mut r: Vec<Option<String>> = Vec::new();
    let mut k: usize = 0;
    while k < indices.len()
        invariant
            k <= indices@.len(),
            r@.len() == k,
            forall|m: int| 0 <= m < indices@.len() ==> (#[trigger] indices@[m] as int) < values@.len(),
            forall|m: int| 0 <= m < k ==> #[trigger] r@[m] == values@[indices@[m] as int],
        decreases indices@.len() - k,
    {
        let position: usize = indices[k] as usize;
        let value: Option<String> = match &values[position] {
            Some(s) => Some(s.clone()),
            None => None,
        };
        r.push(value);
        k = k + 1;
    }
    r
}

/// A copy of `values`.
fn copy_values<T: Copy>(values: &Vec<T>) -> (r: Vec<T>)
    ensures
        r@ == values@,
{
    let mut r: Vec<T> = Vec::new();
    let mut k: usize = 0;
    while k < values.len()
        invariant
            k <= values@.len(),
            r@ == values@.take(k as int),
        decreases values@.len() - k,
    {
        r.push(values[k]);
        assert(values@.take(k as int).push(values@[k as int]) =~= values@.take(k + 1));
        k = k + 1;
    }
    assert(values@.take(k as int) =~= values@);
    r
}

/// A copy of `values`.
fn copy_text(values: &Vec<Option<String>>) -> (r: Vec<Option<String>>)
    ensures
        r@ == values@,
{
    let mut r: Vec<Option<String>> = Vec::new();
    let mut k: usize = 0;
    while k < values.len()
        invariant
            k <= values@.len(),
            r@ == values@.take(k as int),
        decreases values@.len() - k,
    {
        let value: Option<String> = match &values[k] {
            Some(s) => Some(s.clone()),
            None => None,
        };
        r.push(value);
        assert(values@.take(k as int).push(values@[k as int]) =~= values@.take(k + 1));
        k = k + 1;
    }
    assert(values@.take(k as int) =~= values@);
    r
}

/// The cells of `cells` at the positions `indices`, in that order.
pub open spec fn taken(cells: Seq<Cell>, indices: Seq<int>) -> Seq<Cell> {
    Seq::new(indices.len(), |k: int| cells[indices[k]])
}

/// `indices` as integers.
pub open spec fn positions(indices: Seq<u32>) -> Seq<int> {
    Seq::new(indices.len(), |k: int| indices[k] as int)
}

impl DataArray {
    /// The type of the column's values.
    pub open spec fn spec_data_type(&self) -> DataType {
        match self {
            DataArray::Boolean(_) => DataType::Boolean,
            DataArray::Int64(_) => DataType::Int64,
            DataArray::UInt64(_) => DataType::UInt64,
            DataArray::Utf8(_) => DataType::Utf8,
        }
    }

    /// The type of the column's values.
    pub fn data_type(&self) -> (t: DataType)
        ensures
            t == self.spec_data_type(),
    {
        match self {
            DataArray::Boolean(_) => DataType::Boolean,
            DataArray::Int64(_) => DataType::Int64,
            DataArray::UInt64(_) => DataType::UInt64,
            DataArray::Utf8(_) => DataType::Utf8,
        }
    }

    /// The number of rows.
    pub fn len(&self) -> (n: usize)
        ensures
            n == self@.len(),
    {
        match self {
            DataArray::Boolean(v) => v.len(),
            DataArray::Int64(v) => v.len(),
            DataArray::UInt64(v) => v.len(),
            DataArray::Utf8(v) => v.len(),
        }
    }

    /// Whether the value in row `i` is a null.
    pub fn is_null(&self, i: usize) -> (b: bool)
        requires
            i < self@.len(),
        ensures
            b == (self@[i as int] is Null),
    {
        match self {
            DataArray::Boolean(v) => v[i].is_none(),
            DataArray::Int64(v) => v[i].is_none(),
            DataArray::UInt64(v) => v[i].is_none(),
            DataArray::Utf8(v) => v[i].is_none(),
        }
    }

    /// The rows at the positions `indices`, in that order.
    pub fn take(&self, indices: &[u32]) -> (r: DataArray)
        requires
            forall|k: int| 0 <= k < indices@.len() ==> (#[trigger] indices@[k] as int) < self@.len(),
        ensures
            r.spec_data_type() == self.spec_data_type(),
            r@ == taken(self@, positions(indices@)),
    {
        let r = match self {
            DataArray::Boolean(v) => DataArray::Boolean(gather(v, indices)),
            DataArray::Int64(v) => DataArray::Int64(gather(v, indices)),
            DataArray::UInt64(v) => DataArray::UInt64(gather(v, indices)),
            DataArray::Utf8(v) => DataArray::Utf8(gather_text(v, indices)),
        };
        assert(r@ =~= taken(self@, positions(indices@)));
        r
    }
}

impl Clone for DataArray {
    fn clone(&self) -> (r: Self)
        ensures
            r@ == self@,
            r.spec_data_type() == self.spec_data_type(),
    {
        match self {
            DataArray::Boolean(v) => DataArray::Boolean(copy_values(v)),
            DataArray::Int64(v) => DataArray::Int64(copy_values(v)),
            DataArray::UInt64(v) => DataArray::UInt64(copy_values(v)),
            DataArray::Utf8(v) => DataArray::Utf8(copy_text(v)),
        }
    }
}

/// A schema and one column for each of its fields.
#[derive(Debug, PartialEq, Eq)]
pub struct DataBlock {
    pub schema: DataSchemaRef,
    pub columns: Vec<DataArray>,
}

/// What a block holds: its schema and the cells of its columns.
pub struct BlockView {
    pub schema: DataSchemaRef,
    pub columns: Seq<Seq<Cell>>,
}

impl BlockView {
    /// The number of rows: that of the first column, and 0 without columns.
    pub open spec fn num_rows(self) -> nat {
        if self.columns.len() == 0 {
            0
        } else {
            self.columns[0].len()
        }
    }

    /// There is one column for each field, and all columns have one length.
    pub open spec fn well_formed(self) -> bool {
        &&& self.columns.len() == self.schema.fields@.len()
        &&& forall|c: int|
            0 <= c < self.columns.len() ==> (#[trigger] self.columns[c]).len() == self.num_rows()
    }

    /// The cells of the first column called `name`.
    pub open spec fn column_by_name(self, name: Seq<char>) -> Option<Seq<Cell>> {
        match first_position(self.schema.names(), name) {
            Some(c) => Some(self.columns[c]),
            None => None,
        }
    }

    /// The row `r`: its cell in each column.
    pub open spec fn row(self, r: int) -> Seq<Cell> {
        Seq::new(self.columns.len(), |c: int| self.columns[c][r])
    }

    /// The rows, from the first to the last.
    pub open spec fn rows(self) -> Seq<Seq<Cell>> {
        Seq::new(self.num_rows(), |r: int| self.row(r))
    }

    /// The block made of the rows at the positions `indices`, in that order.
    pub open spec fn take(self, indices: Seq<int>) -> BlockView {
        BlockView {
            schema: self.schema,
            columns: Seq::new(self.columns.len(), |c: int| taken(self.columns[c], indices)),
        }
    }
}

impl View for DataBlock {
    type V = BlockView;

    open spec fn view(&self) -> BlockView {
        BlockView {
            schema: self.schema,
            columns: Seq::new(self.columns@.len(), |c: int| self.columns@[c]@),
        }
    }
}

impl DataBlock {
    /// The block is well formed as a view, and each column holds values of
    /// its field's type.
    pub open spec fn well_formed(&self) -> bool {
        &&& self@.well_formed()
        &&& forall|c: int|
            0 <= c < self.columns@.len() ==> (#[trigger] self.columns@[c]).spec_data_type()
                == self.schema.fields@[c].data_type
    }

    /// The block of `schema` with the columns `arrays`.
    pub fn create_by_array(schema: DataSchemaRef, arrays: Vec<DataArray>) -> (b: DataBlock)
        ensures
            b.schema == schema,
            b.columns == arrays,
    {
        DataBlock { schema, columns: arrays }
    }

    /// Whether the block is well formed.
    pub fn is_well_formed(&self) -> (b: bool)
        ensures
            b == self.well_formed(),
    {
        if self.columns.len() != self.schema.fields.len() {
            return false;
        }
        let rows: usize = self.num_rows();
        let mut c: usize = 0;
        while c < self.columns.len()
            invariant
                c <= self.columns@.len(),
                self.columns@.len() == self.schema.fields@.len(),
                rows == self@.num_rows(),
                forall|d: int| 0 <= d < c ==> (#[trigger] self@.columns[d]).len() == rows,
                forall|d: int|
                    0 <= d < c ==> (#[trigger] self.columns@[d]).spec_data_type()
                        == self.schema.fields@[d].data_type,
            decreases self.columns@.len() - c,
        {
            if self.columns[c].len() != rows {
                assert(self@.columns[c as int].len() != rows);
                return false;
            }
            if self.columns[c].data_type() != self.schema.fields[c].data_type {
                return false;
            }
            c = c + 1;
        }
        true
    }

    /// The block's schema.
    pub fn schema(&self) -> (s: &DataSchemaRef)
        ensures
            *s == self.schema,
    {
        &self.schema
    }

    /// The block's columns, in the order of the schema's fields.
    pub fn columns(&self) -> (c: &Vec<DataArray>)
        ensures
            *c == self.columns,
    {
        &self.columns
    }

    /// The number of columns.
    pub fn num_columns(&self) -> (n: usize)
        ensures
            n == self@.columns.len(),
    {
        self.columns.len()
    }

    /// The number of rows: that of the first column, and 0 without columns.
    pub fn num_rows(&self) -> (n: usize)
        ensures
            n == self@.num_rows(),
    {
        if self.columns.len() == 0 {
            0
        } else {
            self.columns[0].len()
        }
    }

    /// The position of the first column called `name`, or `FieldNotFound`.
    pub fn index_by_name(&self, name: &str) -> (r: Result<usize, ErrorCodes>)
        requires
            self.well_formed(),
        ensures
            match r {
                Ok(c) => first_position(self.schema.names(), name@) == Some(c as int) && c
                    < self.columns@.len(),
                Err(e) => e == ErrorCodes::FieldNotFound && first_position(
                    self.schema.names(),
                    name@,
                ) is None,
            },
    {
        proof {
            lemma_first_position(self.schema.names(), name@, 0);
        }
        self.schema.index_of(name)
    }

    /// The first column called `name`, or `FieldNotFound`.
    pub fn try_array_by_name(&self, name: &str) -> (r: Result<&DataArray, ErrorCodes>)
        requires
            self.well_formed(),
        ensures
            match r {
                Ok(a) => self@.column_by_name(name@) == Some(a@),
                Err(e) => e == ErrorCodes::FieldNotFound && self@.column_by_name(name@) is None,
            },
    {
        match self.index_by_name(name) {
            Ok(c) => Ok(&self.columns[c]),
            Err(e) => Err(e),
        }
    }

    /// The block made of the rows at the positions `indices`, in that
    /// order; `UnknownException` where one of them is no row of the block.
    pub fn block_take_by_indices(block: &DataBlock, indices: &[u32]) -> (r: Result<
        DataBlock,
        ErrorCodes,
    >)
        requires
            block.well_formed(),
        ensures
            match r {
                Ok(out) => out.well_formed() && out@ == block@.take(positions(indices@)) && forall|
                    k: int,
                |
                    0 <= k < indices@.len() ==> (#[trigger] indices@[k] as int) < block@.num_rows(),
                Err(e) => e == ErrorCodes::UnknownException && exists|k: int|
                    0 <= k < indices@.len() && (#[trigger] indices@[k] as int)
                        >= block@.num_rows(),
            },
    {
        let rows: usize = block.num_rows();
        let mut k: usize = 0;
        while k < indices.len()
            invariant
                k <= indices@.len(),
                rows == block@.num_rows(),
                forall|m: int| 0 <= m < k ==> (#[trigger] indices@[m] as int) < rows,
            decreases indices@.len() - k,
        {
            if indices[k] as usize >= rows {
                assert((indices@[k as int] as int) >= block@.num_rows());
                return Err(ErrorCodes::UnknownException);
            }
            k = k + 1;
        }
        let mut columns: Vec<DataArray> = Vec::new();
        let mut c: usize = 0;
        while c < block.columns.len()
            invariant
                c <= block.columns@.len(),
                block.well_formed(),
                rows == block@.num_rows(),
                forall|m: int| 0 <= m < indices@.len() ==> (#[trigger] indices@[m] as int) < rows,
                columns@.len() == c,
                forall|d: int|
                    0 <= d < c ==> (#[trigger] columns@[d])@ == taken(
                        block.columns@[d]@,
                        positions(indices@),
                    ) && columns@[d].spec_data_type() == block.columns@[d].spec_data_type(),
            decreases block.columns@.len() - c,
        {
            assert(block@.columns[c as int].len() == rows);
            columns.push(block.columns[c].take(indices));
            c = c + 1;
        }
        let out = DataBlock { schema: share(&block.schema), columns };
        assert(out@.columns =~= block@.take(positions(indices@)).columns);
        assert(out.well_formed()) by {
            assert forall|d: int| 0 <= d < out@.columns.len() implies (#[trigger] out@.columns[d]).len()
                == out@.num_rows() by {
                assert(out@.columns[d] == columns@[d]@);
            }
        }
        Ok(out)
    }
}

impl Clone for DataBlock {
    fn clone(&self) -> (r: Self)
        ensures
            r@ == self@,
            self.well_formed() ==> r.well_formed(),
    {
        let mut columns: Vec<DataArray> = Vec::new();
        let mut c: usize = 0;
        while c < self.columns.len()
            invariant
                c <= self.columns@.len(),
                columns@.len() == c,
                forall|d: int|
                    0 <= d < c ==> (#[trigger] columns@[d])@ == self.columns@[d]@
                        && columns@[d].spec_data_type() == self.columns@[d].spec_data_type(),
            decreases self.columns@.len() - c,
        {
            columns.push(self.columns[c].clone());
            c = c + 1;
        }
        let r = DataBlock { schema: share(&self.schema), columns };
        assert(r@.columns =~= self@.columns);
        r
    }
}

} // verus!
