//! Sorting the rows of one block by a list of sort keys.

use arrow::array::{ArrayRef, BooleanArray, Int64Array, LargeStringArray, UInt64Array};
use arrow::compute::{SortColumn, SortOptions};
use arrow::error::ArrowError;
use std::sync::Arc;
use vstd::prelude::*;

use crate::datablock::{positions, BlockView, Cell, DataArray, DataBlock};
use crate::error::ErrorCodes;
use crate::row_order::{keys_view, rows_order, SortOption};

verus! {

/// One sort key: a column, the direction, and where its nulls go.
#[derive(Debug, Clone, PartialEq, Eq)]
pub struct SortColumnDescription {
    pub column_name: String,
    pub asc: bool,
    pub nulls_first: bool,
}

/// How each of `descriptions` orders the values of its column.
pub open spec fn sort_options(descriptions: Seq<SortColumnDescription>) -> Seq<SortOption> {
    Seq::new(
        descriptions.len(),
        |d: int|
            SortOption {
                descending: !descriptions[d].asc,
                nulls_first: descriptions[d].nulls_first,
            },
    )
}

/// Whether `block` has a column for each of `descriptions`.
pub open spec fn has_sort_columns(block: BlockView, descriptions: Seq<SortColumnDescription>) -> bool {
    forall|d: int|
        0 <= d < descriptions.len() ==> block.column_by_name(
            (#[trigger] descriptions[d]).column_name@,
        ) is Some
}

/// The cells of the columns of `block` that `descriptions` name, in the
/// order of `descriptions`.
pub open spec fn sort_keys(block: BlockView, descriptions: Seq<SortColumnDescription>) -> Seq<
    Seq<Cell>,
> {
    Seq::new(
        descriptions.len(),
        |d: int| block.column_by_name(descriptions[d].column_name@).unwrap(),
    )
}

/// Whether `p` holds each of the row numbers below `n` once.
pub open spec fn is_permutation(p: Seq<int>, n: int) -> bool {
    &&& p.len() == n
    &&& forall|a: int| 0 <= a < p.len() ==> 0 <= #[trigger] p[a] < n
    &&& forall|a: int, b: int| 0 <= a < b < p.len() ==> #[trigger] p[a] != #[trigger] p[b]
}

/// Whether no row of `p` stands before a row that the keys order before it.
pub open spec fn in_order(keys: Seq<Seq<Cell>>, options: Seq<SortOption>, p: Seq<int>) -> bool {
    forall|a: int, b: int|
        0 <= a < b < p.len() ==> rows_order(keys, #[trigger] p[a], keys, #[trigger] p[b], options)
            <= 0
}

/// Whether `p` is a sort of the `n` rows of `keys`: all of them, in order.
pub open spec fn is_sort(keys: Seq<Seq<Cell>>, options: Seq<SortOption>, n: int, p: Seq<int>) -> bool {
    is_permutation(p, n) && in_order(keys, options, p)
}

/// The number of rows that a limit leaves of `n`.
pub open spec fn kept_rows(n: int, limit: Option<usize>) -> int {
    match limit {
        Some(k) => if k < n {
            k as int
        } else {
            n
        },
        None => n,
    }
}

/// Whether `out` holds the first rows, as many as `limit` leaves, of a
/// sort of the rows of `block` by `descriptions`.
pub open spec fn is_sorted_selection(
    block: BlockView,
    descriptions: Seq<SortColumnDescription>,
    limit: Option<usize>,
    out: BlockView,
) -> bool {
    exists|p: Seq<int>|
        is_sort(
            sort_keys(block, descriptions),
            sort_options(descriptions),
            block.num_rows() as int,
            p,
        ) && out == block.take(
            #[trigger] p.take(kept_rows(block.num_rows() as int, limit)),
        )
}

/// The error type of the array library, `arrow::error::ArrowError`, carried
/// through as it is: nothing is known of what a value of it holds.
#[verifier::external_type_specification]
#[verifier::external_body]
pub struct ExArrowError(ArrowError);

/// The first row numbers, as many as `limit` leaves, of a sort of the rows
/// of the key columns.
///
/// Trusted: this is `arrow::compute::lexsort_to_indices` on the key columns
/// as arrow arrays. The contract claims that it fails on no key column at
/// all and on nothing else, and that what it returns is the beginning of a
/// sequence that holds every row number once and in which no row stands
/// before a row that `rows_order` puts before it. Which of two rows with
/// equal keys comes first is left open.
#[verifier::external_body]
fn lexsort_to_indices(keys: &Vec<&DataArray>, options: &Vec<SortOption>, limit: Option<usize>) -> (r:
    Result<Vec<u32>, ArrowError>)
    requires
        keys@.len() == options@.len(),
        forall|d: int| 0 <= d < keys@.len() ==> (#[trigger] keys@[d])@.len() == keys@[0]@.len(),
        keys@.len() > 0 ==> keys@[0]@.len() <= u32::MAX,
    ensures
        r is Ok <==> keys@.len() > 0,
        r matches Ok(indices) ==> exists|p: Seq<int>|
            is_sort(keys_view(keys@), options@, keys@[0]@.len() as int, p) && positions(indices@)
                == #[trigger] p.take(kept_rows(keys@[0]@.len() as int, limit)),
{
    let columns: Vec<SortColumn> = keys.iter().zip(options.iter()).map(|(k, o)| SortColumn {
        values: match k {
            DataArray::Boolean(v) => Arc::new(BooleanArray::from(v.clone())) as ArrayRef,
            DataArray::Int64(v) => Arc::new(Int64Array::from(v.clone())),
            DataArray::UInt64(v) => Arc::new(UInt64Array::from(v.clone())),
            DataArray::Utf8(v) => Arc::new(LargeStringArray::from(v.clone())),
        },
        options: Some(SortOptions { descending: o.descending, nulls_first: o.nulls_first }),
    }).collect();
    arrow::compute::lexsort_to_indices(&columns, limit).map(|a| a.values().to_vec())
}

/// How each of `descriptions` orders the values of its column.
pub fn options_of(descriptions: &[SortColumnDescription]) -> (r: Vec<SortOption>)
    ensures
        r@ == sort_options(descriptions@),
{
    let mut r: Vec<SortOption> = Vec::new();
    let mut d: usize = 0;
    while d < descriptions.len()
        invariant
            d <= descriptions@.len(),
            r@.len() == d,
            forall|e: int| 0 <= e < d ==> #[trigger] r@[e] == sort_options(descriptions@)[e],
        decreases descriptions@.len() - d,
    {
        r.push(
            SortOption { descending: !descriptions[d].asc, nulls_first: descriptions[d].nulls_first },
        );
        d = d + 1;
    }
    assert(r@ =~= sort_options(descriptions@));
    r
}

/// The columns of `block` that `descriptions` name, in the order of
/// `descriptions`; `FieldNotFound` where one of them is missing.
pub fn key_columns<'a>(block: &'a DataBlock, descriptions: &[SortColumnDescription]) -> (r: Result<
    Vec<&'a DataArray>,
    ErrorCodes,
>)
    requires
        block.well_formed(),
    ensures
        match r {
            Ok(keys) => has_sort_columns(block@, descriptions@) && keys_view(keys@) == sort_keys(
                block@,
                descriptions@,
            ) && keys@.len() == descriptions@.len() && forall|d: int|
                0 <= d < keys@.len() ==> (#[trigger] keys@[d])@.len() == block@.num_rows(),
            Err(e) => e == ErrorCodes::FieldNotFound && !has_sort_columns(block@, descriptions@),
        },
{
    let mut keys: Vec<&'a DataArray> = Vec::new();
    let mut d: usize = 0;
    while d < descriptions.len()
        invariant
            d <= descriptions@.len(),
            block.well_formed(),
            keys@.len() == d,
            forall|e: int|
                0 <= e < d ==> block@.column_by_name((#[trigger] descriptions@[e]).column_name@)
                    == Some(keys@[e]@),
            forall|e: int| 0 <= e < d ==> (#[trigger] keys@[e])@.len() == block@.num_rows(),
        decreases descriptions@.len() - d,
    {
        match block.index_by_name(descriptions[d].column_name.as_str()) {
            Ok(c) => {
                assert(block@.columns[c as int].len() == block@.num_rows());
                keys.push(&block.columns[c]);
            },
            Err(e) => {
                assert(block@.column_by_name(descriptions@[d as int].column_name@) is None);
                return Err(e);
            },
        }
        d = d + 1;
    }
    assert(keys_view(keys@) =~= sort_keys(block@, descriptions@));
    Ok(keys)
}

impl DataBlock {
    /// Sorts the rows of `block` by `sort_columns_descriptions`, the first
    /// of them first, and keeps the first `limit` rows where a limit is
    /// given. Rows that are equal under all keys come in any order.
    ///
    /// Fails with `FieldNotFound` where a key names no column of the block,
    /// and else with `UnknownException` where there is no key.
    pub fn sort_block(
        block: &DataBlock,
        sort_columns_descriptions: &[SortColumnDescription],
        limit: Option<usize>,
    ) -> (r: Result<DataBlock, ErrorCodes>)
        requires
            block.well_formed(),
            block@.num_rows() <= u32::MAX,
        ensures
            match r {
                Ok(out) => {
                    &&& out.well_formed()
                    &&& has_sort_columns(block@, sort_columns_descriptions@)
                    &&& sort_columns_descriptions@.len() > 0
                    &&& is_sorted_selection(block@, sort_columns_descriptions@, limit, out@)
                    &&& out@.num_rows() == kept_rows(block@.num_rows() as int, limit)
                },
                Err(e) => if has_sort_columns(block@, sort_columns_descriptions@) {
                    e == ErrorCodes::UnknownException && sort_columns_descriptions@.len() == 0
                } else {
                    e == ErrorCodes::FieldNotFound
                },
            },
    {
        let order_columns: Vec<&DataArray> = match key_columns(block, sort_columns_descriptions) {
            Ok(keys) => keys,
            Err(e) => { return Err(e); },
        };
        let options: Vec<SortOption> = options_of(sort_columns_descriptions);
        let indices: Vec<u32> = match lexsort_to_indices(&order_columns, &options, limit) {
            Ok(indices) => indices,
            Err(_) => { return Err(ErrorCodes::UnknownException); },
        };
        let ghost rows = block@.num_rows() as int;
        let ghost kept = kept_rows(rows, limit);
        assert(order_columns@[0]@.len() == rows);
        let ghost p = choose|p: Seq<int>|
            is_sort(keys_view(order_columns@), options@, order_columns@[0]@.len() as int, p)
                && positions(indices@) == #[trigger] p.take(
                kept_rows(order_columns@[0]@.len() as int, limit),
            );
        assert(positions(indices@) == p.take(kept));
        assert(indices@.len() == kept);
        assert forall|k: int| 0 <= k < indices@.len() implies (#[trigger] indices@[k] as int)
            < rows by {
            assert(positions(indices@)[k] == p.take(kept)[k]);
        }
        match DataBlock::block_take_by_indices(block, indices.as_slice()) {
            Ok(out) => {
                proof {
                    let c = crate::datavalues::first_position(
                        block.schema.names(),
                        sort_columns_descriptions@[0].column_name@,
                    ).unwrap();
                    crate::datavalues::lemma_first_position(
                        block.schema.names(),
                        sort_columns_descriptions@[0].column_name@,
                        0,
                    );
                    assert(out@.columns[0].len() == kept);
                }
                Ok(out)
            },
            Err(e) => Err(e),
        }
    }
}

} // verus!
