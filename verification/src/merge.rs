//! Merging blocks whose rows are sorted by one list of sort keys.

use vstd::prelude::*;
use vstd::slice::slice_subrange;

use crate::datablock::{BlockView, Cell, DataArray, DataBlock};
use crate::datavalues::share;
use crate::error::ErrorCodes;
use crate::row_order::{compare_rows, keys_view, rows_order, SortOption};
use crate::sort::{
    has_sort_columns, kept_rows, key_columns, options_of, sort_keys, sort_options,
    SortColumnDescription,
};

verus! {

/// One row of a merge: the side it is taken from and its number there.
#[derive(Debug, Clone, Copy, PartialEq, Eq, Structural)]
pub struct MergeIndex {
    pub from_left: bool,
    pub row: usize,
}

/// The rows of a merge of the rows of `left` from `i` on and those of
/// `right` from `j` on, at most `budget` of them: at each step the row of
/// `left` where it is not ordered behind the row of `right`, and the row of
/// `right` else; the rest of one side once the other has run out.
pub open spec fn merge_picks(
    left: Seq<Seq<Cell>>,
    left_rows: int,
    right: Seq<Seq<Cell>>,
    right_rows: int,
    options: Seq<SortOption>,
    i: int,
    j: int,
    budget: int,
) -> Seq<MergeIndex>
    decreases budget,
{
    if budget <= 0 || i < 0 || j < 0 || (i >= left_rows && j >= right_rows) {
        Seq::empty()
    } else if j >= right_rows || (i < left_rows && rows_order(left, i, right, j, options) <= 0) {
        seq![MergeIndex { from_left: true, row: i as usize }] + merge_picks(
            left,
            left_rows,
            right,
            right_rows,
            options,
            i + 1,
            j,
            budget - 1,
        )
    } else {
        seq![MergeIndex { from_left: false, row: j as usize }] + merge_picks(
            left,
            left_rows,
            right,
            right_rows,
            options,
            i,
            j + 1,
            budget - 1,
        )
    }
}

/// Whether each of `picks` names a row that its side has.
pub open spec fn picks_in_range(picks: Seq<MergeIndex>, left_rows: int, right_rows: int) -> bool {
    forall|k: int|
        0 <= k < picks.len() ==> if (#[trigger] picks[k]).from_left {
            picks[k].row < left_rows
        } else {
            picks[k].row < right_rows
        }
}

/// The cells that `picks` take from the columns `left` and `right`.
pub open spec fn merged(left: Seq<Cell>, right: Seq<Cell>, picks: Seq<MergeIndex>) -> Seq<Cell> {
    Seq::new(
        picks.len(),
        |k: int|
            if picks[k].from_left {
                left[picks[k].row as int]
            } else {
                right[picks[k].row as int]
            },
    )
}

/// The rows of the merge of two blocks with rows, each with a column for
/// every sort key.
pub open spec fn block_picks(
    lhs: BlockView,
    rhs: BlockView,
    descriptions: Seq<SortColumnDescription>,
    limit: Option<usize>,
) -> Seq<MergeIndex> {
    merge_picks(
        sort_keys(lhs, descriptions),
        lhs.num_rows() as int,
        sort_keys(rhs, descriptions),
        rhs.num_rows() as int,
        sort_options(descriptions),
        0,
        0,
        kept_rows(lhs.num_rows() as int + rhs.num_rows() as int, limit),
    )
}

/// The block with the schema of `lhs` that holds what `picks` take from
/// `lhs` and `rhs`.
pub open spec fn merged_block(lhs: BlockView, rhs: BlockView, picks: Seq<MergeIndex>) -> BlockView {
    BlockView {
        schema: lhs.schema,
        columns: Seq::new(
            lhs.columns.len(),
            |c: int| merged(lhs.columns[c], rhs.columns[c], picks),
        ),
    }
}

/// The merge of two blocks: the other block where one has no rows;
/// `FieldNotFound` where both have rows and one lacks a column of a sort
/// key; else the merged rows, at most `limit` of them.
pub open spec fn spec_merge_sort_block(
    lhs: BlockView,
    rhs: BlockView,
    descriptions: Seq<SortColumnDescription>,
    limit: Option<usize>,
) -> Result<BlockView, ErrorCodes> {
    if lhs.num_rows() == 0 {
        Ok(rhs)
    } else if rhs.num_rows() == 0 {
        Ok(lhs)
    } else if !has_sort_columns(lhs, descriptions) || !has_sort_columns(rhs, descriptions) {
        Err(ErrorCodes::FieldNotFound)
    } else {
        Ok(merged_block(lhs, rhs, block_picks(lhs, rhs, descriptions, limit)))
    }
}

/// The merge of a list of blocks: `EmptyData` for no block, the block
/// itself for one, the merge of the two for two, and for more the merge of
/// the merges of the two halves of the list.
pub open spec fn spec_merge_sort_blocks(
    blocks: Seq<BlockView>,
    descriptions: Seq<SortColumnDescription>,
    limit: Option<usize>,
) -> Result<BlockView, ErrorCodes>
    decreases blocks.len(),
{
    if blocks.len() == 0 {
        Err(ErrorCodes::EmptyData)
    } else if blocks.len() == 1 {
        Ok(blocks[0])
    } else if blocks.len() == 2 {
        spec_merge_sort_block(blocks[0], blocks[1], descriptions, limit)
    } else {
        let mid = blocks.len() as int / 2;
        match spec_merge_sort_blocks(blocks.subrange(0, mid), descriptions, limit) {
            Err(e) => Err(e),
            Ok(left) => match spec_merge_sort_blocks(
                blocks.subrange(mid, blocks.len() as int),
                descriptions,
                limit,
            ) {
                Err(e) => Err(e),
                Ok(right) => spec_merge_sort_block(left, right, descriptions, limit),
            },
        }
    }
}

/// The views of `blocks`, in order.
pub open spec fn blocks_view(blocks: Seq<DataBlock>) -> Seq<BlockView> {
    Seq::new(blocks.len(), |b: int| blocks[b]@)
}

/// The types of the fields of a block's schema, in order.
pub open spec fn layout(block: &DataBlock) -> Seq<crate::datavalues::DataType> {
    Seq::new(block.schema.fields@.len(), |c: int| block.schema.fields@[c].data_type)
}

/// Whether two blocks have as many columns, with the same types.
pub open spec fn same_layout(a: &DataBlock, b: &DataBlock) -> bool {
    layout(a) == layout(b)
}

impl DataBlock {
    /// Whether the block has as many columns as `other`, with the same
    /// types.
    pub fn has_layout_of(&self, other: &DataBlock) -> (b: bool)
        ensures
            b == same_layout(self, other),
    {
        if self.schema.fields.len() != other.schema.fields.len() {
            assert(layout(self).len() != layout(other).len());
            return false;
        }
        let mut c: usize = 0;
        while c < self.schema.fields.len()
            invariant
                c <= self.schema.fields@.len(),
                self.schema.fields@.len() == other.schema.fields@.len(),
                forall|d: int| 0 <= d < c ==> layout(self)[d] == layout(other)[d],
            decreases self.schema.fields@.len() - c,
        {
            if self.schema.fields[c].data_type != other.schema.fields[c].data_type {
                assert(layout(self)[c as int] != layout(other)[c as int]);
                return false;
            }
            c = c + 1;
        }
        assert(layout(self) =~= layout(other));
        true
    }
}

/// Whether fewer than `limit` rows have been taken.
fn below_limit(taken: usize, limit: Option<usize>) -> (b: bool)
    ensures
        b == match limit {
            Some(k) => taken < k,
            None => true,
        },
{
    match limit {
        Some(k) => taken < k,
        None => true,
    }
}

/// What `picks` take from `left` and `right`.
fn merge_values<T: Copy>(left: &Vec<T>, right: &Vec<T>, picks: &Vec<MergeIndex>) -> (r: Vec<T>)
    requires
        picks_in_range(picks@, left@.len() as int, right@.len() as int),
    ensures
        r@.len() == picks@.len(),
        forall|k: int|
            0 <= k < r@.len() ==> #[trigger] r@[k] == if picks@[k].from_left {
                left@[picks@[k].row as int]
            } else {
                right@[picks@[k].row as int]
            },
{
    let mut r: Vec<T> = Vec::new();
    let mut k: usize = 0;
    while k < picks.len()
        invariant
            k <= picks@.len(),
            r@.len() == k,
            picks_in_range(picks@, left@.len() as int, right@.len() as int),
            forall|m: int|
                0 <= m < k ==> #[trigger] r@[m] == if picks@[m].from_left {
                    left@[picks@[m].row as int]
                } else {
                    right@[picks@[m].row as int]
                },
        decreases picks@.len() - k,
    {
        let pick: MergeIndex = picks[k];
        if pick.from_left {
            r.push(left[pick.row]);
        } else {
            r.push(right[pick.row]);
        }
        k = k + 1;
    }
    r
}

/// What `picks` take from the strings `left` and `right`.
fn merge_text(left: &Vec<Option<String>>, right: &Vec<Option<String>>, picks: &Vec<MergeIndex>) -> (r:
    Vec<Option<String>>)
    requires
        picks_in_range(picks@, left@.len() as int, right@.len() as int),
    ensures
        r@.len() == picks@.len(),
        forall|k: int|
            0 <= k < r@.len() ==> #[trigger] r@[k] == if picks@[k].from_left {
                left@[picks@[k].row as int]
            } else {
                right@[picks@[k].row as int]
            },
{
    let mut r: Vec<Option<String>> = Vec::new();
    let mut k: usize = 0;
    while k < picks.len()
        invariant
            k <= picks@.len(),
            r@.len() == k,
            picks_in_range(picks@, left@.len() as int, right@.len() as int),
            forall|m: int|
                0 <= m < k ==> #[trigger] r@[m] == if picks@[m].from_left {
                    left@[picks@[m].row as int]
                } else {
                    right@[picks@[m].row as int]
                },
        decreases picks@.len() - k,
    {
        let pick: MergeIndex = picks[k];
        let source: &Option<String> = if pick.from_left {
            &left[pick.row]
        } else {
            &right[pick.row]
        };
        let value: Option<String> = match source {
            Some(s) => Some(s.clone()),
            None => None,
        };
        r.push(value);
        k = k + 1;
    }
    r
}

/// The merge of sorted arrays.
pub struct DataArrayMerge;

impl DataArrayMerge {
    /// The rows of the merge of `left_rows` rows with the key columns `lhs`
    /// and `right_rows` rows with the key columns `rhs`, at most `limit` of
    /// them. Of two rows that the keys order alike, that of `lhs` comes first.
    pub fn merge_indices(
        lhs: &Vec<&DataArray>,
        left_rows: usize,
        rhs: &Vec<&DataArray>,
        right_rows: usize,
        options: &Vec<SortOption>,
        limit: Option<usize>,
    ) -> (picks: Vec<MergeIndex>)
        requires
            lhs@.len() == options@.len(),
            rhs@.len() == options@.len(),
            forall|d: int| 0 <= d < lhs@.len() ==> (#[trigger] lhs@[d])@.len() == left_rows,
            forall|d: int| 0 <= d < rhs@.len() ==> (#[trigger] rhs@[d])@.len() == right_rows,
        ensures
            picks@ == merge_picks(
                keys_view(lhs@),
                left_rows as int,
                keys_view(rhs@),
                right_rows as int,
                options@,
                0,
                0,
                kept_rows(left_rows as int + right_rows as int, limit),
            ),
            picks_in_range(picks@, left_rows as int, right_rows as int),
    {
        let ghost budget = kept_rows(left_rows as int + right_rows as int, limit);
        let ghost whole = merge_picks(
            keys_view(lhs@),
            left_rows as int,
            keys_view(rhs@),
            right_rows as int,
            options@,
            0,
            0,
            budget,
        );
        let mut picks: Vec<MergeIndex> = Vec::new();
        let mut i: usize = 0;
        let mut j: usize = 0;
        assert(picks@ + whole =~= whole);
        while (i < left_rows || j < right_rows) && below_limit(picks.len(), limit)
            invariant
                i <= left_rows,
                j <= right_rows,
                picks@.len() == i + j,
                picks@.len() <= budget,
                budget == kept_rows(left_rows as int + right_rows as int, limit),
                lhs@.len() == options@.len(),
                rhs@.len() == options@.len(),
                forall|d: int| 0 <= d < lhs@.len() ==> (#[trigger] lhs@[d])@.len() == left_rows,
                forall|d: int| 0 <= d < rhs@.len() ==> (#[trigger] rhs@[d])@.len() == right_rows,
                picks_in_range(picks@, left_rows as int, right_rows as int),
                picks@ + merge_picks(
                    keys_view(lhs@),
                    left_rows as int,
                    keys_view(rhs@),
                    right_rows as int,
                    options@,
                    i as int,
                    j as int,
                    budget - picks@.len(),
                ) == whole,
            decreases left_rows - i + right_rows - j,
        {
            let ghost rest = merge_picks(
                keys_view(lhs@),
                left_rows as int,
                keys_view(rhs@),
                right_rows as int,
                options@,
                i as int,
                j as int,
                budget - picks@.len(),
            );
            let ghost before = picks@;
            let take_left: bool = if j >= right_rows {
                true
            } else if i >= left_rows {
                false
            } else {
                compare_rows(lhs, i, rhs, j, options) <= 0
            };
            if take_left {
                picks.push(MergeIndex { from_left: true, row: i });
                i = i + 1;
            } else {
                picks.push(MergeIndex { from_left: false, row: j });
                j = j + 1;
            }
            assert(before + rest =~= picks@ + rest.drop_first());
            assert(rest.drop_first() =~= merge_picks(
                keys_view(lhs@),
                left_rows as int,
                keys_view(rhs@),
                right_rows as int,
                options@,
                i as int,
                j as int,
                budget - picks@.len(),
            ));
        }
        assert(merge_picks(
            keys_view(lhs@),
            left_rows as int,
            keys_view(rhs@),
            right_rows as int,
            options@,
            i as int,
            j as int,
            budget - picks@.len(),
        ) =~= Seq::<MergeIndex>::empty());
        assert(picks@ + Seq::<MergeIndex>::empty() =~= picks@);
        picks
    }

    /// The column that holds what `picks` take from `lhs` and `rhs`.
    pub fn merge_array(lhs: &DataArray, rhs: &DataArray, picks: &Vec<MergeIndex>) -> (r: DataArray)
        requires
            lhs.spec_data_type() == rhs.spec_data_type(),
            picks_in_range(picks@, lhs@.len() as int, rhs@.len() as int),
        ensures
            r.spec_data_type() == lhs.spec_data_type(),
            r@ == merged(lhs@, rhs@, picks@),
    {
        let r = match (lhs, rhs) {
            (DataArray::Boolean(a), DataArray::Boolean(b)) => DataArray::Boolean(
                merge_values(a, b, picks),
            ),
            (DataArray::Int64(a), DataArray::Int64(b)) => DataArray::Int64(
                merge_values(a, b, picks),
            ),
            (DataArray::UInt64(a), DataArray::UInt64(b)) => DataArray::UInt64(
                merge_values(a, b, picks),
            ),
            (DataArray::Utf8(a), DataArray::Utf8(b)) => DataArray::Utf8(merge_text(a, b, picks)),
            _ => lhs.clone(),
        };
        assert(r@ =~= merged(lhs@, rhs@, picks@));
        r
    }
}

impl DataBlock {
    /// Merges two blocks whose rows are sorted by
    /// `sort_columns_descriptions` into one, and keeps the first `limit`
    /// rows where a limit is given. Whether the rows are sorted is not
    /// looked at. A block without rows is not looked at either: the result
    /// is then the other block as it is.
    pub fn merge_sort_block(
        lhs: &DataBlock,
        rhs: &DataBlock,
        sort_columns_descriptions: &[SortColumnDescription],
        limit: Option<usize>,
    ) -> (r: Result<DataBlock, ErrorCodes>)
        requires
            lhs.well_formed(),
            rhs.well_formed(),
            same_layout(lhs, rhs),
        ensures
            match r {
                Ok(out) => out.well_formed() && same_layout(&out, lhs) && spec_merge_sort_block(
                    lhs@,
                    rhs@,
                    sort_columns_descriptions@,
                    limit,
                ) == Ok::<BlockView, ErrorCodes>(out@),
                Err(e) => spec_merge_sort_block(lhs@, rhs@, sort_columns_descriptions@, limit)
                    == Err::<BlockView, ErrorCodes>(e),
            },
    {
        if lhs.num_rows() == 0 {
            return Ok(rhs.clone());
        }
        if rhs.num_rows() == 0 {
            return Ok(lhs.clone());
        }
        let left_keys: Vec<&DataArray> = match key_columns(lhs, sort_columns_descriptions) {
            Ok(keys) => keys,
            Err(e) => { return Err(e); },
        };
        let right_keys: Vec<&DataArray> = match key_columns(rhs, sort_columns_descriptions) {
            Ok(keys) => keys,
            Err(e) => { return Err(e); },
        };
        let sort_options: Vec<SortOption> = options_of(sort_columns_descriptions);
        let indices: Vec<MergeIndex> = DataArrayMerge::merge_indices(
            &left_keys,
            lhs.num_rows(),
            &right_keys,
            rhs.num_rows(),
            &sort_options,
            limit,
        );
        let mut arrays: Vec<DataArray> = Vec::new();
        let mut c: usize = 0;
        while c < lhs.columns.len()
            invariant
                c <= lhs.columns@.len(),
                lhs.well_formed(),
                rhs.well_formed(),
                same_layout(lhs, rhs),
                picks_in_range(indices@, lhs@.num_rows() as int, rhs@.num_rows() as int),
                arrays@.len() == c,
                forall|d: int|
                    0 <= d < c ==> (#[trigger] arrays@[d])@ == merged(
                        lhs.columns@[d]@,
                        rhs.columns@[d]@,
                        indices@,
                    ) && arrays@[d].spec_data_type() == lhs.columns@[d].spec_data_type(),
            decreases lhs.columns@.len() - c,
        {
            assert(layout(lhs).len() == layout(rhs).len());
            assert(layout(lhs)[c as int] == layout(rhs)[c as int]);
            assert(lhs@.columns[c as int].len() == lhs@.num_rows());
            assert(rhs@.columns[c as int].len() == rhs@.num_rows());
            assert(lhs.columns@[c as int].spec_data_type() == lhs.schema.fields@[c as int].data_type);
            assert(rhs.columns@[c as int].spec_data_type() == rhs.schema.fields@[c as int].data_type);
            arrays.push(DataArrayMerge::merge_array(&lhs.columns[c], &rhs.columns[c], &indices));
            c = c + 1;
        }
        let out = DataBlock::create_by_array(share(&lhs.schema), arrays);
        assert(out@.columns.len() == lhs@.columns.len());
        assert forall|d: int| 0 <= d < out@.columns.len() implies #[trigger] out@.columns[d]
            == merged_block(lhs@, rhs@, indices@).columns[d] by {
            assert(out@.columns[d] == arrays@[d]@);
            assert(lhs@.columns[d] == lhs.columns@[d]@);
            assert(layout(lhs).len() == layout(rhs).len());
            assert(rhs@.columns[d] == rhs.columns@[d]@);
        }
        assert(out@.columns =~= merged_block(lhs@, rhs@, indices@).columns);
        assert(out.well_formed()) by {
            assert forall|d: int| 0 <= d < out@.columns.len() implies (#[trigger] out@.columns[d]).len()
                == out@.num_rows() by {
                assert(out@.columns[d] == arrays@[d]@);
                assert(out@.columns[0] == arrays@[0]@);
            }
        }
        Ok(out)
    }

    /// Merges blocks whose rows are sorted by `sort_columns_descriptions`
    /// into one: the list is halved, each half is merged, and the two
    /// results are merged. `limit` holds at each of these merges.
    ///
    /// Fails with `EmptyData` on no block at all, and on nothing else.
    pub fn merge_sort_blocks(
        blocks: &[DataBlock],
        sort_columns_descriptions: &[SortColumnDescription],
        limit: Option<usize>,
    ) -> (r: Result<DataBlock, ErrorCodes>)
        requires
            forall|b: int| 0 <= b < blocks@.len() ==> (#[trigger] blocks@[b]).well_formed(),
            forall|b: int| 0 <= b < blocks@.len() ==> same_layout(&#[trigger] blocks@[b], &blocks@[0]),
        ensures
            match r {
                Ok(out) => out.well_formed() && same_layout(&out, &blocks@[0])
                    && spec_merge_sort_blocks(
                    blocks_view(blocks@),
                    sort_columns_descriptions@,
                    limit,
                ) == Ok::<BlockView, ErrorCodes>(out@),
                Err(e) => spec_merge_sort_blocks(
                    blocks_view(blocks@),
                    sort_columns_descriptions@,
                    limit,
                ) == Err::<BlockView, ErrorCodes>(e),
            },
            blocks@.len() == 0 <==> r == Err::<DataBlock, ErrorCodes>(ErrorCodes::EmptyData),
        decreases blocks@.len(),
    {
        let n: usize = blocks.len();
        if n == 0 {
            Err(ErrorCodes::EmptyData)
        } else if n == 1 {
            Ok(blocks[0].clone())
        } else if n == 2 {
            assert(same_layout(&blocks@[1], &blocks@[0]));
            DataBlock::merge_sort_block(&blocks[0], &blocks[1], sort_columns_descriptions, limit)
        } else {
            let mid: usize = n / 2;
            let first_half: &[DataBlock] = slice_subrange(blocks, 0, mid);
            let second_half: &[DataBlock] = slice_subrange(blocks, mid, n);
            assert(blocks_view(first_half@) =~= blocks_view(blocks@).subrange(0, mid as int));
            assert(blocks_view(second_half@) =~= blocks_view(blocks@).subrange(
                mid as int,
                n as int,
            ));
            assert forall|b: int| 0 <= b < first_half@.len() implies (#[trigger] first_half@[b]).well_formed()
                && same_layout(&first_half@[b], &first_half@[0]) by {
                assert(first_half@[b] == blocks@[b]);
                assert(first_half@[0] == blocks@[0]);
            }
            assert forall|b: int| 0 <= b < second_half@.len() implies (#[trigger] second_half@[b]).well_formed()
                && same_layout(&second_half@[b], &second_half@[0]) by {
                assert(second_half@[b] == blocks@[mid + b]);
                assert(second_half@[0] == blocks@[mid as int]);
                assert(same_layout(&blocks@[mid + b], &blocks@[0]));
                assert(same_layout(&blocks@[mid as int], &blocks@[0]));
            }
            let left: DataBlock = match DataBlock::merge_sort_blocks(
                first_half,
                sort_columns_descriptions,
                limit,
            ) {
                Ok(b) => b,
                Err(e) => { return Err(e); },
            };
            let right: DataBlock = match DataBlock::merge_sort_blocks(
                second_half,
                sort_columns_descriptions,
                limit,
            ) {
                Ok(b) => b,
                Err(e) => { return Err(e); },
            };
            assert(same_layout(&blocks@[mid as int], &blocks@[0]));
            assert(same_layout(&left, &right));
            DataBlock::merge_sort_block(&left, &right, sort_columns_descriptions, limit)
        }
    }
}

} // verus!
