//! What holds of the merge of sorted blocks.

use vstd::multiset::Multiset;
use vstd::prelude::*;
use vstd::seq_lib::lemma_multiset_commutative;

use crate::datablock::{BlockView, Cell};
use crate::datavalues::{first_position, lemma_first_position};
use crate::error::ErrorCodes;
use crate::merge::{
    block_picks, merge_picks, merged_block, spec_merge_sort_block, spec_merge_sort_blocks,
    MergeIndex,
};
use crate::row_order::{
    key_row, lemma_row_order_chained, lemma_row_order_reverse, row_order, rows_order, SortOption,
};
use crate::sort::{has_sort_columns, sort_keys, sort_options, SortColumnDescription};
use crate::sort_laws::first_rows;

verus! {

/// Whether the first `rows` rows of the key columns stand in the order of
/// the keys.
pub open spec fn keys_in_order(keys: Seq<Seq<Cell>>, rows: int, options: Seq<SortOption>) -> bool {
    forall|a: int, b: int|
        0 <= a < b < rows ==> #[trigger] rows_order(keys, a, keys, b, options) <= 0
}

/// Whether the rows of `block` stand in the order of `descriptions`.
pub open spec fn block_in_order(block: BlockView, descriptions: Seq<SortColumnDescription>) -> bool {
    keys_in_order(
        sort_keys(block, descriptions),
        block.num_rows() as int,
        sort_options(descriptions),
    )
}

/// The key cells of the row that `pick` names.
pub open spec fn pick_key(left: Seq<Seq<Cell>>, right: Seq<Seq<Cell>>, pick: MergeIndex) -> Seq<
    Cell,
> {
    if pick.from_left {
        key_row(left, pick.row as int)
    } else {
        key_row(right, pick.row as int)
    }
}

/// Whether the rows that `picks` name stand in the order of the keys.
pub open spec fn picks_in_order(
    left: Seq<Seq<Cell>>,
    right: Seq<Seq<Cell>>,
    options: Seq<SortOption>,
    picks: Seq<MergeIndex>,
) -> bool {
    forall|a: int, b: int|
        0 <= a < b < picks.len() ==> row_order(
            pick_key(left, right, #[trigger] picks[a]),
            pick_key(left, right, #[trigger] picks[b]),
            options,
            0,
        ) <= 0
}

/// Whether each of `picks` names a row of the left side from `i` on or a
/// row of the right side from `j` on.
pub open spec fn picks_from(picks: Seq<MergeIndex>, i: int, left_rows: int, j: int, right_rows: int) -> bool {
    forall|k: int|
        0 <= k < picks.len() ==> if (#[trigger] picks[k]).from_left {
            i <= picks[k].row < left_rows
        } else {
            j <= picks[k].row < right_rows
        }
}

/// The rows that `picks` name, each with all its cells.
pub open spec fn picked_rows(lhs: BlockView, rhs: BlockView, picks: Seq<MergeIndex>) -> Seq<
    Seq<Cell>,
> {
    Seq::new(
        picks.len(),
        |k: int|
            if picks[k].from_left {
                lhs.row(picks[k].row as int)
            } else {
                rhs.row(picks[k].row as int)
            },
    )
}

/// A sequence without elements has the multiset without elements.
proof fn lemma_no_rows(s: Seq<Seq<Cell>>)
    requires
        s.len() == 0,
    ensures
        s.to_multiset() == Multiset::<Seq<Cell>>::empty(),
{
    broadcast use vstd::multiset::group_multiset_axioms;

    s.to_multiset_ensures();
    assert forall|x: Seq<Cell>| s.to_multiset().count(x) == 0 by {
        assert(!s.contains(x));
    }
    assert(s.to_multiset() =~= Multiset::<Seq<Cell>>::empty());
}

/// A merge without a limit of two sides whose rows are in order takes
/// every row from `i` and from `j` on once, and takes them in order.
proof fn lemma_merge_picks(
    lhs: BlockView,
    rhs: BlockView,
    left: Seq<Seq<Cell>>,
    right: Seq<Seq<Cell>>,
    options: Seq<SortOption>,
    i: int,
    j: int,
    budget: int,
)
    requires
        0 <= i <= lhs.num_rows() <= usize::MAX,
        0 <= j <= rhs.num_rows() <= usize::MAX,
        budget >= (lhs.num_rows() - i) + (rhs.num_rows() - j),
        keys_in_order(left, lhs.num_rows() as int, options),
        keys_in_order(right, rhs.num_rows() as int, options),
    ensures
        ({
            let picks = merge_picks(
                left,
                lhs.num_rows() as int,
                right,
                rhs.num_rows() as int,
                options,
                i,
                j,
                budget,
            );
            &&& picks.len() == (lhs.num_rows() - i) + (rhs.num_rows() - j)
            &&& picks_from(picks, i, lhs.num_rows() as int, j, rhs.num_rows() as int)
            &&& picks_in_order(left, right, options, picks)
            &&& picked_rows(lhs, rhs, picks).to_multiset() == lhs.rows().subrange(
                i,
                lhs.num_rows() as int,
            ).to_multiset().add(rhs.rows().subrange(j, rhs.num_rows() as int).to_multiset())
        }),
    decreases budget,
{
    broadcast use vstd::multiset::group_multiset_axioms;

    let ln = lhs.num_rows() as int;
    let rn = rhs.num_rows() as int;
    let picks = merge_picks(left, ln, right, rn, options, i, j, budget);
    let left_rest = lhs.rows().subrange(i, ln);
    let right_rest = rhs.rows().subrange(j, rn);
    if i >= ln && j >= rn {
        lemma_no_rows(picked_rows(lhs, rhs, picks));
        lemma_no_rows(left_rest);
        lemma_no_rows(right_rest);
        assert(picked_rows(lhs, rhs, picks).to_multiset() =~= left_rest.to_multiset().add(
            right_rest.to_multiset(),
        ));
    } else if j >= rn || (i < ln && rows_order(left, i, right, j, options) <= 0) {
        let head = MergeIndex { from_left: true, row: i as usize };
        let rest = merge_picks(left, ln, right, rn, options, i + 1, j, budget - 1);
        lemma_merge_picks(lhs, rhs, left, right, options, i + 1, j, budget - 1);
        assert(picks == seq![head] + rest);
        assert forall|a: int, b: int| 0 <= a < b < picks.len() implies row_order(
            pick_key(left, right, #[trigger] picks[a]),
            pick_key(left, right, #[trigger] picks[b]),
            options,
            0,
        ) <= 0 by {
            if a == 0 {
                let q = rest[b - 1];
                assert(picks[b] == q);
                if q.from_left {
                    assert(rows_order(left, i, left, q.row as int, options) <= 0);
                } else {
                    lemma_row_order_reverse(key_row(right, j), key_row(right, j), options, 0);
                    if q.row as int > j {
                        assert(rows_order(right, j, right, q.row as int, options) <= 0);
                    }
                    lemma_row_order_chained(
                        key_row(left, i),
                        key_row(right, j),
                        key_row(right, q.row as int),
                        options,
                        0,
                    );
                }
            } else {
                assert(picks[a] == rest[a - 1]);
                assert(picks[b] == rest[b - 1]);
            }
        }
        let row = lhs.row(i);
        assert(picked_rows(lhs, rhs, picks) =~= seq![row] + picked_rows(lhs, rhs, rest));
        assert(left_rest =~= seq![row] + lhs.rows().subrange(i + 1, ln));
        lemma_multiset_commutative(seq![row], picked_rows(lhs, rhs, rest));
        lemma_multiset_commutative(seq![row], lhs.rows().subrange(i + 1, ln));
        assert(picked_rows(lhs, rhs, picks).to_multiset() =~= left_rest.to_multiset().add(
            right_rest.to_multiset(),
        ));
    } else {
        let head = MergeIndex { from_left: false, row: j as usize };
        let rest = merge_picks(left, ln, right, rn, options, i, j + 1, budget - 1);
        lemma_merge_picks(lhs, rhs, left, right, options, i, j + 1, budget - 1);
        assert(picks == seq![head] + rest);
        assert forall|a: int, b: int| 0 <= a < b < picks.len() implies row_order(
            pick_key(left, right, #[trigger] picks[a]),
            pick_key(left, right, #[trigger] picks[b]),
            options,
            0,
        ) <= 0 by {
            if a == 0 {
                let q = rest[b - 1];
                assert(picks[b] == q);
                if q.from_left {
                    lemma_row_order_reverse(key_row(left, i), key_row(right, j), options, 0);
                    lemma_row_order_reverse(key_row(left, i), key_row(left, i), options, 0);
                    if q.row as int > i {
                        assert(rows_order(left, i, left, q.row as int, options) <= 0);
                    }
                    lemma_row_order_chained(
                        key_row(right, j),
                        key_row(left, i),
                        key_row(left, q.row as int),
                        options,
                        0,
                    );
                } else {
                    assert(rows_order(right, j, right, q.row as int, options) <= 0);
                }
            } else {
                assert(picks[a] == rest[a - 1]);
                assert(picks[b] == rest[b - 1]);
            }
        }
        let row = rhs.row(j);
        assert(picked_rows(lhs, rhs, picks) =~= seq![row] + picked_rows(lhs, rhs, rest));
        assert(right_rest =~= seq![row] + rhs.rows().subrange(j + 1, rn));
        lemma_multiset_commutative(seq![row], picked_rows(lhs, rhs, rest));
        lemma_multiset_commutative(seq![row], rhs.rows().subrange(j + 1, rn));
        assert(picked_rows(lhs, rhs, picks).to_multiset() =~= left_rest.to_multiset().add(
            right_rest.to_multiset(),
        ));
    }
}

/// Merge identity on a left side without rows: the merge is the right
/// side, whatever the keys and the limit are.
pub proof fn lemma_merge_empty_left(
    lhs: BlockView,
    rhs: BlockView,
    descriptions: Seq<SortColumnDescription>,
    limit: Option<usize>,
)
    requires
        lhs.num_rows() == 0,
    ensures
        spec_merge_sort_block(lhs, rhs, descriptions, limit) == Ok::<BlockView, ErrorCodes>(rhs),
{
}

/// Merge identity on a right side without rows: the merge of a left side
/// that has rows is the left side, whatever the keys and the limit are.
pub proof fn lemma_merge_empty_right(
    lhs: BlockView,
    rhs: BlockView,
    descriptions: Seq<SortColumnDescription>,
    limit: Option<usize>,
)
    requires
        rhs.num_rows() == 0,
        lhs.num_rows() > 0 || lhs == rhs,
    ensures
        spec_merge_sort_block(lhs, rhs, descriptions, limit) == Ok::<BlockView, ErrorCodes>(lhs),
{
}

/// Merge correctness: the merge without a limit of two blocks with the
/// same column names, each with its rows in the order of the keys, holds
/// the rows of both, each as often as the two hold it together, in the
/// order of the keys.
pub proof fn lemma_merge_sort_block_sorted(
    lhs: BlockView,
    rhs: BlockView,
    descriptions: Seq<SortColumnDescription>,
)
    requires
        lhs.well_formed(),
        rhs.well_formed(),
        lhs.schema.names() == rhs.schema.names(),
        lhs.num_rows() + rhs.num_rows() <= usize::MAX,
        has_sort_columns(lhs, descriptions),
        block_in_order(lhs, descriptions),
        block_in_order(rhs, descriptions),
    ensures
        spec_merge_sort_block(lhs, rhs, descriptions, None) matches Ok(out) && {
            &&& out.well_formed()
            &&& out.schema.names() == lhs.schema.names()
            &&& block_in_order(out, descriptions)
            &&& out.rows().to_multiset() == lhs.rows().to_multiset().add(rhs.rows().to_multiset())
        },
{
    broadcast use vstd::multiset::group_multiset_axioms;

    let ln = lhs.num_rows() as int;
    let rn = rhs.num_rows() as int;
    assert(lhs.schema.names().len() == rhs.schema.names().len());
    if ln == 0 {
        lemma_no_rows(lhs.rows());
        assert(rhs.rows().to_multiset() =~= lhs.rows().to_multiset().add(rhs.rows().to_multiset()));
    } else if rn == 0 {
        lemma_no_rows(rhs.rows());
        assert(lhs.rows().to_multiset() =~= lhs.rows().to_multiset().add(rhs.rows().to_multiset()));
    } else {
        let left = sort_keys(lhs, descriptions);
        let right = sort_keys(rhs, descriptions);
        let options = sort_options(descriptions);
        let picks = block_picks(lhs, rhs, descriptions, None);
        let out = merged_block(lhs, rhs, picks);
        lemma_merge_picks(lhs, rhs, left, right, options, 0, 0, ln + rn);
        assert(lhs.rows().subrange(0, ln) =~= lhs.rows());
        assert(rhs.rows().subrange(0, rn) =~= rhs.rows());
        assert(out.num_rows() == picks.len());
        assert(out.rows() =~= picked_rows(lhs, rhs, picks)) by {
            assert forall|k: int| 0 <= k < picks.len() implies #[trigger] out.rows()[k]
                == picked_rows(lhs, rhs, picks)[k] by {
                if picks[k].from_left {
                    assert(out.row(k) =~= lhs.row(picks[k].row as int));
                } else {
                    assert(out.row(k) =~= rhs.row(picks[k].row as int));
                }
            }
        }
        assert(has_sort_columns(rhs, descriptions)) by {
            assert forall|d: int| 0 <= d < descriptions.len() implies rhs.column_by_name(
                (#[trigger] descriptions[d]).column_name@,
            ) is Some by {
                assert(lhs.column_by_name(descriptions[d].column_name@) is Some);
            }
        }
        assert forall|k: int| 0 <= k < picks.len() implies #[trigger] key_row(
            sort_keys(out, descriptions),
            k,
        ) == pick_key(left, right, picks[k]) by {
            assert forall|d: int| 0 <= d < descriptions.len() implies key_row(
                sort_keys(out, descriptions),
                k,
            )[d] == pick_key(left, right, picks[k])[d] by {
                let name = descriptions[d].column_name@;
                lemma_first_position(lhs.schema.names(), name, 0);
                let c = first_position(lhs.schema.names(), name).unwrap();
                assert(lhs.column_by_name(name) == Some(lhs.columns[c]));
                assert(rhs.column_by_name(name) == Some(rhs.columns[c]));
                assert(out.column_by_name(name) == Some(out.columns[c]));
            }
            assert(key_row(sort_keys(out, descriptions), k) =~= pick_key(left, right, picks[k]));
        }
        assert forall|a: int, b: int| 0 <= a < b < out.num_rows() implies #[trigger] rows_order(
            sort_keys(out, descriptions),
            a,
            sort_keys(out, descriptions),
            b,
            options,
        ) <= 0 by {
            assert(key_row(sort_keys(out, descriptions), a) == pick_key(left, right, picks[a]));
            assert(key_row(sort_keys(out, descriptions), b) == pick_key(left, right, picks[b]));
        }
    }
}

/// The rows of the blocks of a list, block after block.
pub open spec fn concat_rows(blocks: Seq<BlockView>) -> Seq<Seq<Cell>>
    decreases blocks.len(),
{
    if blocks.len() == 0 {
        Seq::empty()
    } else {
        concat_rows(blocks.drop_last()) + blocks.last().rows()
    }
}

/// The rows of a list of blocks are those of a first part of the list,
/// then those of the rest.
pub proof fn lemma_concat_rows_split(blocks: Seq<BlockView>, mid: int)
    requires
        0 <= mid <= blocks.len(),
    ensures
        concat_rows(blocks) == concat_rows(blocks.subrange(0, mid)) + concat_rows(
            blocks.subrange(mid, blocks.len() as int),
        ),
    decreases blocks.len(),
{
    let n = blocks.len() as int;
    if mid == n {
        assert(blocks.subrange(0, mid) =~= blocks);
        assert(concat_rows(blocks.subrange(mid, n)) =~= Seq::<Seq<Cell>>::empty());
        assert(concat_rows(blocks) =~= concat_rows(blocks) + Seq::<Seq<Cell>>::empty());
    } else {
        lemma_concat_rows_split(blocks.drop_last(), mid);
        assert(blocks.drop_last().subrange(0, mid) =~= blocks.subrange(0, mid));
        assert(blocks.drop_last().subrange(mid, n - 1) =~= blocks.subrange(mid, n).drop_last());
        assert(blocks.subrange(mid, n).last() == blocks.last());
        assert(concat_rows(blocks) =~= concat_rows(blocks.subrange(0, mid)) + concat_rows(
            blocks.subrange(mid, n),
        ));
    }
}

/// Whether every block of the list is well formed, has the column names
/// of the first, and has its rows in the order of the keys.
pub open spec fn sorted_inputs(blocks: Seq<BlockView>, descriptions: Seq<SortColumnDescription>) -> bool {
    forall|b: int|
        0 <= b < blocks.len() ==> {
            &&& (#[trigger] blocks[b]).well_formed()
            &&& blocks[b].schema.names() == blocks[0].schema.names()
            &&& block_in_order(blocks[b], descriptions)
        }
}

/// Merge-tree equivalence: the merge without a limit of a list of blocks
/// with the same column names, each with its rows in the order of the keys,
/// is a sort of the rows of all of them: it holds the rows of the blocks,
/// each as often as the blocks hold it together, in the order of the keys.
/// How the list is halved plays no part in this.
pub proof fn lemma_merge_sort_blocks_sorted(
    blocks: Seq<BlockView>,
    descriptions: Seq<SortColumnDescription>,
)
    requires
        blocks.len() > 0,
        sorted_inputs(blocks, descriptions),
        has_sort_columns(blocks[0], descriptions),
        concat_rows(blocks).len() <= usize::MAX,
    ensures
        spec_merge_sort_blocks(blocks, descriptions, None) matches Ok(out) && {
            &&& out.well_formed()
            &&& out.schema.names() == blocks[0].schema.names()
            &&& block_in_order(out, descriptions)
            &&& out.rows().to_multiset() == concat_rows(blocks).to_multiset()
        },
    decreases blocks.len(),
{
    broadcast use vstd::multiset::group_multiset_axioms;

    let n = blocks.len() as int;
    if n == 1 {
        assert(concat_rows(blocks.drop_last()) =~= Seq::<Seq<Cell>>::empty());
        assert(concat_rows(blocks) =~= blocks[0].rows());
    } else if n == 2 {
        assert(concat_rows(blocks.drop_last().drop_last()) =~= Seq::<Seq<Cell>>::empty());
        assert(blocks.drop_last().last() == blocks[0]);
        assert(concat_rows(blocks.drop_last()) =~= blocks[0].rows());
        assert(concat_rows(blocks) =~= blocks[0].rows() + blocks[1].rows());
        lemma_multiset_commutative(blocks[0].rows(), blocks[1].rows());
        assert(blocks[1].well_formed());
        lemma_merge_sort_block_sorted(blocks[0], blocks[1], descriptions);
    } else {
        let mid = n / 2;
        let first = blocks.subrange(0, mid);
        let second = blocks.subrange(mid, n);
        lemma_concat_rows_split(blocks, mid);
        assert forall|b: int| 0 <= b < first.len() implies {
            &&& (#[trigger] first[b]).well_formed()
            &&& first[b].schema.names() == first[0].schema.names()
            &&& block_in_order(first[b], descriptions)
        } by {
            assert(first[b] == blocks[b]);
        }
        assert forall|b: int| 0 <= b < second.len() implies {
            &&& (#[trigger] second[b]).well_formed()
            &&& second[b].schema.names() == second[0].schema.names()
            &&& block_in_order(second[b], descriptions)
        } by {
            assert(second[b] == blocks[mid + b]);
            assert(second[0] == blocks[mid]);
        }
        assert(second[0] == blocks[mid]);
        assert(first[0] == blocks[0]);
        assert(has_sort_columns(second[0], descriptions));
        lemma_merge_sort_blocks_sorted(first, descriptions);
        lemma_merge_sort_blocks_sorted(second, descriptions);
        let left = spec_merge_sort_blocks(first, descriptions, None).unwrap();
        let right = spec_merge_sort_blocks(second, descriptions, None).unwrap();
        assert(left.rows().len() == concat_rows(first).len()) by {
            left.rows().to_multiset_ensures();
            concat_rows(first).to_multiset_ensures();
        }
        assert(right.rows().len() == concat_rows(second).len()) by {
            right.rows().to_multiset_ensures();
            concat_rows(second).to_multiset_ensures();
        }
        assert(has_sort_columns(left, descriptions));
        lemma_merge_sort_block_sorted(left, right, descriptions);
        lemma_multiset_commutative(concat_rows(first), concat_rows(second));
    }
}

/// A merge takes every row that is left, or as many rows as its budget
/// allows where that is less.
pub proof fn lemma_merge_picks_len(
    left: Seq<Seq<Cell>>,
    left_rows: int,
    right: Seq<Seq<Cell>>,
    right_rows: int,
    options: Seq<SortOption>,
    i: int,
    j: int,
    budget: int,
)
    requires
        0 <= i <= left_rows,
        0 <= j <= right_rows,
        0 <= budget,
    ensures
        merge_picks(left, left_rows, right, right_rows, options, i, j, budget).len() == if budget
            < (left_rows - i) + (right_rows - j) {
            budget
        } else {
            (left_rows - i) + (right_rows - j)
        },
    decreases budget,
{
    if budget > 0 && !(i >= left_rows && j >= right_rows) {
        if j >= right_rows || (i < left_rows && rows_order(left, i, right, j, options) <= 0) {
            lemma_merge_picks_len(left, left_rows, right, right_rows, options, i + 1, j, budget - 1);
        } else {
            lemma_merge_picks_len(left, left_rows, right, right_rows, options, i, j + 1, budget - 1);
        }
    }
}

/// A merge with a smaller budget takes the first rows that the merge with
/// a greater budget takes.
pub proof fn lemma_merge_picks_prefix(
    left: Seq<Seq<Cell>>,
    left_rows: int,
    right: Seq<Seq<Cell>>,
    right_rows: int,
    options: Seq<SortOption>,
    i: int,
    j: int,
    budget: int,
    more: int,
)
    requires
        0 <= i <= left_rows,
        0 <= j <= right_rows,
        0 <= budget <= more,
    ensures
        ({
            let few = merge_picks(left, left_rows, right, right_rows, options, i, j, budget);
            let many = merge_picks(left, left_rows, right, right_rows, options, i, j, more);
            few.len() <= many.len() && few == many.take(few.len() as int)
        }),
    decreases budget,
{
    let few = merge_picks(left, left_rows, right, right_rows, options, i, j, budget);
    let many = merge_picks(left, left_rows, right, right_rows, options, i, j, more);
    lemma_merge_picks_len(left, left_rows, right, right_rows, options, i, j, budget);
    lemma_merge_picks_len(left, left_rows, right, right_rows, options, i, j, more);
    if budget > 0 && !(i >= left_rows && j >= right_rows) {
        if j >= right_rows || (i < left_rows && rows_order(left, i, right, j, options) <= 0) {
            lemma_merge_picks_prefix(
                left,
                left_rows,
                right,
                right_rows,
                options,
                i + 1,
                j,
                budget - 1,
                more - 1,
            );
        } else {
            lemma_merge_picks_prefix(
                left,
                left_rows,
                right,
                right_rows,
                options,
                i,
                j + 1,
                budget - 1,
                more - 1,
            );
        }
        assert(few =~= many.take(few.len() as int));
    } else {
        assert(few =~= many.take(few.len() as int));
    }
}

/// The limit of a merge: the merge of two blocks with rows that keeps at
/// most `k` rows holds the first rows of their merge without a limit, `k` of
/// them or all where there are fewer.
pub proof fn lemma_merge_limit(
    lhs: BlockView,
    rhs: BlockView,
    descriptions: Seq<SortColumnDescription>,
    k: usize,
)
    requires
        lhs.well_formed(),
        rhs.well_formed(),
        lhs.num_rows() > 0,
        rhs.num_rows() > 0,
        has_sort_columns(lhs, descriptions),
        has_sort_columns(rhs, descriptions),
    ensures
        spec_merge_sort_block(lhs, rhs, descriptions, Some(k)) matches Ok(limited)
            && spec_merge_sort_block(lhs, rhs, descriptions, None) matches Ok(full) && {
            &&& full.num_rows() == lhs.num_rows() + rhs.num_rows()
            &&& limited.num_rows() == if k < full.num_rows() {
                k as nat
            } else {
                full.num_rows()
            }
            &&& limited == full.take(first_rows(limited.num_rows() as int))
        },
{
    let left = sort_keys(lhs, descriptions);
    let right = sort_keys(rhs, descriptions);
    let options = sort_options(descriptions);
    let ln = lhs.num_rows() as int;
    let rn = rhs.num_rows() as int;
    let few = block_picks(lhs, rhs, descriptions, Some(k));
    let many = block_picks(lhs, rhs, descriptions, None);
    let budget = if k < ln + rn {
        k as int
    } else {
        ln + rn
    };
    lemma_merge_picks_len(left, ln, right, rn, options, 0, 0, budget);
    lemma_merge_picks_len(left, ln, right, rn, options, 0, 0, ln + rn);
    lemma_merge_picks_prefix(left, ln, right, rn, options, 0, 0, budget, ln + rn);
    let limited = merged_block(lhs, rhs, few);
    let full = merged_block(lhs, rhs, many);
    assert(limited.columns[0].len() == few.len());
    assert(full.columns[0].len() == many.len());
    let prefix = full.take(first_rows(few.len() as int));
    assert(prefix.columns =~= limited.columns) by {
        assert forall|c: int| 0 <= c < limited.columns.len() implies prefix.columns[c]
            == #[trigger] limited.columns[c] by {
            assert(prefix.columns[c] =~= limited.columns[c]);
        }
    }
}

} // verus!
