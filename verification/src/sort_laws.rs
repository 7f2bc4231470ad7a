//! What holds of every sort of the rows of a block.

use vstd::prelude::*;
use vstd::seq_lib::seq_to_set_is_finite;
use vstd::set_lib::{lemma_int_range, lemma_len_subset, lemma_set_disjoint_lens, set_int_range};

use crate::datablock::{BlockView, Cell};
use crate::datavalues::{first_position, lemma_first_position};
use crate::row_order::{
    key_row, lemma_row_order_chained, lemma_row_order_reverse, rows_order, SortOption,
};
use crate::sort::{
    has_sort_columns, is_sort, is_sorted_selection, kept_rows, sort_keys, sort_options,
    SortColumnDescription,
};

verus! {

/// At no place does one sort of some rows hold a row that the keys order
/// strictly before the row that another sort holds there.
proof fn lemma_sorts_not_below(
    keys: Seq<Seq<Cell>>,
    options: Seq<SortOption>,
    n: int,
    p: Seq<int>,
    q: Seq<int>,
    i: int,
)
    requires
        is_sort(keys, options, n, p),
        is_sort(keys, options, n, q),
        0 <= i < n,
    ensures
        rows_order(keys, p[i], keys, q[i], options) >= 0,
{
    if rows_order(keys, p[i], keys, q[i], options) < 0 {
        let a = p.subrange(0, i + 1);
        let b = q.subrange(i, n);
        assert(a.no_duplicates()) by {
            assert forall|x: int, y: int| 0 <= x < a.len() && 0 <= y < a.len() && x != y implies a[x]
                != a[y] by {
                if x < y {
                    assert(p[x] != p[y]);
                } else {
                    assert(p[y] != p[x]);
                }
            }
        }
        assert(b.no_duplicates()) by {
            assert forall|x: int, y: int| 0 <= x < b.len() && 0 <= y < b.len() && x != y implies b[x]
                != b[y] by {
                if x < y {
                    assert(q[i + x] != q[i + y]);
                } else {
                    assert(q[i + y] != q[i + x]);
                }
            }
        }
        a.unique_seq_to_set();
        b.unique_seq_to_set();
        seq_to_set_is_finite(a);
        seq_to_set_is_finite(b);
        assert forall|v: int| !(a.to_set().contains(v) && b.to_set().contains(v)) by {
            if a.to_set().contains(v) && b.to_set().contains(v) {
                assert(a.contains(v));
                assert(b.contains(v));
                let x = choose|x: int| 0 <= x < a.len() && a[x] == v;
                let y = choose|y: int| 0 <= y < b.len() && b[y] == v;
                assert(p[x] == v && q[i + y] == v);
                let row_v = key_row(keys, v);
                let row_p = key_row(keys, p[i]);
                let row_q = key_row(keys, q[i]);
                lemma_row_order_reverse(row_v, row_v, options, 0);
                lemma_row_order_reverse(row_p, row_p, options, 0);
                lemma_row_order_reverse(row_q, row_q, options, 0);
                if x < i {
                    assert(rows_order(keys, p[x], keys, p[i], options) <= 0);
                }
                if y > 0 {
                    assert(rows_order(keys, q[i], keys, q[i + y], options) <= 0);
                }
                lemma_row_order_chained(row_v, row_p, row_q, options, 0);
                lemma_row_order_chained(row_v, row_q, row_v, options, 0);
            }
        }
        assert(a.to_set().disjoint(b.to_set()));
        lemma_set_disjoint_lens(a.to_set(), b.to_set());
        lemma_int_range(0, n);
        assert((a.to_set() + b.to_set()).subset_of(set_int_range(0, n))) by {
            assert forall|v: int| (a.to_set() + b.to_set()).contains(v) implies set_int_range(
                0,
                n,
            ).contains(v) by {
                if a.to_set().contains(v) {
                    assert(a.contains(v));
                    let x = choose|x: int| 0 <= x < a.len() && a[x] == v;
                    assert(p[x] == v);
                } else {
                    assert(b.contains(v));
                    let y = choose|y: int| 0 <= y < b.len() && b[y] == v;
                    assert(q[i + y] == v);
                }
            }
        }
        lemma_len_subset(a.to_set() + b.to_set(), set_int_range(0, n));
        assert((a.to_set() + b.to_set()).len() == n + 1);
    }
}

/// Two sorts of the same rows hold, at each place, rows that the keys do
/// not tell apart.
pub proof fn lemma_sorts_agree(
    keys: Seq<Seq<Cell>>,
    options: Seq<SortOption>,
    n: int,
    p: Seq<int>,
    q: Seq<int>,
)
    requires
        is_sort(keys, options, n, p),
        is_sort(keys, options, n, q),
    ensures
        forall|i: int|
            #![trigger p[i], q[i]]
            0 <= i < n ==> rows_order(keys, p[i], keys, q[i], options) == 0,
{
    assert forall|i: int| #![trigger p[i], q[i]] 0 <= i < n implies rows_order(
        keys,
        p[i],
        keys,
        q[i],
        options,
    ) == 0 by {
        lemma_sorts_not_below(keys, options, n, p, q, i);
        lemma_sorts_not_below(keys, options, n, q, p, i);
        lemma_row_order_reverse(key_row(keys, p[i]), key_row(keys, q[i]), options, 0);
    }
}

/// Whether the keys tell any two of the first `n` rows apart.
pub open spec fn distinct_keys(keys: Seq<Seq<Cell>>, options: Seq<SortOption>, n: int) -> bool {
    forall|a: int, b: int|
        0 <= a < n && 0 <= b < n && a != b ==> #[trigger] rows_order(keys, a, keys, b, options)
            != 0
}

/// Where the keys tell any two rows apart, the rows have one sort only.
pub proof fn lemma_sort_unique(
    keys: Seq<Seq<Cell>>,
    options: Seq<SortOption>,
    n: int,
    p: Seq<int>,
    q: Seq<int>,
)
    requires
        is_sort(keys, options, n, p),
        is_sort(keys, options, n, q),
        distinct_keys(keys, options, n),
    ensures
        p == q,
{
    lemma_sorts_agree(keys, options, n, p, q);
    assert forall|i: int| 0 <= i < n implies p[i] == q[i] by {
        assert(rows_order(keys, p[i], keys, q[i], options) == 0);
    }
    assert(p =~= q);
}

/// The key cells of a row of a block made of rows of `block` are those of
/// the row of `block` that it was made of.
proof fn lemma_taken_keys(
    block: BlockView,
    descriptions: Seq<SortColumnDescription>,
    indices: Seq<int>,
    i: int,
)
    requires
        block.well_formed(),
        has_sort_columns(block, descriptions),
        0 <= i < indices.len(),
    ensures
        key_row(sort_keys(block.take(indices), descriptions), i) == key_row(
            sort_keys(block, descriptions),
            indices[i],
        ),
{
    let out = block.take(indices);
    assert forall|d: int| 0 <= d < descriptions.len() implies key_row(
        sort_keys(out, descriptions),
        i,
    )[d] == key_row(sort_keys(block, descriptions), indices[i])[d] by {
        let name = descriptions[d].column_name@;
        lemma_first_position(block.schema.names(), name, 0);
        let c = first_position(block.schema.names(), name).unwrap();
        assert(block.column_by_name(name) == Some(block.columns[c]));
        assert(out.column_by_name(name) == Some(out.columns[c]));
    }
    assert(key_row(sort_keys(out, descriptions), i) =~= key_row(
        sort_keys(block, descriptions),
        indices[i],
    ));
}

/// The numbers below `n`, in order.
pub open spec fn first_rows(n: int) -> Seq<int> {
    Seq::new(n as nat, |i: int| i)
}

/// Sort limit correctness: what a sort of a block with the limit `k` may
/// give has at most `k` rows, and these are the first rows of what a sort
/// without a limit may give: at each place the keys do not tell the two
/// rows apart, and where the keys tell any two rows of the block apart, the
/// rows are the same.
pub proof fn lemma_sort_limit(
    block: BlockView,
    descriptions: Seq<SortColumnDescription>,
    k: usize,
    limited: BlockView,
    full: BlockView,
)
    requires
        block.well_formed(),
        descriptions.len() > 0,
        has_sort_columns(block, descriptions),
        is_sorted_selection(block, descriptions, Some(k), limited),
        is_sorted_selection(block, descriptions, None, full),
    ensures
        limited.num_rows() <= k,
        limited.num_rows() <= full.num_rows() == block.num_rows(),
        forall|i: int|
            0 <= i < limited.num_rows() ==> #[trigger] rows_order(
                sort_keys(limited, descriptions),
                i,
                sort_keys(full, descriptions),
                i,
                sort_options(descriptions),
            ) == 0,
        distinct_keys(
            sort_keys(block, descriptions),
            sort_options(descriptions),
            block.num_rows() as int,
        ) ==> limited == full.take(first_rows(limited.num_rows() as int)),
{
    let keys = sort_keys(block, descriptions);
    let options = sort_options(descriptions);
    let n = block.num_rows() as int;
    let kept = kept_rows(n, Some(k));
    let p = choose|p: Seq<int>|
        is_sort(keys, options, n, p) && limited == block.take(
            #[trigger] p.take(kept_rows(n, Some(k))),
        );
    let q = choose|q: Seq<int>|
        is_sort(keys, options, n, q) && full == block.take(#[trigger] q.take(kept_rows(n, None)));
    assert(q.take(n) =~= q);
    lemma_first_position(block.schema.names(), descriptions[0].column_name@, 0);
    assert(block.columns.len() > 0);
    assert(limited.columns[0].len() == kept);
    assert(full.columns[0].len() == n);
    lemma_sorts_agree(keys, options, n, p, q);
    assert forall|i: int| 0 <= i < limited.num_rows() implies #[trigger] rows_order(
        sort_keys(limited, descriptions),
        i,
        sort_keys(full, descriptions),
        i,
        options,
    ) == 0 by {
        lemma_taken_keys(block, descriptions, p.take(kept), i);
        lemma_taken_keys(block, descriptions, q, i);
        assert(rows_order(keys, p[i], keys, q[i], options) == 0);
    }
    if distinct_keys(keys, options, n) {
        lemma_sort_unique(keys, options, n, p, q);
        let prefix = full.take(first_rows(kept));
        assert(prefix.columns =~= limited.columns) by {
            assert forall|c: int| 0 <= c < limited.columns.len() implies prefix.columns[c]
                == #[trigger] limited.columns[c] by {
                assert(prefix.columns[c] =~= limited.columns[c]);
            }
        }
    }
}

} // verus!
