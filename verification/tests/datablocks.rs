use std::sync::Arc;

use fuse_query::datablock::{DataArray, DataBlock};
use fuse_query::datavalues::{DataField, DataSchema, DataSchemaRef, DataType};
use fuse_query::error::ErrorCodes;
use fuse_query::merge::{DataArrayMerge, MergeIndex};
use fuse_query::row_order::{compare_bytes, compare_cells, compare_rows, SortOption};
use fuse_query::sort::{key_columns, options_of, SortColumnDescription};

fn schema_ab() -> DataSchemaRef {
    Arc::new(DataSchema::new(vec![
        DataField::new("a", DataType::Int64, false),
        DataField::new("b", DataType::Utf8, false),
    ]))
}

fn schema_a() -> DataSchemaRef {
    Arc::new(DataSchema::new(vec![DataField::new("a", DataType::Int64, true)]))
}

fn ints(values: &[i64]) -> DataArray {
    DataArray::Int64(values.iter().map(|v| Some(*v)).collect())
}

fn texts(values: &[&str]) -> DataArray {
    DataArray::Utf8(values.iter().map(|v| Some(v.to_string())).collect())
}

fn block_ab(a: &[i64], b: &[&str]) -> DataBlock {
    let block = DataBlock::create_by_array(schema_ab(), vec![ints(a), texts(b)]);
    assert!(block.is_well_formed());
    block
}

fn block_a(a: &[i64]) -> DataBlock {
    let block = DataBlock::create_by_array(schema_a(), vec![ints(a)]);
    assert!(block.is_well_formed());
    block
}

fn key(name: &str, asc: bool, nulls_first: bool) -> SortColumnDescription {
    SortColumnDescription { column_name: name.to_string(), asc, nulls_first }
}

fn cell_text(array: &DataArray, row: usize) -> String {
    match array {
        DataArray::Boolean(v) => v[row].map(|x| x.to_string()).unwrap_or_default(),
        DataArray::Int64(v) => v[row].map(|x| x.to_string()).unwrap_or_default(),
        DataArray::UInt64(v) => v[row].map(|x| x.to_string()).unwrap_or_default(),
        DataArray::Utf8(v) => v[row].clone().unwrap_or_default(),
    }
}

fn table(block: &DataBlock) -> Vec<String> {
    let names: Vec<String> = block.schema().fields().iter().map(|f| f.name().clone()).collect();
    let rows = block.num_rows();
    let mut widths: Vec<usize> = names.iter().map(|n| n.len()).collect();
    for (c, array) in block.columns().iter().enumerate() {
        for r in 0..rows {
            widths[c] = widths[c].max(cell_text(array, r).len());
        }
    }
    let rule: String =
        widths.iter().map(|w| format!("+{}", "-".repeat(w + 2))).collect::<String>() + "+";
    let line = |cells: Vec<String>| -> String {
        cells
            .iter()
            .zip(widths.iter())
            .map(|(cell, w)| format!("| {:<width$} ", cell, width = *w))
            .collect::<String>()
            + "|"
    };
    let mut out = vec![rule.clone(), line(names), rule.clone()];
    for r in 0..rows {
        out.push(line(block.columns().iter().map(|a| cell_text(a, r)).collect()));
    }
    out.push(rule);
    out
}

fn int_column(block: &DataBlock, c: usize) -> Vec<Option<i64>> {
    match &block.columns()[c] {
        DataArray::Int64(v) => v.clone(),
        other => panic!("not an Int64 column: {:?}", other),
    }
}

fn text_column(block: &DataBlock, c: usize) -> Vec<Option<String>> {
    match &block.columns()[c] {
        DataArray::Utf8(v) => v.clone(),
        other => panic!("not a Utf8 column: {:?}", other),
    }
}

fn some_ints(values: &[i64]) -> Vec<Option<i64>> {
    values.iter().map(|v| Some(*v)).collect()
}

fn some_texts(values: &[&str]) -> Vec<Option<String>> {
    values.iter().map(|v| Some(v.to_string())).collect()
}

#[test]
fn test_data_block_take() {
    let schema = schema_ab();

    let raw = DataBlock::create_by_array(schema.clone(), vec![
        DataArray::Int64(vec![Some(1), Some(2), Some(3)]),
        DataArray::Utf8(vec![Some("b1".to_string()), Some("b2".to_string()), Some("b3".to_string())]),
    ]);
    assert!(raw.is_well_formed());

    let take = DataBlock::block_take_by_indices(&raw, &[0, 2]).unwrap();
    assert_eq!(raw.schema(), take.schema());

    let expected = vec![
        "+---+----+",
        "| a | b  |",
        "+---+----+",
        "| 1 | b1 |",
        "| 3 | b3 |",
        "+---+----+",
    ];
    assert_eq!(expected, table(&take));
}

#[test]
fn take_repeats_and_reorders_rows() {
    let raw = block_ab(&[1, 2, 3], &["b1", "b2", "b3"]);
    let take = DataBlock::block_take_by_indices(&raw, &[2, 2, 0]).unwrap();
    assert!(take.is_well_formed());
    assert_eq!(int_column(&take, 0), some_ints(&[3, 3, 1]));
    assert_eq!(text_column(&take, 1), some_texts(&["b3", "b3", "b1"]));
}

#[test]
fn take_of_no_rows_is_empty() {
    let raw = block_ab(&[1, 2, 3], &["b1", "b2", "b3"]);
    let take = DataBlock::block_take_by_indices(&raw, &[]).unwrap();
    assert_eq!(take.num_rows(), 0);
    assert_eq!(take.num_columns(), 2);
}

#[test]
fn take_outside_the_block_fails() {
    let raw = block_ab(&[1, 2, 3], &["b1", "b2", "b3"]);
    assert_eq!(
        DataBlock::block_take_by_indices(&raw, &[0, 3]).unwrap_err(),
        ErrorCodes::UnknownException
    );
}

#[test]
fn well_formedness_is_checked() {
    let short = DataBlock::create_by_array(schema_ab(), vec![ints(&[1, 2]), texts(&["x"])]);
    assert!(!short.is_well_formed());
    let missing = DataBlock::create_by_array(schema_ab(), vec![ints(&[1, 2])]);
    assert!(!missing.is_well_formed());
    let wrong_type = DataBlock::create_by_array(schema_ab(), vec![ints(&[1]), ints(&[2])]);
    assert!(!wrong_type.is_well_formed());
    let empty = DataBlock::create_by_array(Arc::new(DataSchema::new(vec![])), vec![]);
    assert!(empty.is_well_formed());
    assert_eq!(empty.num_rows(), 0);
}

#[test]
fn array_by_name_finds_the_first_column_of_that_name() {
    let block = block_ab(&[1, 2], &["x", "y"]);
    assert_eq!(block.try_array_by_name("b").unwrap(), &texts(&["x", "y"]));
    assert_eq!(block.index_by_name("a").unwrap(), 0);
    assert_eq!(block.try_array_by_name("c").unwrap_err(), ErrorCodes::FieldNotFound);
}

#[test]
fn block_clone_keeps_schema_and_cells() {
    let block = block_ab(&[1, 2], &["x", "y"]);
    let copy = block.clone();
    assert_eq!(copy, block);
}

#[test]
fn sort_block_example() {
    let block = block_ab(&[3, 1, 2], &["x", "y", "z"]);
    let sorted = DataBlock::sort_block(&block, &[key("a", true, true)], None).unwrap();
    assert!(sorted.is_well_formed());
    assert_eq!(sorted.schema(), block.schema());
    assert_eq!(int_column(&sorted, 0), some_ints(&[1, 2, 3]));
    assert_eq!(text_column(&sorted, 1), some_texts(&["y", "z", "x"]));
}

#[test]
fn sort_block_descending() {
    let block = block_ab(&[3, 1, 2], &["x", "y", "z"]);
    let sorted = DataBlock::sort_block(&block, &[key("a", false, true)], None).unwrap();
    assert_eq!(int_column(&sorted, 0), some_ints(&[3, 2, 1]));
    assert_eq!(text_column(&sorted, 1), some_texts(&["x", "z", "y"]));
}

#[test]
fn sort_block_by_strings_in_byte_order() {
    let block = block_ab(&[1, 2, 3, 4], &["b", "", "ab", "B"]);
    let sorted = DataBlock::sort_block(&block, &[key("b", true, true)], None).unwrap();
    assert_eq!(text_column(&sorted, 1), some_texts(&["", "B", "ab", "b"]));
    assert_eq!(int_column(&sorted, 0), some_ints(&[2, 4, 3, 1]));
}

#[test]
fn sort_block_places_nulls_as_asked() {
    let schema = schema_a();
    let block = DataBlock::create_by_array(
        schema,
        vec![DataArray::Int64(vec![Some(2), None, Some(1), None, Some(3)])],
    );
    assert!(block.is_well_formed());
    let first = DataBlock::sort_block(&block, &[key("a", true, true)], None).unwrap();
    assert_eq!(int_column(&first, 0), vec![None, None, Some(1), Some(2), Some(3)]);
    let last = DataBlock::sort_block(&block, &[key("a", true, false)], None).unwrap();
    assert_eq!(int_column(&last, 0), vec![Some(1), Some(2), Some(3), None, None]);
    let descending_first = DataBlock::sort_block(&block, &[key("a", false, true)], None).unwrap();
    assert_eq!(int_column(&descending_first, 0), vec![None, None, Some(3), Some(2), Some(1)]);
    let descending_last = DataBlock::sort_block(&block, &[key("a", false, false)], None).unwrap();
    assert_eq!(int_column(&descending_last, 0), vec![Some(3), Some(2), Some(1), None, None]);
}

#[test]
fn sort_block_breaks_ties_by_the_next_key() {
    let block = block_ab(&[1, 2, 1, 2, 1], &["e", "d", "c", "b", "a"]);
    let sorted =
        DataBlock::sort_block(&block, &[key("a", true, true), key("b", false, true)], None).unwrap();
    assert_eq!(int_column(&sorted, 0), some_ints(&[1, 1, 1, 2, 2]));
    assert_eq!(text_column(&sorted, 1), some_texts(&["e", "c", "a", "d", "b"]));
}

#[test]
fn sort_block_with_limit_is_a_prefix_of_the_full_sort() {
    let a: Vec<i64> = vec![9, 4, 7, 1, 8, 2, 6, 3, 5, 0, 15, 12, 11, 14, 13, 10, 19, 18, 17, 16, 21, 20];
    let b: Vec<String> = a.iter().map(|v| format!("row{}", v)).collect();
    let b_refs: Vec<&str> = b.iter().map(|s| s.as_str()).collect();
    let block = block_ab(&a, &b_refs);
    let keys = [key("a", true, true)];
    let full = DataBlock::sort_block(&block, &keys, None).unwrap();
    assert_eq!(full.num_rows(), a.len());
    for k in 0..=a.len() + 2 {
        let limited = DataBlock::sort_block(&block, &keys, Some(k)).unwrap();
        let kept = k.min(a.len());
        assert_eq!(limited.num_rows(), kept);
        assert!(limited.num_rows() <= k);
        assert_eq!(int_column(&limited, 0), int_column(&full, 0)[..kept].to_vec());
        assert_eq!(text_column(&limited, 1), text_column(&full, 1)[..kept].to_vec());
    }
    let two_keys = [key("a", false, false), key("b", true, true)];
    let full = DataBlock::sort_block(&block, &two_keys, None).unwrap();
    for k in 0..=a.len() {
        let limited = DataBlock::sort_block(&block, &two_keys, Some(k)).unwrap();
        assert_eq!(int_column(&limited, 0), int_column(&full, 0)[..k].to_vec());
    }
}

#[test]
fn sort_block_with_limit_zero_is_empty() {
    let block = block_ab(&[3, 1, 2], &["x", "y", "z"]);
    let sorted = DataBlock::sort_block(&block, &[key("a", true, true)], Some(0)).unwrap();
    assert_eq!(sorted.num_rows(), 0);
    assert_eq!(sorted.num_columns(), 2);
}

#[test]
fn sort_block_of_an_empty_block_is_empty() {
    let block = block_ab(&[], &[]);
    let sorted = DataBlock::sort_block(&block, &[key("a", true, true)], None).unwrap();
    assert_eq!(sorted.num_rows(), 0);
}

#[test]
fn sort_block_by_a_missing_column_fails() {
    let block = block_ab(&[3, 1, 2], &["x", "y", "z"]);
    assert_eq!(
        DataBlock::sort_block(&block, &[key("a", true, true), key("c", true, true)], None)
            .unwrap_err(),
        ErrorCodes::FieldNotFound
    );
}

#[test]
fn sort_block_without_keys_fails() {
    let block = block_ab(&[3, 1, 2], &["x", "y", "z"]);
    assert_eq!(DataBlock::sort_block(&block, &[], None).unwrap_err(), ErrorCodes::UnknownException);
}

#[test]
fn sort_block_on_booleans_and_unsigned_numbers() {
    let schema = Arc::new(DataSchema::new(vec![
        DataField::new("flag", DataType::Boolean, true),
        DataField::new("n", DataType::UInt64, true),
    ]));
    let block = DataBlock::create_by_array(
        schema,
        vec![
            DataArray::Boolean(vec![Some(true), Some(false), None, Some(true)]),
            DataArray::UInt64(vec![Some(u64::MAX), Some(7), Some(1), Some(0)]),
        ],
    );
    assert!(block.is_well_formed());
    let sorted =
        DataBlock::sort_block(&block, &[key("flag", true, false), key("n", true, true)], None)
            .unwrap();
    assert_eq!(
        sorted.columns()[0],
        DataArray::Boolean(vec![Some(false), Some(true), Some(true), None])
    );
    assert_eq!(
        sorted.columns()[1],
        DataArray::UInt64(vec![Some(7), Some(0), Some(u64::MAX), Some(1)])
    );
}

#[test]
fn merge_sort_block_example() {
    let lhs = block_a(&[1, 3]);
    let rhs = block_a(&[2, 4]);
    let keys = [key("a", true, true)];
    let merged = DataBlock::merge_sort_block(&lhs, &rhs, &keys, None).unwrap();
    assert!(merged.is_well_formed());
    assert_eq!(int_column(&merged, 0), some_ints(&[1, 2, 3, 4]));
    let limited = DataBlock::merge_sort_block(&lhs, &rhs, &keys, Some(2)).unwrap();
    assert_eq!(int_column(&limited, 0), some_ints(&[1, 2]));
}

#[test]
fn merge_sort_block_holds_the_rows_of_both_sides_in_order() {
    let lhs = block_ab(&[1, 2, 2, 5, 9], &["l1", "l2", "l3", "l4", "l5"]);
    let rhs = block_ab(&[0, 2, 3, 9, 9, 10], &["r1", "r2", "r3", "r4", "r5", "r6"]);
    let keys = [key("a", true, true)];
    let merged = DataBlock::merge_sort_block(&lhs, &rhs, &keys, None).unwrap();
    assert_eq!(merged.schema(), lhs.schema());
    assert_eq!(int_column(&merged, 0), some_ints(&[0, 1, 2, 2, 2, 3, 5, 9, 9, 9, 10]));
    assert_eq!(
        text_column(&merged, 1),
        some_texts(&["r1", "l1", "l2", "l3", "r2", "r3", "l4", "l5", "r4", "r5", "r6"])
    );
    let mut rows: Vec<(Option<i64>, Option<String>)> =
        int_column(&merged, 0).into_iter().zip(text_column(&merged, 1)).collect();
    let mut both: Vec<(Option<i64>, Option<String>)> = int_column(&lhs, 0)
        .into_iter()
        .zip(text_column(&lhs, 1))
        .chain(int_column(&rhs, 0).into_iter().zip(text_column(&rhs, 1)))
        .collect();
    rows.sort();
    both.sort();
    assert_eq!(rows, both);
}

#[test]
fn merge_sort_block_descending_with_nulls_last() {
    let lhs = DataBlock::create_by_array(schema_a(), vec![DataArray::Int64(vec![Some(9), Some(4), None])]);
    let rhs = DataBlock::create_by_array(schema_a(), vec![DataArray::Int64(vec![Some(7), Some(4), Some(1), None])]);
    let merged = DataBlock::merge_sort_block(&lhs, &rhs, &[key("a", false, false)], None).unwrap();
    assert_eq!(
        int_column(&merged, 0),
        vec![Some(9), Some(7), Some(4), Some(4), Some(1), None, None]
    );
}

#[test]
fn merge_sort_block_stops_at_the_limit() {
    let lhs = block_a(&[1, 3, 5, 7]);
    let rhs = block_a(&[2, 4, 6, 8]);
    let keys = [key("a", true, true)];
    for k in 0..10 {
        let merged = DataBlock::merge_sort_block(&lhs, &rhs, &keys, Some(k)).unwrap();
        let expect: Vec<i64> = (1..=8).take(k).collect();
        assert_eq!(int_column(&merged, 0), some_ints(&expect));
    }
}

#[test]
fn merge_with_an_empty_side_is_the_other_side() {
    let block = block_ab(&[1, 3], &["x", "y"]);
    let empty = block_ab(&[], &[]);
    let keys = [key("a", true, true)];
    assert_eq!(DataBlock::merge_sort_block(&block, &empty, &keys, None).unwrap(), block);
    assert_eq!(DataBlock::merge_sort_block(&empty, &block, &keys, None).unwrap(), block);
    assert_eq!(DataBlock::merge_sort_block(&block, &empty, &keys, Some(1)).unwrap(), block);
    assert_eq!(DataBlock::merge_sort_block(&empty, &block, &keys, Some(1)).unwrap(), block);
    assert_eq!(DataBlock::merge_sort_block(&empty, &empty, &keys, None).unwrap(), empty);
}

#[test]
fn merge_with_an_empty_side_does_not_look_at_the_other_side() {
    let unsorted = block_ab(&[3, 1, 2], &["x", "y", "z"]);
    let empty = block_ab(&[], &[]);
    let missing = [key("no such column", true, true)];
    assert_eq!(DataBlock::merge_sort_block(&unsorted, &empty, &missing, None).unwrap(), unsorted);
    assert_eq!(DataBlock::merge_sort_block(&empty, &unsorted, &missing, None).unwrap(), unsorted);
}

#[test]
fn merge_of_unsorted_blocks_still_holds_all_rows() {
    let lhs = block_a(&[3, 1]);
    let rhs = block_a(&[2, 0]);
    let merged = DataBlock::merge_sort_block(&lhs, &rhs, &[key("a", true, true)], None).unwrap();
    assert_eq!(int_column(&merged, 0), some_ints(&[2, 0, 3, 1]));
}

#[test]
fn merge_by_a_missing_column_fails() {
    let lhs = block_a(&[1, 3]);
    let rhs = block_a(&[2, 4]);
    assert_eq!(
        DataBlock::merge_sort_block(&lhs, &rhs, &[key("b", true, true)], None).unwrap_err(),
        ErrorCodes::FieldNotFound
    );
}

#[test]
fn merge_without_keys_puts_the_left_side_first() {
    let lhs = block_a(&[5, 6]);
    let rhs = block_a(&[1, 2]);
    let merged = DataBlock::merge_sort_block(&lhs, &rhs, &[], None).unwrap();
    assert_eq!(int_column(&merged, 0), some_ints(&[5, 6, 1, 2]));
}

#[test]
fn merge_sort_blocks_of_nothing_fails() {
    assert_eq!(
        DataBlock::merge_sort_blocks(&[], &[key("a", true, true)], None).unwrap_err(),
        ErrorCodes::EmptyData
    );
    assert_eq!(
        DataBlock::merge_sort_blocks(&[], &[], Some(3)).unwrap_err(),
        ErrorCodes::EmptyData
    );
}

#[test]
fn merge_sort_blocks_of_one_block_is_that_block() {
    let block = block_ab(&[3, 1], &["x", "y"]);
    let merged = DataBlock::merge_sort_blocks(&[block.clone()], &[key("a", true, true)], Some(1)).unwrap();
    assert_eq!(merged, block);
}

#[test]
fn merge_sort_blocks_equals_the_sort_of_all_rows() {
    let parts: Vec<Vec<i64>> = vec![
        vec![1, 8, 15],
        vec![],
        vec![2, 3, 20],
        vec![0],
        vec![4, 5, 6, 7],
        vec![9, 30],
        vec![10, 11, 12, 13, 14],
    ];
    let keys = [key("a", true, true)];
    for n in 1..=parts.len() {
        let blocks: Vec<DataBlock> = parts[..n]
            .iter()
            .map(|p| {
                let names: Vec<String> = p.iter().map(|v| format!("v{}", v)).collect();
                let refs: Vec<&str> = names.iter().map(|s| s.as_str()).collect();
                block_ab(p, &refs)
            })
            .collect();
        let merged = DataBlock::merge_sort_blocks(&blocks, &keys, None).unwrap();
        let mut all: Vec<i64> = parts[..n].iter().flatten().copied().collect();
        let names: Vec<String> = all.iter().map(|v| format!("v{}", v)).collect();
        let refs: Vec<&str> = names.iter().map(|s| s.as_str()).collect();
        let concatenation = block_ab(&all, &refs);
        let sorted = DataBlock::sort_block(&concatenation, &keys, None).unwrap();
        assert_eq!(merged.columns(), sorted.columns());
        all.sort();
        assert_eq!(int_column(&merged, 0), some_ints(&all));
    }
}

#[test]
fn merge_sort_blocks_with_limit_keeps_the_first_rows() {
    let blocks = vec![block_a(&[1, 8, 15]), block_a(&[2, 3, 20]), block_a(&[0, 9]), block_a(&[4, 5])];
    let merged = DataBlock::merge_sort_blocks(&blocks, &[key("a", true, true)], Some(4)).unwrap();
    assert_eq!(int_column(&merged, 0), some_ints(&[0, 1, 2, 3]));
}

#[test]
fn merge_sort_blocks_by_a_missing_column_fails() {
    let blocks = vec![block_a(&[1]), block_a(&[2]), block_a(&[3])];
    assert_eq!(
        DataBlock::merge_sort_blocks(&blocks, &[key("z", true, true)], None).unwrap_err(),
        ErrorCodes::FieldNotFound
    );
}

#[test]
fn merge_indices_name_side_and_row() {
    let l = ints(&[1, 3]);
    let r = ints(&[2, 3, 4]);
    let options = vec![SortOption { descending: false, nulls_first: true }];
    let picks = DataArrayMerge::merge_indices(&vec![&l], 2, &vec![&r], 3, &options, None);
    assert_eq!(
        picks,
        vec![
            MergeIndex { from_left: true, row: 0 },
            MergeIndex { from_left: false, row: 0 },
            MergeIndex { from_left: true, row: 1 },
            MergeIndex { from_left: false, row: 1 },
            MergeIndex { from_left: false, row: 2 },
        ]
    );
    let limited = DataArrayMerge::merge_indices(&vec![&l], 2, &vec![&r], 3, &options, Some(2));
    assert_eq!(limited, picks[..2].to_vec());
    assert_eq!(DataArrayMerge::merge_array(&l, &r, &picks), ints(&[1, 2, 3, 3, 4]));
}

#[test]
fn rows_are_compared_key_by_key() {
    let a = ints(&[1, 1, 2]);
    let b = texts(&["x", "y", "x"]);
    let ascending = SortOption { descending: false, nulls_first: true };
    let descending = SortOption { descending: true, nulls_first: true };
    let keys = vec![&a, &b];
    assert_eq!(compare_rows(&keys, 0, &keys, 1, &vec![ascending, ascending]), -1);
    assert_eq!(compare_rows(&keys, 0, &keys, 1, &vec![ascending, descending]), 1);
    assert_eq!(compare_rows(&keys, 2, &keys, 1, &vec![ascending, ascending]), 1);
    assert_eq!(compare_rows(&keys, 2, &keys, 1, &vec![descending, ascending]), -1);
    assert_eq!(compare_rows(&keys, 1, &keys, 1, &vec![descending, ascending]), 0);
}

#[test]
fn cells_are_compared_with_nulls_apart() {
    let a = DataArray::Int64(vec![None, Some(-5), Some(5)]);
    let first = SortOption { descending: false, nulls_first: true };
    let last = SortOption { descending: true, nulls_first: false };
    assert_eq!(compare_cells(&a, 0, &a, 0, first), 0);
    assert_eq!(compare_cells(&a, 0, &a, 1, first), -1);
    assert_eq!(compare_cells(&a, 1, &a, 0, first), 1);
    assert_eq!(compare_cells(&a, 0, &a, 1, last), 1);
    assert_eq!(compare_cells(&a, 1, &a, 0, last), -1);
    assert_eq!(compare_cells(&a, 1, &a, 2, first), -1);
    assert_eq!(compare_cells(&a, 1, &a, 2, last), 1);
    let flags = DataArray::Boolean(vec![Some(false), Some(true)]);
    assert_eq!(compare_cells(&flags, 0, &flags, 1, first), -1);
    assert_eq!(compare_cells(&flags, 1, &flags, 0, first), 1);
    assert_eq!(compare_cells(&flags, 1, &flags, 1, first), 0);
}

#[test]
fn bytes_are_compared_byte_by_byte() {
    assert_eq!(compare_bytes(b"", b""), 0);
    assert_eq!(compare_bytes(b"", b"a"), -1);
    assert_eq!(compare_bytes(b"a", b""), 1);
    assert_eq!(compare_bytes(b"ab", b"abc"), -1);
    assert_eq!(compare_bytes(b"abd", b"abc"), 1);
    assert_eq!(compare_bytes(b"abc", b"abc"), 0);
    assert_eq!(compare_bytes(&[0xff], &[0x01, 0x02]), 1);
}

#[test]
fn key_columns_and_options_follow_the_descriptions() {
    let block = block_ab(&[1, 2], &["x", "y"]);
    let descriptions = [key("b", false, true), key("a", true, false)];
    let keys = key_columns(&block, &descriptions).unwrap();
    assert_eq!(keys, vec![&texts(&["x", "y"]), &ints(&[1, 2])]);
    assert_eq!(
        options_of(&descriptions),
        vec![
            SortOption { descending: true, nulls_first: true },
            SortOption { descending: false, nulls_first: false },
        ]
    );
    assert_eq!(key_columns(&block, &[key("c", true, true)]).unwrap_err(), ErrorCodes::FieldNotFound);
}

#[test]
fn array_take_and_clone() {
    let a = texts(&["x", "y", "z"]);
    assert_eq!(a.take(&[2, 0]), texts(&["z", "x"]));
    assert_eq!(a.clone(), a);
    assert_eq!(a.len(), 3);
    assert_eq!(a.data_type(), DataType::Utf8);
    assert!(!a.is_null(1));
    assert!(DataArray::UInt64(vec![None]).is_null(0));
}

#[test]
fn layouts_are_compared_by_number_and_type_of_columns() {
    let ab = block_ab(&[1], &["x"]);
    let renamed = DataBlock::create_by_array(
        Arc::new(DataSchema::new(vec![
            DataField::new("x", DataType::Int64, true),
            DataField::new("y", DataType::Utf8, true),
        ])),
        vec![ints(&[]), texts(&[])],
    );
    assert!(ab.has_layout_of(&renamed));
    assert!(renamed.has_layout_of(&ab));
    assert!(ab.has_layout_of(&ab));
    assert!(!ab.has_layout_of(&block_a(&[1])));
    let swapped = DataBlock::create_by_array(
        Arc::new(DataSchema::new(vec![
            DataField::new("a", DataType::Utf8, false),
            DataField::new("b", DataType::Int64, false),
        ])),
        vec![texts(&["x"]), ints(&[1])],
    );
    assert!(!ab.has_layout_of(&swapped));
}

#[test]
fn merge_of_empty_blocks_is_the_right_one() {
    let left = block_ab(&[], &[]);
    let right = DataBlock::create_by_array(
        Arc::new(DataSchema::new(vec![
            DataField::new("x", DataType::Int64, true),
            DataField::new("y", DataType::Utf8, true),
        ])),
        vec![ints(&[]), texts(&[])],
    );
    let merged = DataBlock::merge_sort_block(&left, &right, &[key("a", true, true)], None).unwrap();
    assert_eq!(merged, right);
    assert_ne!(merged, left);
}
