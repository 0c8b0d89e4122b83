use trace_engine::error::EngineError;
use trace_engine::exec::basic::analyze::{
    concat_record_batches, count_unique_string, filter_between, filter_with, find_unique_string,
    flatten, select_columns, sort_batch,
};
use trace_engine::utils::record_batch_util::{
    convert, create_record_batch, Column, DataType, Field, Table,
};

fn strings(values: &[&str]) -> Vec<String> {
    values.iter().map(|s| s.to_string()).collect()
}

fn table(operators: &[&str], buckets: &[i64], counts: &[u64]) -> Table {
    let schema = vec![
        Field::new("operator", DataType::Utf8),
        Field::new("bucket", DataType::Decimal),
        Field::new("count", DataType::UInt64),
    ];
    let columns = vec![
        Column::Utf8(strings(operators)),
        Column::Decimal(buckets.to_vec()),
        Column::UInt64(counts.to_vec()),
    ];
    create_record_batch(schema, columns).unwrap()
}

fn texts(table: &Table, index: usize) -> Vec<String> {
    match table.column(index) {
        Column::Utf8(v) => v.clone(),
        _ => panic!("column {} holds no text", index),
    }
}

fn numbers(table: &Table, index: usize) -> Vec<i64> {
    match table.column(index) {
        Column::Decimal(v) => v.clone(),
        Column::Int64(v) => v.clone(),
        _ => panic!("column {} holds no numbers", index),
    }
}

fn counts(table: &Table, index: usize) -> Vec<u64> {
    match table.column(index) {
        Column::UInt64(v) => v.clone(),
        _ => panic!("column {} holds no counts", index),
    }
}

fn same(a: &Table, b: &Table) -> bool {
    a.num_columns() == b.num_columns()
        && (0..a.num_columns()).all(|c| {
            a.field(c).same(b.field(c))
                && match (a.column(c), b.column(c)) {
                    (Column::Utf8(x), Column::Utf8(y)) => x == y,
                    (Column::Decimal(x), Column::Decimal(y)) => x == y,
                    (Column::Int64(x), Column::Int64(y)) => x == y,
                    (Column::UInt64(x), Column::UInt64(y)) => x == y,
                    _ => false,
                }
        })
}

#[test]
fn flatten_keeps_the_order_of_lists_and_items() {
    assert_eq!(flatten(vec![vec![1, 2], vec![], vec![3]]), vec![1, 2, 3]);
    assert_eq!(flatten(Vec::<Vec<u8>>::new()), Vec::<u8>::new());
}

#[test]
fn create_record_batch_checks_lengths_and_kinds() {
    let made = create_record_batch(
        vec![Field::new("a", DataType::Utf8), Field::new("b", DataType::Decimal)],
        vec![Column::Utf8(strings(&["x"])), Column::Decimal(vec![1, 2])],
    );
    assert_eq!(made.err(), Some(EngineError::SchemaMismatch));
    let made = create_record_batch(
        vec![Field::new("a", DataType::Utf8)],
        vec![Column::Int64(vec![1])],
    );
    assert_eq!(made.err(), Some(EngineError::SchemaMismatch));
    let made = create_record_batch(vec![], vec![]);
    assert_eq!(made.err(), Some(EngineError::SchemaMismatch));
    let made = create_record_batch(
        vec![Field::new("a", DataType::Decimal)],
        vec![Column::Int64(vec![1])],
    );
    assert_eq!(made.err(), Some(EngineError::SchemaMismatch));
}

#[test]
fn concat_has_the_rows_of_all_fragments_in_order() {
    let a = table(&["x", "y"], &[1, 2], &[10, 20]);
    let b = table(&[], &[], &[]);
    let c = table(&["z"], &[3], &[30]);
    let whole = concat_record_batches(vec![a, b, c]).unwrap();
    assert_eq!(whole.num_rows(), 3);
    assert_eq!(texts(&whole, 0), strings(&["x", "y", "z"]));
    assert_eq!(numbers(&whole, 1), vec![1, 2, 3]);
    assert_eq!(counts(&whole, 2), vec![10, 20, 30]);
    assert_eq!(whole.field(0).name, "operator");
    assert_eq!(whole.field(1).data_type, DataType::Decimal);
}

#[test]
fn concat_refuses_fragments_of_another_schema() {
    let a = table(&["x"], &[1], &[10]);
    let other = create_record_batch(
        vec![
            Field::new("operator", DataType::Utf8),
            Field::new("time", DataType::Decimal),
            Field::new("count", DataType::UInt64),
        ],
        vec![Column::Utf8(strings(&["y"])), Column::Decimal(vec![2]), Column::UInt64(vec![1])],
    )
    .unwrap();
    assert_eq!(concat_record_batches(vec![a, other]).err(), Some(EngineError::SchemaMismatch));
    assert_eq!(concat_record_batches(vec![]).err(), Some(EngineError::SchemaMismatch));
}

#[test]
fn convert_unifies_fragments() {
    let whole = convert(vec![table(&["x"], &[1], &[10]), table(&["y"], &[2], &[20])]).unwrap();
    assert_eq!(texts(&whole, 0), strings(&["x", "y"]));
    assert_eq!(convert(vec![]).err(), Some(EngineError::SchemaMismatch));
}

#[test]
fn select_keeps_rows_and_the_given_column_order() {
    let t = table(&["x", "y"], &[1, 2], &[10, 20]);
    let picked = select_columns(&t, &vec![2, 0]).unwrap();
    assert_eq!(picked.num_columns(), 2);
    assert_eq!(counts(&picked, 0), vec![10, 20]);
    assert_eq!(texts(&picked, 1), strings(&["x", "y"]));
    assert_eq!(picked.field(0).name, "count");
    assert_eq!(select_columns(&t, &vec![0, 3]).err(), Some(EngineError::InvalidParameter));
    assert_eq!(select_columns(&t, &vec![]).err(), Some(EngineError::SchemaMismatch));
}

#[test]
fn range_filter_keeps_the_rows_within_both_bounds() {
    let t = table(&["a", "b", "c", "d"], &[5, 10, 20, 21], &[1, 2, 3, 4]);
    let kept = filter_between(1, 10, 20, &t).unwrap();
    assert_eq!(texts(&kept, 0), strings(&["b", "c"]));
    assert_eq!(counts(&kept, 2), vec![2, 3]);
    let none = filter_between(1, 30, 40, &t).unwrap();
    assert_eq!(none.num_rows(), 0);
    let low = filter_between(1, -5, 5, &t).unwrap();
    assert_eq!(texts(&low, 0), strings(&["a"]));
}

#[test]
fn range_filter_with_negative_bounds_is_the_identity() {
    let t = table(&["a", "b"], &[5, 10], &[1, 2]);
    assert!(same(&filter_between(1, -100, -100, &t).unwrap(), &t));
    assert!(same(&filter_between(0, -1, -7, &t).unwrap(), &t));
    assert!(same(&filter_between(9, -100, -100, &t).unwrap(), &t));
}

#[test]
fn range_filter_needs_a_decimal_column() {
    let t = table(&["a"], &[5], &[1]);
    assert_eq!(filter_between(0, 1, 2, &t).err(), Some(EngineError::ColumnTypeMismatch));
    assert_eq!(filter_between(7, 1, 2, &t).err(), Some(EngineError::InvalidParameter));
}

#[test]
fn set_filter_keeps_the_members() {
    let t = table(&["a", "b", "a", "c"], &[1, 2, 3, 4], &[1, 2, 3, 4]);
    let kept = filter_with(0, &strings(&["a", "c"]), &t).unwrap();
    assert_eq!(numbers(&kept, 1), vec![1, 3, 4]);
    let none = filter_with(0, &vec![], &t).unwrap();
    assert_eq!(none.num_rows(), 0);
    let both = filter_with(0, &strings(&["All", "a"]), &t).unwrap();
    assert_eq!(numbers(&both, 1), vec![1, 3]);
}

#[test]
fn set_filter_with_all_is_the_identity() {
    let t = table(&["a", "b"], &[5, 10], &[1, 2]);
    assert!(same(&filter_with(0, &strings(&["All"]), &t).unwrap(), &t));
    assert!(same(&filter_with(1, &strings(&["All"]), &t).unwrap(), &t));
}

#[test]
fn set_filter_needs_a_text_column() {
    let t = table(&["a"], &[5], &[1]);
    assert_eq!(filter_with(1, &strings(&["a"]), &t).err(), Some(EngineError::ColumnTypeMismatch));
    assert_eq!(filter_with(3, &strings(&["a"]), &t).err(), Some(EngineError::InvalidParameter));
}

#[test]
fn sort_by_bucket_gives_non_decreasing_buckets() {
    let t = table(&["a", "b", "c", "d", "e"], &[30, 10, 20, 10, -5], &[1, 2, 3, 4, 5]);
    let sorted = sort_batch(&t, 1, true).unwrap();
    let buckets = numbers(&sorted, 1);
    assert_eq!(buckets, vec![-5, 10, 10, 20, 30]);
    assert!(buckets.windows(2).all(|w| w[0] <= w[1]));
    assert_eq!(texts(&sorted, 0), strings(&["e", "b", "d", "c", "a"]));
    assert_eq!(counts(&sorted, 2), vec![5, 2, 4, 3, 1]);
}

#[test]
fn sort_downwards_keeps_equal_rows_in_their_order() {
    let t = table(&["a", "b", "c", "d"], &[10, 30, 10, 20], &[1, 2, 3, 4]);
    let sorted = sort_batch(&t, 1, false).unwrap();
    assert_eq!(numbers(&sorted, 1), vec![30, 20, 10, 10]);
    assert_eq!(texts(&sorted, 0), strings(&["b", "d", "a", "c"]));
}

#[test]
fn sort_by_text_and_by_count() {
    let t = table(&["pear", "apple", "fig", "apple", "pea"], &[1, 2, 3, 4, 5], &[9, 7, 8, 7, 0]);
    let by_text = sort_batch(&t, 0, true).unwrap();
    assert_eq!(texts(&by_text, 0), strings(&["apple", "apple", "fig", "pea", "pear"]));
    assert_eq!(numbers(&by_text, 1), vec![2, 4, 3, 5, 1]);
    let by_count = sort_batch(&t, 2, true).unwrap();
    assert_eq!(counts(&by_count, 2), vec![0, 7, 7, 8, 9]);
    assert_eq!(numbers(&by_count, 1), vec![5, 2, 4, 3, 1]);
    assert_eq!(sort_batch(&t, 3, true).err(), Some(EngineError::InvalidParameter));
}

#[test]
fn sort_of_an_empty_table_is_empty() {
    let t = table(&[], &[], &[]);
    assert_eq!(sort_batch(&t, 1, true).unwrap().num_rows(), 0);
}

#[test]
fn unique_holds_each_operator_once() {
    let t = table(&["join", "scan", "join", "sort", "scan"], &[1, 2, 3, 4, 5], &[1, 1, 1, 1, 1]);
    let unique = find_unique_string(&t, 0).unwrap();
    assert_eq!(unique.num_columns(), 1);
    assert_eq!(unique.field(0).name, "operator");
    let mut found = texts(&unique, 0);
    assert_eq!(found, strings(&["join", "scan", "sort"]));
    found.sort();
    let mut expected = strings(&["sort", "join", "scan"]);
    expected.sort();
    assert_eq!(found, expected);
    let counted = count_unique_string(&t, 0).unwrap();
    assert_eq!(texts(&counted, 0), strings(&["join", "scan", "sort"]));
    assert_eq!(find_unique_string(&t, 1).err(), Some(EngineError::ColumnTypeMismatch));
    assert_eq!(find_unique_string(&t, 5).err(), Some(EngineError::InvalidParameter));
}
