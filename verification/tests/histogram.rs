use trace_engine::error::EngineError;
use trace_engine::exec::freq::freq::{
    current_op_in, current_pipe_in, freq_of_memory, freq_of_pipelines, freq_of_pipelines_new,
    init_time_bucket, Freq,
};
use trace_engine::exec::freq::rel_freq::rel_freq_with_pipelines;
use trace_engine::utils::record_batch_util::{create_record_batch, Column, DataType, Field, Table};

fn strings(values: &[&str]) -> Vec<String> {
    values.iter().map(|s| s.to_string()).collect()
}

fn events(rows: &[(&str, i64, &str, i64)]) -> Table {
    let schema = vec![
        Field::new("operator", DataType::Utf8),
        Field::new("ev_name", DataType::Utf8),
        Field::new("time", DataType::Decimal),
        Field::new("pipeline", DataType::Utf8),
        Field::new("memory", DataType::Int64),
    ];
    let columns = vec![
        Column::Utf8(rows.iter().map(|r| r.0.to_string()).collect()),
        Column::Utf8(rows.iter().map(|_| "cycles".to_string()).collect()),
        Column::Decimal(rows.iter().map(|r| r.1).collect()),
        Column::Utf8(rows.iter().map(|r| r.2.to_string()).collect()),
        Column::Int64(rows.iter().map(|r| r.3).collect()),
    ];
    create_record_batch(schema, columns).unwrap()
}

fn text_column(table: &Table, index: usize) -> Vec<String> {
    match table.column(index) {
        Column::Utf8(v) => v.clone(),
        _ => panic!("column {} holds no text", index),
    }
}

fn number_column(table: &Table, index: usize) -> Vec<i64> {
    match table.column(index) {
        Column::Decimal(v) => v.clone(),
        Column::Int64(v) => v.clone(),
        _ => panic!("column {} holds no numbers", index),
    }
}

fn count_column(table: &Table, index: usize) -> Vec<u64> {
    match table.column(index) {
        Column::UInt64(v) => v.clone(),
        _ => panic!("column {} holds no counts", index),
    }
}

fn sample() -> Table {
    events(&[("A", 20, "p1", 0), ("B", 50, "p1", 0), ("A", 110, "p2", 0)])
}

#[test]
fn dense_absolute_histogram_of_three_events() {
    let table = freq_of_pipelines(&sample(), Freq::ABS, 0, 2, 100, vec![], vec![], 0, 200).unwrap();
    assert_eq!(number_column(&table, 0), vec![0, 0, 100, 100]);
    assert_eq!(text_column(&table, 1), strings(&["A", "B", "A", "B"]));
    assert_eq!(count_column(&table, 2), vec![1, 1, 1, 0]);
    assert_eq!(table.field(0).name, "bucket");
    assert_eq!(table.field(1).name, "operator");
    assert_eq!(table.field(2).name, "absfreq");
    assert_eq!(table.field(2).data_type, DataType::UInt64);
}

#[test]
fn dense_relative_histogram_of_three_events() {
    let table =
        rel_freq_with_pipelines(&sample(), 0, 2, 100, vec![], vec![], 0, 200).unwrap();
    assert_eq!(number_column(&table, 0), vec![0, 0, 100, 100]);
    assert_eq!(text_column(&table, 1), strings(&["A", "B", "A", "B"]));
    assert_eq!(number_column(&table, 2), vec![50, 50, 100, 0]);
    assert_eq!(table.field(2).name, "relfreq");
    assert_eq!(table.field(2).data_type, DataType::Decimal);
}

#[test]
fn relative_fractions_of_a_bucket_sum_to_one_within_a_hundredth_per_operator() {
    let table = events(&[
        ("A", 10, "p", 0),
        ("B", 20, "p", 0),
        ("C", 30, "p", 0),
        ("A", 250, "p", 0),
    ]);
    let out = freq_of_pipelines(&table, Freq::REL, 0, 2, 100, vec![], vec![], 0, 300).unwrap();
    let values = number_column(&out, 2);
    assert_eq!(values, vec![33, 33, 33, 0, 0, 0, 100, 0, 0]);
    let first: i64 = values[0..3].iter().sum();
    assert!(first > 100 - 3 && first <= 100);
}

#[test]
fn empty_bucket_reports_zero_for_every_operator() {
    let table = events(&[("A", 10, "p", 0), ("B", 250, "p", 0)]);
    let out = freq_of_pipelines(&table, Freq::REL, 0, 2, 100, vec![], vec![], 0, 300).unwrap();
    assert_eq!(number_column(&out, 2), vec![100, 0, 0, 0, 0, 100]);
}

#[test]
fn allow_lists_exclude_rows_from_counts_and_totals() {
    let table = events(&[("A", 10, "p1", 0), ("B", 20, "p2", 0), ("A", 30, "p2", 0)]);
    let abs = freq_of_pipelines(
        &table,
        Freq::ABS,
        0,
        2,
        100,
        strings(&["p2"]),
        strings(&["All"]),
        0,
        100,
    )
    .unwrap();
    assert_eq!(count_column(&abs, 2), vec![1, 1]);
    let rel = freq_of_pipelines(
        &table,
        Freq::REL,
        0,
        2,
        100,
        strings(&["All"]),
        strings(&["A"]),
        0,
        100,
    )
    .unwrap();
    assert_eq!(number_column(&rel, 2), vec![100, 0]);
}

#[test]
fn partial_trailing_bucket_is_part_of_the_grid() {
    let table = events(&[("A", 10, "p", 0), ("A", 240, "p", 0), ("A", 260, "p", 0)]);
    let out = freq_of_pipelines(&table, Freq::ABS, 0, 2, 100, vec![], vec![], 0, 250).unwrap();
    assert_eq!(number_column(&out, 0), vec![0, 100, 200]);
    assert_eq!(count_column(&out, 2), vec![1, 0, 1]);
}

#[test]
fn open_window_starts_at_zero() {
    assert_eq!(init_time_bucket(-100), 0);
    assert_eq!(init_time_bucket(250), 200);
    assert_eq!(init_time_bucket(-250), -200);
    assert_eq!(init_time_bucket(0), 0);
    assert_eq!(init_time_bucket(99), 0);
    assert_eq!(init_time_bucket(i64::MIN), -9223372036854775800);
}

#[test]
fn sparse_histogram_keeps_the_counted_pairs() {
    let table =
        freq_of_pipelines_new(&sample(), Freq::ABS, 0, 2, 100, vec![], vec![], 0, 200).unwrap();
    assert_eq!(number_column(&table, 0), vec![0, 0, 100]);
    assert_eq!(text_column(&table, 1), strings(&["A", "B", "A"]));
    assert_eq!(count_column(&table, 2), vec![1, 1, 1]);
}

#[test]
fn bucket_size_must_be_positive() {
    let made = freq_of_pipelines(&sample(), Freq::ABS, 0, 2, 0, vec![], vec![], 0, 200);
    assert_eq!(made.err(), Some(EngineError::InvalidBucketSize));
    let made = freq_of_pipelines(&sample(), Freq::ABS, 0, 2, -5, vec![], vec![], 0, 200);
    assert_eq!(made.err(), Some(EngineError::InvalidBucketSize));
}

#[test]
fn columns_must_be_of_the_expected_kind() {
    let made = freq_of_pipelines(&sample(), Freq::ABS, 2, 2, 100, vec![], vec![], 0, 200);
    assert_eq!(made.err(), Some(EngineError::ColumnTypeMismatch));
    let made = freq_of_pipelines(&sample(), Freq::ABS, 0, 1, 100, vec![], vec![], 0, 200);
    assert_eq!(made.err(), Some(EngineError::ColumnTypeMismatch));
    let made = freq_of_pipelines(&sample(), Freq::ABS, 0, 9, 100, vec![], vec![], 0, 200);
    assert_eq!(made.err(), Some(EngineError::InvalidParameter));
}

#[test]
fn window_must_not_end_before_it_starts() {
    let made = freq_of_pipelines(&sample(), Freq::ABS, 0, 2, 100, vec![], vec![], 300, 200);
    assert_eq!(made.err(), Some(EngineError::InvalidParameter));
    let empty = freq_of_pipelines(&sample(), Freq::ABS, 0, 2, 100, vec![], vec![], 200, 200).unwrap();
    assert_eq!(empty.num_rows(), 0);
}

#[test]
fn allow_list_rule() {
    let p = "p1".to_string();
    assert!(current_pipe_in(&p, &vec![]));
    assert!(current_pipe_in(&p, &strings(&["All"])));
    assert!(current_pipe_in(&p, &strings(&["p0", "p1"])));
    assert!(!current_pipe_in(&p, &strings(&["p0"])));
    assert!(!current_pipe_in(&p, &strings(&["All", "p0"])));
    assert!(current_op_in(&p, &vec![]));
    assert!(current_op_in(&p, &strings(&["All"])));
    assert!(current_op_in(&p, &strings(&["p1"])));
    assert!(!current_op_in(&p, &strings(&["join"])));
}

#[test]
fn memory_histogram_counts_classes_per_bucket_and_operator() {
    let table = events(&[
        ("A", 10, "p", 250_000_000),
        ("A", 20, "p", 210_000_000),
        ("B", 30, "p", 99_999_999),
        ("A", 40, "p", 700_000_000),
        ("A", 150, "p", 250_000_000),
    ]);
    let out = freq_of_memory(&table, 0, 2, 100, 0, 200).unwrap();
    assert_eq!(number_column(&out, 0), vec![0, 0, 0, 100]);
    assert_eq!(text_column(&out, 1), strings(&["A", "A", "B", "A"]));
    assert_eq!(number_column(&out, 2), vec![2, 7, 0, 2]);
    assert_eq!(count_column(&out, 3), vec![2, 1, 1, 1]);
    assert_eq!(out.field(2).name, "mem");
    assert_eq!(out.field(3).name, "freq");
}

#[test]
fn memory_histogram_needs_an_integer_memory_column() {
    let made = freq_of_memory(&sample(), 0, 2, 0, 0, 200);
    assert_eq!(made.err(), Some(EngineError::InvalidBucketSize));
    let schema = vec![Field::new("operator", DataType::Utf8), Field::new("time", DataType::Decimal)];
    let columns = vec![Column::Utf8(strings(&["A"])), Column::Decimal(vec![1])];
    let narrow = create_record_batch(schema, columns).unwrap();
    let made = freq_of_memory(&narrow, 0, 1, 100, 0, 200);
    assert_eq!(made.err(), Some(EngineError::InvalidParameter));
}
