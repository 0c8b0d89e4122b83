use trace_engine::error::EngineError;
use trace_engine::exec::freq::freq::{
    create_freq_bucket, create_mem_bucket, get_floatarray_column, get_int_column,
    get_stringarray_column, init_bucket_map, percent, update, write_into, BucketMap, Freq,
};
use trace_engine::exec::freq::memory::{class_of, find_class, MemoryBucket, MemoryCell};
use trace_engine::utils::record_batch_util::{
    all_rows, create_record_batch, gather_text, gather_values, Column, DataType, Field, Table,
};
use trace_engine::utils::text::{contains_text, find_text, unique_text};

fn strings(values: &[&str]) -> Vec<String> {
    values.iter().map(|s| s.to_string()).collect()
}

fn source() -> Table {
    create_record_batch(
        vec![
            Field::new("operator", DataType::Utf8),
            Field::new("time", DataType::Decimal),
            Field::new("memory", DataType::Int64),
        ],
        vec![
            Column::Utf8(strings(&["join", "scan"])),
            Column::Decimal(vec![10, 20]),
            Column::Int64(vec![5, 6]),
        ],
    )
    .unwrap()
}

#[test]
fn error_names() {
    assert_eq!(EngineError::IoError.name(), "IOError");
    assert_eq!(EngineError::OutOfRange.name(), "OutOfRange");
    assert_eq!(EngineError::SchemaMismatch.name(), "SchemaMismatch");
    assert_eq!(EngineError::ColumnTypeMismatch.name(), "ColumnTypeMismatch");
    assert_eq!(EngineError::InvalidBucketSize.name(), "InvalidBucketSize");
    assert_eq!(EngineError::InvalidParameter.name(), "InvalidParameter");
    assert_eq!(EngineError::UnsupportedQuery.name(), "UnsupportedQuery");
}

#[test]
fn bucket_map_counts_allowed_events_of_known_operators() {
    let operators = strings(&["join", "scan"]);
    let mut map = init_bucket_map(&operators, &Freq::REL);
    assert_eq!(map.counts, vec![0, 0]);
    assert_eq!(map.total, 0);
    let all = strings(&["All"]);
    let p = "p1".to_string();
    update(&Freq::REL, &p, &all, &"scan".to_string(), &vec![], &operators, &mut map);
    update(&Freq::REL, &p, &all, &"scan".to_string(), &vec![], &operators, &mut map);
    update(&Freq::REL, &p, &all, &"join".to_string(), &vec![], &operators, &mut map);
    assert_eq!(map.counts, vec![1, 2]);
    assert_eq!(map.total, 3);
    // Excluded by the pipeline list, by the operator list, or unknown: nothing changes.
    update(&Freq::REL, &p, &strings(&["p2"]), &"scan".to_string(), &vec![], &operators, &mut map);
    update(&Freq::REL, &p, &all, &"scan".to_string(), &strings(&["join"]), &operators, &mut map);
    update(&Freq::REL, &p, &all, &"sort".to_string(), &vec![], &operators, &mut map);
    assert_eq!(map.counts, vec![1, 2]);
    assert_eq!(map.total, 3);
    let mut absolute = init_bucket_map(&operators, &Freq::ABS);
    update(&Freq::ABS, &p, &all, &"join".to_string(), &vec![], &operators, &mut absolute);
    assert_eq!(absolute.counts, vec![1, 0]);
    assert_eq!(absolute.total, 0);
}

#[test]
fn write_into_emits_one_row_per_operator_and_resets() {
    let operators = strings(&["join", "scan", "sort"]);
    let mut times = vec![7];
    let mut names = strings(&["x"]);
    let mut values = vec![9];
    let mut map = BucketMap { counts: vec![1, 2, 0], total: 3 };
    write_into(&operators, &mut times, &mut names, &mut values, &Freq::REL, &mut map, 300);
    assert_eq!(times, vec![7, 300, 300, 300]);
    assert_eq!(names, strings(&["x", "join", "scan", "sort"]));
    assert_eq!(values, vec![9, 33, 66, 0]);
    assert_eq!(map.counts, vec![0, 0, 0]);
    assert_eq!(map.total, 0);
    let mut map = BucketMap { counts: vec![4, 0, 1], total: 0 };
    write_into(&operators, &mut times, &mut names, &mut values, &Freq::ABS, &mut map, 400);
    assert_eq!(values, vec![9, 33, 66, 0, 4, 0, 1]);
    let mut empty = BucketMap { counts: vec![0, 0, 0], total: 0 };
    write_into(&operators, &mut times, &mut names, &mut values, &Freq::REL, &mut empty, 500);
    assert_eq!(values[7..], [0, 0, 0]);
}

#[test]
fn percent_cuts_off_after_two_decimals() {
    assert_eq!(percent(1, 3), 33);
    assert_eq!(percent(2, 3), 66);
    assert_eq!(percent(3, 3), 100);
    assert_eq!(percent(0, 3), 0);
    assert_eq!(percent(0, 0), 0);
    assert_eq!(percent(1, 200), 0);
    assert_eq!(percent(u64::MAX, u64::MAX), 100);
    assert_eq!(percent(u64::MAX - 1, u64::MAX), 99);
}

#[test]
fn frequency_table_checks_its_columns() {
    let made = create_freq_bucket(&source(), 0, vec![0, 0], strings(&["a", "b"]), vec![1, 2], Freq::ABS).unwrap();
    assert_eq!(made.field(1).name, "operator");
    assert_eq!(made.num_rows(), 2);
    let made = create_freq_bucket(&source(), 3, vec![0], strings(&["a"]), vec![1], Freq::ABS);
    assert_eq!(made.err(), Some(EngineError::InvalidParameter));
    let made = create_freq_bucket(&source(), 0, vec![0], strings(&["a", "b"]), vec![1], Freq::ABS);
    assert_eq!(made.err(), Some(EngineError::SchemaMismatch));
    let made = create_freq_bucket(&source(), 0, vec![0], strings(&["a"]), vec![101], Freq::REL);
    assert_eq!(made.err(), Some(EngineError::InvalidParameter));
    let made = create_freq_bucket(&source(), 0, vec![0], strings(&["a"]), vec![100], Freq::REL).unwrap();
    match made.column(2) {
        Column::Decimal(v) => assert_eq!(v, &vec![100]),
        _ => panic!("fractions are decimals"),
    }
}

#[test]
fn memory_table_checks_its_columns() {
    let made = create_mem_bucket(&source(), 0, vec![0], strings(&["a"]), vec![3], vec![2]).unwrap();
    assert_eq!(made.num_columns(), 4);
    assert_eq!(made.field(1).name, "operator");
    assert_eq!(made.field(2).data_type, DataType::Int64);
    assert_eq!(made.field(3).data_type, DataType::UInt64);
    let made = create_mem_bucket(&source(), 9, vec![0], strings(&["a"]), vec![3], vec![2]);
    assert_eq!(made.err(), Some(EngineError::InvalidParameter));
    let made = create_mem_bucket(&source(), 0, vec![0], strings(&["a"]), vec![3, 4], vec![2]);
    assert_eq!(made.err(), Some(EngineError::SchemaMismatch));
}

#[test]
fn typed_column_access() {
    let table = source();
    assert_eq!(get_stringarray_column(&table, 0).unwrap(), &strings(&["join", "scan"]));
    assert_eq!(get_floatarray_column(&table, 1).unwrap(), &vec![10, 20]);
    assert_eq!(get_int_column(&table, 2).unwrap(), &vec![5, 6]);
    assert_eq!(get_stringarray_column(&table, 1).err(), Some(EngineError::ColumnTypeMismatch));
    assert_eq!(get_floatarray_column(&table, 2).err(), Some(EngineError::ColumnTypeMismatch));
    assert_eq!(get_int_column(&table, 1).err(), Some(EngineError::ColumnTypeMismatch));
    assert_eq!(get_int_column(&table, 3).err(), Some(EngineError::InvalidParameter));
}

#[test]
fn memory_classes() {
    assert_eq!(class_of(0), 0);
    assert_eq!(class_of(99_999_999), 0);
    assert_eq!(class_of(100_000_000), 1);
    assert_eq!(class_of(250_000_000), 2);
    assert_eq!(class_of(-250_000_000), -2);
    assert_eq!(class_of(-1), 0);
    assert_eq!(class_of(i64::MIN), -92233720368);
}

#[test]
fn memory_cell_counts_classes_in_order_of_first_occurrence() {
    let mut cell = MemoryCell::new();
    for class in [4, 2, 4, 7, 2, 4] {
        cell.record(class);
    }
    assert_eq!(cell.classes, vec![4, 2, 7]);
    assert_eq!(cell.counts, vec![3, 2, 1]);
    assert_eq!(find_class(&cell.classes, 7), 2);
    assert_eq!(find_class(&cell.classes, 9), 3);
    let mut bucket = MemoryBucket::new(2);
    bucket.record(1, 5);
    bucket.record(1, 5);
    assert!(bucket.cells[0].classes.is_empty());
    assert_eq!(bucket.cells[1].counts, vec![2]);
}

#[test]
fn text_helpers() {
    let list = strings(&["b", "a", "b", "c", "a"]);
    assert_eq!(find_text(&list, &"a".to_string()), 1);
    assert_eq!(find_text(&list, &"z".to_string()), 5);
    assert!(contains_text(&list, &"c".to_string()));
    assert!(!contains_text(&list, &"".to_string()));
    assert_eq!(unique_text(&list), strings(&["b", "a", "c"]));
    assert_eq!(unique_text(&vec![]), Vec::<String>::new());
}

#[test]
fn gathering_rows() {
    assert_eq!(all_rows(3), vec![0, 1, 2]);
    assert_eq!(gather_values(&vec![10u64, 20, 30], &vec![2, 0, 2]), vec![30, 10, 30]);
    assert_eq!(gather_text(&strings(&["x", "y"]), &vec![1, 1, 0]), strings(&["y", "y", "x"]));
    let table = source();
    let picked = table.take_rows(&vec![1, 1]);
    assert_eq!(picked.column(0).len(), 2);
    assert_eq!(picked.column(0).data_type(), DataType::Utf8);
    let copy = table.copy();
    assert_eq!(copy.num_rows(), 2);
    assert_eq!(copy.schema().len(), 3);
    assert_eq!(copy.columns().len(), 3);
    match copy.column(1).copy() {
        Column::Decimal(v) => assert_eq!(v, vec![10, 20]),
        _ => panic!("a decimal column was expected"),
    }
    assert!(copy.field(0).same(&table.field(0).copy()));
    assert!(!copy.field(0).same(table.field(1)));
}
