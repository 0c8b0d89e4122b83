use trace_engine::analyze_api::{
    execute_computations, execute_projections, execute_query, execute_selections,
    get_column_num, get_data_type, get_dict, init_projection, lookup_column, query,
    resolve_projection, run_statement, run_statements, Chart, Query, SelectShape,
};
use trace_engine::error::EngineError;
use trace_engine::state::State;
use trace_engine::utils::record_batch_util::{
    create_record_batch, init_schema, Column, DataType, Field, Table,
};
use trace_engine::web_file::streambuf::WebFileReader;

fn strings(values: &[&str]) -> Vec<String> {
    values.iter().map(|s| s.to_string()).collect()
}

fn fragment(rows: &[(&str, i64, &str)]) -> Table {
    let schema = vec![
        Field::new("operator", DataType::Utf8),
        Field::new("ev_name", DataType::Utf8),
        Field::new("time", DataType::Decimal),
        Field::new("pipeline", DataType::Utf8),
        Field::new("memory", DataType::Int64),
    ];
    let columns = vec![
        Column::Utf8(rows.iter().map(|r| r.0.to_string()).collect()),
        Column::Utf8(rows.iter().map(|_| "cycles".to_string()).collect()),
        Column::Decimal(rows.iter().map(|r| r.1).collect()),
        Column::Utf8(rows.iter().map(|r| r.2.to_string()).collect()),
        Column::Int64(rows.iter().map(|_| 300_000_000).collect()),
    ];
    create_record_batch(schema, columns).unwrap()
}

fn texts(table: &Table, index: usize) -> Vec<String> {
    match table.column(index) {
        Column::Utf8(v) => v.clone(),
        _ => panic!("column {} holds no text", index),
    }
}

fn numbers(table: &Table, index: usize) -> Vec<i64> {
    match table.column(index) {
        Column::Decimal(v) => v.clone(),
        Column::Int64(v) => v.clone(),
        _ => panic!("column {} holds no numbers", index),
    }
}

fn counts(table: &Table, index: usize) -> Vec<u64> {
    match table.column(index) {
        Column::UInt64(v) => v.clone(),
        _ => panic!("column {} holds no counts", index),
    }
}

fn absolute(bucket_size: i64, to: i64) -> Query {
    Query {
        chart: Chart::AbsoluteFrequency,
        operator_column: 0,
        time_column: 2,
        bucket_size,
        pipelines: vec![],
        operators: vec![],
        from: 0,
        to,
    }
}

fn loaded() -> State {
    let mut state = State::new();
    state
        .analyze_file(vec![
            fragment(&[("A", 20, "p1"), ("B", 50, "p1")]),
            fragment(&[("A", 110, "p2")]),
        ])
        .unwrap();
    state
}

#[test]
fn repeated_query_returns_the_stored_answer() {
    let mut state = loaded();
    let key = "abs/1.0/0/2".to_string();
    assert!(state.get_query_from_cache(&key).is_none());
    let first = state.request_chart_data(&key, &absolute(100, 200)).unwrap();
    assert_eq!(counts(&first, 2), vec![1, 1, 1, 0]);
    assert!(state.get_query_from_cache(&key).is_some());
    // The same text with another request: the answer comes from the store,
    // nothing is computed.
    let second = state.request_chart_data(&key, &absolute(50, 200)).unwrap();
    assert_eq!(numbers(&second, 0), numbers(&first, 0));
    assert_eq!(texts(&second, 1), texts(&first, 1));
    assert_eq!(counts(&second, 2), counts(&first, 2));
    let third = state.request_chart_data(&key, &absolute(100, 200)).unwrap();
    assert_eq!(counts(&third, 2), counts(&first, 2));
}

#[test]
fn load_forgets_stored_answers() {
    let mut state = loaded();
    let key = "abs".to_string();
    state.request_chart_data(&key, &absolute(100, 200)).unwrap();
    state.analyze_file(vec![fragment(&[("C", 10, "p")])]).unwrap();
    assert!(state.get_query_from_cache(&key).is_none());
    let again = state.request_chart_data(&key, &absolute(100, 200)).unwrap();
    assert_eq!(texts(&again, 1), strings(&["C", "C"]));
    assert_eq!(counts(&again, 2), vec![1, 0]);
}

#[test]
fn failed_load_and_failed_query_leave_the_session() {
    let mut state = loaded();
    let key = "abs".to_string();
    state.request_chart_data(&key, &absolute(100, 200)).unwrap();
    assert_eq!(state.analyze_file(vec![]), Err(EngineError::SchemaMismatch));
    assert!(state.get_query_from_cache(&key).is_some());
    assert_eq!(state.get_record_batches().unwrap().num_rows(), 3);
    let bad = "bad".to_string();
    assert_eq!(
        state.request_chart_data(&bad, &absolute(0, 200)).err(),
        Some(EngineError::InvalidBucketSize)
    );
    assert!(state.get_query_from_cache(&bad).is_none());
}

#[test]
fn query_before_any_load_is_refused() {
    let mut state = State::new();
    assert!(state.get_record_batches().is_none());
    let made = state.request_chart_data(&"abs".to_string(), &absolute(100, 200));
    assert_eq!(made.err(), Some(EngineError::InvalidParameter));
}

#[test]
fn cache_holds_one_answer_per_key() {
    let mut state = State::new();
    let key = "k".to_string();
    state.insert_query_to_cache(&key, fragment(&[("A", 1, "p")]));
    state.insert_query_to_cache(&"other".to_string(), fragment(&[("B", 2, "p")]));
    state.insert_query_to_cache(&key, fragment(&[("C", 3, "p")]));
    assert_eq!(texts(&state.get_query_from_cache(&key).unwrap(), 0), strings(&["C"]));
    assert_eq!(texts(&state.get_query_from_cache(&"other".to_string()).unwrap(), 0), strings(&["B"]));
    state.clear_cache();
    assert!(state.get_query_from_cache(&key).is_none());
    state.set_record_batches(fragment(&[("D", 4, "p")]));
    assert_eq!(state.get_record_batches().unwrap().num_rows(), 1);
    state.set_webfile_reader(WebFileReader::new_from_file(7, 9));
    assert_eq!(state.get_webfile_reader().offset, 7);
    assert_eq!(state.get_webfile_reader().length, 9);
}

#[test]
fn every_chart_can_be_asked_for() {
    let mut state = loaded();
    let mut q = absolute(100, 200);
    q.chart = Chart::RelativeFrequency;
    let rel = state.request_chart_data(&"rel".to_string(), &q).unwrap();
    assert_eq!(numbers(&rel, 2), vec![50, 50, 100, 0]);
    q.chart = Chart::SparseFrequency;
    let sparse = state.request_chart_data(&"sparse".to_string(), &q).unwrap();
    assert_eq!(counts(&sparse, 2), vec![1, 1, 1]);
    q.chart = Chart::Memory;
    let memory = state.request_chart_data(&"mem".to_string(), &q).unwrap();
    assert_eq!(numbers(&memory, 2), vec![3, 3, 3]);
    assert_eq!(counts(&memory, 3), vec![1, 1, 1]);
}

#[test]
fn dictionary_names_the_projected_columns() {
    let dict = get_dict();
    let schema = init_schema();
    let projection = init_projection();
    assert_eq!(schema.len(), 24);
    assert_eq!(projection, vec![0, 5, 13, 20]);
    assert_eq!(dict.len(), 4);
    for (number, column) in projection.iter().enumerate() {
        let field = &schema[*column];
        assert_eq!(get_column_num(&field.name), number);
        assert_eq!(get_data_type(&field.name), field.data_type);
        assert_eq!(dict[number].0, field.name);
        assert_eq!(dict[number].1, (number, field.data_type));
    }
    assert_eq!(get_column_num("time"), 2);
    assert_eq!(get_data_type("time"), DataType::Decimal);
    assert_eq!(lookup_column("memory"), None);
    assert_eq!(lookup_column("pipeline"), Some((3, DataType::Utf8)));
}

#[test]
fn projection_resolves_identifiers_of_known_columns() {
    let names = vec![Some("time".to_string()), Some("operator".to_string())];
    assert_eq!(resolve_projection(&names), Ok(vec![2, 0]));
    let names = vec![Some("time".to_string()), None];
    assert_eq!(resolve_projection(&names), Err(EngineError::UnsupportedQuery));
    let names = vec![Some("nothing".to_string())];
    assert_eq!(resolve_projection(&names), Err(EngineError::UnsupportedQuery));
    assert_eq!(resolve_projection(&vec![]), Ok(vec![]));
}

#[test]
fn projection_takes_named_columns_of_all_fragments() {
    let batches = vec![fragment(&[("A", 20, "p1")]), fragment(&[("B", 50, "p2")])];
    let names = vec![Some("pipeline".to_string()), Some("time".to_string())];
    let table = execute_projections(batches, &names).unwrap();
    assert_eq!(texts(&table, 0), strings(&["p1", "p2"]));
    assert_eq!(numbers(&table, 1), vec![20, 50]);
    assert_eq!(execute_projections(vec![], &names).err(), Some(EngineError::SchemaMismatch));
    let batches = vec![fragment(&[("A", 20, "p1")])];
    assert_eq!(execute_projections(batches, &vec![]).err(), Some(EngineError::SchemaMismatch));
    let batches = vec![fragment(&[("A", 20, "p1")])];
    let unknown = vec![Some("time".to_string()), Some("memory".to_string())];
    assert_eq!(
        execute_projections(batches, &unknown).err(),
        Some(EngineError::UnsupportedQuery)
    );
    let batches = vec![fragment(&[("A", 20, "p1")])];
    assert_eq!(
        execute_projections(batches, &vec![None]).err(),
        Some(EngineError::UnsupportedQuery)
    );
}

#[test]
fn statement_is_refused_before_anything_is_computed() {
    let names = vec![Some("operator".to_string())];
    let batches = vec![fragment(&[("A", 20, "p1")])];
    let table = execute_query(batches, &names, None).unwrap();
    assert_eq!(texts(&table, 0), strings(&["A"]));
    let batches = vec![fragment(&[("A", 20, "p1")])];
    let table = execute_query(batches, &names, Some(true)).unwrap();
    assert_eq!(texts(&table, 0), strings(&["A"]));
    let batches = vec![fragment(&[("A", 20, "p1")])];
    assert_eq!(
        execute_query(batches, &names, Some(false)).err(),
        Some(EngineError::UnsupportedQuery)
    );
    // An unsupported selection is refused even where the projection has an error of its own.
    assert_eq!(execute_query(vec![], &names, Some(false)).err(), Some(EngineError::UnsupportedQuery));
    assert_eq!(execute_query(vec![], &names, Some(true)).err(), Some(EngineError::SchemaMismatch));
    execute_computations();
}

#[test]
fn sql_selects_columns() {
    let batches = vec![fragment(&[("A", 20, "p1"), ("B", 50, "p2")])];
    let tables = query(&batches, "SELECT operator, time FROM trace").unwrap();
    assert_eq!(tables.len(), 1);
    assert_eq!(tables[0].num_columns(), 2);
    assert_eq!(texts(&tables[0], 0), strings(&["A", "B"]));
    assert_eq!(numbers(&tables[0], 1), vec![20, 50]);
    let tables = query(&batches, "SELECT time FROM trace WHERE time > 3; SELECT pipeline FROM trace").unwrap();
    assert_eq!(tables.len(), 2);
    assert_eq!(numbers(&tables[0], 0), vec![20, 50]);
    assert_eq!(texts(&tables[1], 0), strings(&["p1", "p2"]));
    assert_eq!(query(&batches, "").unwrap().len(), 0);
}

#[test]
fn sql_of_another_shape_is_unsupported() {
    let batches = vec![fragment(&[("A", 20, "p1")])];
    for sql in [
        "SELECT * FROM trace",
        "SELECT time AS t FROM trace",
        "SELECT time + 1 FROM trace",
        "SELECT nothing FROM trace",
        "SELECT time FROM trace WHERE operator",
        "DELETE FROM trace",
        "SELECT time FROM trace UNION SELECT time FROM trace",
        "SELECT (",
        "not a statement",
        "SELECT operator FROM trace; DROP TABLE trace",
    ] {
        assert_eq!(query(&batches, sql).err(), Some(EngineError::UnsupportedQuery), "{}", sql);
    }
}

#[test]
fn selection_shapes() {
    assert_eq!(execute_selections(None), Ok(()));
    assert_eq!(execute_selections(Some(true)), Ok(()));
    assert_eq!(execute_selections(Some(false)), Err(EngineError::UnsupportedQuery));
}

#[test]
fn stored_answer_is_returned_without_computing_again() {
    let mut state = loaded();
    let key = "chart".to_string();
    let mut passes = 0;
    let first = state.get_or_compute(&key, || {
        passes += 1;
        fragment(&[("A", 1, "p")])
    });
    let second = state.get_or_compute(&key, || {
        passes += 1;
        fragment(&[("B", 2, "p")])
    });
    assert_eq!(passes, 1);
    assert_eq!(texts(&first, 0), strings(&["A"]));
    assert_eq!(texts(&second, 0), texts(&first, 0));
    assert_eq!(numbers(&second, 2), numbers(&first, 2));
    state.analyze_file(vec![fragment(&[("C", 3, "p")])]).unwrap();
    let third = state.get_or_compute(&key, || {
        passes += 1;
        fragment(&[("D", 4, "p")])
    });
    assert_eq!(passes, 2);
    assert_eq!(texts(&third, 0), strings(&["D"]));
}

#[test]
fn chart_codes() {
    assert_eq!(Chart::from_code(0), Some(Chart::AbsoluteFrequency));
    assert_eq!(Chart::from_code(1), Some(Chart::RelativeFrequency));
    assert_eq!(Chart::from_code(2), Some(Chart::SparseFrequency));
    assert_eq!(Chart::from_code(3), Some(Chart::Memory));
    assert_eq!(Chart::from_code(4), None);
    assert_eq!(Chart::from_code(255), None);
}

fn shape(names: &[Option<&str>], selection: Option<bool>) -> Option<SelectShape> {
    Some(SelectShape {
        projection: names.iter().map(|n| n.map(|n| n.to_string())).collect(),
        selection,
    })
}

#[test]
fn statement_of_a_shape_gives_its_projection() {
    let batches = vec![fragment(&[("A", 20, "p1")]), fragment(&[("B", 50, "p2")])];
    let table = run_statement(&batches, &shape(&[Some("time"), Some("operator")], None)).unwrap();
    assert_eq!(numbers(&table, 0), vec![20, 50]);
    assert_eq!(texts(&table, 1), strings(&["A", "B"]));
    let table = run_statement(&batches, &shape(&[Some("pipeline")], Some(true))).unwrap();
    assert_eq!(texts(&table, 0), strings(&["p1", "p2"]));
    let made = run_statement(&batches, &shape(&[Some("pipeline")], Some(false)));
    assert_eq!(made.err(), Some(EngineError::UnsupportedQuery));
    let made = run_statement(&batches, &shape(&[Some("time"), None], None));
    assert_eq!(made.err(), Some(EngineError::UnsupportedQuery));
    let made = run_statement(&batches, &shape(&[Some("memory")], None));
    assert_eq!(made.err(), Some(EngineError::UnsupportedQuery));
    let made = run_statement(&batches, &shape(&[], None));
    assert_eq!(made.err(), Some(EngineError::SchemaMismatch));
    assert_eq!(run_statement(&batches, &None).err(), Some(EngineError::UnsupportedQuery));
    let made = run_statement(&vec![], &shape(&[Some("time")], None));
    assert_eq!(made.err(), Some(EngineError::SchemaMismatch));
}

#[test]
fn statements_give_one_result_each_or_the_first_error() {
    let batches = vec![fragment(&[("A", 20, "p1"), ("B", 50, "p2")])];
    let tables = run_statements(
        &batches,
        &vec![shape(&[Some("time")], None), shape(&[Some("operator"), Some("time")], Some(true))],
    )
    .unwrap();
    assert_eq!(tables.len(), 2);
    assert_eq!(numbers(&tables[0], 0), vec![20, 50]);
    assert_eq!(texts(&tables[1], 0), strings(&["A", "B"]));
    assert_eq!(tables[1].num_columns(), 2);
    assert_eq!(run_statements(&batches, &vec![]).unwrap().len(), 0);
    let made = run_statements(
        &batches,
        &vec![shape(&[Some("time")], None), shape(&[], None), None],
    );
    assert_eq!(made.err(), Some(EngineError::SchemaMismatch));
    let made = run_statements(
        &batches,
        &vec![shape(&[Some("time")], None), None, shape(&[], None)],
    );
    assert_eq!(made.err(), Some(EngineError::UnsupportedQuery));
}

#[test]
fn sql_text_is_read_statement_by_statement() {
    let batches = vec![fragment(&[("A", 20, "p1"), ("B", 50, "p2")])];
    // What the parser reads decides: the same statements as shapes give the same results.
    let from_text = query(&batches, "SELECT pipeline, time FROM trace WHERE time = 20; SELECT operator FROM trace").unwrap();
    let from_shapes = run_statements(
        &batches,
        &vec![shape(&[Some("pipeline"), Some("time")], Some(true)), shape(&[Some("operator")], None)],
    )
    .unwrap();
    assert_eq!(from_text.len(), from_shapes.len());
    assert_eq!(texts(&from_text[0], 0), texts(&from_shapes[0], 0));
    assert_eq!(numbers(&from_text[0], 1), numbers(&from_shapes[0], 1));
    assert_eq!(texts(&from_text[1], 0), texts(&from_shapes[1], 0));
    // An empty projection parses and is refused by the table, not by the parser.
    assert_eq!(query(&batches, "SELECT FROM trace").err(), Some(EngineError::SchemaMismatch));
    // The first error wins, in the order of the text.
    assert_eq!(
        query(&batches, "SELECT FROM trace; DROP TABLE trace").err(),
        Some(EngineError::SchemaMismatch)
    );
    assert_eq!(
        query(&batches, "DROP TABLE trace; SELECT FROM trace").err(),
        Some(EngineError::UnsupportedQuery)
    );
}
