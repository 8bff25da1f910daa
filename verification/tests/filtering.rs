use sdk::manipulation::{any_filter, filter, resolve, row_matches, Command, FilterError, Subcommand};
use sdk::reader::CsvMetadata;

fn metadata(file: &str, has_header: bool) -> CsvMetadata {
    CsvMetadata {
        file: file.to_string(),
        delimiter: ',',
        has_header,
        column_types: vec!["string".to_string()],
    }
}

fn command(columns: Vec<&str>, queries: Vec<&str>, meta: CsvMetadata) -> Command {
    Command {
        query: queries.iter().map(|q| q.to_string()).collect(),
        column: columns.iter().map(|c| c.to_string()).collect(),
        output_path: None,
        subcommand: Subcommand::Filter(meta),
    }
}

fn lines(raw: Vec<&str>) -> Vec<String> {
    raw.iter().map(|l| l.to_string()).collect()
}

#[test]
fn test_filtering() {
    let csv_handler = metadata("test/example/data.csv", true);
    let filter_command = Command {
        query: vec!["1".to_string()],
        column: vec!["key".to_string()],
        output_path: None,
        subcommand: Subcommand::Filter(csv_handler.clone()),
    };
    let data = lines(vec!["key,val", "1,x", "2,y"]);
    let writer = filter(&data, &filter_command, &csv_handler);
    assert!(writer.is_ok());
}

#[test]
fn test_glob_reader_filtering() {
    let csv_handler = metadata("test/*/*.csv", true);
    let filter_command = Command {
        query: vec!["1".to_string()],
        column: vec!["key".to_string()],
        output_path: None,
        subcommand: Subcommand::Filter(csv_handler.clone()),
    };
    let files = vec![lines(vec!["key,val", "1,x"]), lines(vec!["key,val", "2,y"])];
    let stream = sdk::reader::glob_concat(&files);
    let writer = filter(&stream, &filter_command, &csv_handler);
    assert!(writer.is_ok());
}

#[test]
fn filter_returns_header_then_matches() {
    let meta = metadata("data.csv", true);
    let cmd = command(vec!["key"], vec!["1"], meta.clone());
    let data = lines(vec!["key,val", "1,a", "2,b", "1,c"]);
    let rows = filter(&data, &cmd, &meta).unwrap();
    assert_eq!(
        rows,
        vec![
            vec!["key,val".to_string()],
            vec!["1,a".to_string()],
            vec!["1,c".to_string()],
        ]
    );
}

#[test]
fn filter_count_matches_exactly() {
    let meta = metadata("data.csv", true);
    let cmd = command(vec!["val"], vec!["x"], meta.clone());
    let data = lines(vec!["key,val", "1,x", "2,y", "3,x", "4,x", "5,z"]);
    let rows = filter(&data, &cmd, &meta).unwrap();
    // the header plus the three rows whose val field is x, byte-identical
    assert_eq!(rows.len(), 4);
    assert_eq!(rows[0], vec!["key,val".to_string()]);
    assert_eq!(rows[1], vec!["1,x".to_string()]);
    assert_eq!(rows[2], vec!["3,x".to_string()]);
    assert_eq!(rows[3], vec!["4,x".to_string()]);
}

#[test]
fn filter_multi_column_is_logical_and() {
    let meta = metadata("data.csv", true);
    let data = lines(vec!["a,b", "1,2", "1,3", "9,2"]);

    let both = command(vec!["a", "b"], vec!["1", "2"], meta.clone());
    let rows = filter(&data, &both, &meta).unwrap();
    assert_eq!(rows, vec![vec!["a,b".to_string()], vec!["1,2".to_string()]]);

    // changing either query value to one that does not match drops the row
    let first_off = command(vec!["a", "b"], vec!["7", "2"], meta.clone());
    let rows = filter(&data, &first_off, &meta).unwrap();
    assert_eq!(rows, vec![vec!["a,b".to_string()]]);

    let second_off = command(vec!["a", "b"], vec!["1", "7"], meta.clone());
    let rows = filter(&data, &second_off, &meta).unwrap();
    assert_eq!(rows, vec![vec!["a,b".to_string()]]);
}

#[test]
fn filter_trims_fields_before_comparing() {
    let meta = metadata("data.csv", true);
    let cmd = command(vec!["key"], vec!["1"], meta.clone());
    let data = lines(vec![" key , val", " 1 ,a", "  2,b"]);
    let rows = filter(&data, &cmd, &meta).unwrap();
    assert_eq!(rows, vec![vec![" key , val".to_string()], vec![" 1 ,a".to_string()]]);
}

#[test]
fn filter_missing_column_fails_with_name() {
    let meta = metadata("data.csv", true);
    let cmd = command(vec!["nope"], vec!["1"], meta.clone());
    let data = lines(vec!["key,val", "1,x"]);
    match filter(&data, &cmd, &meta) {
        Err(FilterError::ColumnNotFound(name)) => assert_eq!(name, "nope"),
        other => panic!("expected ColumnNotFound, got {:?}", other),
    }
}

#[test]
fn filter_first_missing_column_is_reported() {
    let meta = metadata("data.csv", true);
    let cmd = command(vec!["key", "gone", "alsogone"], vec!["1", "2", "3"], meta.clone());
    let data = lines(vec!["key,val", "1,x"]);
    match filter(&data, &cmd, &meta) {
        Err(FilterError::ColumnNotFound(name)) => assert_eq!(name, "gone"),
        other => panic!("expected ColumnNotFound, got {:?}", other),
    }
}

#[test]
fn filter_short_row_fails_with_shape_error() {
    let meta = metadata("data.csv", true);
    let cmd = command(vec!["c"], vec!["1"], meta.clone());
    let data = lines(vec!["a,b,c", "1"]);
    match filter(&data, &cmd, &meta) {
        Err(FilterError::RowShapeError) => {}
        other => panic!("expected RowShapeError, got {:?}", other),
    }
}

#[test]
fn filter_without_header_keeps_every_line() {
    let meta = metadata("data.csv", false);
    let cmd = command(vec!["key"], vec!["1"], meta.clone());
    let data = lines(vec!["1,x", "2,y"]);
    let rows = filter(&data, &cmd, &meta).unwrap();
    assert_eq!(rows, vec![vec!["1,x".to_string()], vec!["2,y".to_string()]]);
}

#[test]
fn filter_empty_input_yields_empty_accumulator() {
    let meta = metadata("data.csv", true);
    let cmd = command(vec!["key"], vec!["1"], meta.clone());
    let data: Vec<String> = Vec::new();
    let rows = filter(&data, &cmd, &meta).unwrap();
    assert!(rows.is_empty());
}

#[test]
fn filter_twice_gives_identical_rows() {
    let meta = metadata("data.csv", true);
    let cmd = command(vec!["key"], vec!["1"], meta.clone());
    let data = lines(vec!["key,val", "1,a", "2,b", "1,c"]);
    let first = filter(&data, &cmd, &meta).unwrap();
    let second = filter(&data, &cmd, &meta).unwrap();
    assert_eq!(first, second);
}

#[test]
fn resolve_finds_positions_in_request_order() {
    let header = "key, val ,id".to_string();
    let names = vec!["val".to_string(), "key".to_string()];
    let positions = resolve(&header, &names, ',').unwrap();
    assert_eq!(positions, vec![1, 0]);
}

#[test]
fn resolve_first_occurrence_wins_on_duplicates() {
    let header = "key,key,val".to_string();
    let names = vec!["key".to_string()];
    let positions = resolve(&header, &names, ',').unwrap();
    assert_eq!(positions, vec![0]);
}

#[test]
fn resolve_missing_name_fails() {
    let header = "key,val".to_string();
    let names = vec!["key".to_string(), "other".to_string()];
    match resolve(&header, &names, ',') {
        Err(FilterError::ColumnNotFound(name)) => assert_eq!(name, "other"),
        other => panic!("expected ColumnNotFound, got {:?}", other),
    }
}

#[test]
fn row_matches_checks_each_pair() {
    let fields: Vec<String> = lines(vec!["1", " 2 ", "3"]);
    let indices: Vec<usize> = vec![0, 1];
    let queries = lines(vec!["1", "2"]);
    assert_eq!(row_matches(&fields, &indices, &queries).unwrap(), true);

    let queries = lines(vec!["1", "9"]);
    assert_eq!(row_matches(&fields, &indices, &queries).unwrap(), false);
}

#[test]
fn row_matches_reports_short_rows() {
    let fields: Vec<String> = lines(vec!["1"]);
    let indices: Vec<usize> = vec![0, 4];
    let queries = lines(vec!["1", "2"]);
    match row_matches(&fields, &indices, &queries) {
        Err(FilterError::RowShapeError) => {}
        other => panic!("expected RowShapeError, got {:?}", other),
    }
}

#[test]
fn any_filter_matches_value_anywhere() {
    let meta = metadata("data.csv", true);
    let cmd = Command {
        query: vec!["x".to_string()],
        column: Vec::new(),
        output_path: None,
        subcommand: Subcommand::Anyfilter(meta.clone()),
    };
    let data = lines(vec!["key,val", "x,1", "2,x", "3,y"]);
    let rows = any_filter(&data, &cmd, &meta);
    assert_eq!(
        rows,
        vec![
            vec!["key,val".to_string()],
            vec!["x,1".to_string()],
            vec!["2,x".to_string()],
        ]
    );
}

#[test]
fn any_filter_requires_every_query_somewhere() {
    let meta = metadata("data.csv", true);
    let cmd = Command {
        query: vec!["1".to_string(), "x".to_string()],
        column: Vec::new(),
        output_path: None,
        subcommand: Subcommand::Anyfilter(meta.clone()),
    };
    let data = lines(vec!["key,val", "1,x", "1,y", "x,2"]);
    let rows = any_filter(&data, &cmd, &meta);
    assert_eq!(rows, vec![vec!["key,val".to_string()], vec!["1,x".to_string()]]);
}
