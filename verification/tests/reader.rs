use sdk::reader::{glob_concat, CsvMetadata};

fn metadata(file: &str, has_header: bool) -> CsvMetadata {
    CsvMetadata {
        file: file.to_string(),
        delimiter: ',',
        has_header,
        column_types: vec!["string".to_string()],
    }
}

fn lines(raw: Vec<&str>) -> Vec<String> {
    raw.iter().map(|l| l.to_string()).collect()
}

#[test]
fn test_validation() {
    let csv_handler = metadata("test/*/*.csv", true);
    let headers = lines(vec!["key,val\n", "key,val\n"]);
    assert!(csv_handler.validate(&headers));
}

#[test]
fn validation_rejects_differing_headers() {
    let csv_handler = metadata("test/*/*.csv", true);
    let headers = lines(vec!["key,val\n", "id,val\n"]);
    assert!(!csv_handler.validate(&headers));
    assert!(!csv_handler.validate_multifile_header(&headers));

    let same = lines(vec!["key,val\n", "key,val\n", "key,val\n"]);
    assert!(csv_handler.validate_multifile_header(&same));
}

#[test]
fn validation_without_header_skips_consistency() {
    let csv_handler = metadata("test/*/*.csv", false);
    let headers = lines(vec!["key,val\n", "id,val\n"]);
    assert!(csv_handler.validate_multifile_header(&headers));
    assert!(csv_handler.validate(&headers));
}

#[test]
fn validation_of_no_files_is_vacuous() {
    let csv_handler = metadata("test/*/*.csv", true);
    let headers: Vec<String> = Vec::new();
    assert!(csv_handler.validate(&headers));
}

#[test]
fn extension_check_looks_at_last_dot_segment() {
    assert!(metadata("dir/data.csv", true).validate_extension());
    assert!(metadata("dir/archive.tar.csv", true).validate_extension());
    assert!(!metadata("dir/data.txt", true).validate_extension());
    assert!(!metadata("dir/data.csv.bak", true).validate_extension());
    // a path with no dot has itself as its last segment
    assert!(metadata("csv", true).validate_extension());
}

#[test]
fn extension_check_rejects_wrong_extension_despite_headers() {
    let csv_handler = metadata("data.tsv", true);
    let headers = lines(vec!["key,val\n", "key,val\n"]);
    assert!(!csv_handler.validate(&headers));
}

#[test]
fn glob_concat_keeps_one_header_only() {
    let files = vec![lines(vec!["key,val", "1,x"]), lines(vec!["key,val", "2,y"])];
    let stream = glob_concat(&files);
    assert_eq!(stream, lines(vec!["key,val", "1,x", "2,y"]));
}

#[test]
fn glob_concat_single_file_is_unchanged() {
    let files = vec![lines(vec!["key,val", "1,x", "2,y"])];
    let stream = glob_concat(&files);
    assert_eq!(stream, lines(vec!["key,val", "1,x", "2,y"]));
}

#[test]
fn glob_concat_skips_empty_later_files() {
    let files = vec![lines(vec!["key,val", "1,x"]), Vec::new(), lines(vec!["key,val"])];
    let stream = glob_concat(&files);
    assert_eq!(stream, lines(vec!["key,val", "1,x"]));
}

#[test]
fn glob_concat_of_nothing_is_empty() {
    let files: Vec<Vec<String>> = Vec::new();
    assert!(glob_concat(&files).is_empty());
}

#[test]
fn clone_copies_every_field() {
    let original = CsvMetadata {
        file: "a.csv".to_string(),
        delimiter: ';',
        has_header: false,
        column_types: lines(vec!["string", "int"]),
    };
    let copy = original.clone();
    assert_eq!(copy.file, original.file);
    assert_eq!(copy.delimiter, original.delimiter);
    assert_eq!(copy.has_header, original.has_header);
    assert_eq!(copy.column_types, original.column_types);
}

#[test]
fn glob_detection_looks_for_wildcard() {
    assert!(metadata("test/*/*.csv", true).is_glob());
    assert!(metadata("data*.csv", true).is_glob());
    assert!(!metadata("test/example/data.csv", true).is_glob());
}
