use sdk::text::{split_str, trim_str};
use sdk::writer::csv_render;

fn lines(raw: Vec<&str>) -> Vec<String> {
    raw.iter().map(|l| l.to_string()).collect()
}

#[test]
fn render_joins_fields_and_ends_rows_with_newline() {
    let rows = vec![lines(vec!["a", "b"]), lines(vec!["1", "2"])];
    assert_eq!(csv_render(&rows), "a,b\n1,2\n");
}

#[test]
fn render_of_single_field_rows_is_the_lines() {
    let rows = vec![lines(vec!["key,val"]), lines(vec!["1,x"])];
    assert_eq!(csv_render(&rows), "key,val\n1,x\n");
}

#[test]
fn render_of_no_rows_is_empty() {
    let rows: Vec<Vec<String>> = Vec::new();
    assert_eq!(csv_render(&rows), "");
}

#[test]
fn render_keeps_trailing_newline_after_final_row() {
    let rows = vec![lines(vec!["only"])];
    assert_eq!(csv_render(&rows), "only\n");
}

#[test]
fn split_keeps_empty_fields() {
    assert_eq!(split_str("a,,b", ','), lines(vec!["a", "", "b"]));
    assert_eq!(split_str("a,", ','), lines(vec!["a", ""]));
    assert_eq!(split_str(",a", ','), lines(vec!["", "a"]));
    assert_eq!(split_str("", ','), lines(vec![""]));
    assert_eq!(split_str("abc", ','), lines(vec!["abc"]));
}

#[test]
fn split_does_not_respect_quotes() {
    // the documented limitation: a delimiter inside quotes still separates
    assert_eq!(
        split_str("1,\"a,b\",2", ','),
        lines(vec!["1", "\"a", "b\"", "2"])
    );
}

#[test]
fn trim_removes_surrounding_whitespace_only() {
    assert_eq!(trim_str("  a b  "), "a b");
    assert_eq!(trim_str("\t x \r\n"), "x");
    assert_eq!(trim_str("plain"), "plain");
    assert_eq!(trim_str("   "), "");
    assert_eq!(trim_str(""), "");
}

#[test]
fn parser_strips_flag_prefixes_in_order() {
    let args = vec![
        "prog".to_string(),
        "--file".to_string(),
        "/tmp/data.csv".to_string(),
        "--mode".to_string(),
        "fast".to_string(),
    ];
    let pairs = sdk::stdin_parser::parser(args);
    assert_eq!(
        pairs,
        vec![
            ("file".to_string(), "/tmp/data.csv".to_string()),
            ("mode".to_string(), "fast".to_string()),
        ]
    );
}
