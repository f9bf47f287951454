use rendar::csv::{detect_delimiter, is_header_row, render_csv};

#[test]
fn detects_comma_delimiter() {
    let sample = "name,age\nAda,36\n";
    assert_eq!(detect_delimiter(sample), b',');
}

#[test]
fn detects_tab_delimiter() {
    let sample = "name\tage\nAda\t36\n";
    assert_eq!(detect_delimiter(sample), b'\t');
}

#[test]
fn detects_header_row() {
    let first = vec!["Name".to_string(), "Age".to_string()];
    let second = vec!["Ada".to_string(), "36".to_string()];
    assert!(is_header_row(&first, &second));
}

#[test]
fn detects_header_row_with_padded_numbers() {
    let first = vec!["Name".to_string(), "Age".to_string()];
    let second = vec!["Ada".to_string(), " 36 ".to_string()];
    assert!(is_header_row(&first, &second));
}

#[test]
fn detects_pipe_delimiter() {
    let sample = "name|age\nAda|36\n";
    assert_eq!(detect_delimiter(sample), b'|');
}

#[test]
fn renders_table_with_detected_header() {
    let html = render_csv("Name,Age\nAda,36\n", None).expect("render csv");
    assert!(html.contains("<th scope=\"col\">Name</th>"));
    assert!(html.contains("<td>Ada</td>"));
    assert!(html.contains("class=\"csv-table\""));
}

#[test]
fn renders_generated_column_labels() {
    let html = render_csv("1,2\n3,4\n", None).expect("render csv");
    assert!(html.contains("<th scope=\"col\">Column 1</th>"));
    assert!(html.contains("<th scope=\"col\">Column 2</th>"));
}

#[test]
fn renders_empty_csv_notice() {
    let html = render_csv("", None).expect("render csv");
    assert_eq!(
        html,
        "<div class=\"csv-preview\"><div class=\"csv-empty\">Empty CSV.</div></div>"
    );
}

#[test]
fn truncates_long_tables_with_notice() {
    let html = render_csv("Name\n1\n2\n3\n", Some(1)).expect("render csv");
    assert!(html.contains("Showing first 1 rows."));
    assert!(html.contains("<td>1</td>"));
    assert!(!html.contains("<td>2</td>"));
}

#[test]
fn rejects_ragged_records() {
    let result = render_csv("a,b\nc,d,e\n", None);
    assert!(result.is_err());
}

#[test]
fn escapes_cells() {
    let html = render_csv("Name\n<b>&\n", None).expect("render csv");
    assert!(html.contains("<td>&lt;b&gt;&amp;</td>"));
}
