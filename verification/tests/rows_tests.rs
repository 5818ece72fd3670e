use everything_adapter::rows::ResultRow;
use everything_adapter::rows::compose_row;
use everything_adapter::rows::compose_rows;

fn row(filename: Option<&str>, extension: Option<&str>, path: Option<&str>) -> ResultRow {
    ResultRow {
        filename: filename.map(|s| s.to_string()),
        extension: extension.map(|s| s.to_string()),
        path: path.map(|s| s.to_string()),
    }
}

#[test]
fn composes_title_and_context_with_extension() {
    let r = compose_row(row(Some("report"), Some("pdf"), Some("C:\\docs"))).unwrap();
    assert_eq!(r.title, "report.pdf");
    assert_eq!(r.context, "C:\\docs\\report.pdf");
}

#[test]
fn composes_title_and_context_without_extension() {
    let r = compose_row(row(Some("readme"), None, Some("C:\\docs"))).unwrap();
    assert_eq!(r.title, "readme");
    assert_eq!(r.context, "C:\\docs\\readme");
}

#[test]
fn drops_row_with_null_filename() {
    assert!(compose_row(row(None, Some("pdf"), Some("C:\\docs"))).is_none());
}

#[test]
fn drops_row_with_null_path() {
    assert!(compose_row(row(Some("report"), Some("pdf"), None)).is_none());
}

#[test]
fn compose_rows_keeps_order_and_drops_malformed() {
    let rows = vec![
        row(Some("b"), None, Some("p")),
        row(None, Some("pdf"), Some("p")),
        row(Some("a"), Some("txt"), Some("q")),
        row(Some("c"), None, None),
    ];
    let out = compose_rows(rows);
    assert_eq!(out.len(), 2);
    assert_eq!(out[0].title, "b");
    assert_eq!(out[0].context, "p\\b");
    assert_eq!(out[1].title, "a.txt");
    assert_eq!(out[1].context, "q\\a.txt");
}

#[test]
fn compose_rows_of_nothing_is_empty() {
    let out = compose_rows(Vec::new());
    assert!(out.is_empty());
}
