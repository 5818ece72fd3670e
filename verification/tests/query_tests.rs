use everything_adapter::query::QueryOutcome;
use everything_adapter::query::QueryPlan;
use everything_adapter::query::plan_search;
use everything_adapter::query::search_results;
use everything_adapter::rows::ResultRow;
use everything_adapter::settings::Settings;

fn row(filename: Option<&str>, extension: Option<&str>, path: Option<&str>) -> ResultRow {
    ResultRow {
        filename: filename.map(|s| s.to_string()),
        extension: extension.map(|s| s.to_string()),
        path: path.map(|s| s.to_string()),
    }
}

#[test]
fn plan_encodes_ascii_query_as_utf16() {
    match plan_search("ab") {
        QueryPlan::Submit(units) => assert_eq!(units, vec![0x61u16, 0x62u16]),
        QueryPlan::Reject => panic!("ascii query must encode"),
    }
}

#[test]
fn plan_encodes_wide_characters_with_surrogates() {
    match plan_search("a\u{20AC}\u{1D11E}") {
        QueryPlan::Submit(units) => {
            assert_eq!(units, vec![0x61u16, 0x20ACu16, 0xD834u16, 0xDD1Eu16]);
        },
        QueryPlan::Reject => panic!("query must encode"),
    }
}

#[test]
fn plan_rejects_query_with_interior_nul() {
    match plan_search("a\u{0}b") {
        QueryPlan::Submit(_) => panic!("nul query must be rejected"),
        QueryPlan::Reject => {},
    }
}

#[test]
fn plan_accepts_nul_in_final_position_as_terminator() {
    match plan_search("a\u{0}") {
        QueryPlan::Submit(units) => assert_eq!(units, vec![0x61u16]),
        QueryPlan::Reject => panic!("a final nul is taken as the terminator"),
    }
}

#[test]
fn plan_encodes_empty_query() {
    match plan_search("") {
        QueryPlan::Submit(units) => assert!(units.is_empty()),
        QueryPlan::Reject => panic!("empty query must encode"),
    }
}

#[test]
fn encoding_failure_yields_empty_results() {
    let s = Settings::new(50, 0, 0);
    let out = search_results(QueryOutcome::EncodingFailed, &s);
    assert!(out.is_empty());
}

#[test]
fn query_failure_yields_empty_results() {
    let s = Settings::new(50, 0, 0);
    let out = search_results(QueryOutcome::QueryFailed, &s);
    assert!(out.is_empty());
}

#[test]
fn successful_outcome_is_composed_and_normalized() {
    let rows = vec![
        row(Some("beta"), Some("txt"), Some("C:\\d")),
        row(None, Some("txt"), Some("C:\\d")),
        row(Some("alpha"), None, Some("C:\\d")),
        row(Some("beta"), Some("txt"), Some("C:\\other")),
    ];
    let s = Settings::new(50, 0, 0);
    let out = search_results(QueryOutcome::Rows(rows), &s);
    assert_eq!(out.len(), 2);
    assert_eq!(out[0].title, "alpha");
    assert_eq!(out[0].context, "C:\\d\\alpha");
    assert_eq!(out[1].title, "beta.txt");
    assert_eq!(out[1].context, "C:\\d\\beta.txt");
}

#[test]
fn successful_outcome_respects_user_cap() {
    let rows = vec![
        row(Some("c"), None, Some("p")),
        row(Some("a"), None, Some("p")),
        row(Some("b"), None, Some("p")),
    ];
    let s = Settings::new(2, 0, 0);
    let out = search_results(QueryOutcome::Rows(rows), &s);
    assert_eq!(out.len(), 2);
    assert_eq!(out[0].title, "a");
    assert_eq!(out[1].title, "c");
}

#[test]
fn empty_rows_yield_empty_results() {
    let s = Settings::new(50, 0, 0);
    let out = search_results(QueryOutcome::Rows(Vec::new()), &s);
    assert!(out.is_empty());
}
