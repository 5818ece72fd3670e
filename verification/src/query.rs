//! Query encoding and the search pipeline around the backend call.
//!
//! A search runs in three steps: the query is encoded for the backend's
//! wide-string calling convention (`plan_search`); the caller performs the
//! one backend call and decodes its rows; the outcome is turned into the
//! final result list (`search_results`). Both failure paths — a query the
//! encoding cannot carry and a backend that reports failure — end in an
//! empty list, never in a crash.

use vstd::prelude::*;
use crate::rows::ResultRow;
use crate::rows::SearchResult;
use crate::rows::result_views;
use crate::rows::row_views;
use crate::rows::spec_compose_all;
use crate::rows::compose_rows;
use crate::normalize::normalize;
use crate::normalize::spec_normalize;
use crate::settings::Settings;

verus! {

/// The string holds a nul character somewhere.
pub open spec fn has_nul(s: Seq<char>) -> bool {
    exists|i: int| 0 <= i < s.len() && s[i] == '\0'
}

/// The string holds a nul character before its final position.
pub open spec fn has_interior_nul(s: Seq<char>) -> bool {
    exists|i: int| 0 <= i < s.len() - 1 && s[i] == '\0'
}

/// The UTF-16 code units of a string, as the encoding crate computes them.
pub uninterp spec fn utf16_units(s: Seq<char>) -> Seq<u16>;

/// Relies on widestring::U16CString::from_str and U16CString::into_vec:
/// encoding succeeds exactly when the string holds no nul character before
/// its final position, and for a nul-free string the returned units are its
/// UTF-16 encoding, without a terminator.
#[verifier::external_body]
fn encode_wide(s: &str) -> (r: Option<Vec<u16>>)
    ensures
        r is Some <==> !has_interior_nul(s@),
        r matches Some(v) ==> (!has_nul(s@) ==> v@ == utf16_units(s@)),
{
    match widestring::U16CString::from_str(s) {
        Ok(w) => Some(w.into_vec()),
        Err(_) => None,
    }
}

/// What one search sends to the backend.
pub enum QueryPlan {
    /// The query cannot be encoded; the search ends with no results.
    Reject,
    /// The wide query string to hand to the backend's query-set call.
    Submit(Vec<u16>),
}

/// Turns the user's query into a backend plan. A query that the backend's
/// wide encoding cannot carry is rejected, recoverably, rather than passed
/// on.
pub fn plan_search(query: &str) -> (p: QueryPlan)
    ensures
        p is Reject <==> has_interior_nul(query@),
        p matches QueryPlan::Submit(u) ==> (!has_nul(query@) ==> u@ == utf16_units(query@)),
{
    match encode_wide(query) {
        Some(units) => QueryPlan::Submit(units),
        None => QueryPlan::Reject,
    }
}

/// How one backend round ended.
pub enum QueryOutcome {
    /// The query could not be encoded; no backend call was made.
    EncodingFailed,
    /// The backend reported failure for the query call.
    QueryFailed,
    /// The backend returned rows, already decoded into owned fields.
    Rows(Vec<ResultRow>),
}

/// What a finished search returns, for every outcome: an empty list after a
/// failed encoding or a failed query, else the composed rows normalized
/// under the user's cap.
pub fn search_results(outcome: QueryOutcome, settings: &Settings) -> (res: Vec<SearchResult>)
    requires
        settings.wf(),
    ensures
        outcome is EncodingFailed ==> res@.len() == 0,
        outcome is QueryFailed ==> res@.len() == 0,
        outcome matches QueryOutcome::Rows(rows) ==> result_views(res@) == spec_normalize(
            spec_compose_all(row_views(rows@)),
            settings.max_results as nat,
        ),
{
    match outcome {
        QueryOutcome::EncodingFailed => Vec::new(),
        QueryOutcome::QueryFailed => Vec::new(),
        QueryOutcome::Rows(rows) => {
            let composed = compose_rows(rows);
            let cap = settings.result_cap();
            normalize(composed, cap)
        },
    }
}

} // verus!
