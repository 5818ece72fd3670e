//! Result rows as decoded from the backend, and their composition into
//! displayable search results.
//!
//! A backend row carries three independently absent fields. A row without a
//! filename or without a path is malformed and composes to nothing; an absent
//! extension is ordinary. The composed display name (`title`) is the filename,
//! with `"." + extension` appended when an extension is present; the composed
//! location (`context`) is the path, a backslash, and the display name.

use vstd::prelude::*;
use vstd::string::StringExecFns;

verus! {

/// One backend match record, decoded into owned strings.
/// `None` stands for a null field handed out by the backend.
pub struct ResultRow {
    pub filename: Option<String>,
    pub extension: Option<String>,
    pub path: Option<String>,
}

/// One entry of the final result list: a display name and the location
/// string used to open the entry later.
#[derive(Debug, PartialEq, Eq)]
pub struct SearchResult {
    pub title: String,
    pub context: String,
}

/// Mathematical image of a `ResultRow`.
pub struct RowView {
    pub filename: Option<Seq<char>>,
    pub extension: Option<Seq<char>>,
    pub path: Option<Seq<char>>,
}

/// Mathematical image of a `SearchResult`.
pub struct ResultView {
    pub title: Seq<char>,
    pub context: Seq<char>,
}

impl View for ResultRow {
    type V = RowView;

    open spec fn view(&self) -> RowView {
        RowView {
            filename: match self.filename {
                Option::Some(ref s) => Option::Some(s@),
                Option::None => Option::None,
            },
            extension: match self.extension {
                Option::Some(ref s) => Option::Some(s@),
                Option::None => Option::None,
            },
            path: match self.path {
                Option::Some(ref s) => Option::Some(s@),
                Option::None => Option::None,
            },
        }
    }
}

impl View for SearchResult {
    type V = ResultView;

    open spec fn view(&self) -> ResultView {
        ResultView { title: self.title@, context: self.context@ }
    }
}

/// The views of a sequence of search results.
pub open spec fn result_views(s: Seq<SearchResult>) -> Seq<ResultView> {
    s.map_values(|r: SearchResult| r@)
}

/// The views of a sequence of rows.
pub open spec fn row_views(s: Seq<ResultRow>) -> Seq<RowView> {
    s.map_values(|r: ResultRow| r@)
}

/// Taking views preserves length and goes through element by element.
pub proof fn lemma_result_views_index(s: Seq<SearchResult>)
    ensures
        result_views(s).len() == s.len(),
        forall|k: int| 0 <= k < s.len() ==> #[trigger] result_views(s)[k] == s[k]@,
{
}

/// Taking row views preserves length and goes through element by element.
pub proof fn lemma_row_views_index(s: Seq<ResultRow>)
    ensures
        row_views(s).len() == s.len(),
        forall|k: int| 0 <= k < s.len() ==> #[trigger] row_views(s)[k] == s[k]@,
{
}

/// Views distribute over removing the head of a row sequence.
pub proof fn lemma_row_views_remove_head(s: Seq<ResultRow>)
    requires
        s.len() > 0,
    ensures
        row_views(s.remove(0)) =~= row_views(s).skip(1),
{
    lemma_row_views_index(s);
    lemma_row_views_index(s.remove(0));
    assert forall|k: int| 0 <= k < s.len() - 1 implies row_views(s.remove(0))[k] == row_views(
        s,
    ).skip(1)[k] by {
        assert(row_views(s.remove(0))[k] == s.remove(0)[k]@);
        assert(s.remove(0)[k] == s[k + 1]);
        assert(row_views(s)[k + 1] == s[k + 1]@);
    }
}

/// Views distribute over removing the head of a result sequence.
pub proof fn lemma_result_views_remove_head(s: Seq<SearchResult>)
    requires
        s.len() > 0,
    ensures
        result_views(s.remove(0)) =~= result_views(s).skip(1),
{
    lemma_result_views_index(s);
    lemma_result_views_index(s.remove(0));
    assert forall|k: int| 0 <= k < s.len() - 1 implies result_views(s.remove(0))[k]
        == result_views(s).skip(1)[k] by {
        assert(result_views(s.remove(0))[k] == s.remove(0)[k]@);
        assert(s.remove(0)[k] == s[k + 1]);
        assert(result_views(s)[k + 1] == s[k + 1]@);
    }
}

/// Views distribute over appending one result.
pub proof fn lemma_result_views_push(s: Seq<SearchResult>, r: SearchResult)
    ensures
        result_views(s.push(r)) =~= result_views(s).push(r@),
{
    lemma_result_views_index(s);
    lemma_result_views_index(s.push(r));
    assert forall|k: int| 0 <= k < s.len() + 1 implies result_views(s.push(r))[k]
        == result_views(s).push(r@)[k] by {
        assert(result_views(s.push(r))[k] == s.push(r)[k]@);
        if k < s.len() {
            assert(s.push(r)[k] == s[k]);
            assert(result_views(s)[k] == s[k]@);
        } else {
            assert(s.push(r)[k] == r);
        }
    }
}

/// Views distribute over taking a prefix of a result sequence.
pub proof fn lemma_result_views_take(s: Seq<SearchResult>, n: int)
    requires
        0 <= n <= s.len(),
    ensures
        result_views(s.subrange(0, n)) =~= result_views(s).subrange(0, n),
{
    lemma_result_views_index(s);
    lemma_result_views_index(s.subrange(0, n));
    assert forall|k: int| 0 <= k < n implies result_views(s.subrange(0, n))[k] == result_views(
        s,
    ).subrange(0, n)[k] by {
        assert(result_views(s.subrange(0, n))[k] == s.subrange(0, n)[k]@);
        assert(s.subrange(0, n)[k] == s[k]);
        assert(result_views(s)[k] == s[k]@);
    }
}

/// The composed display name: the filename alone, or `filename.extension`.
pub open spec fn spec_title(filename: Seq<char>, extension: Option<Seq<char>>) -> Seq<char> {
    match extension {
        Option::Some(e) => filename + seq!['.'] + e,
        Option::None => filename,
    }
}

/// The composed location: the directory path, a separator, and the display
/// name.
pub open spec fn spec_context(path: Seq<char>, title: Seq<char>) -> Seq<char> {
    path + seq!['\\'] + title
}

/// What a row composes to: nothing when filename or path is absent, else the
/// display name and location built from its fields.
pub open spec fn spec_compose(r: RowView) -> Option<ResultView> {
    match (r.filename, r.path) {
        (Option::Some(f), Option::Some(p)) => Option::Some(
            ResultView {
                title: spec_title(f, r.extension),
                context: spec_context(p, spec_title(f, r.extension)),
            },
        ),
        _ => Option::None,
    }
}

/// Composes one decoded row into a search result; a row whose filename or
/// path is absent is disqualified, whatever its other fields hold.
pub fn compose_row(row: ResultRow) -> (res: Option<SearchResult>)
    ensures
        res is Some <==> spec_compose(row@) is Some,
        res matches Some(r) ==> spec_compose(row@) == Some(r@),
{
    let ResultRow { filename, extension, path } = row;
    match (filename, path) {
        (Some(f), Some(p)) => {
            proof {
                reveal_strlit(".");
                reveal_strlit("\\");
                assert("."@ =~= seq!['.']);
                assert("\\"@ =~= seq!['\\']);
            }
            let title: String = match extension {
                Some(e) => f.concat(".").concat(e.as_str()),
                None => f,
            };
            let context: String = p.concat("\\").concat(title.as_str());
            Some(SearchResult { title, context })
        },
        _ => None,
    }
}

/// What a decoded row sequence composes to, malformed rows dropped, order
/// kept.
pub open spec fn spec_compose_all(rows: Seq<RowView>) -> Seq<ResultView>
    decreases rows.len(),
{
    if rows.len() == 0 {
        Seq::empty()
    } else {
        let prev = spec_compose_all(rows.drop_last());
        match spec_compose(rows.last()) {
            Option::Some(r) => prev.push(r),
            Option::None => prev,
        }
    }
}

/// Composes every well-formed row, in backend order, dropping rows whose
/// filename or path is absent.
pub fn compose_rows(rows: Vec<ResultRow>) -> (out: Vec<SearchResult>)
    ensures
        result_views(out@) == spec_compose_all(row_views(rows@)),
{
    let ghost orig: Seq<RowView> = row_views(rows@);
    let mut rest = rows;
    let mut out: Vec<SearchResult> = Vec::new();
    let ghost mut i: int = 0;
    while rest.len() > 0
        invariant
            0 <= i <= orig.len(),
            row_views(rest@) =~= orig.skip(i),
            result_views(out@) =~= spec_compose_all(orig.take(i)),
        decreases rest.len(),
    {
        let ghost prevrows = rest@;
        let ghost prevout = out@;
        proof {
            lemma_row_views_index(prevrows);
            assert(row_views(prevrows).len() == orig.len() - i);
        }
        let row = rest.remove(0);
        proof {
            lemma_row_views_remove_head(prevrows);
            assert(row@ == row_views(prevrows)[0]);
            assert(row@ == orig[i]);
            assert(orig.skip(i).skip(1) =~= orig.skip(i + 1));
            assert(row_views(rest@) =~= orig.skip(i + 1));
            assert(orig.take(i + 1).drop_last() =~= orig.take(i));
            assert(orig.take(i + 1).last() == orig[i]);
        }
        match compose_row(row) {
            Some(r) => {
                out.push(r);
                proof {
                    lemma_result_views_push(prevout, r);
                    assert(out@ == prevout.push(r));
                    assert(result_views(out@) =~= spec_compose_all(orig.take(i + 1)));
                }
            },
            None => {
                proof {
                    assert(result_views(out@) =~= spec_compose_all(orig.take(i + 1)));
                }
            },
        }
        proof {
            i = i + 1;
        }
    }
    proof {
        assert(orig.take(i) =~= orig);
    }
    out
}

} // verus!
