//! The result normalizer: scanning in input order, drop every entry whose
//! title was already accepted and stop accepting once the cap is reached;
//! then sort ascending by title; then truncate to the cap.

use vstd::prelude::*;
use crate::order::lex_le;
use crate::order::title_le;
use crate::order::str_eq;
use crate::rows::SearchResult;
use crate::rows::ResultView;
use crate::rows::result_views;
use crate::rows::lemma_result_views_index;
use crate::rows::lemma_result_views_remove_head;
use crate::rows::lemma_result_views_push;
use crate::rows::lemma_result_views_take;

verus! {

/// Some entry of `s` carries the title `t`.
pub open spec fn has_title(s: Seq<ResultView>, t: Seq<char>) -> bool {
    exists|k: int| 0 <= k < s.len() && s[k].title == t
}

/// The cap-aware first pass: entries accepted in input order, an entry
/// dropped when its title was already accepted or when `max` entries stand
/// accepted already.
pub open spec fn dedup_scan(s: Seq<ResultView>, max: nat) -> Seq<ResultView>
    decreases s.len(),
{
    if s.len() == 0 {
        Seq::empty()
    } else {
        let prev = dedup_scan(s.drop_last(), max);
        if prev.len() < max && !has_title(prev, s.last().title) {
            prev.push(s.last())
        } else {
            prev
        }
    }
}

/// `r` placed before the first entry of `s` whose title does not come
/// earlier than `r`'s.
pub open spec fn spec_insert_sorted(r: ResultView, s: Seq<ResultView>) -> Seq<ResultView>
    decreases s.len(),
{
    if s.len() == 0 {
        seq![r]
    } else if lex_le(r.title, s[0].title) {
        seq![r] + s
    } else {
        seq![s[0]] + spec_insert_sorted(r, s.skip(1))
    }
}

/// Insertion sort of `s`, ascending by title.
pub open spec fn spec_sort_by_title(s: Seq<ResultView>) -> Seq<ResultView>
    decreases s.len(),
{
    if s.len() == 0 {
        Seq::empty()
    } else {
        spec_insert_sorted(s.last(), spec_sort_by_title(s.drop_last()))
    }
}

/// The first `max` entries of `s`.
pub open spec fn spec_truncate(s: Seq<ResultView>, max: nat) -> Seq<ResultView> {
    if s.len() <= max {
        s
    } else {
        s.take(max as int)
    }
}

/// The whole normalizer: cap-aware deduplication in input order, then an
/// ascending sort by title, then truncation to the cap.
pub open spec fn spec_normalize(s: Seq<ResultView>, max: nat) -> Seq<ResultView> {
    spec_truncate(spec_sort_by_title(dedup_scan(s, max)), max)
}

/// No two entries of `s` carry the same title.
pub open spec fn no_dup_titles(s: Seq<ResultView>) -> bool {
    forall|i: int, j: int| #![trigger s[i], s[j]] 0 <= i < j < s.len() ==> s[i].title != s[j].title
}

/// The entries of `s` stand in ascending title order.
pub open spec fn sorted_by_title(s: Seq<ResultView>) -> bool {
    forall|i: int, j: int| #![trigger s[i], s[j]] 0 <= i <= j < s.len() ==> lex_le(
        s[i].title,
        s[j].title,
    )
}

/// Position `i` holds the first entry of `s` carrying its title.
pub open spec fn first_occurrence(s: Seq<ResultView>, i: int) -> bool {
    &&& 0 <= i < s.len()
    &&& forall|k: int| 0 <= k < i ==> s[k].title != s[i].title
}

/// The first pass accepts no more than `max` entries, and no more than it
/// was given.
pub proof fn lemma_dedup_scan_len(s: Seq<ResultView>, max: nat)
    ensures
        dedup_scan(s, max).len() <= max,
        dedup_scan(s, max).len() <= s.len(),
    decreases s.len(),
{
    if s.len() > 0 {
        lemma_dedup_scan_len(s.drop_last(), max);
    }
}

/// The first pass accepts no two entries with the same title.
pub proof fn lemma_dedup_scan_no_dup(s: Seq<ResultView>, max: nat)
    ensures
        no_dup_titles(dedup_scan(s, max)),
    decreases s.len(),
{
    if s.len() > 0 {
        lemma_dedup_scan_no_dup(s.drop_last(), max);
    }
}

/// Every title the first pass accepts was in its input.
proof fn lemma_dedup_scan_titles_subset(s: Seq<ResultView>, max: nat, t: Seq<char>)
    requires
        has_title(dedup_scan(s, max), t),
    ensures
        has_title(s, t),
    decreases s.len(),
{
    if s.len() > 0 {
        let prev = dedup_scan(s.drop_last(), max);
        if has_title(prev, t) {
            lemma_dedup_scan_titles_subset(s.drop_last(), max, t);
            let k = choose|k: int| 0 <= k < s.drop_last().len() && s.drop_last()[k].title == t;
            assert(s[k].title == t);
        } else {
            assert(dedup_scan(s, max) == prev.push(s.last()));
            let k = choose|k: int|
                0 <= k < dedup_scan(s, max).len() && dedup_scan(s, max)[k].title == t;
            assert(k == prev.len());
            assert(s.last().title == t);
            assert(s[s.len() - 1].title == t);
        }
    }
}

/// As long as the cap was never reached, the first pass keeps every title of
/// its input.
proof fn lemma_dedup_scan_titles_complete(s: Seq<ResultView>, max: nat, t: Seq<char>)
    requires
        dedup_scan(s, max).len() < max,
        has_title(s, t),
    ensures
        has_title(dedup_scan(s, max), t),
    decreases s.len(),
{
    let d = dedup_scan(s, max);
    if s.len() > 0 {
        let prev = dedup_scan(s.drop_last(), max);
        assert(prev.len() <= d.len());
        let k = choose|k: int| 0 <= k < s.len() && s[k].title == t;
        if k < s.len() - 1 {
            assert(has_title(s.drop_last(), t)) by {
                assert(s.drop_last()[k].title == t);
            }
            lemma_dedup_scan_titles_complete(s.drop_last(), max, t);
            let n = choose|n: int| 0 <= n < prev.len() && prev[n].title == t;
            assert(d[n].title == t);
        } else {
            assert(s.last().title == t);
            if has_title(prev, s.last().title) {
                assert(d == prev);
                let n = choose|n: int| 0 <= n < prev.len() && prev[n].title == s.last().title;
                assert(d[n].title == t);
            } else {
                assert(prev.len() < max);
                assert(d == prev.push(s.last()));
                assert(d[prev.len() as int].title == t);
            }
        }
    }
}

/// Every entry the first pass accepts stands at the first occurrence of its
/// title in the input.
proof fn lemma_dedup_scan_first_occurrence(s: Seq<ResultView>, max: nat, x: ResultView)
    requires
        dedup_scan(s, max).contains(x),
    ensures
        exists|i: int| first_occurrence(s, i) && s[i] == x,
    decreases s.len(),
{
    let d = dedup_scan(s, max);
    assert(s.len() > 0);
    let prev = dedup_scan(s.drop_last(), max);
    if prev.contains(x) {
        lemma_dedup_scan_first_occurrence(s.drop_last(), max, x);
        let i = choose|i: int| first_occurrence(s.drop_last(), i) && s.drop_last()[i] == x;
        assert forall|k: int| 0 <= k < i implies s[k].title != s[i].title by {
            assert(s.drop_last()[k] == s[k]);
            assert(s.drop_last()[i] == s[i]);
        }
        assert(s.drop_last()[i] == s[i]);
        assert(first_occurrence(s, i) && s[i] == x);
    } else {
        let n = choose|n: int| 0 <= n < d.len() && d[n] == x;
        assert(d == prev.push(s.last()));
        assert(n == prev.len());
        assert(x == s.last());
        assert(prev.len() < max && !has_title(prev, s.last().title));
        assert(first_occurrence(s, s.len() - 1)) by {
            assert forall|k: int| 0 <= k < s.len() - 1 implies s[k].title != s.last().title by {
                if s[k].title == s.last().title {
                    assert(has_title(s.drop_last(), s.last().title)) by {
                        assert(s.drop_last()[k].title == s.last().title);
                    }
                    lemma_dedup_scan_len(s.drop_last(), max);
                    lemma_dedup_scan_titles_complete(s.drop_last(), max, s.last().title);
                }
            }
        }
        assert(s[s.len() - 1] == x);
    }
}

/// The first pass keeps an entry standing at the first occurrence of its
/// title, as long as the input fits under the cap.
proof fn lemma_dedup_scan_keeps_first(s: Seq<ResultView>, max: nat, i: int)
    requires
        first_occurrence(s, i),
        s.len() <= max,
    ensures
        dedup_scan(s, max).contains(s[i]),
    decreases s.len(),
{
    let d = dedup_scan(s, max);
    let prev = dedup_scan(s.drop_last(), max);
    if i < s.len() - 1 {
        assert(first_occurrence(s.drop_last(), i));
        lemma_dedup_scan_keeps_first(s.drop_last(), max, i);
        let n = choose|n: int| 0 <= n < prev.len() && prev[n] == s.drop_last()[i];
        assert(d[n] == s[i]);
    } else {
        lemma_dedup_scan_len(s.drop_last(), max);
        assert(prev.len() < max);
        assert(!has_title(prev, s.last().title)) by {
            if has_title(prev, s.last().title) {
                lemma_dedup_scan_titles_subset(s.drop_last(), max, s.last().title);
                let k = choose|k: int|
                    0 <= k < s.drop_last().len() && s.drop_last()[k].title == s.last().title;
                assert(s[k].title == s[i].title);
            }
        }
        assert(d == prev.push(s.last()));
        assert(d[prev.len() as int] == s[i]);
    }
}

/// Inserting adds one entry.
proof fn lemma_insert_sorted_len(r: ResultView, s: Seq<ResultView>)
    ensures
        spec_insert_sorted(r, s).len() == s.len() + 1,
    decreases s.len(),
{
    if s.len() > 0 && !lex_le(r.title, s[0].title) {
        lemma_insert_sorted_len(r, s.skip(1));
    }
}

/// Sorting keeps the number of entries.
pub proof fn lemma_sort_len(s: Seq<ResultView>)
    ensures
        spec_sort_by_title(s).len() == s.len(),
    decreases s.len(),
{
    if s.len() > 0 {
        lemma_sort_len(s.drop_last());
        lemma_insert_sorted_len(s.last(), spec_sort_by_title(s.drop_last()));
    }
}

/// The inserted sequence holds exactly the old entries and the new one.
proof fn lemma_insert_sorted_contains(r: ResultView, s: Seq<ResultView>, x: ResultView)
    ensures
        spec_insert_sorted(r, s).contains(x) <==> (x == r || s.contains(x)),
    decreases s.len(),
{
    let ins = spec_insert_sorted(r, s);
    lemma_insert_sorted_len(r, s);
    if s.len() == 0 {
        if ins.contains(x) {
            let n = choose|n: int| 0 <= n < ins.len() && ins[n] == x;
            assert(n == 0);
            assert(x == r);
        }
        if x == r {
            assert(ins[0] == x);
            assert(ins.contains(x));
        }
    } else if lex_le(r.title, s[0].title) {
        if ins.contains(x) {
            let n = choose|n: int| 0 <= n < ins.len() && ins[n] == x;
            if n == 0 {
                assert(x == r);
            } else {
                assert(ins[n] == s[n - 1]);
                assert(s.contains(x)) by {
                    assert(s[n - 1] == x);
                }
            }
        }
        if s.contains(x) {
            let k = choose|k: int| 0 <= k < s.len() && s[k] == x;
            assert(ins[k + 1] == x);
            assert(ins.contains(x));
        }
        if x == r {
            assert(ins[0] == x);
            assert(ins.contains(x));
        }
    } else {
        lemma_insert_sorted_contains(r, s.skip(1), x);
        let tins = spec_insert_sorted(r, s.skip(1));
        lemma_insert_sorted_len(r, s.skip(1));
        assert forall|n: int| 1 <= n < ins.len() implies #[trigger] ins[n] == tins[n - 1] by {}
        if ins.contains(x) {
            let n = choose|n: int| 0 <= n < ins.len() && ins[n] == x;
            if n == 0 {
                assert(s.contains(x)) by {
                    assert(s[0] == x);
                }
            } else {
                assert(tins.contains(x)) by {
                    assert(tins[n - 1] == x);
                }
                if x != r {
                    let k = choose|k: int| 0 <= k < s.skip(1).len() && s.skip(1)[k] == x;
                    assert(s[k + 1] == x);
                    assert(s.contains(x));
                }
            }
        }
        if x == r {
            assert(tins.contains(x));
            let n = choose|n: int| 0 <= n < tins.len() && tins[n] == x;
            assert(ins[n + 1] == x);
            assert(ins.contains(x));
        }
        if s.contains(x) {
            let k = choose|k: int| 0 <= k < s.len() && s[k] == x;
            if k == 0 {
                assert(ins[0] == x);
                assert(ins.contains(x));
            } else {
                assert(s.skip(1)[k - 1] == x);
                assert(s.skip(1).contains(x)) by {
                    assert(s.skip(1)[k - 1] == x);
                }
                assert(tins.contains(x));
                let n = choose|n: int| 0 <= n < tins.len() && tins[n] == x;
                assert(ins[n + 1] == x);
                assert(ins.contains(x));
            }
        }
    }
}

/// Sorting neither adds nor loses entries.
pub proof fn lemma_sort_contains(s: Seq<ResultView>, x: ResultView)
    ensures
        spec_sort_by_title(s).contains(x) <==> s.contains(x),
    decreases s.len(),
{
    if s.len() > 0 {
        lemma_sort_contains(s.drop_last(), x);
        lemma_insert_sorted_contains(s.last(), spec_sort_by_title(s.drop_last()), x);
        if s.contains(x) {
            let k = choose|k: int| 0 <= k < s.len() && s[k] == x;
            if k < s.len() - 1 {
                assert(s.drop_last()[k] == x);
            }
        }
        if x == s.last() {
            assert(s[s.len() - 1] == x);
        }
        if s.drop_last().contains(x) {
            let k = choose|k: int| 0 <= k < s.drop_last().len() && s.drop_last()[k] == x;
            assert(s[k] == x);
        }
    }
}

/// Which titles the inserted sequence carries.
proof fn lemma_insert_sorted_has_title(r: ResultView, s: Seq<ResultView>, t: Seq<char>)
    ensures
        has_title(spec_insert_sorted(r, s), t) <==> (r.title == t || has_title(s, t)),
    decreases s.len(),
{
    let ins = spec_insert_sorted(r, s);
    lemma_insert_sorted_len(r, s);
    if has_title(ins, t) {
        let n = choose|n: int| 0 <= n < ins.len() && ins[n].title == t;
        lemma_insert_sorted_contains(r, s, ins[n]);
        assert(ins.contains(ins[n]));
        if ins[n] != r {
            let k = choose|k: int| 0 <= k < s.len() && s[k] == ins[n];
            assert(s[k].title == t);
        }
    }
    if r.title == t || has_title(s, t) {
        if r.title == t {
            lemma_insert_sorted_contains(r, s, r);
            let n = choose|n: int| 0 <= n < ins.len() && ins[n] == r;
            assert(ins[n].title == t);
        } else {
            let k = choose|k: int| 0 <= k < s.len() && s[k].title == t;
            lemma_insert_sorted_contains(r, s, s[k]);
            assert(s.contains(s[k]));
            let n = choose|n: int| 0 <= n < ins.len() && ins[n] == s[k];
            assert(ins[n].title == t);
        }
    }
}

/// Which titles the sorted sequence carries.
proof fn lemma_sort_has_title(s: Seq<ResultView>, t: Seq<char>)
    ensures
        has_title(spec_sort_by_title(s), t) <==> has_title(s, t),
    decreases s.len(),
{
    let srt = spec_sort_by_title(s);
    lemma_sort_len(s);
    if has_title(srt, t) {
        let n = choose|n: int| 0 <= n < srt.len() && srt[n].title == t;
        lemma_sort_contains(s, srt[n]);
        assert(srt.contains(srt[n]));
        let k = choose|k: int| 0 <= k < s.len() && s[k] == srt[n];
        assert(s[k].title == t);
    }
    if has_title(s, t) {
        let k = choose|k: int| 0 <= k < s.len() && s[k].title == t;
        lemma_sort_contains(s, s[k]);
        assert(s.contains(s[k]));
        let n = choose|n: int| 0 <= n < srt.len() && srt[n] == s[k];
        assert(srt[n].title == t);
    }
}

/// Inserting a fresh title into a duplicate-free sequence keeps it
/// duplicate-free.
proof fn lemma_insert_sorted_no_dup(r: ResultView, s: Seq<ResultView>)
    requires
        no_dup_titles(s),
        !has_title(s, r.title),
    ensures
        no_dup_titles(spec_insert_sorted(r, s)),
    decreases s.len(),
{
    let ins = spec_insert_sorted(r, s);
    lemma_insert_sorted_len(r, s);
    if s.len() == 0 {
    } else if lex_le(r.title, s[0].title) {
        assert forall|i: int, j: int| #![trigger ins[i], ins[j]] 0 <= i < j < ins.len() implies ins[i].title
            != ins[j].title by {
            if i == 0 {
                assert(ins[j] == s[j - 1]);
                assert(s[j - 1].title != r.title) by {
                    if s[j - 1].title == r.title {
                        assert(has_title(s, r.title));
                    }
                }
            } else {
                assert(ins[i] == s[i - 1]);
                assert(ins[j] == s[j - 1]);
            }
        }
    } else {
        let tail = s.skip(1);
        assert(no_dup_titles(tail)) by {
            assert(forall|k: int| 0 <= k < tail.len() ==> tail[k] == s[k + 1]);
        }
        assert(!has_title(tail, r.title)) by {
            if has_title(tail, r.title) {
                let k = choose|k: int| 0 <= k < tail.len() && tail[k].title == r.title;
                assert(s[k + 1].title == r.title);
            }
        }
        lemma_insert_sorted_no_dup(r, tail);
        let tins = spec_insert_sorted(r, tail);
        lemma_insert_sorted_len(r, tail);
        assert forall|i: int, j: int| #![trigger ins[i], ins[j]] 0 <= i < j < ins.len() implies ins[i].title
            != ins[j].title by {
            if i == 0 {
                assert(ins[j] == tins[j - 1]);
                lemma_insert_sorted_contains(r, tail, tins[j - 1]);
                assert(tins.contains(tins[j - 1]));
                if tins[j - 1] == r {
                    assert(s[0].title != r.title) by {
                        if s[0].title == r.title {
                            assert(has_title(s, r.title));
                        }
                    }
                } else {
                    let k = choose|k: int| 0 <= k < tail.len() && tail[k] == tins[j - 1];
                    assert(s[k + 1] == tins[j - 1]);
                }
            } else {
                assert(ins[i] == tins[i - 1]);
                assert(ins[j] == tins[j - 1]);
            }
        }
    }
}

/// A duplicate-free sequence sorts to a duplicate-free sequence.
pub proof fn lemma_sort_no_dup(s: Seq<ResultView>)
    requires
        no_dup_titles(s),
    ensures
        no_dup_titles(spec_sort_by_title(s)),
    decreases s.len(),
{
    if s.len() > 0 {
        let dl = s.drop_last();
        assert(no_dup_titles(dl));
        lemma_sort_no_dup(dl);
        assert(!has_title(dl, s.last().title)) by {
            if has_title(dl, s.last().title) {
                let k = choose|k: int| 0 <= k < dl.len() && dl[k].title == s.last().title;
                assert(s[k].title == s[s.len() - 1].title);
            }
        }
        assert(!has_title(spec_sort_by_title(dl), s.last().title)) by {
            lemma_sort_has_title(dl, s.last().title);
        }
        lemma_insert_sorted_no_dup(s.last(), spec_sort_by_title(dl));
    }
}

/// Inserting into a sorted sequence keeps it sorted.
proof fn lemma_insert_sorted_sorted(r: ResultView, s: Seq<ResultView>)
    requires
        sorted_by_title(s),
    ensures
        sorted_by_title(spec_insert_sorted(r, s)),
    decreases s.len(),
{
    let ins = spec_insert_sorted(r, s);
    lemma_insert_sorted_len(r, s);
    if s.len() == 0 {
        crate::order::lemma_lex_le_total(r.title, r.title);
        assert forall|i: int, j: int| #![trigger ins[i], ins[j]] 0 <= i <= j < ins.len() implies lex_le(
            ins[i].title,
            ins[j].title,
        ) by {
            assert(ins[0] == r);
        }
    } else if lex_le(r.title, s[0].title) {
        assert forall|i: int, j: int| #![trigger ins[i], ins[j]] 0 <= i <= j < ins.len() implies lex_le(
            ins[i].title,
            ins[j].title,
        ) by {
            if i == 0 && j > 0 {
                assert(ins[j] == s[j - 1]);
                crate::order::lemma_lex_le_transitive(r.title, s[0].title, s[j - 1].title);
            } else if i > 0 {
                assert(ins[i] == s[i - 1]);
                assert(ins[j] == s[j - 1]);
            } else {
                assert(ins[0] == r);
                crate::order::lemma_lex_le_total(r.title, r.title);
            }
        }
    } else {
        let tail = s.skip(1);
        assert(sorted_by_title(tail)) by {
            assert(forall|k: int| 0 <= k < tail.len() ==> tail[k] == s[k + 1]);
        }
        lemma_insert_sorted_sorted(r, tail);
        let tins = spec_insert_sorted(r, tail);
        lemma_insert_sorted_len(r, tail);
        crate::order::lemma_lex_le_total(r.title, s[0].title);
        assert(lex_le(s[0].title, r.title));
        assert forall|i: int, j: int| #![trigger ins[i], ins[j]] 0 <= i <= j < ins.len() implies lex_le(
            ins[i].title,
            ins[j].title,
        ) by {
            if i == 0 && j > 0 {
                assert(ins[j] == tins[j - 1]);
                lemma_insert_sorted_contains(r, tail, tins[j - 1]);
                assert(tins.contains(tins[j - 1]));
                if tins[j - 1] == r {
                } else {
                    let k = choose|k: int| 0 <= k < tail.len() && tail[k] == tins[j - 1];
                    assert(s[k + 1] == tins[j - 1]);
                }
            } else if i > 0 {
                assert(ins[i] == tins[i - 1]);
                assert(ins[j] == tins[j - 1]);
            } else {
                assert(ins[0] == s[0]);
                crate::order::lemma_lex_le_total(s[0].title, s[0].title);
            }
        }
    }
}

/// The sorting pass leaves the entries in ascending title order.
pub proof fn lemma_sort_sorted(s: Seq<ResultView>)
    ensures
        sorted_by_title(spec_sort_by_title(s)),
    decreases s.len(),
{
    if s.len() > 0 {
        lemma_sort_sorted(s.drop_last());
        lemma_insert_sorted_sorted(s.last(), spec_sort_by_title(s.drop_last()));
    }
}

/// Whatever the input, the normalizer returns at most `max` entries, no two
/// of which carry the same title.
pub proof fn lemma_normalize_cap_and_distinct(s: Seq<ResultView>, max: nat)
    ensures
        spec_normalize(s, max).len() <= max,
        no_dup_titles(spec_normalize(s, max)),
{
    let d = dedup_scan(s, max);
    let srt = spec_sort_by_title(d);
    lemma_dedup_scan_len(s, max);
    lemma_sort_len(d);
    assert(spec_normalize(s, max) == srt);
    lemma_dedup_scan_no_dup(s, max);
    lemma_sort_no_dup(d);
}

/// Whatever the input, the normalizer's output stands in ascending title
/// order.
pub proof fn lemma_normalize_sorted(s: Seq<ResultView>, max: nat)
    ensures
        sorted_by_title(spec_normalize(s, max)),
{
    let d = dedup_scan(s, max);
    lemma_dedup_scan_len(s, max);
    lemma_sort_len(d);
    lemma_sort_sorted(d);
    assert(spec_normalize(s, max) == spec_sort_by_title(d));
}

/// Of two distinct entries with the same title, the one standing after the
/// title's first occurrence is never returned.
pub proof fn lemma_normalize_drops_later_duplicate(s: Seq<ResultView>, max: nat, i: int, j: int)
    requires
        first_occurrence(s, i),
        i < j < s.len(),
        s[j].title == s[i].title,
        s[j] != s[i],
    ensures
        !spec_normalize(s, max).contains(s[j]),
{
    let d = dedup_scan(s, max);
    let srt = spec_sort_by_title(d);
    lemma_dedup_scan_len(s, max);
    lemma_sort_len(d);
    assert(spec_normalize(s, max) == srt);
    if srt.contains(s[j]) {
        lemma_sort_contains(d, s[j]);
        lemma_dedup_scan_first_occurrence(s, max, s[j]);
        let i0 = choose|i0: int| first_occurrence(s, i0) && s[i0] == s[j];
        assert(s[i0].title == s[i].title);
        if i0 < i {
            assert(s[i0].title != s[i].title);
        }
        if i0 > i {
            assert(s[i].title != s[i0].title);
        }
        assert(i0 == i);
        assert(s[i] == s[j]);
        assert(false);
    }
}

/// While the whole input fits under the cap, the entry at a title's first
/// occurrence is returned.
pub proof fn lemma_normalize_keeps_first(s: Seq<ResultView>, max: nat, i: int)
    requires
        first_occurrence(s, i),
        s.len() <= max,
    ensures
        spec_normalize(s, max).contains(s[i]),
{
    let d = dedup_scan(s, max);
    lemma_dedup_scan_keeps_first(s, max, i);
    lemma_dedup_scan_len(s, max);
    lemma_sort_len(d);
    lemma_sort_contains(d, s[i]);
    assert(spec_normalize(s, max) == spec_sort_by_title(d));
}

/// Decides whether some accepted entry already carries the title `t`.
fn contains_title(acc: &Vec<SearchResult>, t: &String) -> (r: bool)
    ensures
        r == has_title(result_views(acc@), t@),
{
    let mut j: usize = 0;
    while j < acc.len()
        invariant
            j <= acc.len(),
            forall|k: int| 0 <= k < j ==> acc@[k]@.title != t@,
        decreases acc.len() - j,
    {
        let e = &acc[j];
        if str_eq(e.title.as_str(), t.as_str()) {
            proof {
                lemma_result_views_index(acc@);
                assert(result_views(acc@)[j as int].title == t@);
            }
            return true;
        }
        j = j + 1;
    }
    proof {
        lemma_result_views_index(acc@);
    }
    false
}

/// Where `r` stands once inserted: before the first entry whose title does
/// not come earlier.
#[verifier::rlimit(50)]
proof fn lemma_insert_sorted_position(r: ResultView, s: Seq<ResultView>, j: int)
    requires
        0 <= j <= s.len(),
        forall|k: int| 0 <= k < j ==> !lex_le(r.title, s[k].title),
        j < s.len() ==> lex_le(r.title, s[j].title),
    ensures
        spec_insert_sorted(r, s) == s.insert(j, r),
    decreases j,
{
    if j == 0 {
        if s.len() == 0 {
            assert(spec_insert_sorted(r, s) =~= s.insert(0, r));
        } else {
            assert(lex_le(r.title, s[0].title));
            assert(seq![r] + s =~= s.insert(0, r));
        }
    } else {
        assert(!lex_le(r.title, s[0].title));
        let tail = s.skip(1);
        assert(forall|k: int| 0 <= k < j - 1 ==> !lex_le(r.title, tail[k].title)) by {
            assert(forall|k: int| 0 <= k < j - 1 ==> tail[k] == s[k + 1]);
        }
        lemma_insert_sorted_position(r, tail, j - 1);
        tail.insert_ensures(j - 1, r);
        s.insert_ensures(j, r);
        assert(seq![s[0]] + tail.insert(j - 1, r) =~= s.insert(j, r));
    }
}

/// Views distribute over inserting one result at an index.
proof fn lemma_result_views_insert(s: Seq<SearchResult>, j: int, r: SearchResult)
    requires
        0 <= j <= s.len(),
    ensures
        result_views(s.insert(j, r)) =~= result_views(s).insert(j, r@),
{
    lemma_result_views_index(s);
    lemma_result_views_index(s.insert(j, r));
    s.insert_ensures(j, r);
    result_views(s).insert_ensures(j, r@);
    assert forall|k: int| 0 <= k < s.len() + 1 implies result_views(s.insert(j, r))[k]
        == result_views(s).insert(j, r@)[k] by {
        assert(result_views(s.insert(j, r))[k] == s.insert(j, r)[k]@);
        if k < j {
            assert(s.insert(j, r)[k] == s[k]);
            assert(result_views(s).insert(j, r@)[k] == result_views(s)[k]);
        } else if k == j {
            assert(s.insert(j, r)[k] == r);
            assert(result_views(s).insert(j, r@)[k] == r@);
        } else {
            assert(s.insert(j, r)[k] == s[k - 1]);
            assert(result_views(s).insert(j, r@)[k] == result_views(s)[k - 1]);
        }
    }
}

/// Inserts one result into a sequence already sorted by title, keeping the
/// insertion-sort shape.
fn insert_sorted(v: Vec<SearchResult>, r: SearchResult) -> (out: Vec<SearchResult>)
    ensures
        result_views(out@) == spec_insert_sorted(r@, result_views(v@)),
{
    let mut j: usize = 0;
    loop
        invariant
            j <= v.len(),
            forall|k: int| 0 <= k < j ==> !lex_le(r@.title, v@[k]@.title),
        ensures
            j <= v.len(),
            forall|k: int| 0 <= k < j ==> !lex_le(r@.title, v@[k]@.title),
            j < v.len() ==> lex_le(r@.title, v@[j as int]@.title),
        decreases v.len() - j,
    {
        if j >= v.len() {
            break ;
        }
        let e = &v[j];
        if title_le(r.title.as_str(), e.title.as_str()) {
            break ;
        }
        j = j + 1;
    }
    proof {
        lemma_result_views_index(v@);
        assert(forall|k: int| 0 <= k < j ==> !lex_le(r@.title, result_views(v@)[k].title));
        lemma_insert_sorted_position(r@, result_views(v@), j as int);
        lemma_result_views_insert(v@, j as int, r);
    }
    let mut out = v;
    out.insert(j, r);
    out
}

/// Normalizes decoded results: deduplicates by title in input order under
/// the cap, sorts ascending by title, and truncates to the cap.
pub fn normalize(results: Vec<SearchResult>, max: usize) -> (out: Vec<SearchResult>)
    ensures
        result_views(out@) == spec_normalize(result_views(results@), max as nat),
{
    let ghost orig: Seq<ResultView> = result_views(results@);
    let mut rest = results;
    let mut acc: Vec<SearchResult> = Vec::new();
    let ghost mut i: int = 0;
    while rest.len() > 0
        invariant
            0 <= i <= orig.len(),
            result_views(rest@) =~= orig.skip(i),
            result_views(acc@) =~= dedup_scan(orig.take(i), max as nat),
        decreases rest.len(),
    {
        let ghost prevrest = rest@;
        let ghost prevacc = acc@;
        proof {
            lemma_result_views_index(prevrest);
        }
        let r = rest.remove(0);
        let ghost rv = r@;
        proof {
            lemma_result_views_remove_head(prevrest);
            assert(rv == result_views(prevrest)[0]);
            assert(rv == orig[i]);
            assert(orig.skip(i).skip(1) =~= orig.skip(i + 1));
            assert(result_views(rest@) =~= orig.skip(i + 1));
            assert(orig.take(i + 1).drop_last() =~= orig.take(i));
            assert(orig.take(i + 1).last() == orig[i]);
            lemma_result_views_index(prevacc);
        }
        let dup = contains_title(&acc, &r.title);
        if !dup && acc.len() < max {
            let ghost rsnap = r;
            acc.push(r);
            proof {
                lemma_result_views_push(prevacc, rsnap);
            }
        }
        proof {
            assert(result_views(acc@) =~= dedup_scan(orig.take(i + 1), max as nat));
            i = i + 1;
        }
    }
    proof {
        lemma_result_views_index(rest@);
        assert(orig.take(i) =~= orig);
    }
    let ghost dv = dedup_scan(orig, max as nat);
    let mut sorted: Vec<SearchResult> = Vec::new();
    let ghost mut j: int = 0;
    while acc.len() > 0
        invariant
            0 <= j <= dv.len(),
            result_views(acc@) =~= dv.skip(j),
            result_views(sorted@) =~= spec_sort_by_title(dv.take(j)),
        decreases acc.len(),
    {
        let ghost prevacc = acc@;
        proof {
            lemma_result_views_index(prevacc);
        }
        let r = acc.remove(0);
        let ghost rv = r@;
        proof {
            lemma_result_views_remove_head(prevacc);
            assert(rv == result_views(prevacc)[0]);
            assert(rv == dv[j]);
            assert(dv.skip(j).skip(1) =~= dv.skip(j + 1));
            assert(result_views(acc@) =~= dv.skip(j + 1));
            assert(dv.take(j + 1).drop_last() =~= dv.take(j));
            assert(dv.take(j + 1).last() == dv[j]);
        }
        sorted = insert_sorted(sorted, r);
        proof {
            assert(result_views(sorted@) =~= spec_sort_by_title(dv.take(j + 1)));
            j = j + 1;
        }
    }
    proof {
        lemma_result_views_index(acc@);
        assert(dv.take(j) =~= dv);
    }
    let ghost sortedv = spec_sort_by_title(dv);
    let mut out = sorted;
    let ghost prevout = out@;
    out.truncate(max);
    proof {
        lemma_result_views_index(prevout);
        if max < prevout.len() {
            lemma_result_views_take(prevout, max as int);
            assert(result_views(out@) =~= spec_truncate(sortedv, max as nat));
        } else {
            assert(out@ == prevout);
            assert(result_views(out@) =~= spec_truncate(sortedv, max as nat));
        }
    }
    out
}

} // verus!
