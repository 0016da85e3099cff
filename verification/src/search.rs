//! Search requests and the post-processing of what the vector index returns:
//! completing raw hits, keeping those inside the directory and above the
//! threshold, checking file types, building results and ordering them by score.
use vstd::prelude::*;
use crate::score::{score_lt, score_eq, key_is_nan, score_less_than, key_rank};
use vstd::set_lib::{set_int_range, lemma_int_range, lemma_subset_equality};
use crate::clock::{utc_timestamp_text, format_utc_timestamp, display_format, calendar_text};
use crate::text::{first_chars, some_type_accepts, lowercase, any_type_accepts, to_lowercase, trimmed,
    type_entry_accepts,
    starts_with};

verus! {

/// Number of characters of a file's content shown as its summary.
pub const SUMMARY_CHARS: usize = 200usize;

/// A search as the user interface sends it. `threshold` is a score key.
pub struct SearchRequest {
    pub query: String,
    pub directory: Option<String>,
    pub file_types: Option<Vec<String>>,
    pub top_k: Option<usize>,
    pub threshold: Option<i32>,
}

/// One file found. `score` is a score key.
pub struct SearchResult {
    pub path: String,
    pub score: i32,
    pub summary: String,
    pub file_type: String,
    pub size: u64,
    pub modified: String,
}

/// The contents of a result, strings taken by their characters.
pub struct SearchResultView {
    pub path: Seq<char>,
    pub score: i32,
    pub summary: Seq<char>,
    pub file_type: Seq<char>,
    pub size: u64,
    pub modified: Seq<char>,
}

impl View for SearchResult {
    type V = SearchResultView;

    open spec fn view(&self) -> SearchResultView {
        SearchResultView {
            path: self.path@,
            score: self.score,
            summary: self.summary@,
            file_type: self.file_type@,
            size: self.size,
            modified: self.modified@,
        }
    }
}

pub open spec fn result_views(s: Seq<SearchResult>) -> Seq<SearchResultView> {
    s.map_values(|r: SearchResult| r@)
}

/// The answer to a search.
pub struct SearchResponse {
    pub results: Vec<SearchResult>,
    pub total: usize,
    pub query_time_ms: u64,
}

/// A hit of the vector index: a path and its score key.
pub struct IndexHit {
    pub path: String,
    pub score: i32,
}

/// The settings a search runs with once the request's gaps are filled from
/// the configuration.
pub struct SearchParams {
    pub top_k: usize,
    pub threshold: i32,
    pub file_types: Vec<String>,
    pub directory: Option<String>,
}

/// A raw index entry: its `path` and `score` fields when present.
pub open spec fn entry_view(e: (Option<String>, Option<i32>)) -> Option<IndexHit> {
    match (e.0, e.1) {
        (Some(p), Some(s)) => Some(IndexHit { path: p, score: s }),
        _ => None,
    }
}

/// The hits of raw entries that carry both a path and a score, in order.
pub open spec fn complete_hits(es: Seq<(Option<String>, Option<i32>)>) -> Seq<IndexHit> {
    es.filter_map(|e: (Option<String>, Option<i32>)| entry_view(e))
}

/// Keeps the raw index entries that carry both a path and a score, in order.
pub fn collect_hits(entries: Vec<(Option<String>, Option<i32>)>) -> (hits: Vec<IndexHit>)
    ensures
        hits@ == complete_hits(entries@),
{
    let ghost input = entries@;
    let ghost f = |e: (Option<String>, Option<i32>)| entry_view(e);
    let mut rest = entries;
    let mut hits: Vec<IndexHit> = Vec::new();
    let n: usize = rest.len();
    let mut i: usize = 0;
    while rest.len() > 0
        invariant
            i + rest@.len() == input.len(),
            rest@ == input.skip(i as int),
            hits@ == input.take(i as int).filter_map(f),
            f == (|e: (Option<String>, Option<i32>)| entry_view(e)),
            input.len() == n,
        decreases rest.len(),
    {
        let e = rest.remove(0);
        proof {
            input.lemma_filter_map_take_succ(f, i as int);
            assert(input.skip(i as int)[0] == input[i as int]);
            assert(input.skip(i as int).remove(0) =~= input.skip(i + 1));
        }
        match e {
            (Some(p), Some(s)) => {
                let h = IndexHit { path: p, score: s };
                assert(f(input[i as int]) == Some(h));
                hits.push(h);
            },
            _ => {
                assert(f(input[i as int]) is None);
            },
        }
        i = i + 1;
    }
    assert(input.take(i as int) =~= input);
    hits
}

/// Raw entries are read one by one, none lost, none reordered: no entries give
/// no hits, and an entry added at the end adds its hit at the end when it
/// carries both a path and a score, and adds nothing when either is missing.
pub proof fn lemma_complete_hits_step(es: Seq<(Option<String>, Option<i32>)>, e: (Option<String>, Option<i32>))
    ensures
        complete_hits(Seq::empty()) == Seq::<IndexHit>::empty(),
        e.0 is Some && e.1 is Some ==> complete_hits(es.push(e)) == complete_hits(es).push(
            IndexHit { path: e.0->0, score: e.1->0 },
        ),
        e.0 is None || e.1 is None ==> complete_hits(es.push(e)) == complete_hits(es),
{
    let f = |x: (Option<String>, Option<i32>)| entry_view(x);
    assert(es.push(e).drop_last() =~= es);
    assert(es.push(e).last() == e);
    assert(complete_hits(es.push(e)) == es.push(e).filter_map(f));
    assert(complete_hits(es) == es.filter_map(f));
    assert(Seq::<(Option<String>, Option<i32>)>::empty().filter_map(f) =~= Seq::<IndexHit>::empty());
}

/// A hit passes the first filters when its path lies under `directory` (if
/// one is given) and its score is not below `threshold`.
pub open spec fn hit_passes(h: IndexHit, directory: Option<Seq<char>>, threshold: i32) -> bool {
    &&& (match directory {
        Some(d) => d.is_prefix_of(h.path@),
        None => true,
    })
    &&& !score_lt(h.score, threshold)
}

pub open spec fn opt_view(s: Option<String>) -> Option<Seq<char>> {
    match s {
        Some(t) => Some(t@),
        None => None,
    }
}

/// The hits, in order, that pass the directory and threshold filters.
pub open spec fn passing_hits(hs: Seq<IndexHit>, directory: Option<Seq<char>>, threshold: i32) -> Seq<IndexHit> {
    hs.filter(|h: IndexHit| hit_passes(h, directory, threshold))
}

/// Every hit kept by the first filters lies under the directory and scores
/// at least the threshold, and a kept list is never longer than the hits.
pub proof fn lemma_passing_hits_pass(hs: Seq<IndexHit>, directory: Option<Seq<char>>, threshold: i32)
    ensures
        passing_hits(hs, directory, threshold).len() <= hs.len(),
        forall|i: int| 0 <= i < passing_hits(hs, directory, threshold).len() ==>
            hit_passes(#[trigger] passing_hits(hs, directory, threshold)[i], directory, threshold),
{
    let pred = |h: IndexHit| hit_passes(h, directory, threshold);
    hs.lemma_filter_len(pred);
    assert forall|i: int| 0 <= i < passing_hits(hs, directory, threshold).len() implies
        hit_passes(#[trigger] passing_hits(hs, directory, threshold)[i], directory, threshold) by {
        hs.lemma_filter_pred(pred, i);
    }
}

/// The first filters look at each hit on its own, lose none that passes and
/// keep the order: no hits give nothing, and a hit added at the end is kept at
/// the end exactly when it passes.
pub proof fn lemma_passing_hits_step(hs: Seq<IndexHit>, h: IndexHit, directory: Option<Seq<char>>, threshold: i32)
    ensures
        passing_hits(Seq::empty(), directory, threshold) == Seq::<IndexHit>::empty(),
        hit_passes(h, directory, threshold) ==> passing_hits(hs.push(h), directory, threshold)
            == passing_hits(hs, directory, threshold).push(h),
        !hit_passes(h, directory, threshold) ==> passing_hits(hs.push(h), directory, threshold)
            == passing_hits(hs, directory, threshold),
{
    reveal_with_fuel(Seq::filter, 1);
    assert(hs.push(h).drop_last() =~= hs);
    assert(hs.push(h).last() == h);
}

/// A hit passes the directory filter exactly when the directory is a prefix of
/// its path (any hit when no directory is given), and the threshold filter
/// exactly when its score is not below the threshold: a score equal to the
/// threshold passes, and a NaN score is below nothing.
pub proof fn lemma_hit_passes_bounds(h: IndexHit, directory: Option<Seq<char>>, threshold: i32)
    ensures
        directory matches Some(d) && !d.is_prefix_of(h.path@) ==> !hit_passes(h, directory, threshold),
        key_rank(h.score) < key_rank(threshold) && !key_is_nan(h.score) && !key_is_nan(threshold)
            ==> !hit_passes(h, directory, threshold),
        (directory is None || directory->0.is_prefix_of(h.path@)) && (key_is_nan(h.score) || key_is_nan(
            threshold,
        ) || key_rank(threshold) <= key_rank(h.score)) ==> hit_passes(h, directory, threshold),
{
}

/// Decides `hit_passes` for one hit.
pub fn passes(hit: &IndexHit, params: &SearchParams) -> (r: bool)
    ensures
        r == hit_passes(*hit, opt_view(params.directory), params.threshold),
{
    let in_dir = match &params.directory {
        Some(d) => starts_with(hit.path.as_str(), d.as_str()),
        None => true,
    };
    in_dir && !score_less_than(hit.score, params.threshold)
}

/// Keeps, in order, the hits under the search directory whose score is not
/// below the threshold.
pub fn select_hits(hits: Vec<IndexHit>, params: &SearchParams) -> (kept: Vec<IndexHit>)
    ensures
        kept@ == passing_hits(hits@, opt_view(params.directory), params.threshold),
{
    let ghost input = hits@;
    let ghost pred = |h: IndexHit| hit_passes(h, opt_view(params.directory), params.threshold);
    let mut rest = hits;
    let mut kept: Vec<IndexHit> = Vec::new();
    let n: usize = rest.len();
    let mut i: usize = 0;
    while rest.len() > 0
        invariant
            i + rest@.len() == input.len(),
            rest@ == input.skip(i as int),
            kept@ == input.take(i as int).filter(pred),
            pred == (|h: IndexHit| hit_passes(h, opt_view(params.directory), params.threshold)),
            input.len() == n,
        decreases rest.len(),
    {
        let h = rest.remove(0);
        proof {
            assert(input.skip(i as int)[0] == input[i as int]);
            assert(input.skip(i as int).remove(0) =~= input.skip(i + 1));
            assert(input.take(i + 1).drop_last() =~= input.take(i as int));
            assert(input.take(i + 1).last() == input[i as int]);
            reveal_with_fuel(Seq::filter, 1);
        }
        if passes(&h, params) {
            kept.push(h);
        }
        i = i + 1;
    }
    assert(input.take(i as int) =~= input);
    kept
}

/// The file type shown for a file: its extension, or `unknown` when it has none.
pub fn file_type_label(extension: Option<String>) -> (t: String)
    ensures
        extension is Some ==> t@ == extension->0@,
        extension is None ==> t@ == seq!['u', 'n', 'k', 'n', 'o', 'w', 'n'],
{
    match extension {
        Some(e) => e,
        None => {
            let t = String::from_str("unknown");
            proof {
                reveal_strlit("unknown");
            }
            assert(t@ =~= seq!['u', 'n', 'k', 'n', 'o', 'w', 'n']);
            t
        },
    }
}

/// A file type is accepted when no file types are configured, or when one of
/// them accepts its lowercased form.
pub open spec fn type_accepted(file_type: Seq<char>, types: Seq<Seq<char>>) -> bool {
    types.len() == 0 || some_type_accepts(types, lowercase(file_type))
}

/// A file type is accepted exactly when no file types are given, or one of
/// them, trimmed and lowercased, equals the lowercased type, with or without a
/// leading dot. An entry that only begins the type (`.js` for `json`) does not
/// accept it.
pub proof fn lemma_type_accepted_needs_equal_entry(t: Seq<char>, types: Seq<Seq<char>>)
    ensures
        type_accepted(t, types) <==> (types.len() == 0 || exists|i: int| 0 <= i < types.len()
            && (lowercase(trimmed(#[trigger] types[i])) == seq!['.'] + lowercase(t)
            || lowercase(trimmed(types[i])) == lowercase(t))),
{
    if types.len() > 0 {
        if type_accepted(t, types) {
            let i = choose|i: int| 0 <= i < types.len() && type_entry_accepts(#[trigger] types[i], lowercase(t));
            assert(lowercase(trimmed(types[i])) == seq!['.'] + lowercase(t) || lowercase(trimmed(types[i])) == lowercase(t));
        }
        if exists|i: int| 0 <= i < types.len()
            && (lowercase(trimmed(#[trigger] types[i])) == seq!['.'] + lowercase(t)
            || lowercase(trimmed(types[i])) == lowercase(t)) {
            let i = choose|i: int| 0 <= i < types.len()
                && (lowercase(trimmed(#[trigger] types[i])) == seq!['.'] + lowercase(t)
                || lowercase(trimmed(types[i])) == lowercase(t));
            assert(type_entry_accepts(types[i], lowercase(t)));
        }
    }
}

/// Decides `type_accepted` for a file type and the search's file types.
pub fn file_type_accepted(file_type: &str, types: &Vec<String>) -> (r: bool)
    ensures
        r == type_accepted(file_type@, types.deep_view()),
        r <==> (types.deep_view().len() == 0 || exists|i: int| 0 <= i < types.deep_view().len()
            && (lowercase(trimmed(#[trigger] types.deep_view()[i])) == seq!['.'] + lowercase(file_type@)
            || lowercase(trimmed(types.deep_view()[i])) == lowercase(file_type@))),
{
    proof {
        lemma_type_accepted_needs_equal_entry(file_type@, types.deep_view());
    }
    if types.len() == 0 {
        return true;
    }
    let lowered = to_lowercase(file_type);
    any_type_accepts(types, lowered.as_str())
}


/// `p` lists each index below `n` exactly once.
pub open spec fn is_index_permutation(p: Seq<int>, n: nat) -> bool {
    &&& p.len() == n
    &&& forall|k: int| 0 <= k < n ==> 0 <= #[trigger] p[k] < n
    &&& forall|k: int, l: int| 0 <= k < l < n ==> #[trigger] p[k] != #[trigger] p[l]
}

/// `out` is `input` rearranged by `p`: its `k`-th result is `input[p[k]]`.
pub open spec fn arranged_by(out: Seq<SearchResultView>, input: Seq<SearchResultView>, p: Seq<int>) -> bool {
    &&& out.len() == input.len()
    &&& is_index_permutation(p, input.len())
    &&& forall|k: int| 0 <= k < out.len() ==> #[trigger] out[k] == input[p[k]]
}

/// No score in `s` is NaN.
pub open spec fn no_nan_scores(s: Seq<SearchResultView>) -> bool {
    forall|k: int| 0 <= k < s.len() ==> !key_is_nan(#[trigger] s[k].score)
}

/// No result scores below a later one.
pub open spec fn by_descending_score(s: Seq<SearchResultView>) -> bool {
    forall|k: int, l: int| 0 <= k < l < s.len() ==> !score_lt(#[trigger] s[k].score, #[trigger] s[l].score)
}

/// Results of equal score keep the order they had in the input.
pub open spec fn keeps_ties_in_order(s: Seq<SearchResultView>, p: Seq<int>) -> bool {
    forall|k: int, l: int| 0 <= k < l < s.len() && score_eq(#[trigger] s[k].score, #[trigger] s[l].score)
        ==> p[k] < p[l]
}

/// `out` is `input` ordered by descending score as a stable sort orders it:
/// a rearrangement, and when no score is NaN, by descending score with ties
/// in input order.
pub open spec fn sorted_by_score(out: Seq<SearchResultView>, input: Seq<SearchResultView>) -> bool {
    exists|p: Seq<int>| #![trigger arranged_by(out, input, p)] {
        &&& arranged_by(out, input, p)
        &&& no_nan_scores(input) ==> by_descending_score(out) && keeps_ties_in_order(out, p)
    }
}

/// Orders results by descending score, as a stable sort whose comparison is
/// the float `partial_cmp` of the scores, an incomparable pair counting as
/// equal. The results are always a rearrangement of the input; when no score
/// is NaN they come by descending score, and equal scores keep their input
/// order. With a NaN score the comparison is no order, and nothing is claimed
/// of the arrangement.
pub fn sort_by_score(results: Vec<SearchResult>) -> (sorted: Vec<SearchResult>)
    ensures
        sorted_by_score(result_views(sorted@), result_views(results@)),
{
    let ghost input = result_views(results@);
    let mut rest = results;
    let mut out: Vec<SearchResult> = Vec::new();
    let ghost mut perm: Seq<int> = Seq::empty();
    let n: usize = rest.len();
    let mut i: usize = 0;
    proof {
        assert(result_views(out@) =~= Seq::<SearchResultView>::empty());
    }
    while rest.len() > 0
        invariant
            i + rest@.len() == input.len(),
            input.len() == n,
            result_views(rest@) == input.skip(i as int),
            result_views(out@).len() == i,
            is_index_permutation(perm, i as nat),
            forall|k: int| 0 <= k < i ==> #[trigger] result_views(out@)[k] == input[perm[k]],
            no_nan_scores(input) ==> by_descending_score(result_views(out@)) && keeps_ties_in_order(
                result_views(out@),
                perm,
            ),
        decreases rest.len(),
    {
        let ghost old_rest = rest@;
        let x = rest.remove(0);
        proof {
            assert(result_views(old_rest)[0] == x@);
            assert(input.skip(i as int)[0] == input[i as int]);
            assert(x@ == input[i as int]);
            assert(rest@ == old_rest.remove(0));
            assert forall|k: int| 0 <= k < rest@.len() implies #[trigger] result_views(rest@)[k] == input.skip(i + 1)[k] by {
                assert(rest@[k] == old_rest[k + 1]);
                assert(result_views(old_rest)[k + 1] == input.skip(i as int)[k + 1]);
            }
            assert(result_views(rest@) =~= input.skip(i + 1));
        }
        let ghost ov = result_views(out@);
        let mut p: usize = 0;
        while p < out.len() && !score_less_than(out[p].score, x.score)
            invariant
                ov == result_views(out@),
                p <= ov.len(),
                forall|k: int| 0 <= k < p ==> !score_lt(#[trigger] ov[k].score, x.score),
            decreases ov.len() - p,
        {
            assert(ov[p as int].score == out@[p as int].score);
            p = p + 1;
        }
        proof {
            if p < ov.len() {
                assert(ov[p as int].score == out@[p as int].score);
            }
        }
        let ghost old_out = ov;
        let ghost old_perm = perm;
        let ghost old_exact = out@;
        out.insert(p, x);
        proof {
            perm = old_perm.insert(p as int, i as int);
            assert(result_views(out@) =~= old_out.insert(p as int, x@)) by {
                assert(out@ == old_exact.insert(p as int, x));
            }
            let nv = result_views(out@);
            assert forall|k: int| 0 <= k < i + 1 implies 0 <= #[trigger] perm[k] < i + 1 by {
                if k < p { assert(perm[k] == old_perm[k]); }
                else if k > p { assert(perm[k] == old_perm[k - 1]); }
            }
            assert forall|k: int, l: int| 0 <= k < l < i + 1 implies #[trigger] perm[k] != #[trigger] perm[l] by {
                if k < p && l < p { assert(perm[k] == old_perm[k] && perm[l] == old_perm[l]); }
                else if k < p && l > p { assert(perm[k] == old_perm[k] && perm[l] == old_perm[l - 1]); }
                else if k > p && l > p { assert(perm[k] == old_perm[k - 1] && perm[l] == old_perm[l - 1]); }
                else if k < p && l == p { assert(perm[k] == old_perm[k]); }
                else if k == p && l > p { assert(perm[l] == old_perm[l - 1]); }
            }
            assert forall|k: int| 0 <= k < i + 1 implies #[trigger] nv[k] == input[perm[k]] by {
                if k < p { assert(nv[k] == old_out[k]); }
                else if k > p { assert(nv[k] == old_out[k - 1]); }
            }
            if no_nan_scores(input) {
                assert(!key_is_nan(input[i as int].score));
                assert(x@.score == x.score);
                assert(!key_is_nan(x.score));
                assert forall|k: int| 0 <= k < old_out.len() implies !key_is_nan(#[trigger] old_out[k].score) by {
                    assert(!key_is_nan(input[old_perm[k]].score));
                }
                // Everything after the insertion point scores below `x`.
                assert forall|k: int| p <= k < old_out.len() implies score_lt(#[trigger] old_out[k].score, x.score) by {
                    assert(score_lt(old_out[p as int].score, x.score));
                    if k > p {
                        assert(!score_lt(old_out[p as int].score, old_out[k].score));
                    }
                }
                assert forall|k: int, l: int| 0 <= k < l < nv.len() implies
                    !score_lt(#[trigger] nv[k].score, #[trigger] nv[l].score) by {
                    if k < p && l < p {
                        assert(nv[k] == old_out[k] && nv[l] == old_out[l]);
                    } else if k < p && l == p {
                        assert(nv[k] == old_out[k]);
                    } else if k < p && l > p {
                        assert(nv[k] == old_out[k] && nv[l] == old_out[l - 1]);
                    } else if k == p {
                        assert(nv[l] == old_out[l - 1]);
                    } else {
                        assert(nv[k] == old_out[k - 1] && nv[l] == old_out[l - 1]);
                    }
                }
                assert forall|k: int, l: int| 0 <= k < l < nv.len()
                    && score_eq(#[trigger] nv[k].score, #[trigger] nv[l].score) implies perm[k] < perm[l] by {
                    if k < p && l < p {
                        assert(nv[k] == old_out[k] && nv[l] == old_out[l]);
                        assert(perm[k] == old_perm[k] && perm[l] == old_perm[l]);
                    } else if k < p && l == p {
                        assert(perm[k] == old_perm[k]);
                    } else if k < p && l > p {
                        assert(nv[k] == old_out[k] && nv[l] == old_out[l - 1]);
                        assert(perm[k] == old_perm[k] && perm[l] == old_perm[l - 1]);
                    } else if k == p {
                        assert(nv[l] == old_out[l - 1]);
                        assert(score_lt(old_out[l - 1].score, x.score));
                    } else {
                        assert(nv[k] == old_out[k - 1] && nv[l] == old_out[l - 1]);
                        assert(perm[k] == old_perm[k - 1] && perm[l] == old_perm[l - 1]);
                    }
                }
            }
        }
        i = i + 1;
    }
    assert(arranged_by(result_views(out@), input, perm));
    out
}


/// The text shown for a modification time: the calendar text, or `Unknown`.
pub open spec fn label_text(formatted: Option<Seq<char>>) -> Seq<char> {
    match formatted {
        Some(t) => t,
        None => seq!['U', 'n', 'k', 'n', 'o', 'w', 'n'],
    }
}

/// The calendar text when there is one, otherwise `Unknown`.
pub fn label_or_unknown(formatted: Option<String>) -> (s: String)
    ensures
        s@ == label_text(opt_view(formatted)),
{
    match formatted {
        Some(t) => t,
        None => {
            let s = String::from_str("Unknown");
            proof {
                reveal_strlit("Unknown");
            }
            assert(s@ =~= seq!['U', 'n', 'k', 'n', 'o', 'w', 'n']);
            s
        },
    }
}

/// The modification time of a file, given in seconds since the UNIX epoch,
/// as shown in a result. The seconds are read as an `i64` (wrapping above
/// `i64::MAX`).
pub fn modified_label(secs: u64) -> (s: String)
    ensures
        s@ == label_text(utc_timestamp_text(secs as i64, display_format())),
        calendar_text(s@) || s@ == seq!['U', 'n', 'k', 'n', 'o', 'w', 'n'],
{
    let t = format_utc_timestamp(secs as i64, "%Y-%m-%d %H:%M:%S");
    label_or_unknown(t)
}

/// The summary of a file: the first characters of its content, or nothing when
/// the content could not be read.
pub open spec fn summary_of(content: Option<Seq<char>>) -> Seq<char> {
    match content {
        Some(c) => c.take(if SUMMARY_CHARS < c.len() { SUMMARY_CHARS as int } else { c.len() as int }),
        None => Seq::empty(),
    }
}

/// The summary of a result is the beginning of its file's content: a prefix of
/// it, 200 characters long or the whole content when shorter; a file whose
/// content could not be read has an empty summary.
pub proof fn lemma_summary_is_beginning(content: Option<Seq<char>>)
    ensures
        content is None ==> summary_of(content).len() == 0,
        content matches Some(c) ==> summary_of(content).is_prefix_of(c)
            && summary_of(content).len() == (if c.len() < 200 { c.len() as int } else { 200int }),
{
    if let Some(c) = content {
        let n: int = if 200 < c.len() { 200 } else { c.len() as int };
        assert(summary_of(content) =~= c.subrange(0, n));
    }
}

/// Builds the result shown for a hit from what was learnt of its file.
pub fn build_result(hit: IndexHit, file_type: String, size: u64, modified_secs: u64, content: Option<String>)
    -> (r: SearchResult)
    ensures
        r.path == hit.path,
        r.score == hit.score,
        r.file_type == file_type,
        r.size == size,
        r.summary@ == summary_of(opt_view(content)),
        content matches Some(c) ==> r.summary@.is_prefix_of(c@)
            && r.summary@.len() == (if c@.len() < 200 { c@.len() as int } else { 200int }),
        content is None ==> r.summary@.len() == 0,
        r.modified@ == label_text(utc_timestamp_text(modified_secs as i64, display_format())),
{
    proof {
        lemma_summary_is_beginning(opt_view(content));
    }
    let summary = match &content {
        Some(c) => first_chars(c.as_str(), SUMMARY_CHARS),
        None => String::new(),
    };
    SearchResult {
        path: hit.path,
        score: hit.score,
        summary,
        file_type,
        size,
        modified: modified_label(modified_secs),
    }
}

impl SearchResponse {
    /// The response carrying `results`, their count, and no timing.
    pub fn from_results(results: Vec<SearchResult>) -> (r: SearchResponse)
        ensures
            r.results == results,
            r.total == results@.len(),
            r.query_time_ms == 0,
    {
        let total: usize = results.len();
        SearchResponse { results, total, query_time_ms: 0 }
    }
}

/// What the file system tells of a hit's file: its length, its modification
/// time in seconds since the UNIX epoch, its extension when it has one that is
/// text, and its content when it could be read as text.
pub struct FileFacts {
    pub size: u64,
    pub modified_secs: u64,
    pub extension: Option<String>,
    pub content: Option<String>,
}

/// The file type shown for an extension.
pub open spec fn label_of(extension: Option<Seq<char>>) -> Seq<char> {
    match extension {
        Some(e) => e,
        None => seq!['u', 'n', 'k', 'n', 'o', 'w', 'n'],
    }
}

/// The result shown for a hit whose file is described by `f`.
pub open spec fn result_of(h: IndexHit, f: FileFacts) -> SearchResultView {
    SearchResultView {
        path: h.path@,
        score: h.score,
        summary: summary_of(opt_view(f.content)),
        file_type: label_of(opt_view(f.extension)),
        size: f.size,
        modified: label_text(utc_timestamp_text(f.modified_secs as i64, display_format())),
    }
}

/// A hit yields a result when its file could be examined and its type is
/// accepted.
pub open spec fn found_result(e: (IndexHit, Option<FileFacts>), types: Seq<Seq<char>>) -> Option<SearchResultView> {
    match e.1 {
        Some(f) => if type_accepted(label_of(opt_view(f.extension)), types) {
            Some(result_of(e.0, f))
        } else {
            None
        },
        None => None,
    }
}

/// The results, in hit order, of the hits whose files were examined.
pub open spec fn candidate_results(found: Seq<(IndexHit, Option<FileFacts>)>, types: Seq<Seq<char>>) -> Seq<SearchResultView> {
    found.filter_map(|e: (IndexHit, Option<FileFacts>)| found_result(e, types))
}

/// Examined hits become results one by one, none lost, none reordered: no
/// hits give no results, and a hit added at the end adds its result at the end
/// when its file was examined and its type is accepted, and adds nothing when
/// its file could not be examined or its type is not accepted.
pub proof fn lemma_candidate_results_step(
    found: Seq<(IndexHit, Option<FileFacts>)>,
    e: (IndexHit, Option<FileFacts>),
    types: Seq<Seq<char>>,
)
    ensures
        candidate_results(Seq::empty(), types) == Seq::<SearchResultView>::empty(),
        e.1 is None ==> candidate_results(found.push(e), types) == candidate_results(found, types),
        e.1 matches Some(f) ==> (!type_accepted(label_of(opt_view(f.extension)), types)
            ==> candidate_results(found.push(e), types) == candidate_results(found, types)),
        e.1 matches Some(f) ==> (type_accepted(label_of(opt_view(f.extension)), types)
            ==> candidate_results(found.push(e), types) == candidate_results(found, types).push(result_of(e.0, f))),
{
    let g = |x: (IndexHit, Option<FileFacts>)| found_result(x, types);
    assert(found.push(e).drop_last() =~= found);
    assert(found.push(e).last() == e);
    assert(candidate_results(found.push(e), types) == found.push(e).filter_map(g));
    assert(candidate_results(found, types) == found.filter_map(g));
    assert(Seq::<(IndexHit, Option<FileFacts>)>::empty().filter_map(g) =~= Seq::<SearchResultView>::empty());
    if let Some(f) = e.1 {
        if type_accepted(label_of(opt_view(f.extension)), types) {
            assert(found.filter_map(g) + seq![result_of(e.0, f)] =~= found.filter_map(g).push(result_of(e.0, f)));
        }
    }
}

/// Ordering the results keeps every one of them and adds none: the output is
/// as long as the input, every output result is an input result and every
/// input result occurs in the output; when no score is NaN, no result has a
/// lower score than a result after it.
pub proof fn lemma_sorted_keeps_every_result(out: Seq<SearchResultView>, input: Seq<SearchResultView>)
    requires
        sorted_by_score(out, input),
    ensures
        out.len() == input.len(),
        forall|k: int| 0 <= k < out.len() ==> input.contains(#[trigger] out[k]),
        forall|j: int| 0 <= j < input.len() ==> out.contains(#[trigger] input[j]),
        no_nan_scores(input) ==> forall|k: int, l: int|
            0 <= k < l < out.len() ==> key_rank(#[trigger] out[k].score) >= key_rank(#[trigger] out[l].score),
{
    let p = choose|p: Seq<int>| #[trigger] arranged_by(out, input, p)
        && (no_nan_scores(input) ==> by_descending_score(out) && keeps_ties_in_order(out, p));
    lemma_permutation_onto(p, input.len());
    assert forall|k: int| 0 <= k < out.len() implies input.contains(#[trigger] out[k]) by {
        assert(out[k] == input[p[k]]);
    }
    assert forall|j: int| 0 <= j < input.len() implies out.contains(#[trigger] input[j]) by {
        assert(index_reached(p, j));
        let k = choose|k: int| 0 <= k < p.len() && p[k] == j;
        assert(out[k] == input[j]);
    }
    if no_nan_scores(input) {
        assert forall|k: int, l: int| 0 <= k < l < out.len() implies key_rank(#[trigger] out[k].score)
            >= key_rank(#[trigger] out[l].score) by {
            assert(out[k] == input[p[k]]);
            assert(out[l] == input[p[l]]);
            assert(!key_is_nan(input[p[k]].score));
            assert(!key_is_nan(input[p[l]].score));
            assert(!score_lt(out[k].score, out[l].score));
        }
    }
}

/// Turns the hits that passed the first filters, each with what the file
/// system told of its file (`None` when the file could not be examined), into
/// the results of the search: files that could not be examined or whose type is
/// not accepted are left out, and the rest come by descending score.
pub fn finish_search(found: Vec<(IndexHit, Option<FileFacts>)>, types: &Vec<String>) -> (results: Vec<SearchResult>)
    ensures
        sorted_by_score(result_views(results@), candidate_results(found@, types.deep_view())),
{
    let ghost input = found@;
    let ghost tv = types.deep_view();
    let ghost f = |e: (IndexHit, Option<FileFacts>)| found_result(e, tv);
    let mut rest = found;
    let mut built: Vec<SearchResult> = Vec::new();
    let n: usize = rest.len();
    let mut i: usize = 0;
    proof {
        assert(result_views(built@) =~= input.take(0).filter_map(f));
    }
    while rest.len() > 0
        invariant
            i + rest@.len() == input.len(),
            input.len() == n,
            rest@ == input.skip(i as int),
            tv == types.deep_view(),
            f == (|e: (IndexHit, Option<FileFacts>)| found_result(e, tv)),
            result_views(built@) == input.take(i as int).filter_map(f),
        decreases rest.len(),
    {
        let ghost old_built = built@;
        let e = rest.remove(0);
        proof {
            input.lemma_filter_map_take_succ(f, i as int);
            assert(input.skip(i as int)[0] == input[i as int]);
            assert(input.skip(i as int).remove(0) =~= input.skip(i + 1));
        }
        let (hit, facts) = e;
        match facts {
            Some(fx) => {
                let FileFacts { size, modified_secs, extension, content } = fx;
                let ghost ext_view = opt_view(extension);
                let ghost content_view = opt_view(content);
                let file_type = file_type_label(extension);
                if file_type_accepted(file_type.as_str(), types) {
                    let r = build_result(hit, file_type, size, modified_secs, content);
                    proof {
                        assert(r@ == result_of(input[i as int].0, input[i as int].1->0));
                        assert(f(input[i as int]) == Some(r@));
                    }
                    built.push(r);
                    proof {
                        assert(result_views(built@) =~= result_views(old_built).push(r@));
                    }
                } else {
                    assert(f(input[i as int]) is None);
                }
            },
            None => {
                assert(f(input[i as int]) is None);
            },
        }
        i = i + 1;
    }
    assert(input.take(i as int) =~= input);
    sort_by_score(built)
}

/// Where each result of `candidate_results` comes from: some hit whose file
/// was examined and whose type is accepted.
pub proof fn lemma_candidate_origin(found: Seq<(IndexHit, Option<FileFacts>)>, types: Seq<Seq<char>>, j: int)
    requires
        0 <= j < candidate_results(found, types).len(),
    ensures
        exists|i: int| 0 <= i < found.len()
            && #[trigger] found_result(found[i], types) == Some(candidate_results(found, types)[j]),
    decreases found.len(),
{
    let f = |e: (IndexHit, Option<FileFacts>)| found_result(e, types);
    let rest = found.drop_last();
    assert(candidate_results(found, types) == found.filter_map(f));
    let cr = candidate_results(rest, types);
    assert(rest.filter_map(f) == cr);
    if j < cr.len() {
        lemma_candidate_origin(rest, types, j);
        let i = choose|i: int| 0 <= i < rest.len() && #[trigger] found_result(rest[i], types) == Some(cr[j]);
        assert(found[i] == rest[i]);
        match f(found.last()) {
            Some(r) => assert(candidate_results(found, types) == cr + seq![r]),
            None => assert(candidate_results(found, types) == cr),
        }
        assert(found_result(found[i], types) == Some(candidate_results(found, types)[j]));
    } else {
        let last = found.len() - 1;
        match f(found.last()) {
            Some(r) => {
                assert(candidate_results(found, types) == cr + seq![r]);
                assert(found_result(found[last], types) == Some(candidate_results(found, types)[j]));
            },
            None => {
                assert(candidate_results(found, types) == cr);
            },
        }
    }
}

/// A result lies under `directory` (if one is given), does not score below
/// `threshold`, and has a file type that `types` accepts.
pub open spec fn result_passes(r: SearchResultView, directory: Option<Seq<char>>, threshold: i32, types: Seq<Seq<char>>) -> bool {
    &&& (match directory {
        Some(d) => d.is_prefix_of(r.path),
        None => true,
    })
    &&& !score_lt(r.score, threshold)
    &&& type_accepted(r.file_type, types)
}

/// Every result of a search lies under its directory, scores at least its
/// threshold and has an accepted file type, whatever the index returned and
/// the file system told: the hits examined are those that passed the first
/// filters, and the results are what `finish_search` makes of them.
pub proof fn lemma_results_respect_filters(
    hits: Seq<IndexHit>,
    found: Seq<(IndexHit, Option<FileFacts>)>,
    types: Seq<Seq<char>>,
    directory: Option<Seq<char>>,
    threshold: i32,
    results: Seq<SearchResultView>,
)
    requires
        found.len() == passing_hits(hits, directory, threshold).len(),
        forall|i: int| 0 <= i < found.len() ==> #[trigger] found[i].0 == passing_hits(hits, directory, threshold)[i],
        sorted_by_score(results, candidate_results(found, types)),
    ensures
        forall|k: int| 0 <= k < results.len() ==> result_passes(#[trigger] results[k], directory, threshold, types),
{
    let cands = candidate_results(found, types);
    let p = choose|p: Seq<int>| #[trigger] arranged_by(results, cands, p)
        && (no_nan_scores(cands) ==> by_descending_score(results) && keeps_ties_in_order(results, p));
    lemma_passing_hits_pass(hits, directory, threshold);
    assert forall|k: int| 0 <= k < results.len() implies result_passes(#[trigger] results[k], directory, threshold, types) by {
        let j = p[k];
        assert(results[k] == cands[j]);
        lemma_candidate_origin(found, types, j);
        let i = choose|i: int| 0 <= i < found.len() && #[trigger] found_result(found[i], types) == Some(cands[j]);
        let h = found[i].0;
        assert(h == passing_hits(hits, directory, threshold)[i]);
        assert(hit_passes(h, directory, threshold));
    }
}

/// Index `j` occurs in `p`.
pub open spec fn index_reached(p: Seq<int>, j: int) -> bool {
    exists|k: int| 0 <= k < p.len() && p[k] == j
}

/// A permutation of the indices below `n` reaches each of them.
pub proof fn lemma_permutation_onto(p: Seq<int>, n: nat)
    requires
        is_index_permutation(p, n),
    ensures
        forall|j: int| 0 <= j < n ==> #[trigger] index_reached(p, j),
{
    assert(p.no_duplicates()) by {
        assert forall|a: int, b: int| 0 <= a < p.len() && 0 <= b < p.len() && a != b implies p[a] != p[b] by {
            if a < b {
                assert(p[a] != p[b]);
            } else {
                assert(p[b] != p[a]);
            }
        }
    }
    p.unique_seq_to_set();
    lemma_int_range(0, n as int);
    assert(p.to_set().subset_of(set_int_range(0, n as int))) by {
        assert forall|v: int| p.to_set().contains(v) implies set_int_range(0, n as int).contains(v) by {
            let k = choose|k: int| 0 <= k < p.len() && p[k] == v;
            assert(0 <= p[k] < n);
        }
    }
    vstd::seq_lib::seq_to_set_is_finite(p);
    lemma_subset_equality(p.to_set(), set_int_range(0, n as int));
    assert forall|j: int| 0 <= j < n implies #[trigger] index_reached(p, j) by {
        assert(set_int_range(0, n as int).contains(j));
        assert(p.to_set().contains(j));
    }
}

/// In an arrangement by descending score that keeps ties in order, a result
/// at an earlier position scores higher, or scores the same and came earlier.
proof fn lemma_earlier_position(input: Seq<SearchResultView>, out: Seq<SearchResultView>, p: Seq<int>, k: int, l: int)
    requires
        arranged_by(out, input, p),
        no_nan_scores(input),
        by_descending_score(out),
        keeps_ties_in_order(out, p),
        0 <= k < l < out.len(),
    ensures
        key_rank(input[p[k]].score) > key_rank(input[p[l]].score)
            || (key_rank(input[p[k]].score) == key_rank(input[p[l]].score) && p[k] < p[l]),
{
    assert(out[k] == input[p[k]]);
    assert(out[l] == input[p[l]]);
    assert(0 <= p[k] < input.len());
    assert(0 <= p[l] < input.len());
    assert(!key_is_nan(input[p[k]].score));
    assert(!key_is_nan(input[p[l]].score));
    assert(!score_lt(out[k].score, out[l].score));
    if key_rank(input[p[k]].score) == key_rank(input[p[l]].score) {
        assert(score_eq(out[k].score, out[l].score));
    }
}

/// The order of the results is fully determined: when no score is NaN, two
/// orderings of the same results by descending score with ties kept in order
/// are the same.
pub proof fn lemma_score_order_is_unique(input: Seq<SearchResultView>, out1: Seq<SearchResultView>, out2: Seq<SearchResultView>)
    requires
        no_nan_scores(input),
        sorted_by_score(out1, input),
        sorted_by_score(out2, input),
    ensures
        out1 == out2,
{
    let p1 = choose|p: Seq<int>| #[trigger] arranged_by(out1, input, p)
        && (no_nan_scores(input) ==> by_descending_score(out1) && keeps_ties_in_order(out1, p));
    let p2 = choose|p: Seq<int>| #[trigger] arranged_by(out2, input, p)
        && (no_nan_scores(input) ==> by_descending_score(out2) && keeps_ties_in_order(out2, p));
    let n = input.len();
    lemma_permutation_onto(p1, n);
    lemma_permutation_onto(p2, n);
    lemma_same_positions(input, out1, out2, p1, p2, n as int);
    assert forall|k: int| 0 <= k < n implies out1[k] == out2[k] by {
        assert(out1[k] == input[p1[k]]);
        assert(out2[k] == input[p2[k]]);
    }
    assert(out1 =~= out2);
}

/// Two such arrangements place the same input at each of the first `m` positions.
proof fn lemma_same_positions(
    input: Seq<SearchResultView>,
    out1: Seq<SearchResultView>,
    out2: Seq<SearchResultView>,
    p1: Seq<int>,
    p2: Seq<int>,
    m: int,
)
    requires
        no_nan_scores(input),
        arranged_by(out1, input, p1),
        arranged_by(out2, input, p2),
        by_descending_score(out1),
        by_descending_score(out2),
        keeps_ties_in_order(out1, p1),
        keeps_ties_in_order(out2, p2),
        forall|j: int| 0 <= j < input.len() ==> #[trigger] index_reached(p1, j),
        forall|j: int| 0 <= j < input.len() ==> #[trigger] index_reached(p2, j),
        0 <= m <= input.len(),
    ensures
        forall|j: int| 0 <= j < m ==> #[trigger] p1[j] == p2[j],
    decreases m,
{
    if m > 0 {
        let k = m - 1;
        lemma_same_positions(input, out1, out2, p1, p2, k);
        let a = p1[k];
        let b = p2[k];
        if a != b {
            assert(0 <= b < input.len());
            assert(index_reached(p1, b));
            let l = choose|l: int| 0 <= l < p1.len() && #[trigger] p1[l] == b;
            if l < k {
                assert(p1[l] == p2[l]);
                assert(p2[l] != p2[k]);
            }
            assert(l > k);
            lemma_earlier_position(input, out1, p1, k, l);
            assert(0 <= a < input.len());
            assert(index_reached(p2, a));
            let q = choose|q: int| 0 <= q < p2.len() && #[trigger] p2[q] == a;
            if q < k {
                assert(p1[q] == p2[q]);
                assert(p1[q] != p1[k]);
            }
            assert(q > k);
            lemma_earlier_position(input, out2, p2, k, q);
            assert(false);
        }
    }
}

} // verus!
