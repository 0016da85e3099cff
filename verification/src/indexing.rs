//! Decisions of an indexing run: which directory entries are skipped, which
//! files are indexed, how the files are split into batches, and the tally of
//! files processed and indexed.
use vstd::prelude::*;
use crate::text::{some_type_accepts, lowercase, any_type_accepts, to_lowercase, trimmed,
    lemma_some_type_accepts_needs_equal_entry};

verus! {

/// Number of files sent to the index at once.
pub const BATCH_SIZE: usize = 10usize;

/// The name of an entry, or the empty name when it has none that is text.
pub open spec fn name_or_empty(name: Option<Seq<char>>) -> Seq<char> {
    match name {
        Some(n) => n,
        None => Seq::empty(),
    }
}

/// An entry is skipped (with everything below it) when its name is one of the
/// excluded names.
pub open spec fn name_excluded(name: Option<Seq<char>>, excluded: Seq<Seq<char>>) -> bool {
    exists|i: int| 0 <= i < excluded.len() && #[trigger] excluded[i] == name_or_empty(name)
}

/// An entry is skipped exactly when its name, or the empty name when it has
/// none that is text, equals one of the excluded names; an excluded name that
/// only begins it (`.git` for `.github`) does not skip it.
pub proof fn lemma_excluded_means_equal_name(name: Option<Seq<char>>, excluded: Seq<Seq<char>>)
    ensures
        name_excluded(name, excluded) <==> exists|i: int| 0 <= i < excluded.len() && #[trigger] excluded[i] == match name {
            Some(n) => n,
            None => Seq::<char>::empty(),
        },
{
}

pub open spec fn opt_str_view(s: Option<&str>) -> Option<Seq<char>> {
    match s {
        Some(t) => Some(t@),
        None => None,
    }
}

/// Decides `name_excluded` for the name of a directory entry.
pub fn is_excluded(name: Option<&str>, excluded: &Vec<String>) -> (r: bool)
    ensures
        r == name_excluded(opt_str_view(name), excluded.deep_view()),
        r <==> exists|i: int| 0 <= i < excluded.deep_view().len() && #[trigger] excluded.deep_view()[i] == match name {
            Some(n) => n@,
            None => Seq::<char>::empty(),
        },
{
    proof {
        lemma_excluded_means_equal_name(opt_str_view(name), excluded.deep_view());
    }
    let ghost ev = excluded.deep_view();
    let n = match name {
        Some(t) => String::from_str(t),
        None => String::new(),
    };
    assert(n@ == name_or_empty(opt_str_view(name)));
    let mut i: usize = 0;
    while i < excluded.len()
        invariant
            ev == excluded.deep_view(),
            ev.len() == excluded.len(),
            i <= excluded.len(),
            n@ == name_or_empty(opt_str_view(name)),
            forall|j: int| 0 <= j < i ==> #[trigger] ev[j] != n@,
        decreases excluded.len() - i,
    {
        if excluded[i] == n {
            assert(ev[i as int] == n@);
            return true;
        }
        i = i + 1;
    }
    false
}

/// A file is indexed when no file types are configured or one of them accepts
/// its lowercased extension (the empty extension when it has none).
pub open spec fn file_selected(extension: Option<Seq<char>>, types: Seq<Seq<char>>) -> bool {
    types.len() == 0 || some_type_accepts(types, lowercase(name_or_empty(extension)))
}

/// A file is indexed exactly when no file types are configured, or one of
/// them, trimmed and lowercased, equals its lowercased extension (empty when
/// it has none), with or without a leading dot.
pub proof fn lemma_file_selected_needs_equal_entry(extension: Option<Seq<char>>, types: Seq<Seq<char>>)
    ensures
        file_selected(extension, types) <==> (types.len() == 0 || exists|i: int| 0 <= i < types.len()
            && (lowercase(trimmed(#[trigger] types[i])) == seq!['.'] + lowercase(match extension {
                Some(e) => e,
                None => Seq::<char>::empty(),
            }) || lowercase(trimmed(types[i])) == lowercase(match extension {
                Some(e) => e,
                None => Seq::<char>::empty(),
            }))),
{
    let x = lowercase(match extension {
        Some(e) => e,
        None => Seq::<char>::empty(),
    });
    assert(x == lowercase(name_or_empty(extension)));
    lemma_some_type_accepts_needs_equal_entry(types, x);
}

/// Decides `file_selected` for a file's extension.
pub fn selected_for_index(extension: Option<&str>, types: &Vec<String>) -> (r: bool)
    ensures
        r == file_selected(opt_str_view(extension), types.deep_view()),
        r <==> (types.deep_view().len() == 0 || exists|i: int| 0 <= i < types.deep_view().len()
            && (lowercase(trimmed(#[trigger] types.deep_view()[i])) == seq!['.'] + lowercase(match extension {
                Some(e) => e@,
                None => Seq::<char>::empty(),
            }) || lowercase(trimmed(types.deep_view()[i])) == lowercase(match extension {
                Some(e) => e@,
                None => Seq::<char>::empty(),
            }))),
{
    proof {
        lemma_file_selected_needs_equal_entry(opt_str_view(extension), types.deep_view());
    }
    if types.len() == 0 {
        return true;
    }
    let ext = match extension {
        Some(e) => e,
        None => "",
    };
    proof {
        reveal_strlit("");
    }
    assert(ext@ == name_or_empty(opt_str_view(extension)));
    let lowered = to_lowercase(ext);
    any_type_accepts(types, lowered.as_str())
}

/// The `i`-th batch of `len` files split into batches of `size`.
pub open spec fn batch_range(i: int, size: int, len: int) -> (int, int) {
    (i * size, if i * size + size <= len { i * size + size } else { len })
}

/// `ranges` splits `len` files into consecutive batches of `size`, the last one
/// possibly shorter, as `chunks(size)` does.
pub open spec fn splits_into_batches(ranges: Seq<(usize, usize)>, size: int, len: int) -> bool {
    &&& forall|i: int| 0 <= i < ranges.len() ==>
        (#[trigger] ranges[i].0 as int, ranges[i].1 as int) == batch_range(i, size, len)
    &&& ranges.len() * size >= len
    &&& ranges.len() > 0 ==> (ranges.len() - 1) * size < len
}

/// The batches of `len` files, each a range of positions, as `chunks(size)`
/// splits them.
pub fn batch_ranges(len: usize, size: usize) -> (ranges: Vec<(usize, usize)>)
    requires
        size > 0,
    ensures
        splits_into_batches(ranges@, size as int, len as int),
{
    let mut ranges: Vec<(usize, usize)> = Vec::new();
    let mut start: usize = 0;
    assert(ranges@.len() * size == 0) by (nonlinear_arith)
        requires
            ranges@.len() == 0,
    ;
    while start < len
        invariant
            size > 0,
            start <= len,
            start <= ranges@.len() * size,
            start < len ==> start == ranges@.len() * size,
            forall|i: int| 0 <= i < ranges@.len() ==>
                (#[trigger] ranges@[i].0 as int, ranges@[i].1 as int) == batch_range(i, size as int, len as int),
            ranges@.len() > 0 ==> (ranges@.len() - 1) * size < len,
        decreases len - start,
    {
        let end: usize = if len - start <= size { len } else { start + size };
        let ghost k = ranges@.len();
        ranges.push((start, end));
        proof {
            assert((k + 1) * size == k * size + size) by (nonlinear_arith);
            assert(ranges@[k as int] == (start, end));
        }
        start = end;
    }
    ranges
}

/// The batches of `splits_into_batches` partition the files: they start at the
/// first file, each one begins where the previous one ended, none is empty or
/// longer than `size`, and the last ends at the last file.
pub proof fn lemma_batches_partition(ranges: Seq<(usize, usize)>, size: int, len: int)
    requires
        size > 0,
        len >= 0,
        splits_into_batches(ranges, size, len),
    ensures
        ranges.len() == 0 <==> len == 0,
        ranges.len() > 0 ==> ranges[0].0 == 0,
        ranges.len() > 0 ==> ranges[ranges.len() - 1].1 == len,
        forall|i: int| 0 <= i < ranges.len() ==> #[trigger] ranges[i].0 < ranges[i].1 <= ranges[i].0 + size,
        forall|i: int| 0 <= i < ranges.len() - 1 ==> #[trigger] ranges[i].1 == ranges[i + 1].0,
{
    assert forall|i: int| 0 <= i < ranges.len() implies #[trigger] ranges[i].0 < ranges[i].1 <= ranges[i].0 + size by {
        assert((ranges[i].0 as int, ranges[i].1 as int) == batch_range(i, size, len));
        assert(i * size <= (ranges.len() - 1) * size) by (nonlinear_arith)
            requires
                0 <= i <= ranges.len() - 1,
                size > 0,
        ;
    }
    assert forall|i: int| 0 <= i < ranges.len() - 1 implies #[trigger] ranges[i].1 == ranges[i + 1].0 by {
        assert((ranges[i].0 as int, ranges[i].1 as int) == batch_range(i, size, len));
        assert((ranges[i + 1].0 as int, ranges[i + 1].1 as int) == batch_range(i + 1, size, len));
        assert((i + 1) * size == i * size + size) by (nonlinear_arith);
        assert((i + 1) * size <= (ranges.len() - 1) * size) by (nonlinear_arith)
            requires
                0 <= i + 1 <= ranges.len() - 1,
                size > 0,
        ;
    }
    if ranges.len() > 0 {
        let last: int = ranges.len() - 1;
        assert((ranges[0].0 as int, ranges[0].1 as int) == batch_range(0, size, len));
        assert((ranges[last].0 as int, ranges[last].1 as int) == batch_range(last, size, len));
        assert(last * size + size == ranges.len() * size) by (nonlinear_arith)
            requires
                last == ranges.len() - 1,
        ;
    } else {
        assert(ranges.len() * size == 0);
    }
}

/// What became of one file of a run: the parser could not read it, the
/// embedding worker could not embed its text, or it was embedded and joins the
/// batch sent to the index.
#[derive(Debug)]
pub enum FileOutcome {
    ParseFailed,
    EmbedFailed,
    Embedded,
}

/// The progress of a run: how many files it set out to index, how many it has
/// processed, how many of those were indexed, and how many were indexed in the
/// current batch.
pub struct IndexTally {
    target: usize,
    processed: usize,
    indexed: usize,
    batch_indexed: usize,
}

pub struct IndexTallyView {
    pub target: usize,
    pub processed: usize,
    pub indexed: usize,
    pub batch_indexed: usize,
}

impl View for IndexTally {
    type V = IndexTallyView;

    closed spec fn view(&self) -> IndexTallyView {
        IndexTallyView {
            target: self.target,
            processed: self.processed,
            indexed: self.indexed,
            batch_indexed: self.batch_indexed,
        }
    }
}

impl IndexTallyView {
    /// No more files are indexed than processed, nor processed than found, and
    /// the current batch is part of what was indexed.
    pub open spec fn well_formed(self) -> bool {
        &&& self.indexed <= self.processed <= self.target
        &&& self.batch_indexed <= self.indexed
    }
}

impl IndexTallyView {
    /// `next` follows `self` within one run: the same target, and no fewer
    /// files processed or indexed.
    pub open spec fn advances_to(self, next: IndexTallyView) -> bool {
        &&& next.target == self.target
        &&& self.processed <= next.processed
        &&& self.indexed <= next.indexed
    }
}

/// The tally of a run that found `target` files and has processed none.
pub open spec fn fresh_tally(target: usize) -> IndexTallyView {
    IndexTallyView { target, processed: 0, indexed: 0, batch_indexed: 0 }
}

/// Over a whole run, the indexed count never decreases and never exceeds the
/// number of files found: for the successive tallies of a run, each made from
/// the previous one by `begin_batch` or `record_outcome` (whose contracts give
/// `advances_to`), every later count is at least every earlier one, and all are
/// at most the target. The counts stored in the state are those of these
/// tallies (`AppState::record_progress`, `AppState::finish_indexing`).
pub proof fn lemma_run_counts_rise_within_target(run: Seq<IndexTallyView>, target: usize)
    requires
        run.len() > 0,
        run[0] == fresh_tally(target),
        forall|i: int| 0 <= i < run.len() ==> (#[trigger] run[i]).well_formed(),
        forall|i: int| 0 <= i < run.len() - 1 ==> (#[trigger] run[i]).advances_to(run[i + 1]),
    ensures
        forall|i: int| 0 <= i < run.len() ==> (#[trigger] run[i]).target == target,
        forall|i: int| 0 <= i < run.len() ==> (#[trigger] run[i]).indexed <= target,
        forall|i: int, j: int| 0 <= i <= j < run.len() ==> (#[trigger] run[i]).indexed <= (#[trigger] run[j]).indexed,
    decreases run.len(),
{
    if run.len() > 1 {
        let prefix = run.drop_last();
        assert forall|i: int| 0 <= i < prefix.len() implies (#[trigger] prefix[i]).well_formed() by {
            assert(prefix[i] == run[i]);
        }
        assert forall|i: int| 0 <= i < prefix.len() - 1 implies (#[trigger] prefix[i]).advances_to(prefix[i + 1]) by {
            assert(prefix[i] == run[i] && prefix[i + 1] == run[i + 1]);
        }
        lemma_run_counts_rise_within_target(prefix, target);
        let last = run.len() - 1;
        assert(run[last - 1] == prefix[last - 1]);
        assert(run[last - 1].advances_to(run[last]));
        assert forall|i: int| 0 <= i < run.len() implies (#[trigger] run[i]).target == target by {
            if i < last {
                assert(run[i] == prefix[i]);
            }
        }
        assert forall|i: int| 0 <= i < run.len() implies (#[trigger] run[i]).indexed <= target by {
            if i < last {
                assert(run[i] == prefix[i]);
            }
        }
        assert forall|i: int, j: int| 0 <= i <= j < run.len() implies (#[trigger] run[i]).indexed <= (#[trigger] run[j]).indexed by {
            if j < last {
                assert(run[i] == prefix[i] && run[j] == prefix[j]);
            } else if i < last {
                assert(run[i] == prefix[i]);
                assert(prefix[i].indexed <= prefix[last - 1].indexed);
            }
        }
    }
}

impl IndexTally {
    /// A run that found `target` files and has processed none.
    pub fn new(target: usize) -> (t: IndexTally)
        ensures
            t@ == fresh_tally(target),
            t@.well_formed(),
    {
        IndexTally { target, processed: 0, indexed: 0, batch_indexed: 0 }
    }

    /// Starts a new batch: nothing of it is indexed yet.
    pub fn begin_batch(&mut self)
        requires
            old(self)@.well_formed(),
        ensures
            final(self)@ == (IndexTallyView { batch_indexed: 0, ..old(self)@ }),
            final(self)@.well_formed(),
            old(self)@.advances_to(final(self)@),
    {
        self.batch_indexed = 0;
    }

    /// Records what became of one more file: only an embedded file counts as
    /// indexed, in the run and in the current batch.
    pub fn record_outcome(&mut self, outcome: &FileOutcome)
        requires
            old(self)@.well_formed(),
            old(self)@.processed < old(self)@.target,
        ensures
            final(self)@.well_formed(),
            old(self)@.advances_to(final(self)@),
            final(self)@.target == old(self)@.target,
            final(self)@.processed == old(self)@.processed + 1,
            final(self)@.indexed == old(self)@.indexed + if *outcome is Embedded { 1int } else { 0int },
            final(self)@.batch_indexed == old(self)@.batch_indexed + if *outcome is Embedded { 1int } else { 0int },
    {
        self.processed = self.processed + 1;
        if let FileOutcome::Embedded = outcome {
            self.indexed = self.indexed + 1;
            self.batch_indexed = self.batch_indexed + 1;
        }
    }

    /// Whether the current batch holds files to send to the index; an empty
    /// batch is not sent.
    pub fn batch_ready(&self) -> (b: bool)
        ensures
            b == (self@.batch_indexed > 0),
    {
        self.batch_indexed > 0
    }

    pub fn target(&self) -> (n: usize)
        ensures
            n == self@.target,
    {
        self.target
    }

    pub fn processed(&self) -> (n: usize)
        ensures
            n == self@.processed,
    {
        self.processed
    }

    pub fn indexed(&self) -> (n: usize)
        ensures
            n == self@.indexed,
    {
        self.indexed
    }
}

/// The total of `sizes`.
pub open spec fn size_sum(sizes: Seq<u64>) -> int
    decreases sizes.len(),
{
    if sizes.len() == 0 {
        0
    } else {
        size_sum(sizes.drop_last()) + sizes.last()
    }
}

/// The total adds up every size once: no sizes total 0, one size totals
/// itself, and the total of two lists put end to end is the sum of their
/// totals.
pub proof fn lemma_size_sum_adds_up(a: Seq<u64>, b: Seq<u64>, x: u64)
    ensures
        size_sum(Seq::empty()) == 0,
        size_sum(seq![x]) == x,
        size_sum(a + b) == size_sum(a) + size_sum(b),
    decreases b.len(),
{
    assert(seq![x].drop_last() =~= Seq::<u64>::empty());
    if b.len() == 0 {
        assert(a + b =~= a);
    } else {
        lemma_size_sum_adds_up(a, b.drop_last(), x);
        assert((a + b).drop_last() =~= a + b.drop_last());
        assert((a + b).last() == b.last());
    }
}

/// A longer prefix never totals less.
proof fn lemma_size_sum_prefix(sizes: Seq<u64>, j: int, k: int)
    requires
        0 <= j <= k <= sizes.len(),
    ensures
        size_sum(sizes.take(j)) <= size_sum(sizes.take(k)),
    decreases k - j,
{
    if j < k {
        lemma_size_sum_prefix(sizes, j, k - 1);
        assert(sizes.take(k).drop_last() =~= sizes.take(k - 1));
    }
}

/// The total length in bytes of the files of the index, when it fits in a
/// `u64`; `None` when adding up the lengths overflows.
pub fn total_size(sizes: &Vec<u64>) -> (r: Option<u64>)
    ensures
        r is Some <==> size_sum(sizes@) <= u64::MAX,
        r matches Some(t) ==> t == size_sum(sizes@),
{
    let mut total: u64 = 0;
    let mut i: usize = 0;
    while i < sizes.len()
        invariant
            i <= sizes.len(),
            total == size_sum(sizes@.take(i as int)),
        decreases sizes.len() - i,
    {
        assert(sizes@.take(i + 1).drop_last() =~= sizes@.take(i as int));
        match total.checked_add(sizes[i]) {
            Some(t) => {
                total = t;
            },
            None => {
                proof {
                    lemma_size_sum_prefix(sizes@, i + 1, sizes@.len() as int);
                    assert(sizes@.take(sizes@.len() as int) =~= sizes@);
                }
                return None;
            },
        }
        i = i + 1;
    }
    assert(sizes@.take(sizes@.len() as int) =~= sizes@);
    Some(total)
}

} // verus!
