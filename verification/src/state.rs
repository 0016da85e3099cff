//! The application state: configuration and indexing status, with the
//! transitions an indexing run goes through and the settings of a search.
use vstd::prelude::*;
use crate::config::{AppConfig, AppConfigView};
use crate::search::SearchParams;
use crate::clock::{now_rfc3339, rfc3339_utc_text};
use crate::indexing::{IndexTally, IndexTallyView, fresh_tally, lemma_run_counts_rise_within_target};

verus! {

/// Why indexing could not start.
#[derive(Debug)]
pub enum IndexingError {
    AlreadyInProgress,
}

impl IndexingError {
    /// The message shown to the user.
    pub fn message(&self) -> (m: String)
        ensures
            m@ == indexing_error_text(),
    {
        let m = String::from_str("Indexing is already in progress");
        proof {
            reveal_strlit("Indexing is already in progress");
        }
        m
    }
}

pub open spec fn indexing_error_text() -> Seq<char> {
    "Indexing is already in progress"@
}

/// The indexing status as the user interface shows it. The size of the index
/// is the total of its files' lengths in bytes.
pub struct IndexStatus {
    pub is_indexing: bool,
    pub indexed_files: usize,
    pub indexed_target: usize,
    pub last_update: Option<String>,
    pub index_size_bytes: u64,
    pub default_directory: Option<String>,
}

/// Configuration and indexing status.
pub struct AppState {
    config: AppConfig,
    is_indexing: bool,
    indexed_files: usize,
    index_target: usize,
    last_update: Option<String>,
}

pub struct AppStateView {
    pub config: AppConfigView,
    pub is_indexing: bool,
    pub indexed_files: usize,
    pub index_target: usize,
    pub last_update: Option<Seq<char>>,
}

pub open spec fn opt_text(s: Option<String>) -> Option<Seq<char>> {
    match s {
        Some(t) => Some(t@),
        None => None,
    }
}

impl View for AppState {
    type V = AppStateView;

    closed spec fn view(&self) -> AppStateView {
        AppStateView {
            config: self.config@,
            is_indexing: self.is_indexing,
            indexed_files: self.indexed_files,
            index_target: self.index_target,
            last_update: opt_text(self.last_update),
        }
    }
}

/// A copy of `s`.
fn copy_text(s: &String) -> (r: String)
    ensures
        r@ == s@,
{
    s.clone()
}

/// A copy of `v`, string by string.
fn copy_texts(v: &Vec<String>) -> (r: Vec<String>)
    ensures
        r.deep_view() == v.deep_view(),
{
    let mut r: Vec<String> = Vec::new();
    let mut i: usize = 0;
    while i < v.len()
        invariant
            i <= v.len(),
            r@.len() == i,
            forall|k: int| 0 <= k < i ==> #[trigger] r@[k]@ == v@[k]@,
        decreases v.len() - i,
    {
        r.push(copy_text(&v[i]));
        i = i + 1;
    }
    assert(r.deep_view() =~= v.deep_view());
    r
}

/// A copy of an optional string.
fn copy_opt_text(s: &Option<String>) -> (r: Option<String>)
    ensures
        opt_text(r) == opt_text(*s),
{
    match s {
        Some(t) => Some(copy_text(t)),
        None => None,
    }
}

impl AppStateView {
    /// The outcome of a request to start indexing: whether it is accepted, and
    /// the state after it. A run in progress refuses it and nothing changes;
    /// otherwise the state is indexing with both counts at zero.
    pub open spec fn start_transition(self) -> (bool, AppStateView) {
        if self.is_indexing {
            (false, self)
        } else {
            (true, AppStateView { is_indexing: true, indexed_files: 0, index_target: 0, ..self })
        }
    }

    /// The state after a run ends at `timestamp`, with the counts of its tally.
    pub open spec fn finish_transition(self, tally: IndexTallyView, timestamp: Seq<char>) -> AppStateView {
        AppStateView {
            is_indexing: false,
            indexed_files: tally.indexed,
            index_target: tally.target,
            last_update: Some(timestamp),
            ..self
        }
    }

    /// The state after the progress of a run is recorded from `tally`.
    pub open spec fn progress_transition(self, tally: IndexTallyView) -> AppStateView {
        AppStateView { indexed_files: tally.indexed, index_target: tally.target, ..self }
    }

    /// The state with `config` in place of its configuration.
    pub open spec fn with_config(self, config: AppConfigView) -> AppStateView {
        AppStateView { config, ..self }
    }

    /// A finished run: not indexing, no more files indexed than found, and the
    /// time of the last update known.
    pub open spec fn settled(self) -> bool {
        &&& !self.is_indexing
        &&& self.indexed_files <= self.index_target
        &&& self.last_update is Some
    }
}

/// Runs never overlap: a request to start while a run is in progress is
/// refused and changes nothing, a started run refuses a second start, and once
/// the run finishes a new one can start.
pub proof fn lemma_runs_do_not_overlap(s: AppStateView, tally: IndexTallyView, timestamp: Seq<char>)
    ensures
        s.is_indexing ==> s.start_transition() == (false, s),
        !s.is_indexing ==> s.start_transition().0 && s.start_transition().1.is_indexing,
        s.start_transition().1.start_transition() == (false, s.start_transition().1),
        s.start_transition().1.finish_transition(tally, timestamp).start_transition().0,
{
}

/// Updating the configuration replaces it whole: afterwards the state holds
/// exactly the new configuration, every field of it (the excluded directories
/// and file types included) and nothing of the old one, and the indexing
/// status is left as it was.
pub proof fn lemma_update_replaces_config(s: AppStateView, config: AppConfigView)
    ensures
        s.with_config(config).config == config,
        s.with_config(config).config.excluded_dirs == config.excluded_dirs,
        s.with_config(config).config.file_types == config.file_types,
        s.with_config(config).config.default_directory == config.default_directory,
        s.with_config(config).config.top_k == config.top_k,
        s.with_config(config).config.threshold == config.threshold,
        s.with_config(config).is_indexing == s.is_indexing,
        s.with_config(config).indexed_files == s.indexed_files,
        s.with_config(config).index_target == s.index_target,
        s.with_config(config).last_update == s.last_update,
{
}

/// The counts shown are those of the run's tally: recording progress or
/// finishing stores exactly the tally's indexed count and target, and an
/// accepted start resets both to zero; none of them touches the configuration,
/// and recording progress leaves the indexing flag and the last update alone.
pub proof fn lemma_counts_come_from_tally(s: AppStateView, tally: IndexTallyView, timestamp: Seq<char>)
    ensures
        s.progress_transition(tally).indexed_files == tally.indexed,
        s.progress_transition(tally).index_target == tally.target,
        s.progress_transition(tally).is_indexing == s.is_indexing,
        s.progress_transition(tally).last_update == s.last_update,
        s.progress_transition(tally).config == s.config,
        s.finish_transition(tally, timestamp).indexed_files == tally.indexed,
        s.finish_transition(tally, timestamp).index_target == tally.target,
        !s.finish_transition(tally, timestamp).is_indexing,
        s.start_transition().0 ==> s.start_transition().1.indexed_files == 0
            && s.start_transition().1.index_target == 0 && s.start_transition().1.config == s.config
            && s.start_transition().1.last_update == s.last_update,
{
}

/// A finished run leaves the state settled: not indexing, its indexed count at
/// most its target, the last update set; changing the configuration keeps it
/// settled, and only a new start leaves that state.
pub proof fn lemma_finished_run_is_settled(s: AppStateView, tally: IndexTallyView, timestamp: Seq<char>, config: AppConfigView)
    requires
        tally.well_formed(),
    ensures
        s.finish_transition(tally, timestamp).settled(),
        s.finish_transition(tally, timestamp).last_update == Some(timestamp),
        s.finish_transition(tally, timestamp).config == s.config,
        s.finish_transition(tally, timestamp).with_config(config).settled(),
        s.finish_transition(tally, timestamp).start_transition().0,
{
}

/// The counts a run stores: recorded from the successive tallies of a run that
/// found `target` files, the target stored is always `target`, the indexed
/// counts stored never decrease and never exceed it, and the counts stored
/// when the run finishes are at least every earlier one.
pub proof fn lemma_stored_counts_of_a_run(
    s: AppStateView,
    run: Seq<IndexTallyView>,
    target: usize,
    timestamp: Seq<char>,
)
    requires
        run.len() > 0,
        run[0] == fresh_tally(target),
        forall|i: int| 0 <= i < run.len() ==> (#[trigger] run[i]).well_formed(),
        forall|i: int| 0 <= i < run.len() - 1 ==> (#[trigger] run[i]).advances_to(run[i + 1]),
    ensures
        forall|i: int| 0 <= i < run.len() ==> (#[trigger] s.progress_transition(run[i])).index_target == target,
        forall|i: int| 0 <= i < run.len() ==> (#[trigger] s.progress_transition(run[i])).indexed_files <= target,
        forall|i: int, j: int| 0 <= i <= j < run.len() ==> (#[trigger] s.progress_transition(run[i])).indexed_files
            <= (#[trigger] s.progress_transition(run[j])).indexed_files,
        forall|i: int| 0 <= i < run.len() ==> (#[trigger] s.progress_transition(run[i])).indexed_files
            <= s.finish_transition(run.last(), timestamp).indexed_files,
        s.finish_transition(run.last(), timestamp).index_target == target,
        s.finish_transition(run.last(), timestamp).settled(),
{
    lemma_run_counts_rise_within_target(run, target);
    assert(run.last() == run[run.len() - 1]);
    assert forall|i: int| 0 <= i < run.len() implies (#[trigger] s.progress_transition(run[i])).indexed_files
        <= s.finish_transition(run.last(), timestamp).indexed_files by {
        assert(run[i].indexed <= run[run.len() - 1].indexed);
    }
}

impl AppState {
    /// The state at start-up: the loaded configuration, not indexing, and the
    /// number of indexed files the index reports (`None` when it reports none,
    /// counted as zero).
    pub fn new(config: AppConfig, reported_count: Option<u64>) -> (s: AppState)
        ensures
            s@.config == config@,
            !s@.is_indexing,
            s@.indexed_files == match reported_count {
                Some(c) => c as usize,
                None => 0usize,
            },
            s@.index_target == 0,
            s@.last_update is None,
    {
        let indexed_files: usize = match reported_count {
            Some(c) => c as usize,
            None => 0,
        };
        AppState { config, is_indexing: false, indexed_files, index_target: 0, last_update: None }
    }

    pub fn is_indexing(&self) -> (b: bool)
        ensures
            b == self@.is_indexing,
    {
        self.is_indexing
    }

    pub fn get_indexed_count(&self) -> (n: usize)
        ensures
            n == self@.indexed_files,
    {
        self.indexed_files
    }

    pub fn get_index_target(&self) -> (n: usize)
        ensures
            n == self@.index_target,
    {
        self.index_target
    }

    pub fn get_last_update(&self) -> (t: Option<String>)
        ensures
            opt_text(t) == self@.last_update,
    {
        copy_opt_text(&self.last_update)
    }

    pub fn get_config(&self) -> (c: &AppConfig)
        ensures
            c@ == self@.config,
    {
        &self.config
    }

    /// Replaces the configuration; the indexing status is untouched.
    pub fn update_config(&mut self, config: AppConfig)
        ensures
            final(self)@ == old(self)@.with_config(config@),
            final(self)@.config == config@,
            final(self)@.config.excluded_dirs == config@.excluded_dirs,
            final(self)@.config.file_types == config@.file_types,
            final(self)@.is_indexing == old(self)@.is_indexing,
            final(self)@.indexed_files == old(self)@.indexed_files,
            final(self)@.index_target == old(self)@.index_target,
            final(self)@.last_update == old(self)@.last_update,
    {
        self.config = config;
    }

    /// Begins an indexing run. A run already in progress refuses the request
    /// and leaves the state as it was; otherwise the state is indexing with
    /// both counts at zero.
    pub fn start_indexing(&mut self) -> (r: Result<(), IndexingError>)
        ensures
            (r is Ok, final(self)@) == old(self)@.start_transition(),
    {
        if self.is_indexing {
            return Err(IndexingError::AlreadyInProgress);
        }
        self.is_indexing = true;
        self.indexed_files = 0;
        self.index_target = 0;
        Ok(())
    }

    /// Records how many files the run found to index.
    pub fn set_index_target(&mut self, target: usize)
        ensures
            final(self)@ == (AppStateView { index_target: target, ..old(self)@ }),
    {
        self.index_target = target;
    }

    /// Records the progress of the run: the files it found and those indexed so far.
    pub fn record_progress(&mut self, tally: &IndexTally)
        requires
            tally@.well_formed(),
        ensures
            final(self)@ == old(self)@.progress_transition(tally@),
            final(self)@.indexed_files <= final(self)@.index_target,
    {
        self.indexed_files = tally.indexed();
        self.index_target = tally.target();
    }

    /// Ends the run: it is no longer indexing, its counts are those of `tally`,
    /// and `timestamp` is the last update.
    pub fn finish_indexing(&mut self, tally: &IndexTally, timestamp: String)
        requires
            tally@.well_formed(),
        ensures
            final(self)@ == old(self)@.finish_transition(tally@, timestamp@),
            final(self)@.settled(),
    {
        self.is_indexing = false;
        self.indexed_files = tally.indexed();
        self.index_target = tally.target();
        self.last_update = Some(timestamp);
    }

    /// Ends the run with the current time, as RFC 3339 text in UTC, as the
    /// last update.
    pub fn finish_indexing_now(&mut self, tally: &IndexTally)
        requires
            tally@.well_formed(),
        ensures
            final(self)@.last_update matches Some(t) && rfc3339_utc_text(t)
                && final(self)@ == old(self)@.finish_transition(tally@, t),
            final(self)@.settled(),
    {
        let now = now_rfc3339();
        self.finish_indexing(tally, now);
    }

    /// The status shown to the user, given the size of the index in bytes.
    pub fn index_status(&self, index_size_bytes: u64) -> (st: IndexStatus)
        ensures
            st.is_indexing == self@.is_indexing,
            st.indexed_files == self@.indexed_files,
            st.indexed_target == self@.index_target,
            opt_text(st.last_update) == self@.last_update,
            st.index_size_bytes == index_size_bytes,
            opt_text(st.default_directory) == self@.config.default_directory,
    {
        IndexStatus {
            is_indexing: self.is_indexing,
            indexed_files: self.indexed_files,
            indexed_target: self.index_target,
            last_update: copy_opt_text(&self.last_update),
            index_size_bytes,
            default_directory: copy_opt_text(&self.config.default_directory),
        }
    }

    /// The settings of a search. With nothing indexed there is nothing to
    /// search, and the answer is `None` (an empty result list). Otherwise each
    /// setting the request leaves open comes from the configuration.
    pub fn search_params(
        &self,
        top_k: Option<usize>,
        threshold: Option<i32>,
        file_types: Option<&Vec<String>>,
        directory: Option<&str>,
    ) -> (p: Option<SearchParams>)
        ensures
            p is None <==> self@.indexed_files == 0,
            p matches Some(q) ==> {
                &&& q.top_k == match top_k {
                    Some(k) => k,
                    None => self@.config.top_k,
                }
                &&& q.threshold == match threshold {
                    Some(t) => t,
                    None => self@.config.threshold,
                }
                &&& q.file_types.deep_view() == match file_types {
                    Some(ts) => ts.deep_view(),
                    None => self@.config.file_types,
                }
                &&& opt_text(q.directory) == match directory {
                    Some(d) => Some(d@),
                    None => None,
                }
            },
    {
        if self.indexed_files == 0 {
            return None;
        }
        let k: usize = match top_k {
            Some(k) => k,
            None => self.config.top_k,
        };
        let t: i32 = match threshold {
            Some(t) => t,
            None => self.config.threshold,
        };
        let types = match file_types {
            Some(ts) => copy_texts(ts),
            None => copy_texts(&self.config.file_types),
        };
        let dir = match directory {
            Some(d) => Some(String::from_str(d)),
            None => None,
        };
        Some(SearchParams { top_k: k, threshold: t, file_types: types, directory: dir })
    }
}

} // verus!
