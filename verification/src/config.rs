//! Application configuration.
use vstd::prelude::*;

verus! {

/// Key of the default relevance threshold `0.5f32`.
pub const DEFAULT_THRESHOLD_KEY: i32 = 1056964608i32;

/// Number of results asked of the index when a search names no `top_k`.
pub const DEFAULT_TOP_K: usize = 10usize;

/// User settings. `threshold` is the order key of the `f32` threshold
/// (see the `score` module).
pub struct AppConfig {
    pub default_directory: Option<String>,
    pub excluded_dirs: Vec<String>,
    pub top_k: usize,
    pub threshold: i32,
    pub file_types: Vec<String>,
}

/// The contents of an `AppConfig`, strings taken by their characters.
pub struct AppConfigView {
    pub default_directory: Option<Seq<char>>,
    pub excluded_dirs: Seq<Seq<char>>,
    pub top_k: usize,
    pub threshold: i32,
    pub file_types: Seq<Seq<char>>,
}

pub open spec fn opt_string_view(s: Option<String>) -> Option<Seq<char>> {
    match s {
        Some(t) => Some(t@),
        None => None,
    }
}

impl View for AppConfig {
    type V = AppConfigView;

    open spec fn view(&self) -> AppConfigView {
        AppConfigView {
            default_directory: opt_string_view(self.default_directory),
            excluded_dirs: self.excluded_dirs.deep_view(),
            top_k: self.top_k,
            threshold: self.threshold,
            file_types: self.file_types.deep_view(),
        }
    }
}

/// The directory names left out of indexing by default.
pub open spec fn default_excluded_dirs() -> Seq<Seq<char>> {
    seq![
        seq!['.', 'g', 'i', 't'],
        seq!['n', 'o', 'd', 'e', '_', 'm', 'o', 'd', 'u', 'l', 'e', 's'],
        seq!['.', 'D', 'S', '_', 'S', 't', 'o', 'r', 'e'],
        seq!['_', '_', 'p', 'y', 'c', 'a', 'c', 'h', 'e', '_', '_'],
        seq!['t', 'a', 'r', 'g', 'e', 't'],
    ]
}

/// The configuration used when none is stored or the stored one cannot be read:
/// no default directory, the usual build and tool directories excluded,
/// ten results, threshold 0.5, every file type.
pub fn default_config() -> (c: AppConfig)
    ensures
        c@ == default_config_view(),
{
    let mut excluded: Vec<String> = Vec::new();
    excluded.push(String::from_str(".git"));
    excluded.push(String::from_str("node_modules"));
    excluded.push(String::from_str(".DS_Store"));
    excluded.push(String::from_str("__pycache__"));
    excluded.push(String::from_str("target"));
    proof {
        reveal_strlit(".git");
        reveal_strlit("node_modules");
        reveal_strlit(".DS_Store");
        reveal_strlit("__pycache__");
        reveal_strlit("target");
        assert(".git"@ =~= default_excluded_dirs()[0]);
        assert("node_modules"@ =~= default_excluded_dirs()[1]);
        assert(".DS_Store"@ =~= default_excluded_dirs()[2]);
        assert("__pycache__"@ =~= default_excluded_dirs()[3]);
        assert("target"@ =~= default_excluded_dirs()[4]);
    }
    let c = AppConfig {
        default_directory: None,
        excluded_dirs: excluded,
        top_k: DEFAULT_TOP_K,
        threshold: DEFAULT_THRESHOLD_KEY,
        file_types: Vec::new(),
    };
    assert(c@.excluded_dirs =~= default_excluded_dirs());
    assert(c@.file_types =~= Seq::<Seq<char>>::empty());
    c
}

/// The configuration in effect after loading: the stored one when it could be
/// read and parsed, otherwise the default.
pub fn config_or_default(stored: Option<AppConfig>) -> (c: AppConfig)
    ensures
        stored is Some ==> c == stored->0,
        stored is None ==> c@ == default_config_view(),
{
    match stored {
        Some(c) => c,
        None => default_config(),
    }
}

/// The view of `default_config()`.
pub open spec fn default_config_view() -> AppConfigView {
    AppConfigView {
        default_directory: None,
        excluded_dirs: default_excluded_dirs(),
        top_k: DEFAULT_TOP_K,
        threshold: DEFAULT_THRESHOLD_KEY,
        file_types: Seq::empty(),
    }
}

} // verus!
