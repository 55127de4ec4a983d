//! Setting up the state root, and keeping the cache of releases in step
//! with the vendor's feed.

use vstd::prelude::*;
use crate::state::{CVM_BINS, CVM_CACHE, CVM_CURRENT_FILE, CVM_INSTALLED};
use crate::text::{
    joined_lines, lemma_lines_round_trip, lines, lines_of, render_lines, same_text, single_line,
};

verus! {

/// One step of setting up a state root. Paths are relative to it.
#[derive(Clone, Debug, PartialEq, Eq)]
pub enum SetupStep {
    /// Create the state root itself.
    CreateRoot,
    /// Create the directory `path`.
    CreateDir { path: String },
    /// Create the empty file `path`.
    CreateFile { path: String },
}

/// What a `SetupStep` says, over characters.
pub enum SetupEffect {
    CreateRoot,
    CreateDir { path: Seq<char> },
    CreateFile { path: Seq<char> },
}

impl DeepView for SetupStep {
    type V = SetupEffect;

    open spec fn deep_view(&self) -> SetupEffect {
        match self {
            SetupStep::CreateRoot => SetupEffect::CreateRoot,
            SetupStep::CreateDir { path } => SetupEffect::CreateDir { path: path@ },
            SetupStep::CreateFile { path } => SetupEffect::CreateFile { path: path@ },
        }
    }
}

/// The steps that make a state root where there is none: the root, the
/// directory of the installations, and the three records, empty.
pub open spec fn setup_plan(home_exists: bool) -> Seq<SetupEffect> {
    if home_exists {
        Seq::empty()
    } else {
        seq![
            SetupEffect::CreateRoot,
            SetupEffect::CreateDir { path: CVM_BINS@ },
            SetupEffect::CreateFile { path: CVM_CACHE@ },
            SetupEffect::CreateFile { path: CVM_INSTALLED@ },
            SetupEffect::CreateFile { path: CVM_CURRENT_FILE@ },
        ]
    }
}

/// The steps that make the state root, where it does not exist yet. After
/// them, and where it exists, the cache is checked with `validate_caches`.
pub fn setup_cvm(home_exists: bool) -> (steps: Vec<SetupStep>)
    ensures
        steps.deep_view() == setup_plan(home_exists),
{
    let mut steps: Vec<SetupStep> = Vec::new();
    if home_exists {
        assert(steps.deep_view() =~= setup_plan(home_exists));
        return steps;
    }
    steps.push(SetupStep::CreateRoot);
    steps.push(SetupStep::CreateDir { path: CVM_BINS.to_string() });
    steps.push(SetupStep::CreateFile { path: CVM_CACHE.to_string() });
    steps.push(SetupStep::CreateFile { path: CVM_INSTALLED.to_string() });
    steps.push(SetupStep::CreateFile { path: CVM_CURRENT_FILE.to_string() });
    assert(steps.deep_view() =~= setup_plan(home_exists));
    steps
}

/// The newest release that the cache `cache` lists: its first line, or
/// nothing where it has none.
pub open spec fn newest_cached(cache: Seq<char>) -> Seq<char> {
    let all = lines_of(cache);
    if all.len() == 0 {
        Seq::empty()
    } else {
        all[0]
    }
}

/// The cache is stale when its newest release is not the feed's latest.
pub open spec fn is_stale(cache: Seq<char>, latest: Seq<char>) -> bool {
    newest_cached(cache) != latest
}

/// Tells whether the cache `cache` is stale, given the tag `latest` of the
/// feed's latest release (empty where the feed gave none). A stale cache
/// is to be replaced by `cache_text` of the feed's releases.
pub fn validate_caches(cache: &str, latest: &str) -> (stale: bool)
    ensures
        stale == is_stale(cache@, latest@),
{
    let all = lines(cache);
    if all.len() == 0 {
        assert(latest@.len() == 0 ==> latest@ =~= Seq::<char>::empty());
        return !latest.is_empty();
    }
    assert(all.deep_view()[0] == all@[0]@);
    !same_text(all[0].as_str(), latest)
}

/// The cache file that lists `releases`: one on each line, in their order.
pub fn cache_text(releases: &Vec<String>) -> (r: String)
    ensures
        r@ == joined_lines(releases.deep_view()),
{
    render_lines(releases)
}

/// The cache after a check against a feed whose latest release is
/// `latest` and whose releases are `feed`: replaced where it was stale.
pub open spec fn checked_cache(cache: Seq<char>, latest: Seq<char>, feed: Seq<Seq<char>>) -> Seq<
    char,
> {
    if is_stale(cache, latest) {
        joined_lines(feed)
    } else {
        cache
    }
}

/// A feed agrees with itself when the first release that it lists is the
/// one that it calls the latest, and no tag in it runs over a line.
pub open spec fn coherent_feed(latest: Seq<char>, feed: Seq<Seq<char>>) -> bool {
    &&& forall|i: int| 0 <= i < feed.len() ==> single_line(#[trigger] feed[i])
    &&& if feed.len() == 0 {
        latest.len() == 0
    } else {
        feed[0] == latest
    }
}

/// A second check against an unchanged feed writes nothing: whatever the
/// cache held, after one check against a feed that agrees with itself it
/// is not stale.
pub proof fn lemma_second_check_keeps(cache: Seq<char>, latest: Seq<char>, feed: Seq<Seq<char>>)
    requires
        coherent_feed(latest, feed),
    ensures
        !is_stale(checked_cache(cache, latest, feed), latest),
        checked_cache(checked_cache(cache, latest, feed), latest, feed) == checked_cache(
            cache,
            latest,
            feed,
        ),
{
    if is_stale(cache, latest) {
        lemma_lines_round_trip(feed);
        if feed.len() == 0 {
            assert(latest =~= Seq::<char>::empty());
        }
    }
}

} // verus!
