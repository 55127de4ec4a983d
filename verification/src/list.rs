//! Listing the releases that can be installed.

use vstd::prelude::*;
use crate::releases::is_installed;
use crate::state::tag_view;
use crate::switch::is_current;
use crate::text::same_text;

verus! {

/// What is said of a release in the list.
#[derive(Clone, Copy, Debug, PartialEq, Eq, Structural)]
pub enum Mark {
    /// The release is not installed.
    Plain,
    /// The release is installed.
    Installed,
    /// The release is installed and selected.
    Selected,
}

/// One line of the list.
#[derive(Clone, Debug, PartialEq, Eq)]
pub struct Listed {
    pub release: String,
    pub mark: Mark,
}

impl DeepView for Listed {
    type V = (Seq<char>, Mark);

    open spec fn deep_view(&self) -> (Seq<char>, Mark) {
        (self.release@, self.mark)
    }
}

/// The list was asked for with a flag that it does not have.
#[derive(Clone, Copy, Debug, PartialEq, Eq, Structural)]
pub struct UnknownFlag;

/// As many releases as the short list shows.
pub const SHORT_LIST: usize = 10;

/// What is said of `release` where `current` is selected and `installed`
/// are installed.
pub open spec fn mark_of(
    release: Seq<char>,
    current: Option<Seq<char>>,
    installed: Seq<Seq<char>>,
) -> Mark {
    if !installed.contains(release) {
        Mark::Plain
    } else if current == Some(release) {
        Mark::Selected
    } else {
        Mark::Installed
    }
}

/// What is said of `release` in the list.
pub fn print_release(release: &str, current: &Option<String>, installed: &Vec<String>) -> (mark:
    Mark)
    ensures
        mark == mark_of(release@, tag_view(*current), installed.deep_view()),
{
    let is_installed = is_installed(release, installed);
    if is_current(release, current) && is_installed {
        Mark::Selected
    } else if is_installed {
        Mark::Installed
    } else {
        Mark::Plain
    }
}

/// The words that the list puts after a release.
pub fn label(mark: Mark) -> (r: &'static str)
    ensures
        r@ == match mark {
            Mark::Selected => "(installed | selected)"@,
            Mark::Installed => "(installed)"@,
            Mark::Plain => ""@,
        },
{
    match mark {
        Mark::Selected => "(installed | selected)",
        Mark::Installed => "(installed)",
        Mark::Plain => "",
    }
}

/// The first `count` of `releases`, each with what is said of it.
pub open spec fn marked(
    releases: Seq<Seq<char>>,
    count: int,
    current: Option<Seq<char>>,
    installed: Seq<Seq<char>>,
) -> Seq<(Seq<char>, Mark)> {
    Seq::new(count as nat, |i: int| (releases[i], mark_of(releases[i], current, installed)))
}

/// How many releases the list shows: with `list` alone the first ten,
/// with `--all` or `-a` after it all of them; any other word there is
/// refused.
pub open spec fn listed_count(args: Seq<Seq<char>>, releases: Seq<Seq<char>>) -> Option<int> {
    if args.len() == 2 {
        if releases.len() <= SHORT_LIST {
            Some(releases.len() as int)
        } else {
            Some(SHORT_LIST as int)
        }
    } else if args.len() >= 3 && args[2] != "--all"@ && args[2] != "-a"@ {
        None
    } else {
        Some(releases.len() as int)
    }
}

/// The lines of the list of `releases`, newest first, where `current` is
/// selected and `installed` are installed.
pub fn list_releases(
    args: &Vec<String>,
    releases: &Vec<String>,
    current: &Option<String>,
    installed: &Vec<String>,
) -> (r: Result<Vec<Listed>, UnknownFlag>)
    ensures
        match listed_count(args.deep_view(), releases.deep_view()) {
            None => r is Err,
            Some(count) => r matches Ok(shown) && shown.deep_view() == marked(
                releases.deep_view(),
                count,
                tag_view(*current),
                installed.deep_view(),
            ),
        },
{
    let count: usize = if args.len() == 2 {
        if releases.len() <= SHORT_LIST {
            releases.len()
        } else {
            SHORT_LIST
        }
    } else {
        if args.len() >= 3 {
            assert(args.deep_view()[2] == args@[2]@);
            if !same_text(args[2].as_str(), "--all") && !same_text(args[2].as_str(), "-a") {
                return Err(UnknownFlag);
            }
        }
        releases.len()
    };
    let mut shown: Vec<Listed> = Vec::new();
    let mut i: usize = 0;
    while i < count
        invariant
            i <= count <= releases.len(),
            shown.deep_view() =~= marked(
                releases.deep_view(),
                i as int,
                tag_view(*current),
                installed.deep_view(),
            ),
        decreases count - i,
    {
        assert(releases.deep_view()[i as int] == releases@[i as int]@);
        let mark = print_release(releases[i].as_str(), current, installed);
        let ghost before = shown.deep_view();
        shown.push(Listed { release: releases[i].clone(), mark });
        assert(shown.deep_view() =~= before.push((releases@[i as int]@, mark)));
        i += 1;
    }
    Ok(shown)
}

} // verus!
