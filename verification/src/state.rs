//! The steps that a command asks of the machine, and a model of the state
//! root on which their effect is stated.
//!
//! The state root holds three records (the cached releases in
//! `release-cache`, the installed versions in `installed-versions`, the
//! selected version in `active-version`) and, under `bins`, one directory
//! for each installed version, named by its tag. The selected version's
//! directory is `bins/active` instead: the slot that the shell's path
//! points at.

use vstd::prelude::*;

verus! {

/// One step of a command. The steps of a plan are carried out in order,
/// and the first one that fails ends the command.
#[derive(Clone, Debug, PartialEq, Eq)]
pub enum Step {
    /// Rename the active slot to the directory of `tag`.
    Deactivate { tag: String },
    /// Rename the directory of `tag` to the active slot.
    Activate { tag: String },
    /// Download `url` and keep what comes at `archive`. The step fails
    /// where the answer has a status other than 200.
    Fetch { url: String, archive: String },
    /// Unpack `archive` into the directory `into`.
    Extract { archive: String, into: String },
    /// Rename the unpacked directory `unpacked` to the directory of `tag`.
    Adopt { unpacked: String, tag: String },
    /// Delete the file `archive`.
    Discard { archive: String },
    /// Add `tag` at the end of the installed versions.
    RecordInstalled { tag: String },
    /// Replace the record of the selected version by `tag`.
    SetActive { tag: String },
    /// Delete the directory of `tag` with all that it holds.
    DeleteSlot { tag: String },
    /// Replace the installed versions by `lines`.
    RewriteInstalled { lines: Vec<String> },
    /// Delete the state root with all that it holds.
    DeleteRoot,
}

/// What a `Step` says, over characters.
pub enum Effect {
    Deactivate { tag: Seq<char> },
    Activate { tag: Seq<char> },
    Fetch { url: Seq<char>, archive: Seq<char> },
    Extract { archive: Seq<char>, into: Seq<char> },
    Adopt { unpacked: Seq<char>, tag: Seq<char> },
    Discard { archive: Seq<char> },
    RecordInstalled { tag: Seq<char> },
    SetActive { tag: Seq<char> },
    DeleteSlot { tag: Seq<char> },
    RewriteInstalled { lines: Seq<Seq<char>> },
    DeleteRoot,
}

impl DeepView for Step {
    type V = Effect;

    open spec fn deep_view(&self) -> Effect {
        match self {
            Step::Deactivate { tag } => Effect::Deactivate { tag: tag@ },
            Step::Activate { tag } => Effect::Activate { tag: tag@ },
            Step::Fetch { url, archive } => Effect::Fetch { url: url@, archive: archive@ },
            Step::Extract { archive, into } => Effect::Extract { archive: archive@, into: into@ },
            Step::Adopt { unpacked, tag } => Effect::Adopt { unpacked: unpacked@, tag: tag@ },
            Step::Discard { archive } => Effect::Discard { archive: archive@ },
            Step::RecordInstalled { tag } => Effect::RecordInstalled { tag: tag@ },
            Step::SetActive { tag } => Effect::SetActive { tag: tag@ },
            Step::DeleteSlot { tag } => Effect::DeleteSlot { tag: tag@ },
            Step::RewriteInstalled { lines } => Effect::RewriteInstalled { lines: lines.deep_view() },
            Step::DeleteRoot => Effect::DeleteRoot,
        }
    }
}

/// The state root as the steps change it: the two records of versions
/// and the directories under `bins`. Archives and what is unpacked from
/// them are not part of it.
pub struct Root {
    /// The installed versions, as their record lists them.
    pub installed: Seq<Seq<char>>,
    /// The selected version, as its record names it.
    pub active: Option<Seq<char>>,
    /// The version whose files fill the active slot, if the slot exists.
    pub occupant: Option<Seq<char>>,
    /// The directories named by a tag, each with the version whose files
    /// it holds.
    pub slots: Map<Seq<char>, Seq<char>>,
}

/// What a state root holds once it is deleted and set up again: nothing.
pub open spec fn empty_root() -> Root {
    Root { installed: Seq::empty(), active: None, occupant: None, slots: Map::empty() }
}

/// The state root after one step, or `None` where the step fails. A
/// rename fails where its source is missing or its target exists; what
/// is unpacked from the archive of a version holds that version's files.
pub open spec fn after(root: Root, effect: Effect) -> Option<Root> {
    match effect {
        Effect::Deactivate { tag } => match root.occupant {
            Some(version) => if root.slots.dom().contains(tag) {
                None
            } else {
                Some(Root { occupant: None, slots: root.slots.insert(tag, version), ..root })
            },
            None => None,
        },
        Effect::Activate { tag } => if root.occupant is None && root.slots.dom().contains(tag) {
            Some(Root { occupant: Some(root.slots[tag]), slots: root.slots.remove(tag), ..root })
        } else {
            None
        },
        Effect::Fetch { url, archive } => Some(root),
        Effect::Extract { archive, into } => Some(root),
        Effect::Adopt { unpacked, tag } => if root.slots.dom().contains(tag) {
            None
        } else {
            Some(Root { slots: root.slots.insert(tag, tag), ..root })
        },
        Effect::Discard { archive } => Some(root),
        Effect::RecordInstalled { tag } => Some(Root { installed: root.installed.push(tag), ..root }),
        Effect::SetActive { tag } => Some(Root { active: Some(tag), ..root }),
        Effect::DeleteSlot { tag } => if root.slots.dom().contains(tag) {
            Some(Root { slots: root.slots.remove(tag), ..root })
        } else {
            None
        },
        Effect::RewriteInstalled { lines } => Some(Root { installed: lines, ..root }),
        Effect::DeleteRoot => Some(empty_root()),
    }
}

/// Why a directory could not be renamed or deleted.
#[derive(Clone, Copy, Debug, PartialEq, Eq, Structural)]
pub enum SlotError {
    /// There is no active slot to move away.
    ActiveSlotMissing,
    /// The active slot is taken: it has to be cleared first.
    ActiveSlotTaken,
    /// The version has no directory: it is not installed.
    SlotMissing,
    /// The version has a directory already.
    SlotTaken,
}

/// Why the step `effect` fails on `root`, where it fails.
pub open spec fn refusal(root: Root, effect: Effect) -> SlotError {
    match effect {
        Effect::Deactivate { tag } => if root.occupant is None {
            SlotError::ActiveSlotMissing
        } else {
            SlotError::SlotTaken
        },
        Effect::Activate { tag } => if !root.slots.dom().contains(tag) {
            SlotError::SlotMissing
        } else {
            SlotError::ActiveSlotTaken
        },
        Effect::Adopt { unpacked, tag } => SlotError::SlotTaken,
        _ => SlotError::SlotMissing,
    }
}

/// The state root after the steps of a plan, taken in order, or `None`
/// where one of them fails.
pub open spec fn run(root: Root, effects: Seq<Effect>) -> Option<Root>
    decreases effects.len(),
{
    if effects.len() == 0 {
        Some(root)
    } else {
        match after(root, effects[0]) {
            Some(next) => run(next, effects.drop_first()),
            None => None,
        }
    }
}

/// The records and the directories agree: the selected version is
/// installed and fills the active slot, every other installed version
/// has the directory of its name, with its own files in it, and there
/// are no other directories. The selected version has a name.
pub open spec fn consistent(root: Root) -> bool {
    &&& root.occupant == root.active
    &&& root.active matches Some(tag) ==> tag.len() > 0 && root.installed.contains(tag)
    &&& forall|tag: Seq<char>| #[trigger]
        root.slots.dom().contains(tag) <==> root.installed.contains(tag) && root.active != Some(
            tag,
        )
    &&& forall|tag: Seq<char>| #[trigger] root.slots.dom().contains(tag) ==> root.slots[tag] == tag
}

/// A state root that holds nothing is consistent.
pub proof fn lemma_empty_root_consistent()
    ensures
        consistent(empty_root()),
{
}

/// Running one plan after another is running the two as one.
pub proof fn lemma_run_both(root: Root, first: Seq<Effect>, second: Seq<Effect>)
    ensures
        run(root, first + second) == match run(root, first) {
            Some(next) => run(next, second),
            None => None,
        },
    decreases first.len(),
{
    if first.len() == 0 {
        assert(first + second =~= second);
    } else {
        let all = first + second;
        assert(all[0] == first[0]);
        assert(all.drop_first() =~= first.drop_first() + second);
        match after(root, first[0]) {
            Some(next) => {
                lemma_run_both(next, first.drop_first(), second);
            },
            None => {},
        }
    }
}

/// Running a plan of one step is taking the step.
pub proof fn lemma_run_one(root: Root, effect: Effect)
    ensures
        run(root, seq![effect]) == after(root, effect),
{
    let one = seq![effect];
    assert(one.drop_first() =~= Seq::<Effect>::empty());
    match after(root, effect) {
        Some(next) => {
            assert(run(next, one.drop_first()) == Some(next));
        },
        None => {},
    }
}

/// Running a plan is taking its first step and running the rest.
pub proof fn lemma_run_first(root: Root, effect: Effect, rest: Seq<Effect>)
    ensures
        run(root, seq![effect] + rest) == match after(root, effect) {
            Some(next) => run(next, rest),
            None => None,
        },
{
    lemma_run_both(root, seq![effect], rest);
    lemma_run_one(root, effect);
}

/// The directory of the state root, under the user's home directory.
pub const CVM_DIR: &'static str = ".cvm";

/// The directory of the installations, in the state root.
pub const CVM_BINS: &'static str = "bins";

/// The active slot, in the directory of the installations.
pub const CVM_CURRENT_DIR: &'static str = "active";

/// The file of the cached releases, in the state root.
pub const CVM_CACHE: &'static str = "release-cache";

/// The file of the installed versions, in the state root.
pub const CVM_INSTALLED: &'static str = "installed-versions";

/// The file of the selected version, in the state root.
pub const CVM_CURRENT_FILE: &'static str = "active-version";

/// The path of the active slot, from the state root.
pub fn active_slot() -> (r: String)
    ensures
        r@ == CVM_BINS@ + "/"@ + CVM_CURRENT_DIR@,
{
    let mut r = CVM_BINS.to_string();
    r.append("/");
    r.append(CVM_CURRENT_DIR);
    r
}

/// The path of the directory of `tag`, from the state root.
pub fn tag_slot(tag: &str) -> (r: String)
    ensures
        r@ == CVM_BINS@ + "/"@ + tag@,
{
    let mut r = CVM_BINS.to_string();
    r.append("/");
    r.append(tag);
    r
}

/// A version, or none, seen as characters.
pub open spec fn tag_view(tag: Option<String>) -> Option<Seq<char>> {
    match tag {
        Some(t) => Some(t@),
        None => None,
    }
}

/// Appends `more` to `steps`.
pub fn extend(steps: &mut Vec<Step>, more: Vec<Step>)
    ensures
        final(steps).deep_view() == old(steps).deep_view() + more.deep_view(),
{
    let mut more = more;
    let ghost first = steps.deep_view();
    let ghost second = more.deep_view();
    steps.append(&mut more);
    assert(steps.deep_view() =~= first + second);
}

/// How a command learns which version it is about.
#[derive(Clone, Debug, PartialEq, Eq)]
pub enum TagRequest {
    /// The command line names the version.
    Given(String),
    /// The user is to choose among these versions.
    Ask(Vec<String>),
    /// There is no version to choose from.
    Nothing,
}

/// A `TagRequest` over characters.
pub enum TagRequestView {
    Given(Seq<char>),
    Ask(Seq<Seq<char>>),
    Nothing,
}

impl DeepView for TagRequest {
    type V = TagRequestView;

    open spec fn deep_view(&self) -> TagRequestView {
        match self {
            TagRequest::Given(tag) => TagRequestView::Given(tag@),
            TagRequest::Ask(options) => TagRequestView::Ask(options.deep_view()),
            TagRequest::Nothing => TagRequestView::Nothing,
        }
    }
}

/// What came of asking the user to choose.
#[derive(Clone, Debug, PartialEq, Eq)]
pub enum Answer {
    /// The user chose this version.
    Picked(String),
    /// The user closed the list without choosing.
    Closed,
    /// The list could not be shown or read.
    Failed,
}

/// The user could not be asked.
#[derive(Clone, Copy, Debug, PartialEq, Eq, Structural)]
pub struct InquiryFailed;

/// The version that the user's answer names. Closing the list names none
/// and is no error.
pub fn chosen(answer: Answer) -> (r: Result<Option<String>, InquiryFailed>)
    ensures
        match answer {
            Answer::Picked(tag) => r == Ok::<Option<String>, InquiryFailed>(Some(tag)),
            Answer::Closed => r == Ok::<Option<String>, InquiryFailed>(None),
            Answer::Failed => r is Err,
        },
{
    match answer {
        Answer::Picked(tag) => Ok(Some(tag)),
        Answer::Closed => Ok(None),
        Answer::Failed => Err(InquiryFailed),
    }
}

/// A copy of `items`.
pub fn copy_of(items: &Vec<String>) -> (r: Vec<String>)
    ensures
        r.deep_view() == items.deep_view(),
{
    first_of(items, items.len())
}

/// A copy of the first `count` of `items`, or of all where there are fewer.
pub fn first_of(items: &Vec<String>, count: usize) -> (r: Vec<String>)
    ensures
        r.deep_view() == items.deep_view().take(
            if count <= items.len() {
                count as int
            } else {
                items.len() as int
            },
        ),
{
    let mut r: Vec<String> = Vec::new();
    let mut i: usize = 0;
    while i < items.len() && i < count
        invariant
            i <= items.len(),
            i <= count,
            r.deep_view() =~= items.deep_view().take(i as int),
        decreases items.len() - i,
    {
        let ghost before = r.deep_view();
        r.push(items[i].clone());
        assert(r.deep_view() =~= before.push(items@[i as int]@));
        i += 1;
    }
    r
}

} // verus!
