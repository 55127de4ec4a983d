//! Selecting a version that is installed.

use vstd::prelude::*;
use crate::releases::is_installed;
use crate::state::{
    after, consistent, copy_of, extend, lemma_run_both, lemma_run_first, lemma_run_one, run,
    tag_view, Effect, Root, Step, TagRequest, TagRequestView,
};
use crate::text::same_text;

verus! {

/// How a request to select a version ended.
#[derive(Clone, Copy, Debug, PartialEq, Eq, Structural)]
pub enum SwitchOutcome {
    /// No version was named.
    Nothing,
    /// The version is not installed: it has to be installed first.
    NotInstalled,
    /// The version is selected already.
    AlreadySelected,
    /// The steps select the version.
    Switched,
}

/// What a request to select a version comes to.
#[derive(Clone, Debug, PartialEq, Eq)]
pub struct SwitchPlan {
    pub outcome: SwitchOutcome,
    pub steps: Vec<Step>,
}

/// The step that clears the active slot where a version is selected.
pub open spec fn deactivation(current: Option<Seq<char>>) -> Seq<Effect> {
    match current {
        Some(tag) => if tag.len() > 0 {
            seq![Effect::Deactivate { tag }]
        } else {
            Seq::empty()
        },
        None => Seq::empty(),
    }
}

/// The steps that put `version` into the free active slot and record it
/// as selected.
pub open spec fn switch_effects(version: Seq<char>) -> Seq<Effect> {
    seq![Effect::Activate { tag: version }, Effect::SetActive { tag: version }]
}

/// What selecting `tag` comes to where `current` is selected and
/// `installed` are installed.
pub open spec fn switch_plan(
    tag: Seq<char>,
    current: Option<Seq<char>>,
    installed: Seq<Seq<char>>,
) -> (SwitchOutcome, Seq<Effect>) {
    if tag.len() == 0 {
        (SwitchOutcome::Nothing, Seq::empty())
    } else if !installed.contains(tag) {
        (SwitchOutcome::NotInstalled, Seq::empty())
    } else if current == Some(tag) {
        (SwitchOutcome::AlreadySelected, Seq::empty())
    } else {
        (SwitchOutcome::Switched, deactivation(current) + switch_effects(tag))
    }
}

/// How the version to select is learnt: from the third argument where
/// there are exactly three, else from the user, who chooses among the
/// installed versions.
pub open spec fn tag_request(args: Seq<Seq<char>>, installed: Seq<Seq<char>>) -> TagRequestView {
    if args.len() == 3 {
        TagRequestView::Given(args[2])
    } else if installed.len() == 0 {
        TagRequestView::Nothing
    } else {
        TagRequestView::Ask(installed)
    }
}

/// How the version to select is learnt.
pub fn get_tag(args: &Vec<String>, installed: &Vec<String>) -> (r: TagRequest)
    ensures
        r.deep_view() == tag_request(args.deep_view(), installed.deep_view()),
{
    if args.len() == 3 {
        assert(args.deep_view()[2] == args@[2]@);
        return TagRequest::Given(args[2].clone());
    }
    if installed.len() == 0 {
        return TagRequest::Nothing;
    }
    TagRequest::Ask(copy_of(installed))
}

/// Whether `current` names `tag`.
pub fn is_current(tag: &str, current: &Option<String>) -> (r: bool)
    ensures
        r == (tag_view(*current) == Some(tag@)),
{
    match current {
        Some(selected) => same_text(selected.as_str(), tag),
        None => false,
    }
}

/// The step that clears the active slot, where a version is selected.
pub fn deactivate(current: &Option<String>) -> (steps: Vec<Step>)
    ensures
        steps.deep_view() == deactivation(tag_view(*current)),
{
    let mut steps: Vec<Step> = Vec::new();
    match current {
        Some(selected) => {
            if !selected.as_str().is_empty() {
                steps.push(Step::Deactivate { tag: selected.clone() });
            }
        },
        None => {},
    }
    assert(steps.deep_view() =~= deactivation(tag_view(*current)));
    steps
}

/// The steps that put `version` into the free active slot and record it
/// as selected.
pub fn switch(version: &str) -> (steps: Vec<Step>)
    ensures
        steps.deep_view() == switch_effects(version@),
{
    let mut steps: Vec<Step> = Vec::new();
    steps.push(Step::Activate { tag: version.to_string() });
    steps.push(Step::SetActive { tag: version.to_string() });
    assert(steps.deep_view() =~= switch_effects(version@));
    steps
}

/// Plans the selection of `tag`, where `current` is selected and
/// `installed` are installed. A version that is not installed is not
/// selected, and selecting the selected version takes no step.
pub fn switch_version(tag: &str, current: &Option<String>, installed: &Vec<String>) -> (plan:
    SwitchPlan)
    ensures
        (plan.outcome, plan.steps.deep_view()) == switch_plan(
            tag@,
            tag_view(*current),
            installed.deep_view(),
        ),
{
    let none: Vec<Step> = Vec::new();
    assert(none.deep_view() =~= Seq::<Effect>::empty());
    if tag.is_empty() {
        return SwitchPlan { outcome: SwitchOutcome::Nothing, steps: none };
    }
    if !is_installed(tag, installed) {
        return SwitchPlan { outcome: SwitchOutcome::NotInstalled, steps: none };
    }
    if is_current(tag, current) {
        return SwitchPlan { outcome: SwitchOutcome::AlreadySelected, steps: none };
    }
    let mut steps = deactivate(current);
    extend(&mut steps, switch(tag));
    SwitchPlan { outcome: SwitchOutcome::Switched, steps }
}

/// Selecting the selected version changes nothing: whatever is
/// installed, the plan has no step, so the records and the directories
/// stay as they are.
pub proof fn lemma_switch_to_selected(root: Root, tag: Seq<char>, installed: Seq<Seq<char>>)
    ensures
        switch_plan(tag, Some(tag), installed).1 == Seq::<Effect>::empty(),
        switch_plan(tag, Some(tag), installed).0 != SwitchOutcome::Switched,
        run(root, switch_plan(tag, Some(tag), installed).1) == Some(root),
{
}

/// Clearing the active slot of a consistent state root succeeds: the
/// selected version goes back to the directory of its name, and nothing
/// else changes.
pub proof fn lemma_deactivation(root: Root)
    requires
        consistent(root),
    ensures
        run(root, deactivation(root.active)) matches Some(cleared) && cleared.occupant is None
            && cleared.installed == root.installed && cleared.active == root.active
            && (forall|tag: Seq<char>| #[trigger]
            cleared.slots.dom().contains(tag) <==> root.installed.contains(tag))
            && (forall|tag: Seq<char>| #[trigger]
            cleared.slots.dom().contains(tag) ==> cleared.slots[tag] == tag),
{
    match root.active {
        Some(selected) => {
            lemma_run_one(root, Effect::Deactivate { tag: selected });
            assert(!root.slots.dom().contains(selected));
        },
        None => {},
    }
}

/// Selecting an installed version of a consistent state root succeeds
/// and leaves a consistent state root in which that version is selected
/// and fills the active slot; what is installed stays.
pub proof fn lemma_switch_selects(root: Root, tag: Seq<char>)
    requires
        consistent(root),
        switch_plan(tag, root.active, root.installed).0 == SwitchOutcome::Switched,
    ensures
        run(root, switch_plan(tag, root.active, root.installed).1) matches Some(done)
            && consistent(done) && done.active == Some(tag) && done.occupant == Some(tag)
            && done.installed == root.installed,
{
    lemma_deactivation(root);
    lemma_run_both(root, deactivation(root.active), switch_effects(tag));
    let cleared = run(root, deactivation(root.active))->0;
    lemma_switch_fills(cleared, tag);
}

/// A command that is cut short after it cleared the active slot loses
/// nothing: the files of the version that was selected are in the
/// directory of its name, and the steps that select it again bring the
/// state root back to what it was.
pub proof fn lemma_cut_short_recovers(root: Root, selected: Seq<char>)
    requires
        consistent(root),
        root.active == Some(selected),
    ensures
        after(root, Effect::Deactivate { tag: selected }) matches Some(cleared)
            && cleared.occupant is None && cleared.slots.dom().contains(selected)
            && cleared.slots[selected] == selected && run(cleared, switch_effects(selected))
            == Some(root),
{
    let cleared = after(root, Effect::Deactivate { tag: selected })->0;
    assert(!root.slots.dom().contains(selected));
    let activate = Effect::Activate { tag: selected };
    let record = Effect::SetActive { tag: selected };
    assert(switch_effects(selected) =~= seq![activate] + seq![record]);
    lemma_run_first(cleared, activate, seq![record]);
    let filled = after(cleared, activate)->0;
    lemma_run_one(filled, record);
    let done = after(filled, record)->0;
    assert(done.slots =~= root.slots);
}

/// Where the active slot is free and `tag` has its directory, with its
/// own files, the steps of `switch` succeed: `tag` is selected and fills
/// the active slot.
pub proof fn lemma_switch_fills(cleared: Root, tag: Seq<char>)
    requires
        cleared.occupant is None,
        tag.len() > 0,
        cleared.installed.contains(tag),
        forall|other: Seq<char>| #[trigger]
            cleared.slots.dom().contains(other) <==> cleared.installed.contains(other),
        forall|other: Seq<char>| #[trigger]
            cleared.slots.dom().contains(other) ==> cleared.slots[other] == other,
    ensures
        run(cleared, switch_effects(tag)) matches Some(done) && consistent(done) && done.active
            == Some(tag) && done.occupant == Some(tag) && done.installed == cleared.installed,
{
    let activate = Effect::Activate { tag };
    let record = Effect::SetActive { tag };
    assert(switch_effects(tag) =~= seq![activate] + seq![record]);
    lemma_run_first(cleared, activate, seq![record]);
    assert(cleared.slots.dom().contains(tag));
    let filled = after(cleared, activate)->0;
    lemma_run_one(filled, record);
    let done = after(filled, record)->0;
    assert forall|other: Seq<char>| #[trigger]
        done.slots.dom().contains(other) <==> done.installed.contains(other) && done.active
            != Some(other) by {
        assert(cleared.slots.dom().contains(other) <==> cleared.installed.contains(other));
    }
    assert forall|other: Seq<char>| #[trigger]
        done.slots.dom().contains(other) implies done.slots[other] == other by {
        assert(cleared.slots.dom().contains(other));
    }
}

} // verus!
