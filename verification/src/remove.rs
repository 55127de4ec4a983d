//! Removing a version, or everything.

use vstd::prelude::*;
use crate::releases::is_installed;
use crate::state::{
    after, consistent, copy_of, lemma_run_first, lemma_run_one, run, tag_view, Effect, Root,
    Step, TagRequest, TagRequestView,
};
use crate::switch::is_current;
use crate::text::same_text;

verus! {

/// How a request to remove ended.
#[derive(Clone, Copy, Debug, PartialEq, Eq, Structural)]
pub enum RemoveOutcome {
    /// No version was named.
    Nothing,
    /// The steps delete the whole state root.
    RemovedAll,
    /// The version is the selected one: another has to be selected first.
    InUse,
    /// The version is not installed: there is nothing to remove.
    NotInstalled,
    /// The steps delete the version.
    Removed,
}

/// What a request to remove comes to.
#[derive(Clone, Debug, PartialEq, Eq)]
pub struct RemovePlan {
    pub outcome: RemoveOutcome,
    pub steps: Vec<Step>,
}

/// `items` without every entry that equals `tag`, the others in their
/// order.
pub open spec fn without(items: Seq<Seq<char>>, tag: Seq<char>) -> Seq<Seq<char>>
    decreases items.len(),
{
    if items.len() == 0 {
        items
    } else if items.last() == tag {
        without(items.drop_last(), tag)
    } else {
        without(items.drop_last(), tag).push(items.last())
    }
}

/// Removing `tag` leaves no `tag` behind and keeps every other entry.
pub proof fn lemma_without(items: Seq<Seq<char>>, tag: Seq<char>)
    ensures
        !without(items, tag).contains(tag),
        forall|other: Seq<char>|
            other != tag ==> (#[trigger] without(items, tag).contains(other) <==> items.contains(
                other,
            )),
        without(items, tag).len() <= items.len(),
        !items.contains(tag) ==> without(items, tag) == items,
    decreases items.len(),
{
    if items.len() > 0 {
        let rest = items.drop_last();
        let kept = without(rest, tag);
        lemma_without(rest, tag);
        assert(items =~= rest.push(items.last()));
        assert forall|other: Seq<char>| other != tag implies (#[trigger] without(
            items,
            tag,
        ).contains(other) <==> items.contains(other)) by {
            if items.contains(other) {
                let i = choose|i: int| 0 <= i < items.len() && items[i] == other;
                if i < rest.len() {
                    assert(rest[i] == other);
                    assert(kept.contains(other));
                    let k = choose|k: int| 0 <= k < kept.len() && kept[k] == other;
                    assert(without(items, tag)[k] == other);
                } else {
                    assert(without(items, tag).last() == other);
                }
            }
            if without(items, tag).contains(other) {
                let k = choose|k: int|
                    0 <= k < without(items, tag).len() && without(items, tag)[k] == other;
                if k < kept.len() {
                    assert(kept[k] == other);
                    assert(kept.contains(other));
                    assert(rest.contains(other));
                    let i = choose|i: int| 0 <= i < rest.len() && rest[i] == other;
                    assert(items[i] == other);
                } else {
                    assert(items.last() == other);
                }
            }
        }
        if without(items, tag).contains(tag) {
            let k = choose|k: int|
                0 <= k < without(items, tag).len() && without(items, tag)[k] == tag;
            if k < kept.len() {
                assert(kept[k] == tag);
            }
        }
        if !items.contains(tag) {
            assert(!rest.contains(tag)) by {
                if rest.contains(tag) {
                    let i = choose|i: int| 0 <= i < rest.len() && rest[i] == tag;
                    assert(items[i] == tag);
                }
            }
            assert(items.last() != tag) by {
                assert(items[items.len() - 1] == items.last());
            }
        }
    }
}

/// What removing `tag` comes to where `current` is selected and
/// `installed` are installed. `--all` in place of a version removes
/// everything.
pub open spec fn remove_plan(
    tag: Seq<char>,
    current: Option<Seq<char>>,
    installed: Seq<Seq<char>>,
) -> (RemoveOutcome, Seq<Effect>) {
    if tag.len() == 0 {
        (RemoveOutcome::Nothing, Seq::empty())
    } else if tag == "--all"@ {
        (RemoveOutcome::RemovedAll, seq![Effect::DeleteRoot])
    } else if current == Some(tag) {
        (RemoveOutcome::InUse, Seq::empty())
    } else if !installed.contains(tag) {
        (RemoveOutcome::NotInstalled, Seq::empty())
    } else {
        (
            RemoveOutcome::Removed,
            seq![
                Effect::DeleteSlot { tag },
                Effect::RewriteInstalled { lines: without(installed, tag) },
            ],
        )
    }
}

/// How the version to remove is learnt: from the third argument where
/// there are exactly three, else from the user, who chooses among the
/// installed versions.
pub open spec fn tag_request(args: Seq<Seq<char>>, installed: Seq<Seq<char>>) -> TagRequestView {
    if args.len() == 3 {
        TagRequestView::Given(args[2])
    } else if installed.len() == 0 {
        TagRequestView::Nothing
    } else {
        TagRequestView::Ask(installed)
    }
}

/// How the version to remove is learnt.
pub fn get_tag(args: &Vec<String>, installed: &Vec<String>) -> (r: TagRequest)
    ensures
        r.deep_view() == tag_request(args.deep_view(), installed.deep_view()),
{
    if args.len() == 3 {
        assert(args.deep_view()[2] == args@[2]@);
        return TagRequest::Given(args[2].clone());
    }
    if installed.len() == 0 {
        return TagRequest::Nothing;
    }
    TagRequest::Ask(copy_of(installed))
}

/// The installed versions without `tag`.
pub fn remove_installed(installed: &Vec<String>, tag: &str) -> (r: Vec<String>)
    ensures
        r.deep_view() == without(installed.deep_view(), tag@),
{
    let mut r: Vec<String> = Vec::new();
    let ghost all = installed.deep_view();
    let mut i: usize = 0;
    assert(all.take(0) =~= Seq::<Seq<char>>::empty());
    assert(r.deep_view() =~= Seq::<Seq<char>>::empty());
    while i < installed.len()
        invariant
            i <= installed.len(),
            all == installed.deep_view(),
            r.deep_view() == without(all.take(i as int), tag@),
        decreases installed.len() - i,
    {
        proof {
            let next = all.take(i + 1);
            assert(next.drop_last() =~= all.take(i as int));
            assert(next.last() == installed@[i as int]@);
        }
        if !same_text(installed[i].as_str(), tag) {
            let ghost before = r.deep_view();
            r.push(installed[i].clone());
            assert(r.deep_view() =~= before.push(installed@[i as int]@));
        }
        i += 1;
    }
    assert(all.take(installed.len() as int) =~= all);
    r
}

/// Plans the removal of `tag`, where `current` is selected and
/// `installed` are installed. The selected version is not removed, nor
/// one that is not installed; both are answers, not failures.
pub fn remove(tag: &str, current: &Option<String>, installed: &Vec<String>) -> (plan: RemovePlan)
    ensures
        (plan.outcome, plan.steps.deep_view()) == remove_plan(
            tag@,
            tag_view(*current),
            installed.deep_view(),
        ),
{
    let mut steps: Vec<Step> = Vec::new();
    assert(steps.deep_view() =~= Seq::<Effect>::empty());
    if tag.is_empty() {
        return RemovePlan { outcome: RemoveOutcome::Nothing, steps };
    }
    if same_text(tag, "--all") {
        steps.push(Step::DeleteRoot);
        assert(steps.deep_view() =~= seq![Effect::DeleteRoot]);
        return RemovePlan { outcome: RemoveOutcome::RemovedAll, steps };
    }
    if is_current(tag, current) {
        return RemovePlan { outcome: RemoveOutcome::InUse, steps };
    }
    if !is_installed(tag, installed) {
        return RemovePlan { outcome: RemoveOutcome::NotInstalled, steps };
    }
    let lines = remove_installed(installed, tag);
    steps.push(Step::DeleteSlot { tag: tag.to_string() });
    steps.push(Step::RewriteInstalled { lines });
    assert(steps.deep_view() =~= seq![
        Effect::DeleteSlot { tag: tag@ },
        Effect::RewriteInstalled { lines: without(installed.deep_view(), tag@) },
    ]);
    RemovePlan { outcome: RemoveOutcome::Removed, steps }
}

/// Removing the selected version is refused and changes nothing:
/// whatever is installed, the plan has no step. (`--all` is no version:
/// it removes everything.)
pub proof fn lemma_remove_selected(root: Root, tag: Seq<char>, installed: Seq<Seq<char>>)
    requires
        tag != "--all"@,
    ensures
        remove_plan(tag, Some(tag), installed).1 == Seq::<Effect>::empty(),
        tag.len() > 0 ==> remove_plan(tag, Some(tag), installed).0 == RemoveOutcome::InUse,
        run(root, remove_plan(tag, Some(tag), installed).1) == Some(root),
{
}

/// Removing a version that is not installed is refused and changes
/// nothing: whatever is selected, the plan has no step. (`--all` is no
/// version: it removes everything.)
pub proof fn lemma_remove_absent(
    root: Root,
    tag: Seq<char>,
    current: Option<Seq<char>>,
    installed: Seq<Seq<char>>,
)
    requires
        tag != "--all"@,
        !installed.contains(tag),
    ensures
        remove_plan(tag, current, installed).1 == Seq::<Effect>::empty(),
        tag.len() > 0 && current != Some(tag) ==> remove_plan(tag, current, installed).0
            == RemoveOutcome::NotInstalled,
        run(root, remove_plan(tag, current, installed).1) == Some(root),
{
}

/// Removing an installed version that is not selected, from a consistent
/// state root, succeeds and leaves a consistent state root in which the
/// version is not installed; the selected version stays, and so does
/// every other installed version.
pub proof fn lemma_remove_removes(root: Root, tag: Seq<char>)
    requires
        consistent(root),
        remove_plan(tag, root.active, root.installed).0 == RemoveOutcome::Removed,
    ensures
        run(root, remove_plan(tag, root.active, root.installed).1) matches Some(done)
            && consistent(done) && !done.installed.contains(tag) && done.active == root.active
            && done.occupant == root.occupant && (forall|other: Seq<char>|
            other != tag ==> (#[trigger] done.installed.contains(other)
                <==> root.installed.contains(other))),
{
    let delete = Effect::DeleteSlot { tag };
    let rewrite = Effect::RewriteInstalled { lines: without(root.installed, tag) };
    assert(remove_plan(tag, root.active, root.installed).1 =~= seq![delete] + seq![rewrite]);
    lemma_run_first(root, delete, seq![rewrite]);
    assert(root.slots.dom().contains(tag));
    let deleted = after(root, delete)->0;
    lemma_run_one(deleted, rewrite);
    let done = after(deleted, rewrite)->0;
    lemma_without(root.installed, tag);
    assert forall|other: Seq<char>| #[trigger]
        done.slots.dom().contains(other) <==> done.installed.contains(other) && done.active
            != Some(other) by {
        assert(root.slots.dom().contains(other) <==> root.installed.contains(other)
            && root.active != Some(other));
        if other != tag {
            assert(without(root.installed, tag).contains(other) <==> root.installed.contains(
                other,
            ));
        }
    }
    assert forall|other: Seq<char>| #[trigger]
        done.slots.dom().contains(other) implies done.slots[other] == other by {
        assert(root.slots.dom().contains(other));
    }
    if done.active is Some {
        let selected = done.active->0;
        assert(without(root.installed, tag).contains(selected) <==> root.installed.contains(
            selected,
        ));
    }
}

} // verus!
