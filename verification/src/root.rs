//! A state root held in memory: the records and the directories as
//! plain values, on which the steps of a plan can be carried out.

use vstd::prelude::*;
use crate::state::{
    after, copy_of, empty_root, lemma_run_both, lemma_run_one, refusal, run, tag_view, Effect,
    Root, SlotError, Step,
};
use crate::text::same_text;

verus! {

/// A directory under `bins` that is named by a tag.
#[derive(Clone, Debug, PartialEq, Eq)]
pub struct Slot {
    /// The tag that names the directory.
    pub name: String,
    /// The version whose files the directory holds.
    pub holds: String,
}

/// A state root in memory.
#[derive(Clone, Debug, PartialEq, Eq)]
pub struct StateRoot {
    /// The installed versions, as their record lists them.
    pub installed: Vec<String>,
    /// The selected version, as its record names it.
    pub active: Option<String>,
    /// The version whose files fill the active slot, if the slot exists.
    pub occupant: Option<String>,
    /// The directories named by a tag. Where two have one name, the
    /// later one counts.
    pub slots: Vec<Slot>,
}

/// The step `index` of a plan failed with `error`; the steps before it
/// were carried out.
#[derive(Clone, Copy, Debug, PartialEq, Eq, Structural)]
pub struct Failure {
    pub index: usize,
    pub error: SlotError,
}

/// The directories of `slots`, each name with the version that the
/// directory holds.
pub open spec fn slot_map(slots: Seq<Slot>) -> Map<Seq<char>, Seq<char>>
    decreases slots.len(),
{
    if slots.len() == 0 {
        Map::empty()
    } else {
        slot_map(slots.drop_last()).insert(slots.last().name@, slots.last().holds@)
    }
}

fn find_slot(slots: &Vec<Slot>, name: &str) -> (r: Option<String>)
    ensures
        match r {
            Some(holds) => slot_map(slots@).dom().contains(name@) && slot_map(slots@)[name@]
                == holds@,
            None => !slot_map(slots@).dom().contains(name@),
        },
{
    let mut i: usize = slots.len();
    assert(slots@.take(i as int) =~= slots@);
    while i > 0
        invariant
            i <= slots.len(),
            slot_map(slots@).dom().contains(name@) == slot_map(slots@.take(i as int)).dom().contains(
                name@,
            ),
            slot_map(slots@).dom().contains(name@) ==> slot_map(slots@)[name@] == slot_map(
                slots@.take(i as int),
            )[name@],
        decreases i,
    {
        let ghost read = slots@.take(i as int);
        assert(read.drop_last() =~= slots@.take(i - 1));
        assert(read.last() == slots@[i - 1]);
        i -= 1;
        if same_text(slots[i].name.as_str(), name) {
            return Some(slots[i].holds.clone());
        }
    }
    None
}

fn without_slot(slots: &Vec<Slot>, name: &str) -> (r: Vec<Slot>)
    ensures
        slot_map(r@) == slot_map(slots@).remove(name@),
{
    let mut r: Vec<Slot> = Vec::new();
    let mut i: usize = 0;
    assert(slot_map(r@) =~= slot_map(slots@.take(0)).remove(name@));
    while i < slots.len()
        invariant
            i <= slots.len(),
            slot_map(r@) == slot_map(slots@.take(i as int)).remove(name@),
        decreases slots.len() - i,
    {
        let ghost read = slots@.take(i + 1);
        assert(read.drop_last() =~= slots@.take(i as int));
        assert(read.last() == slots@[i as int]);
        if !same_text(slots[i].name.as_str(), name) {
            let ghost before = r@;
            let slot = Slot { name: slots[i].name.clone(), holds: slots[i].holds.clone() };
            r.push(slot);
            assert(r@.drop_last() =~= before);
            assert(r@.last() == slot);
        }
        assert(slot_map(r@) =~= slot_map(read).remove(name@));
        i += 1;
    }
    assert(slots@.take(slots.len() as int) =~= slots@);
    r
}

impl StateRoot {
    /// What the state root holds, over characters.
    pub open spec fn model(&self) -> Root {
        Root {
            installed: self.installed.deep_view(),
            active: tag_view(self.active),
            occupant: tag_view(self.occupant),
            slots: slot_map(self.slots@),
        }
    }

    /// A state root that holds nothing yet.
    pub fn new() -> (r: Self)
        ensures
            r.model() == empty_root(),
    {
        let r = StateRoot {
            installed: Vec::new(),
            active: None,
            occupant: None,
            slots: Vec::new(),
        };
        assert(r.installed.deep_view() =~= Seq::<Seq<char>>::empty());
        r
    }

    /// Whether `tag` has a directory of its name.
    pub fn has_slot(&self, tag: &str) -> (r: bool)
        ensures
            r == self.model().slots.dom().contains(tag@),
    {
        find_slot(&self.slots, tag).is_some()
    }

    /// Renames the active slot to the directory of `tag`. Fails where
    /// there is no active slot, or where `tag` has a directory already;
    /// nothing changes then.
    pub fn deactivate(&mut self, tag: &str) -> (r: Result<(), SlotError>)
        ensures
            match after(old(self).model(), Effect::Deactivate { tag: tag@ }) {
                Some(next) => r is Ok && final(self).model() == next,
                None => r == Err::<(), SlotError>(
                    refusal(old(self).model(), Effect::Deactivate { tag: tag@ }),
                ) && *final(self) == *old(self),
            },
    {
        let holds = match &self.occupant {
            Some(version) => version.clone(),
            None => {
                return Err(SlotError::ActiveSlotMissing);
            },
        };
        if self.has_slot(tag) {
            return Err(SlotError::SlotTaken);
        }
        let ghost before = self.slots@;
        let slot = Slot { name: tag.to_string(), holds };
        self.slots.push(slot);
        assert(self.slots@.drop_last() =~= before);
        assert(self.slots@.last() == slot);
        self.occupant = None;
        Ok(())
    }

    /// Renames the directory of `tag` to the active slot. Fails where
    /// `tag` has no directory, or where the active slot is taken; nothing
    /// changes then.
    pub fn activate(&mut self, tag: &str) -> (r: Result<(), SlotError>)
        ensures
            match after(old(self).model(), Effect::Activate { tag: tag@ }) {
                Some(next) => r is Ok && final(self).model() == next,
                None => r == Err::<(), SlotError>(
                    refusal(old(self).model(), Effect::Activate { tag: tag@ }),
                ) && *final(self) == *old(self),
            },
    {
        let holds = match find_slot(&self.slots, tag) {
            Some(version) => version,
            None => {
                return Err(SlotError::SlotMissing);
            },
        };
        if self.occupant.is_some() {
            return Err(SlotError::ActiveSlotTaken);
        }
        self.slots = without_slot(&self.slots, tag);
        self.occupant = Some(holds);
        Ok(())
    }

    /// Gives what was unpacked the name of `tag`. Fails where `tag` has a
    /// directory already; nothing changes then.
    pub fn adopt(&mut self, tag: &str) -> (r: Result<(), SlotError>)
        ensures
            match after(old(self).model(), Effect::Adopt { unpacked: Seq::empty(), tag: tag@ }) {
                Some(next) => r is Ok && final(self).model() == next,
                None => r == Err::<(), SlotError>(SlotError::SlotTaken) && *final(self) == *old(
                    self,
                ),
            },
    {
        if self.has_slot(tag) {
            return Err(SlotError::SlotTaken);
        }
        let ghost before = self.slots@;
        let slot = Slot { name: tag.to_string(), holds: tag.to_string() };
        self.slots.push(slot);
        assert(self.slots@.drop_last() =~= before);
        assert(self.slots@.last() == slot);
        Ok(())
    }

    /// Deletes the directory of `tag`. Fails where there is none; nothing
    /// changes then.
    pub fn delete_slot(&mut self, tag: &str) -> (r: Result<(), SlotError>)
        ensures
            match after(old(self).model(), Effect::DeleteSlot { tag: tag@ }) {
                Some(next) => r is Ok && final(self).model() == next,
                None => r == Err::<(), SlotError>(SlotError::SlotMissing) && *final(self) == *old(
                    self,
                ),
            },
    {
        if !self.has_slot(tag) {
            return Err(SlotError::SlotMissing);
        }
        self.slots = without_slot(&self.slots, tag);
        Ok(())
    }

    /// Adds `tag` at the end of the installed versions.
    pub fn record_installed(&mut self, tag: &str)
        ensures
            Some(final(self).model()) == after(
                old(self).model(),
                Effect::RecordInstalled { tag: tag@ },
            ),
    {
        let ghost before = self.installed.deep_view();
        self.installed.push(tag.to_string());
        assert(self.installed.deep_view() =~= before.push(tag@));
    }

    /// Makes `tag` the selected version of the record.
    pub fn set_active(&mut self, tag: &str)
        ensures
            Some(final(self).model()) == after(old(self).model(), Effect::SetActive { tag: tag@ }),
    {
        self.active = Some(tag.to_string());
    }

    /// Carries out one step. Where it fails, nothing changes.
    pub fn apply(&mut self, step: &Step) -> (r: Result<(), SlotError>)
        ensures
            match after(old(self).model(), step.deep_view()) {
                Some(next) => r is Ok && final(self).model() == next,
                None => r == Err::<(), SlotError>(refusal(old(self).model(), step.deep_view()))
                    && *final(self) == *old(self),
            },
    {
        match step {
            Step::Deactivate { tag } => self.deactivate(tag.as_str()),
            Step::Activate { tag } => self.activate(tag.as_str()),
            Step::Fetch { url, archive } => Ok(()),
            Step::Extract { archive, into } => Ok(()),
            Step::Adopt { unpacked, tag } => self.adopt(tag.as_str()),
            Step::Discard { archive } => Ok(()),
            Step::RecordInstalled { tag } => {
                self.record_installed(tag.as_str());
                Ok(())
            },
            Step::SetActive { tag } => {
                self.set_active(tag.as_str());
                Ok(())
            },
            Step::DeleteSlot { tag } => self.delete_slot(tag.as_str()),
            Step::RewriteInstalled { lines } => {
                self.installed = copy_of(lines);
                Ok(())
            },
            Step::DeleteRoot => {
                *self = StateRoot::new();
                Ok(())
            },
        }
    }

    /// Carries out the steps of a plan in order, up to the first that
    /// fails.
    pub fn apply_all(&mut self, steps: &Vec<Step>) -> (r: Result<(), Failure>)
        ensures
            r is Ok ==> run(old(self).model(), steps.deep_view()) == Some(final(self).model()),
            r matches Err(failure) ==> failure.index < steps.len() && run(
                old(self).model(),
                steps.deep_view().take(failure.index as int),
            ) == Some(final(self).model()) && after(
                final(self).model(),
                steps.deep_view()[failure.index as int],
            ) is None && failure.error == refusal(
                final(self).model(),
                steps.deep_view()[failure.index as int],
            ) && run(old(self).model(), steps.deep_view()) is None,
    {
        let ghost all = steps.deep_view();
        let ghost start = self.model();
        let mut i: usize = 0;
        assert(all.take(0) =~= Seq::<Effect>::empty());
        while i < steps.len()
            invariant
                i <= steps.len(),
                all == steps.deep_view(),
                start == old(self).model(),
                run(start, all.take(i as int)) == Some(self.model()),
            decreases steps.len() - i,
        {
            proof {
                assert(all.take(i + 1) =~= all.take(i as int) + seq![all[i as int]]);
                lemma_run_both(start, all.take(i as int), seq![all[i as int]]);
                lemma_run_one(self.model(), all[i as int]);
                assert(all[i as int] == steps@[i as int].deep_view());
            }
            match self.apply(&steps[i]) {
                Ok(()) => {},
                Err(error) => {
                    proof {
                        assert(all =~= all.take(i + 1) + all.skip(i + 1));
                        lemma_run_both(start, all.take(i + 1), all.skip(i + 1));
                    }
                    return Err(Failure { index: i, error });
                },
            }
            i += 1;
        }
        assert(all.take(steps.len() as int) =~= all);
        Ok(())
    }
}

} // verus!
