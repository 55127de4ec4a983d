use cvm::install::helper_strings::Platform;
use cvm::install::install_version;
use cvm::remove::remove;
use cvm::root::{Failure, Slot, StateRoot};
use cvm::state::{SlotError, Step};
use cvm::switch::switch_version;

fn names(items: &[&str]) -> Vec<String> {
    items.iter().map(|item| item.to_string()).collect()
}

fn own_slot(tag: &str) -> Slot {
    Slot { name: tag.to_string(), holds: tag.to_string() }
}

fn two_installed() -> StateRoot {
    StateRoot {
        installed: names(&["3.19.0", "3.20.3"]),
        active: Some("3.19.0".to_string()),
        occupant: Some("3.19.0".to_string()),
        slots: vec![own_slot("3.20.3")],
    }
}

#[test]
fn a_new_state_root_holds_nothing() {
    let root = StateRoot::new();
    assert_eq!(root.installed, names(&[]));
    assert_eq!(root.active, None);
    assert_eq!(root.occupant, None);
    assert_eq!(root.slots, vec![]);
}

#[test]
fn switching_renames_both_directories_and_rewrites_the_record() {
    let mut root = two_installed();
    let plan = switch_version("3.20.3", &root.active, &root.installed);
    assert_eq!(root.apply_all(&plan.steps), Ok(()));
    assert_eq!(root.active, Some("3.20.3".to_string()));
    assert_eq!(root.occupant, Some("3.20.3".to_string()));
    assert_eq!(root.slots, vec![own_slot("3.19.0")]);
    assert_eq!(root.installed, names(&["3.19.0", "3.20.3"]));
}

#[test]
fn switching_to_the_selected_version_changes_nothing() {
    let mut root = two_installed();
    let plan = switch_version("3.19.0", &root.active, &root.installed);
    assert_eq!(root.apply_all(&plan.steps), Ok(()));
    assert_eq!(root, two_installed());
}

#[test]
fn switching_back_and_forth_ends_where_it_began() {
    let mut root = two_installed();
    let there = switch_version("3.20.3", &root.active, &root.installed);
    assert_eq!(root.apply_all(&there.steps), Ok(()));
    let back = switch_version("3.19.0", &root.active, &root.installed);
    assert_eq!(root.apply_all(&back.steps), Ok(()));
    assert_eq!(root, two_installed());
}

#[test]
fn installing_a_new_version_installs_and_selects_it() {
    let mut root = two_installed();
    let plan =
        install_version("3.21.0", &root.active, &root.installed, Platform::Linux, None).unwrap();
    assert_eq!(root.apply_all(&plan.steps), Ok(()));
    assert!(root.installed.contains(&"3.21.0".to_string()));
    assert_eq!(root.installed, names(&["3.19.0", "3.20.3", "3.21.0"]));
    assert_eq!(root.active, Some("3.21.0".to_string()));
    assert_eq!(root.occupant, Some("3.21.0".to_string()));
    assert_eq!(root.slots, vec![own_slot("3.20.3"), own_slot("3.19.0")]);
}

#[test]
fn the_first_installation_fills_the_empty_state_root() {
    let mut root = StateRoot::new();
    let plan =
        install_version("3.20.3", &root.active, &root.installed, Platform::Linux, None).unwrap();
    assert_eq!(root.apply_all(&plan.steps), Ok(()));
    assert_eq!(root.installed, names(&["3.20.3"]));
    assert_eq!(root.active, Some("3.20.3".to_string()));
    assert_eq!(root.occupant, Some("3.20.3".to_string()));
    assert_eq!(root.slots, vec![]);
}

#[test]
fn installing_an_installed_version_selects_it() {
    let mut root = two_installed();
    let plan =
        install_version("3.20.3", &root.active, &root.installed, Platform::Linux, None).unwrap();
    assert_eq!(root.apply_all(&plan.steps), Ok(()));
    assert_eq!(root.installed, names(&["3.19.0", "3.20.3"]));
    assert_eq!(root.active, Some("3.20.3".to_string()));
    assert_eq!(root.occupant, Some("3.20.3".to_string()));
    assert_eq!(root.slots, vec![own_slot("3.19.0")]);
}

#[test]
fn removing_the_selected_version_changes_nothing() {
    let mut root = two_installed();
    let plan = remove("3.19.0", &root.active, &root.installed);
    assert_eq!(root.apply_all(&plan.steps), Ok(()));
    assert_eq!(root, two_installed());
}

#[test]
fn removing_a_version_that_is_not_installed_changes_nothing() {
    let mut root = two_installed();
    let plan = remove("3.18.0", &root.active, &root.installed);
    assert_eq!(root.apply_all(&plan.steps), Ok(()));
    assert_eq!(root, two_installed());
}

#[test]
fn removing_a_version_deletes_its_directory_and_its_entry() {
    let mut root = two_installed();
    let plan = remove("3.20.3", &root.active, &root.installed);
    assert_eq!(root.apply_all(&plan.steps), Ok(()));
    assert_eq!(root.installed, names(&["3.19.0"]));
    assert_eq!(root.active, Some("3.19.0".to_string()));
    assert_eq!(root.occupant, Some("3.19.0".to_string()));
    assert_eq!(root.slots, vec![]);
}

#[test]
fn removing_everything_leaves_an_empty_state_root() {
    let mut root = two_installed();
    let plan = remove("--all", &root.active, &root.installed);
    assert_eq!(root.apply_all(&plan.steps), Ok(()));
    assert_eq!(root, StateRoot::new());
}

#[test]
fn deactivate_needs_an_active_slot() {
    let mut root = StateRoot::new();
    assert_eq!(root.deactivate("3.19.0"), Err(SlotError::ActiveSlotMissing));
    assert_eq!(root, StateRoot::new());
}

#[test]
fn deactivate_does_not_overwrite_a_directory() {
    let mut root = two_installed();
    assert_eq!(root.deactivate("3.20.3"), Err(SlotError::SlotTaken));
    assert_eq!(root, two_installed());
}

#[test]
fn activate_needs_the_directory_of_the_tag() {
    let mut root = two_installed();
    assert_eq!(root.activate("3.18.0"), Err(SlotError::SlotMissing));
    assert_eq!(root, two_installed());
}

#[test]
fn activate_needs_a_free_active_slot() {
    let mut root = two_installed();
    assert_eq!(root.activate("3.20.3"), Err(SlotError::ActiveSlotTaken));
    assert_eq!(root, two_installed());
}

#[test]
fn deactivate_then_activate_swaps_the_versions() {
    let mut root = two_installed();
    assert_eq!(root.deactivate("3.19.0"), Ok(()));
    assert_eq!(root.occupant, None);
    assert!(root.has_slot("3.19.0"));
    assert!(root.has_slot("3.20.3"));
    assert_eq!(root.activate("3.20.3"), Ok(()));
    assert_eq!(root.occupant, Some("3.20.3".to_string()));
    assert!(root.has_slot("3.19.0"));
    assert!(!root.has_slot("3.20.3"));
    assert_eq!(root.active, Some("3.19.0".to_string()));
}

#[test]
fn a_plan_that_is_cut_short_leaves_the_files_of_the_old_version_in_its_directory() {
    let mut root = two_installed();
    let steps = vec![
        Step::Deactivate { tag: "3.19.0".to_string() },
        Step::Activate { tag: "3.18.0".to_string() },
        Step::SetActive { tag: "3.18.0".to_string() },
    ];
    assert_eq!(
        root.apply_all(&steps),
        Err(Failure { index: 1, error: SlotError::SlotMissing })
    );
    assert_eq!(root.occupant, None);
    assert!(root.has_slot("3.19.0"));
    assert_eq!(root.active, Some("3.19.0".to_string()));
    assert_eq!(root.installed, names(&["3.19.0", "3.20.3"]));
}

#[test]
fn adopt_and_delete_slot_add_and_take_a_directory() {
    let mut root = StateRoot::new();
    assert_eq!(root.adopt("3.20.3"), Ok(()));
    assert!(root.has_slot("3.20.3"));
    assert_eq!(root.adopt("3.20.3"), Err(SlotError::SlotTaken));
    assert_eq!(root.delete_slot("3.20.3"), Ok(()));
    assert!(!root.has_slot("3.20.3"));
    assert_eq!(root.delete_slot("3.20.3"), Err(SlotError::SlotMissing));
}

#[test]
fn the_records_are_written_as_told() {
    let mut root = StateRoot::new();
    root.record_installed("3.20.3");
    root.record_installed("3.19.0");
    root.record_installed("3.20.3");
    assert_eq!(root.installed, names(&["3.20.3", "3.19.0", "3.20.3"]));
    root.set_active("3.19.0");
    assert_eq!(root.active, Some("3.19.0".to_string()));
    assert_eq!(
        root.apply(&Step::RewriteInstalled { lines: names(&["3.19.0"]) }),
        Ok(())
    );
    assert_eq!(root.installed, names(&["3.19.0"]));
}

#[test]
fn fetching_and_unpacking_touch_neither_records_nor_directories() {
    let mut root = two_installed();
    let steps = vec![
        Step::Fetch { url: "https://example.org/a.tar.gz".to_string(), archive: "bins/a.tar.gz".to_string() },
        Step::Extract { archive: "bins/a.tar.gz".to_string(), into: "bins".to_string() },
        Step::Discard { archive: "bins/a.tar.gz".to_string() },
    ];
    assert_eq!(root.apply_all(&steps), Ok(()));
    assert_eq!(root, two_installed());
}
