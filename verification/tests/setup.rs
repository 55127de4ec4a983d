use cvm::setup::{cache_text, setup_cvm, validate_caches, SetupStep};
use cvm::state::{
    CVM_BINS, CVM_CACHE, CVM_CURRENT_DIR, CVM_CURRENT_FILE, CVM_DIR, CVM_INSTALLED,
};

fn releases(items: &[&str]) -> Vec<String> {
    items.iter().map(|item| item.to_string()).collect()
}

#[test]
fn the_files_of_the_state_root_have_their_names() {
    assert_eq!(CVM_DIR, ".cvm");
    assert_eq!(CVM_BINS, "bins");
    assert_eq!(CVM_CURRENT_DIR, "active");
    assert_eq!(CVM_CACHE, "release-cache");
    assert_eq!(CVM_INSTALLED, "installed-versions");
    assert_eq!(CVM_CURRENT_FILE, "active-version");
}

#[test]
fn a_state_root_that_exists_is_not_set_up_again() {
    assert_eq!(setup_cvm(true), vec![]);
}

#[test]
fn a_new_state_root_gets_its_directories_and_records() {
    assert_eq!(
        setup_cvm(false),
        vec![
            SetupStep::CreateRoot,
            SetupStep::CreateDir { path: "bins".to_string() },
            SetupStep::CreateFile { path: "release-cache".to_string() },
            SetupStep::CreateFile { path: "installed-versions".to_string() },
            SetupStep::CreateFile { path: "active-version".to_string() },
        ]
    );
}

#[test]
fn a_cache_that_starts_with_the_latest_release_is_fresh() {
    assert!(!validate_caches("3.20.3\n3.20.2\n", "3.20.3"));
    assert!(!validate_caches("3.20.3", "3.20.3"));
    assert!(!validate_caches("3.20.3\n", "3.20.3"));
}

#[test]
fn a_cache_that_starts_with_another_release_is_stale() {
    assert!(validate_caches("3.20.2\n3.20.1\n", "3.20.3"));
    assert!(validate_caches("3.20.2\n3.20.3\n", "3.20.3"));
    assert!(validate_caches("3.20.30\n", "3.20.3"));
    assert!(validate_caches("3.20.3\n", "v3.20.3"));
    assert!(validate_caches("3.20.3\n", ""));
}

#[test]
fn an_empty_cache_is_stale_unless_the_feed_gave_nothing() {
    assert!(validate_caches("", "3.20.3"));
    assert!(!validate_caches("", ""));
    assert!(!validate_caches("\n", ""));
}

#[test]
fn the_cache_lists_one_release_on_each_line() {
    assert_eq!(cache_text(&releases(&["3.20.3", "3.20.2", "3.19.8"])), "3.20.3\n3.20.2\n3.19.8\n");
    assert_eq!(cache_text(&releases(&[])), "");
}

#[test]
fn a_second_check_writes_nothing() {
    let feed = releases(&["3.20.3", "3.20.2", "3.19.8"]);
    let latest = "3.20.3";
    for cache in ["", "3.20.2\n3.19.8\n", "3.20.3\n", "junk"] {
        let after_first = if validate_caches(cache, latest) {
            cache_text(&feed)
        } else {
            cache.to_string()
        };
        assert!(!validate_caches(&after_first, latest));
    }
}
