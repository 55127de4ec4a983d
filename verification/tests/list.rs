use cvm::list::{label, list_releases, print_release, Listed, Mark, UnknownFlag};

fn words(items: &[&str]) -> Vec<String> {
    items.iter().map(|item| item.to_string()).collect()
}

fn line(release: &str, mark: Mark) -> Listed {
    Listed { release: release.to_string(), mark }
}

#[test]
fn a_release_is_marked_by_what_is_installed_and_selected() {
    let installed = words(&["3.19.0", "3.20.3"]);
    let current = Some("3.19.0".to_string());
    assert_eq!(print_release("3.19.0", &current, &installed), Mark::Selected);
    assert_eq!(print_release("3.20.3", &current, &installed), Mark::Installed);
    assert_eq!(print_release("3.18.0", &current, &installed), Mark::Plain);
    assert_eq!(print_release("3.19.0", &None, &installed), Mark::Installed);
    assert_eq!(print_release("3.17.0", &Some("3.17.0".to_string()), &installed), Mark::Plain);
}

#[test]
fn the_marks_have_their_words() {
    assert_eq!(label(Mark::Selected), "(installed | selected)");
    assert_eq!(label(Mark::Installed), "(installed)");
    assert_eq!(label(Mark::Plain), "");
}

#[test]
fn the_short_list_shows_ten_releases() {
    let releases = words(&["12", "11", "10", "9", "8", "7", "6", "5", "4", "3", "2", "1"]);
    let shown =
        list_releases(&words(&["cvm", "list"]), &releases, &None, &words(&["11"])).unwrap();
    assert_eq!(shown.len(), 10);
    assert_eq!(shown[0], line("12", Mark::Plain));
    assert_eq!(shown[1], line("11", Mark::Installed));
    assert_eq!(shown[9], line("3", Mark::Plain));
}

#[test]
fn the_short_list_of_a_short_cache_shows_what_there_is() {
    let releases = words(&["3.20.3", "3.20.2"]);
    let current = Some("3.20.2".to_string());
    assert_eq!(
        list_releases(&words(&["cvm", "list"]), &releases, &current, &words(&["3.20.2"])),
        Ok(vec![line("3.20.3", Mark::Plain), line("3.20.2", Mark::Selected)])
    );
    assert_eq!(list_releases(&words(&["cvm", "list"]), &words(&[]), &None, &words(&[])), Ok(vec![]));
}

#[test]
fn the_long_list_shows_every_release() {
    let releases = words(&["12", "11", "10", "9", "8", "7", "6", "5", "4", "3", "2", "1"]);
    for flag in ["--all", "-a"] {
        let shown =
            list_releases(&words(&["cvm", "list", flag]), &releases, &None, &words(&["1"]))
                .unwrap();
        assert_eq!(shown.len(), 12);
        assert_eq!(shown[11], line("1", Mark::Installed));
    }
    let shown =
        list_releases(&words(&["cvm", "list", "-a", "more"]), &releases, &None, &words(&[]))
            .unwrap();
    assert_eq!(shown.len(), 12);
}

#[test]
fn another_flag_is_refused() {
    let releases = words(&["3.20.3"]);
    assert_eq!(
        list_releases(&words(&["cvm", "list", "--list"]), &releases, &None, &words(&[])),
        Err(UnknownFlag)
    );
    assert_eq!(
        list_releases(&words(&["cvm", "list", "all"]), &releases, &None, &words(&[])),
        Err(UnknownFlag)
    );
}
