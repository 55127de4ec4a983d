use cvm::install::helper_strings::{
    download_strings, os_version_for, parse_version, post_19, post_19_1, pre_19_2, pre_20,
    HelperStrings, Platform, StringsError,
};
use cvm::utils::{IntError, Version, VersionError};

fn texts(version: &str, label: &str, extension: &str) -> HelperStrings {
    HelperStrings {
        bins_path: "bins".to_string(),
        download_url: format!(
            "https://github.com/Kitware/CMake/releases/download/v{0}/cmake-{0}-{1}{2}",
            version, label, extension
        ),
        save_path: format!("bins/cmake-{}{}", version, extension),
        server_name: format!("cmake-{}-{}", version, label),
    }
}

#[test]
fn a_release_candidate_is_read_without_its_suffix() {
    assert_eq!(parse_version("3.21.0-rc1"), Ok(Version { major: 3, minor: 21, patch: 0 }));
    assert_eq!(parse_version("3.21.0"), Ok(Version { major: 3, minor: 21, patch: 0 }));
    assert_eq!(parse_version("3.21.0-rc1-2"), Ok(Version { major: 3, minor: 21, patch: 0 }));
    assert_eq!(parse_version("-3.21.0"), Err(VersionError::Malformed));
    assert_eq!(parse_version("3.21-rc1.0"), Err(VersionError::Malformed));
    assert_eq!(parse_version("3.21.x-rc1"), Err(VersionError::Patch(IntError::InvalidDigit)));
}

#[test]
fn linux_archives_changed_their_name_with_3_20() {
    let new = download_strings("3.20.3", Platform::Linux, None).unwrap();
    assert_eq!(new.bins_path, "bins");
    assert_eq!(
        new.download_url,
        "https://github.com/Kitware/CMake/releases/download/v3.20.3/cmake-3.20.3-linux-x86_64.tar.gz"
    );
    assert_eq!(new.save_path, "bins/cmake-3.20.3.tar.gz");
    assert_eq!(new.server_name, "cmake-3.20.3-linux-x86_64");
    let old = download_strings("3.19.8", Platform::Linux, None).unwrap();
    assert_eq!(
        old.download_url,
        "https://github.com/Kitware/CMake/releases/download/v3.19.8/cmake-3.19.8-Linux-x86_64.tar.gz"
    );
    assert_eq!(old.save_path, "bins/cmake-3.19.8.tar.gz");
    assert_eq!(old.server_name, "cmake-3.19.8-Linux-x86_64");
    assert_eq!(
        download_strings("3.20.0", Platform::Linux, None),
        Ok(texts("3.20.0", "linux-x86_64", ".tar.gz"))
    );
    assert_eq!(
        download_strings("3.5.2", Platform::Linux, None),
        Ok(texts("3.5.2", "Linux-x86_64", ".tar.gz"))
    );
}

#[test]
fn the_suffix_of_a_release_candidate_stays_in_the_names() {
    assert_eq!(
        download_strings("3.21.0-rc1", Platform::Linux, None),
        Ok(texts("3.21.0-rc1", "linux-x86_64", ".tar.gz"))
    );
}

#[test]
fn the_operating_system_is_not_read_on_linux_and_windows() {
    assert_eq!(
        download_strings("3.20.3", Platform::Linux, Some("nonsense")),
        download_strings("3.20.3", Platform::Linux, None)
    );
    assert_eq!(
        download_strings("3.20.3", Platform::Windows64, Some("nonsense")),
        download_strings("3.20.3", Platform::Windows64, None)
    );
    assert_eq!(
        download_strings("3.19.1", Platform::MacOs, Some("nonsense")),
        download_strings("3.19.1", Platform::MacOs, None)
    );
}

#[test]
fn windows_archives_changed_their_name_with_3_20() {
    assert_eq!(
        download_strings("3.20.3", Platform::Windows64, None),
        Ok(texts("3.20.3", "windows-x86_64", ".zip"))
    );
    assert_eq!(
        download_strings("3.20.3", Platform::Windows32, None),
        Ok(texts("3.20.3", "windows-i386", ".zip"))
    );
    assert_eq!(
        download_strings("3.19.8", Platform::Windows64, None),
        Ok(texts("3.19.8", "win64-x64", ".zip"))
    );
    assert_eq!(
        download_strings("3.19.8", Platform::Windows32, None),
        Ok(texts("3.19.8", "win32-x86", ".zip"))
    );
    assert_eq!(post_19("3.20.3", Platform::Windows64), texts("3.20.3", "windows-x86_64", ".zip"));
    assert_eq!(post_19("3.20.3", Platform::Windows32), texts("3.20.3", "windows-i386", ".zip"));
    assert_eq!(pre_20("3.19.8", Platform::Windows64), texts("3.19.8", "win64-x64", ".zip"));
    assert_eq!(pre_20("3.19.8", Platform::Windows32), texts("3.19.8", "win32-x86", ".zip"));
}

#[test]
fn macos_archives_are_universal_after_3_19_1() {
    assert_eq!(
        download_strings("3.19.1", Platform::MacOs, None),
        Ok(texts("3.19.1", "Darwin-x86_64", ".tar.gz"))
    );
    assert_eq!(
        download_strings("3.18.6", Platform::MacOs, Some("11.2.3")),
        Ok(texts("3.18.6", "Darwin-x86_64", ".tar.gz"))
    );
    assert_eq!(pre_19_2("3.19.0"), texts("3.19.0", "Darwin-x86_64", ".tar.gz"));
    assert_eq!(
        download_strings("3.19.2", Platform::MacOs, Some("11.2.3")),
        Ok(texts("3.19.2", "macos-universal", ".tar.gz"))
    );
    assert_eq!(
        download_strings("3.20.3", Platform::MacOs, Some("10.15.7")),
        Ok(texts("3.20.3", "macos-universal", ".tar.gz"))
    );
}

#[test]
fn an_old_macos_gets_the_archive_for_10_10() {
    assert_eq!(
        post_19_1("3.20.3", "10.10.5"),
        Ok(texts("3.20.3", "macos10.10-universal", ".tar.gz"))
    );
    assert_eq!(post_19_1("3.20.3", "10.9.0"), Ok(texts("3.20.3", "macos10.10-universal", ".tar.gz")));
    assert_eq!(post_19_1("3.20.3", "9.12.0"), Ok(texts("3.20.3", "macos10.10-universal", ".tar.gz")));
    assert_eq!(post_19_1("3.20.3", "10.11.0"), Ok(texts("3.20.3", "macos-universal", ".tar.gz")));
    assert_eq!(post_19_1("3.20.3", "11.0.0"), Ok(texts("3.20.3", "macos-universal", ".tar.gz")));
}

#[test]
fn a_macos_version_that_cannot_be_read_is_an_error() {
    assert_eq!(post_19_1("3.20.3", "11.2"), Err(StringsError::OsVersion(VersionError::Malformed)));
    assert_eq!(
        post_19_1("3.20.3", "eleven.2.3"),
        Err(StringsError::OsVersion(VersionError::Major(IntError::InvalidDigit)))
    );
    assert_eq!(
        download_strings("3.20.3", Platform::MacOs, None),
        Err(StringsError::OsVersionUnknown)
    );
}

#[test]
fn a_version_that_cannot_be_read_has_no_archive() {
    for platform in [Platform::MacOs, Platform::Linux, Platform::Windows32, Platform::Windows64] {
        assert_eq!(
            download_strings("3.20", platform, Some("11.2.3")),
            Err(StringsError::Version(VersionError::Malformed))
        );
        assert_eq!(
            download_strings("latest", platform, None),
            Err(StringsError::Version(VersionError::Malformed))
        );
        assert_eq!(
            download_strings("3.x.0", platform, None),
            Err(StringsError::Version(VersionError::Minor(IntError::InvalidDigit)))
        );
        assert_eq!(
            HelperStrings::new("3.x.0", platform),
            Err(StringsError::Version(VersionError::Minor(IntError::InvalidDigit)))
        );
    }
}

#[test]
fn new_gives_the_texts_of_the_platform() {
    assert_eq!(
        HelperStrings::new("3.20.3", Platform::Linux),
        Ok(texts("3.20.3", "linux-x86_64", ".tar.gz"))
    );
    assert_eq!(
        HelperStrings::new("3.19.8", Platform::Windows64),
        Ok(texts("3.19.8", "win64-x64", ".zip"))
    );
    assert_eq!(
        HelperStrings::new("3.19.1", Platform::MacOs),
        Ok(texts("3.19.1", "Darwin-x86_64", ".tar.gz"))
    );
}

#[test]
fn new_goes_by_what_the_machine_answers() {
    let os = os_version_for("3.20.3", Platform::MacOs);
    assert_eq!(
        HelperStrings::new("3.20.3", Platform::MacOs),
        download_strings("3.20.3", Platform::MacOs, os.as_deref())
    );
}

#[test]
fn the_machine_is_asked_only_where_its_answer_counts() {
    assert_eq!(os_version_for("3.20.3", Platform::Linux), None);
    assert_eq!(os_version_for("3.20.3", Platform::Windows32), None);
    assert_eq!(os_version_for("3.20.3", Platform::Windows64), None);
    assert_eq!(os_version_for("3.19.1", Platform::MacOs), None);
    assert_eq!(os_version_for("3.18.0", Platform::MacOs), None);
    assert_eq!(os_version_for("nonsense", Platform::MacOs), None);
}

#[test]
fn a_strings_error_says_what_could_not_be_read() {
    assert_eq!(
        StringsError::Version(VersionError::Malformed).message(),
        "Version does not have a major, a minor and a patch value."
    );
    assert_eq!(StringsError::OsVersionUnknown.message(), "Failed to get the os version");
    assert_eq!(
        StringsError::OsVersion(VersionError::Major(IntError::Empty)).message(),
        "Failed to read the os version. Major value could not be parsed as an int.(cannot parse integer from empty string)"
    );
}
