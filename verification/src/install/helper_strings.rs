//! Where a release is downloaded from and where its archive is kept. The
//! names that the vendor gives its archives differ by platform and changed
//! with the version.

use vstd::prelude::*;
use sysinfo::{System, SystemExt};
use crate::state::CVM_BINS;
use crate::text::{chars_of, first_index, lemma_first_index_is, slice_of};
use crate::utils::{parsed_version, Version, VersionError};

verus! {

/// The platforms for which the vendor publishes archives.
#[derive(Clone, Copy, Debug, PartialEq, Eq, Structural)]
pub enum Platform {
    /// macOS.
    MacOs,
    /// Linux on x86-64.
    Linux,
    /// Windows on 32-bit x86.
    Windows32,
    /// Windows on any other processor.
    Windows64,
}

/// The texts needed to download one release. The paths are relative to the
/// state root, with `/` between their parts.
#[derive(Clone, Debug, PartialEq, Eq)]
pub struct HelperStrings {
    /// The directory that holds the installations.
    pub bins_path: String,
    /// The address of the release archive.
    pub download_url: String,
    /// Where the archive is kept while it is unpacked.
    pub save_path: String,
    /// The name of the directory that the archive unpacks to.
    pub server_name: String,
}

/// The characters of a `HelperStrings`.
pub struct HelperText {
    pub bins_path: Seq<char>,
    pub download_url: Seq<char>,
    pub save_path: Seq<char>,
    pub server_name: Seq<char>,
}

impl View for HelperStrings {
    type V = HelperText;

    open spec fn view(&self) -> HelperText {
        HelperText {
            bins_path: self.bins_path@,
            download_url: self.download_url@,
            save_path: self.save_path@,
            server_name: self.server_name@,
        }
    }
}

/// Why the download texts could not be made.
#[derive(Clone, Copy, Debug, PartialEq, Eq, Structural)]
pub enum StringsError {
    /// The requested version holds no three numbers.
    Version(VersionError),
    /// The operating system did not tell its version.
    OsVersionUnknown,
    /// The operating system's version holds no three numbers.
    OsVersion(VersionError),
}

impl StringsError {
    /// What is said of the failure.
    pub open spec fn text(self) -> Seq<char> {
        match self {
            StringsError::Version(cause) => cause.text(),
            StringsError::OsVersionUnknown => "Failed to get the os version"@,
            StringsError::OsVersion(cause) => "Failed to read the os version. "@ + cause.text(),
        }
    }

    /// What is said of the failure.
    pub fn message(&self) -> (r: String)
        ensures
            r@ == self.text(),
    {
        match self {
            StringsError::Version(cause) => cause.message(),
            StringsError::OsVersionUnknown => "Failed to get the os version".to_string(),
            StringsError::OsVersion(cause) => {
                let mut r = "Failed to read the os version. ".to_string();
                r.append(cause.message().as_str());
                r
            },
        }
    }
}

/// The texts for `version`, where the vendor marks the platform's archive
/// with `label` and packs it as `extension`.
pub open spec fn strings_for(version: Seq<char>, label: Seq<char>, extension: Seq<char>) -> HelperText {
    let name = "cmake-"@ + version;
    let server_name = name + "-"@ + label;
    HelperText {
        bins_path: CVM_BINS@,
        download_url: "https://github.com/Kitware/CMake/releases/download/v"@ + version + "/"@
            + server_name + extension,
        save_path: CVM_BINS@ + "/"@ + name + extension,
        server_name,
    }
}

fn assemble(version: &str, label: &str, extension: &str) -> (r: HelperStrings)
    ensures
        r@ == strings_for(version@, label@, extension@),
{
    let mut name = "cmake-".to_string();
    name.append(version);
    let mut server_name = name.clone();
    server_name.append("-");
    server_name.append(label);
    let mut download_url = "https://github.com/Kitware/CMake/releases/download/v".to_string();
    download_url.append(version);
    download_url.append("/");
    download_url.append(server_name.as_str());
    download_url.append(extension);
    let mut save_path = CVM_BINS.to_string();
    save_path.append("/");
    save_path.append(name.as_str());
    save_path.append(extension);
    let r = HelperStrings { bins_path: CVM_BINS.to_string(), download_url, save_path, server_name };
    proof {
        let want = strings_for(version@, label@, extension@);
        assert(r@.download_url =~= want.download_url);
        assert(r@.save_path =~= want.save_path);
        assert(r@.server_name =~= want.server_name);
    }
    r
}

/// `version` up to its first hyphen: what stands before a release
/// candidate's suffix.
pub open spec fn without_suffix(version: Seq<char>) -> Seq<char> {
    version.take(first_index(version, '-'))
}

/// The three numbers of a release, whose tag may end in a hyphen and a
/// suffix.
pub fn parse_version(version: &str) -> (r: Result<Version, VersionError>)
    ensures
        r == parsed_version(without_suffix(version@)),
{
    let chars = chars_of(version);
    let mut i: usize = 0;
    while i < chars.len() && chars[i] != '-'
        invariant
            chars@ == version@,
            i <= chars.len(),
            forall|j: int| 0 <= j < i ==> version@[j] != '-',
        decreases chars.len() - i,
    {
        i += 1;
    }
    proof {
        lemma_first_index_is(version@, '-', i as int);
    }
    let clean = slice_of(version, 0, i);
    assert(clean@ =~= without_suffix(version@));
    crate::utils::parse_version(clean.as_str())
}

/// macOS releases up to 3.19.1 are marked `Darwin-x86_64`.
pub open spec fn before_universal(v: Version) -> bool {
    v.minor < 19 || (v.minor == 19 && v.patch <= 1)
}

/// The texts of a macOS release up to 3.19.1.
pub fn pre_19_2(version: &str) -> (r: HelperStrings)
    ensures
        r@ == strings_for(version@, "Darwin-x86_64"@, ".tar.gz"@),
{
    assemble(version, "Darwin-x86_64", ".tar.gz")
}

/// How a universal macOS archive is marked on a system of version `os`.
pub open spec fn universal_label(os: Version) -> Seq<char> {
    if os.major < 10 || (os.major == 10 && os.minor <= 10) {
        "macos10.10-universal"@
    } else {
        "macos-universal"@
    }
}

/// The texts of a macOS release after 3.19.1 on a system whose version
/// reads `os_version`.
pub open spec fn post_19_1_texts(version: Seq<char>, os_version: Seq<char>) -> Result<
    HelperText,
    StringsError,
> {
    match parsed_version(without_suffix(os_version)) {
        Err(e) => Err(StringsError::OsVersion(e)),
        Ok(os) => Ok(strings_for(version, universal_label(os), ".tar.gz"@)),
    }
}

/// A result with the texts seen as characters.
pub open spec fn as_texts(r: Result<HelperStrings, StringsError>) -> Result<HelperText, StringsError> {
    match r {
        Ok(strings) => Ok(strings@),
        Err(e) => Err(e),
    }
}

/// The texts of a macOS release after 3.19.1, on a system whose version
/// reads `os_version`.
pub fn post_19_1(version: &str, os_version: &str) -> (r: Result<HelperStrings, StringsError>)
    ensures
        as_texts(r) == post_19_1_texts(version@, os_version@),
{
    let mac_version = match parse_version(os_version) {
        Ok(v) => v,
        Err(e) => {
            return Err(StringsError::OsVersion(e));
        },
    };
    let dw_name = if mac_version.major < 10 || mac_version.major == 10 && mac_version.minor <= 10 {
        "macos10.10-universal"
    } else {
        "macos-universal"
    };
    Ok(assemble(version, dw_name, ".tar.gz"))
}

/// The texts of a Windows release from 3.20 on.
pub fn post_19(version: &str, platform: Platform) -> (r: HelperStrings)
    ensures
        r@ == strings_for(
            version@,
            if platform == Platform::Windows32 {
                "windows-i386"@
            } else {
                "windows-x86_64"@
            },
            ".zip"@,
        ),
{
    let arch = match platform {
        Platform::Windows32 => "windows-i386",
        _ => "windows-x86_64",
    };
    assemble(version, arch, ".zip")
}

/// The texts of a Windows release before 3.20.
pub fn pre_20(version: &str, platform: Platform) -> (r: HelperStrings)
    ensures
        r@ == strings_for(
            version@,
            if platform == Platform::Windows32 {
                "win32-x86"@
            } else {
                "win64-x64"@
            },
            ".zip"@,
        ),
{
    let arch = match platform {
        Platform::Windows32 => "win32-x86",
        _ => "win64-x64",
    };
    assemble(version, arch, ".zip")
}

/// The texts for `version` on `platform`, where the operating system
/// answered `os_version` when asked for its version. The answer is read
/// only for a macOS release after 3.19.1.
pub open spec fn download_texts(
    version: Seq<char>,
    platform: Platform,
    os_version: Option<Seq<char>>,
) -> Result<HelperText, StringsError> {
    match parsed_version(without_suffix(version)) {
        Err(e) => Err(StringsError::Version(e)),
        Ok(v) => match platform {
            Platform::MacOs => if before_universal(v) {
                Ok(strings_for(version, "Darwin-x86_64"@, ".tar.gz"@))
            } else {
                match os_version {
                    None => Err(StringsError::OsVersionUnknown),
                    Some(os) => post_19_1_texts(version, os),
                }
            },
            Platform::Linux => Ok(
                strings_for(
                    version,
                    if v.minor > 19 {
                        "linux-x86_64"@
                    } else {
                        "Linux-x86_64"@
                    },
                    ".tar.gz"@,
                ),
            ),
            Platform::Windows32 => Ok(
                strings_for(
                    version,
                    if v.minor >= 20 {
                        "windows-i386"@
                    } else {
                        "win32-x86"@
                    },
                    ".zip"@,
                ),
            ),
            Platform::Windows64 => Ok(
                strings_for(
                    version,
                    if v.minor >= 20 {
                        "windows-x86_64"@
                    } else {
                        "win64-x64"@
                    },
                    ".zip"@,
                ),
            ),
        },
    }
}

/// Whether the operating system's version decides the texts for `version`
/// on `platform`.
pub open spec fn reads_os_version(version: Seq<char>, platform: Platform) -> bool {
    platform == Platform::MacOs && (parsed_version(without_suffix(version)) matches Ok(v)
        && !before_universal(v))
}

/// The texts for `version` on `platform`, given what the operating system
/// answered when asked for its version.
pub fn download_strings(version: &str, platform: Platform, os_version: Option<&str>) -> (r:
    Result<HelperStrings, StringsError>)
    ensures
        as_texts(r) == download_texts(
            version@,
            platform,
            match os_version {
                Some(os) => Some(os@),
                None => None,
            },
        ),
{
    let cmake_version = match parse_version(version) {
        Ok(v) => v,
        Err(e) => {
            return Err(StringsError::Version(e));
        },
    };
    match platform {
        Platform::MacOs => {
            if cmake_version.minor < 19 || cmake_version.minor == 19 && cmake_version.patch <= 1 {
                return Ok(pre_19_2(version));
            }
            match os_version {
                None => Err(StringsError::OsVersionUnknown),
                Some(os) => post_19_1(version, os),
            }
        },
        Platform::Linux => {
            let label = if cmake_version.minor > 19 {
                "linux-x86_64"
            } else {
                "Linux-x86_64"
            };
            Ok(assemble(version, label, ".tar.gz"))
        },
        _ => {
            if cmake_version.minor >= 20 {
                return Ok(post_19(version, platform));
            }
            Ok(pre_20(version, platform))
        },
    }
}

/// Calls sysinfo's `System::new` and then `SystemExt::os_version` on it,
/// which asks the machine for the version of its operating system. The
/// answer depends on the machine, so nothing is claimed of it.
#[verifier::external_body]
fn host_os_version() -> (r: Option<String>) {
    System::new().os_version()
}

/// The version of this machine's operating system, where the texts for
/// `version` on `platform` depend on it: for a macOS release after 3.19.1.
/// For every other release the machine is not asked.
pub fn os_version_for(version: &str, platform: Platform) -> (r: Option<String>)
    ensures
        !reads_os_version(version@, platform) ==> r is None,
{
    let needed = match platform {
        Platform::MacOs => match parse_version(version) {
            Ok(v) => !(v.minor < 19 || v.minor == 19 && v.patch <= 1),
            Err(_) => false,
        },
        _ => false,
    };
    if needed {
        host_os_version()
    } else {
        None
    }
}

impl HelperStrings {
    /// The texts for `version` on `platform`. For a macOS release after
    /// 3.19.1 the operating system is asked for its version, and the
    /// result is the one that belongs to its answer, whatever that is; for
    /// every other release the arguments fix the result.
    pub fn new(version: &str, platform: Platform) -> (r: Result<Self, StringsError>)
        ensures
            !reads_os_version(version@, platform) ==> as_texts(r) == download_texts(
                version@,
                platform,
                None,
            ),
            exists|os: Option<Seq<char>>|
                as_texts(r) == #[trigger] download_texts(version@, platform, os),
    {
        match os_version_for(version, platform) {
            Some(os) => {
                let r = download_strings(version, platform, Some(os.as_str()));
                assert(as_texts(r) == download_texts(version@, platform, Some(os@)));
                r
            },
            None => download_strings(version, platform, None),
        }
    }
}

} // verus!
