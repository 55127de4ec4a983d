//! Installing a version: learning which one, and the steps that fetch it,
//! unpack it and select it.

pub mod helper_strings;

use vstd::prelude::*;
use crate::install::helper_strings::{
    download_strings, download_texts, HelperText, Platform, StringsError,
};
use crate::releases::{is_installed, is_success, HTTP_OK};
use crate::state::{
    after, consistent, extend, first_of, lemma_run_both, lemma_run_first, lemma_run_one, run,
    tag_view, Effect, Root, Step, TagRequest, TagRequestView,
};
use crate::switch::{
    deactivate, deactivation, is_current, lemma_deactivation, lemma_switch_fills, switch,
    switch_effects,
};

verus! {

/// Why no version to install could be learnt.
#[derive(Clone, Copy, Debug, PartialEq, Eq, Structural)]
pub enum InstallError {
    /// The command line holds more than the version.
    TooManyArgs,
    /// No version was named and the cache lists no release to choose from:
    /// the state root has to be removed and set up again.
    NoCachedReleases,
}

impl InstallError {
    /// What is said of the failure.
    pub fn message(&self) -> (r: &'static str)
        ensures
            r@ == match self {
                InstallError::TooManyArgs => TOO_MANY_ARGS_STR@,
                InstallError::NoCachedReleases => NO_RELEASES_FOUND_STR@,
            },
    {
        match self {
            InstallError::TooManyArgs => TOO_MANY_ARGS_STR,
            InstallError::NoCachedReleases => NO_RELEASES_FOUND_STR,
        }
    }
}

/// What is said where the cache lists no release to choose from.
pub const NO_RELEASES_FOUND_STR: &'static str =
    "Seems that we do not have any cached CMake releases.\nTry cleaning with 'cvm remove --all' and try again";

/// What is said where the command line holds more than the version.
pub const TOO_MANY_ARGS_STR: &'static str =
    "Command 'install' must only contain version to install or be empty for interactive.";

/// How a request to install ended.
#[derive(Clone, Copy, Debug, PartialEq, Eq, Structural)]
pub enum InstallOutcome {
    /// No version was named.
    Nothing,
    /// The version is installed and selected already.
    AlreadySelected,
    /// The version is installed already: the steps select it.
    Switched,
    /// The steps fetch the version, unpack it and select it.
    Installed,
}

/// What a request to install comes to.
#[derive(Clone, Debug, PartialEq, Eq)]
pub struct InstallPlan {
    pub outcome: InstallOutcome,
    pub steps: Vec<Step>,
}

/// As many releases as the user is shown to choose from.
pub const SHOWN_RELEASES: usize = 11;

/// How the version to install is learnt: from the third argument where
/// there are exactly three, else from the user, who chooses among the
/// first releases of the cache.
pub open spec fn tag_request(releases: Seq<Seq<char>>, args: Seq<Seq<char>>) -> Result<
    TagRequestView,
    InstallError,
> {
    if args.len() > 3 {
        Err(InstallError::TooManyArgs)
    } else if args.len() == 3 {
        Ok(TagRequestView::Given(args[2]))
    } else if releases.len() == 0 {
        Err(InstallError::NoCachedReleases)
    } else if releases.len() <= SHOWN_RELEASES {
        Ok(TagRequestView::Ask(releases))
    } else {
        Ok(TagRequestView::Ask(releases.take(SHOWN_RELEASES as int)))
    }
}

/// A request, or why there is none, over characters.
pub open spec fn request_view(r: Result<TagRequest, InstallError>) -> Result<
    TagRequestView,
    InstallError,
> {
    match r {
        Ok(request) => Ok(request.deep_view()),
        Err(e) => Err(e),
    }
}

/// How the version to install is learnt.
pub fn get_tag(releases: &Vec<String>, args: &Vec<String>) -> (r: Result<TagRequest, InstallError>)
    ensures
        request_view(r) == tag_request(releases.deep_view(), args.deep_view()),
{
    if args.len() > 3 {
        return Err(InstallError::TooManyArgs);
    }
    if args.len() == 3 {
        assert(args.deep_view()[2] == args@[2]@);
        return Ok(TagRequest::Given(args[2].clone()));
    }
    if releases.len() == 0 {
        return Err(InstallError::NoCachedReleases);
    }
    let options = first_of(releases, SHOWN_RELEASES);
    assert(releases.deep_view().take(releases.len() as int) =~= releases.deep_view());
    Ok(TagRequest::Ask(options))
}

/// The steps that bring the release `tag` into its directory: fetch the
/// archive, unpack it, give what was unpacked the tag's name, delete the
/// archive.
pub open spec fn staging(strings: HelperText, tag: Seq<char>) -> Seq<Effect> {
    seq![
        Effect::Fetch { url: strings.download_url, archive: strings.save_path },
        Effect::Extract { archive: strings.save_path, into: strings.bins_path },
        Effect::Adopt { unpacked: strings.bins_path + "/"@ + strings.server_name, tag },
        Effect::Discard { archive: strings.save_path },
    ]
}

/// The steps that bring the release `version` into its directory, or why
/// its archive cannot be named.
pub open spec fn download_plan(
    version: Seq<char>,
    platform: Platform,
    os_version: Option<Seq<char>>,
) -> Result<Seq<Effect>, StringsError> {
    match download_texts(version, platform, os_version) {
        Ok(strings) => Ok(staging(strings, version)),
        Err(e) => Err(e),
    }
}

/// Steps, or why there are none, over characters.
pub open spec fn steps_view(r: Result<Vec<Step>, StringsError>) -> Result<Seq<Effect>, StringsError> {
    match r {
        Ok(steps) => Ok(steps.deep_view()),
        Err(e) => Err(e),
    }
}

/// The steps that bring the release `version` into its directory.
/// `os_version` is what the operating system answered when asked for its
/// version; see `os_version_for`.
pub fn download(version: &str, platform: Platform, os_version: Option<&str>) -> (r: Result<
    Vec<Step>,
    StringsError,
>)
    ensures
        steps_view(r) == download_plan(
            version@,
            platform,
            match os_version {
                Some(os) => Some(os@),
                None => None,
            },
        ),
{
    let strings = match download_strings(version, platform, os_version) {
        Ok(strings) => strings,
        Err(e) => {
            return Err(e);
        },
    };
    let mut unpacked = strings.bins_path.clone();
    unpacked.append("/");
    unpacked.append(strings.server_name.as_str());
    let mut steps: Vec<Step> = Vec::new();
    steps.push(Step::Fetch { url: strings.download_url.clone(), archive: strings.save_path.clone() });
    steps.push(
        Step::Extract { archive: strings.save_path.clone(), into: strings.bins_path.clone() },
    );
    steps.push(Step::Adopt { unpacked, tag: version.to_string() });
    steps.push(Step::Discard { archive: strings.save_path.clone() });
    assert(steps.deep_view() =~= staging(strings@, version@));
    Ok(steps)
}

/// The request for an archive was answered with a status other than 200.
#[derive(Clone, Copy, Debug, PartialEq, Eq, Structural)]
pub struct TransportError {
    /// The status of the answer.
    pub status: u32,
}

/// Decides on the answer to the request for an archive, by its status:
/// only the body of an answer with the status 200 is the archive. With
/// any other status the step `Fetch` fails, before anything is written,
/// so that nothing is unpacked and no directory is renamed.
pub fn archive_answer(status: u32) -> (r: Result<(), TransportError>)
    ensures
        r is Ok <==> status == HTTP_OK,
        r matches Err(error) ==> error.status == status,
{
    if is_success(status) {
        Ok(())
    } else {
        Err(TransportError { status })
    }
}

/// The steps that select a release once it is in its directory, and
/// record it: the selected version is written last.
pub open spec fn completion(tag: Seq<char>) -> Seq<Effect> {
    seq![
        Effect::Activate { tag },
        Effect::RecordInstalled { tag },
        Effect::SetActive { tag },
    ]
}

/// What installing `tag` comes to where `current` is selected and
/// `installed` are installed.
pub open spec fn install_plan(
    tag: Seq<char>,
    current: Option<Seq<char>>,
    installed: Seq<Seq<char>>,
    platform: Platform,
    os_version: Option<Seq<char>>,
) -> Result<(InstallOutcome, Seq<Effect>), StringsError> {
    if tag.len() == 0 {
        Ok((InstallOutcome::Nothing, Seq::empty()))
    } else if current == Some(tag) {
        Ok((InstallOutcome::AlreadySelected, Seq::empty()))
    } else if installed.contains(tag) {
        Ok((InstallOutcome::Switched, deactivation(current) + switch_effects(tag)))
    } else {
        match download_plan(tag, platform, os_version) {
            Err(e) => Err(e),
            Ok(fetch) => Ok(
                (InstallOutcome::Installed, deactivation(current) + fetch + completion(tag)),
            ),
        }
    }
}

/// A plan, or why there is none, over characters.
pub open spec fn plan_view(r: Result<InstallPlan, StringsError>) -> Result<
    (InstallOutcome, Seq<Effect>),
    StringsError,
> {
    match r {
        Ok(plan) => Ok((plan.outcome, plan.steps.deep_view())),
        Err(e) => Err(e),
    }
}

/// Plans the installation of `tag`, where `current` is selected and
/// `installed` are installed. The selected version takes no step; one
/// that is installed is only selected; any other is fetched first. Where
/// the archive of `tag` cannot be named, no step is taken at all.
/// `os_version` is what the operating system answered when asked for its
/// version; see `os_version_for`.
pub fn install_version(
    tag: &str,
    current: &Option<String>,
    installed: &Vec<String>,
    platform: Platform,
    os_version: Option<&str>,
) -> (r: Result<InstallPlan, StringsError>)
    ensures
        plan_view(r) == install_plan(
            tag@,
            tag_view(*current),
            installed.deep_view(),
            platform,
            match os_version {
                Some(os) => Some(os@),
                None => None,
            },
        ),
{
    let none: Vec<Step> = Vec::new();
    assert(none.deep_view() =~= Seq::<Effect>::empty());
    if tag.is_empty() {
        return Ok(InstallPlan { outcome: InstallOutcome::Nothing, steps: none });
    }
    if is_current(tag, current) {
        return Ok(InstallPlan { outcome: InstallOutcome::AlreadySelected, steps: none });
    }
    if is_installed(tag, installed) {
        let mut steps = deactivate(current);
        extend(&mut steps, switch(tag));
        return Ok(InstallPlan { outcome: InstallOutcome::Switched, steps });
    }
    let fetch = match download(tag, platform, os_version) {
        Ok(fetch) => fetch,
        Err(e) => {
            return Err(e);
        },
    };
    let mut steps = deactivate(current);
    extend(&mut steps, fetch);
    let mut last: Vec<Step> = Vec::new();
    last.push(Step::Activate { tag: tag.to_string() });
    last.push(Step::RecordInstalled { tag: tag.to_string() });
    last.push(Step::SetActive { tag: tag.to_string() });
    assert(last.deep_view() =~= completion(tag@));
    extend(&mut steps, last);
    Ok(InstallPlan { outcome: InstallOutcome::Installed, steps })
}

/// Where the active slot is free and `tag` is not installed, fetching
/// it and completing the installation succeeds: `tag` is installed,
/// selected, and fills the active slot with its own files.
pub proof fn lemma_fetch_fills(cleared: Root, strings: HelperText, tag: Seq<char>)
    requires
        cleared.occupant is None,
        tag.len() > 0,
        !cleared.installed.contains(tag),
        forall|other: Seq<char>| #[trigger]
            cleared.slots.dom().contains(other) <==> cleared.installed.contains(other),
        forall|other: Seq<char>| #[trigger]
            cleared.slots.dom().contains(other) ==> cleared.slots[other] == other,
    ensures
        run(cleared, staging(strings, tag) + completion(tag)) matches Some(done) && consistent(done)
            && done.active == Some(tag) && done.occupant == Some(tag) && done.installed
            == cleared.installed.push(tag),
{
    let fetch = Effect::Fetch { url: strings.download_url, archive: strings.save_path };
    let extract = Effect::Extract { archive: strings.save_path, into: strings.bins_path };
    let adopt = Effect::Adopt { unpacked: strings.bins_path + "/"@ + strings.server_name, tag };
    let discard = Effect::Discard { archive: strings.save_path };
    let activate = Effect::Activate { tag };
    let install = Effect::RecordInstalled { tag };
    let select = Effect::SetActive { tag };
    let all = staging(strings, tag) + completion(tag);
    let after_fetch = seq![extract, adopt, discard, activate, install, select];
    let after_extract = seq![adopt, discard, activate, install, select];
    let after_adopt = seq![discard, activate, install, select];
    let after_discard = seq![activate, install, select];
    let after_activate = seq![install, select];
    assert(all =~= seq![fetch] + after_fetch);
    assert(after_fetch =~= seq![extract] + after_extract);
    assert(after_extract =~= seq![adopt] + after_adopt);
    assert(after_adopt =~= seq![discard] + after_discard);
    assert(after_discard =~= seq![activate] + after_activate);
    assert(after_activate =~= seq![install] + seq![select]);
    lemma_run_first(cleared, fetch, after_fetch);
    lemma_run_first(cleared, extract, after_extract);
    lemma_run_first(cleared, adopt, after_adopt);
    assert(!cleared.slots.dom().contains(tag));
    let adopted = after(cleared, adopt)->0;
    lemma_run_first(adopted, discard, after_discard);
    lemma_run_first(adopted, activate, after_activate);
    assert(adopted.slots.dom().contains(tag));
    let filled = after(adopted, activate)->0;
    lemma_run_first(filled, install, seq![select]);
    let recorded = after(filled, install)->0;
    lemma_run_one(recorded, select);
    let done = after(recorded, select)->0;
    assert(done.installed == cleared.installed.push(tag));
    assert(done.installed[cleared.installed.len() as int] == tag);
    assert forall|other: Seq<char>| #[trigger]
        done.slots.dom().contains(other) <==> done.installed.contains(other) && done.active
            != Some(other) by {
        assert(cleared.slots.dom().contains(other) <==> cleared.installed.contains(other));
        if cleared.installed.contains(other) {
            let i = choose|i: int| 0 <= i < cleared.installed.len() && cleared.installed[i] == other;
            assert(done.installed[i] == other);
        }
        if done.installed.contains(other) && other != tag {
            let i = choose|i: int| 0 <= i < done.installed.len() && done.installed[i] == other;
            assert(cleared.installed[i] == other);
        }
    }
    assert forall|other: Seq<char>| #[trigger]
        done.slots.dom().contains(other) implies done.slots[other] == other by {
        assert(cleared.slots.dom().contains(other));
    }
}

/// Where the request for the archive is refused, nothing was unpacked
/// and no directory was renamed into a slot: in a plan that installs a
/// new version, the steps before the step that fetches the archive are
/// those that clear the active slot, and no others.
pub proof fn lemma_refused_archive(
    tag: Seq<char>,
    current: Option<Seq<char>>,
    installed: Seq<Seq<char>>,
    platform: Platform,
    os_version: Option<Seq<char>>,
)
    requires
        install_plan(tag, current, installed, platform, os_version) matches Ok(plan) && plan.0
            == InstallOutcome::Installed,
    ensures
        ({
            let steps = install_plan(tag, current, installed, platform, os_version)->Ok_0.1;
            let before = deactivation(current);
            &&& before.len() < steps.len()
            &&& steps[before.len() as int] is Fetch
            &&& steps.take(before.len() as int) == before
            &&& forall|i: int|
                0 <= i < before.len() ==> #[trigger] steps[i] == (Effect::Deactivate {
                    tag: current->0,
                })
        }),
{
    let steps = install_plan(tag, current, installed, platform, os_version)->Ok_0.1;
    let before = deactivation(current);
    assert(steps.take(before.len() as int) =~= before);
}

/// After a version is installed, it is among the installed versions, it
/// is the selected version, and its files fill the active slot. On a
/// consistent state root every plan to install a version succeeds, as
/// far as the records and the directories go, and leaves a consistent
/// state root.
pub proof fn lemma_install_selects(
    root: Root,
    tag: Seq<char>,
    platform: Platform,
    os_version: Option<Seq<char>>,
)
    requires
        consistent(root),
        tag.len() > 0,
        install_plan(tag, root.active, root.installed, platform, os_version) is Ok,
    ensures
        run(
            root,
            install_plan(tag, root.active, root.installed, platform, os_version)->Ok_0.1,
        ) matches Some(done) && consistent(done) && done.installed.contains(tag) && done.active
            == Some(tag) && done.occupant == Some(tag),
{
    let plan = install_plan(tag, root.active, root.installed, platform, os_version)->Ok_0;
    if root.active == Some(tag) {
    } else {
        lemma_deactivation(root);
        let cleared = run(root, deactivation(root.active))->0;
        if root.installed.contains(tag) {
            lemma_run_both(root, deactivation(root.active), switch_effects(tag));
            lemma_switch_fills(cleared, tag);
        } else {
            let strings = download_texts(tag, platform, os_version)->Ok_0;
            let rest = staging(strings, tag) + completion(tag);
            assert(plan.1 =~= deactivation(root.active) + rest);
            lemma_run_both(root, deactivation(root.active), rest);
            lemma_fetch_fills(cleared, strings, tag);
            let done = run(cleared, rest)->0;
            assert(done.installed[root.installed.len() as int] == tag);
        }
    }
}

} // verus!
