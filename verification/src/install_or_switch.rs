//! The command that is a version tag alone.

use vstd::prelude::*;
use crate::install::helper_strings::{Platform, StringsError};
use crate::install::{install_plan, install_version, plan_view, InstallPlan};
use crate::state::tag_view;

verus! {

/// Plans what a version tag alone asks for: nothing where `version` is
/// selected, its selection where it is installed, else its installation.
/// It is the plan of `install` with that version.
pub fn install_or_switch(
    version: &str,
    current: &Option<String>,
    installed: &Vec<String>,
    platform: Platform,
    os_version: Option<&str>,
) -> (r: Result<InstallPlan, StringsError>)
    ensures
        plan_view(r) == install_plan(
            version@,
            tag_view(*current),
            installed.deep_view(),
            platform,
            match os_version {
                Some(os) => Some(os@),
                None => None,
            },
        ),
{
    install_version(version, current, installed, platform, os_version)
}

} // verus!
