//! Decisions of the self-update: which release is newer, and when to look
//! for one.

use std::cmp::Ordering;
use vstd::prelude::*;

verus! {

/// The platform family that an installation runs on.
#[derive(Clone, Copy, Debug, PartialEq, Eq, Structural)]
pub enum Platform {
    Windows,
    Unix,
}

/// The file name of `filename` on `platform`: with `extension` behind it on
/// Windows, bare elsewhere.
pub open spec fn with_extension(filename: Seq<char>, extension: Seq<char>, platform: Platform) -> Seq<
    char,
> {
    match platform {
        Platform::Windows => filename + extension,
        Platform::Unix => filename,
    }
}

/// Appends `extension` to `filename` where the platform is Windows, and
/// returns `filename` unchanged elsewhere.
pub fn win_append_extension(filename: &str, extension: &str, platform: Platform) -> (out: String)
    ensures
        out@ == with_extension(filename@, extension@, platform),
{
    let mut out = filename.to_owned();
    match platform {
        Platform::Windows => {
            out.append(extension);
        },
        Platform::Unix => {},
    }
    out
}

/// How one version stands to another.
#[derive(Clone, Copy, Debug, PartialEq, Eq, Structural)]
pub enum Precedence {
    Older,
    Same,
    Newer,
}

/// The number that stands for a precedence: -1, 0 or 1.
pub open spec fn sign(precedence: Precedence) -> int {
    match precedence {
        Precedence::Older => -1,
        Precedence::Same => 0,
        Precedence::Newer => 1,
    }
}

/// The sign of an optional precedence.
pub open spec fn opt_sign(precedence: Option<Precedence>) -> Option<int> {
    match precedence {
        Some(precedence) => Some(sign(precedence)),
        None => None,
    }
}

/// How the semantic version written as `first` stands to the one written
/// as `second`, as a sign; none where either text is no semantic version.
pub uninterp spec fn semver_order(first: Seq<char>, second: Seq<char>) -> Option<int>;

/// Reads both texts with `semver::Version::parse` and compares the two
/// versions with their `Ord::cmp`. The result is a function of the two
/// texts; nothing more is claimed of it.
#[verifier::external_body]
fn compare_versions(first: &str, second: &str) -> (out: Option<Precedence>)
    ensures
        opt_sign(out) == semver_order(first@, second@),
{
    match (semver::Version::parse(first), semver::Version::parse(second)) {
        (Ok(first), Ok(second)) => Some(
            match first.cmp(&second) {
                Ordering::Less => Precedence::Older,
                Ordering::Equal => Precedence::Same,
                Ordering::Greater => Precedence::Newer,
            },
        ),
        _ => None,
    }
}

/// A look for a newer release is due when the installed version is the
/// version of the running package and the launcher link points at the
/// running executable.
pub fn check_due_for(installed_to_package: Option<Precedence>, link_is_current: bool) -> (due: bool)
    ensures
        due == (link_is_current && installed_to_package == Some(Precedence::Same)),
{
    link_is_current && match installed_to_package {
        Some(Precedence::Same) => true,
        _ => false,
    }
}

/// A release is installed when it is newer than the running package.
pub fn upgrade_for(latest_to_package: Option<Precedence>) -> (upgrade: bool)
    ensures
        upgrade == (latest_to_package == Some(Precedence::Newer)),
{
    match latest_to_package {
        Some(Precedence::Newer) => true,
        _ => false,
    }
}

/// Decides whether to look for a newer release. `installed_version` is the
/// name of the directory that holds the running executable. A text that is
/// no semantic version calls for no look.
pub fn release_check_due(installed_version: &str, package_version: &str, link_is_current: bool) -> (due:
    bool)
    ensures
        due == (link_is_current && semver_order(installed_version@, package_version@) == Some(0int)),
{
    check_due_for(compare_versions(installed_version, package_version), link_is_current)
}

/// Decides whether the latest release is to be installed: it is when it is
/// newer than the running package.
pub fn upgrade_available(latest_version: &str, package_version: &str) -> (upgrade: bool)
    ensures
        upgrade == (semver_order(latest_version@, package_version@) == Some(1int)),
{
    upgrade_for(compare_versions(latest_version, package_version))
}

} // verus!
