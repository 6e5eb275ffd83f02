//! Worker versions and the requirement that they must satisfy, decided by
//! `semver`.

use vstd::prelude::*;

verus! {

#[verifier::external_type_specification]
#[verifier::external_body]
pub struct ExVersion(semver::Version);

#[verifier::external_type_specification]
#[verifier::external_body]
pub struct ExVersionReq(semver::VersionReq);

#[verifier::external_type_specification]
#[verifier::external_body]
pub struct ExSemverError(semver::Error);

/// What `semver` reads from a version text: nothing where the text is no
/// version.
pub uninterp spec fn parsed_version(text: Seq<char>) -> Option<semver::Version>;

/// What `semver` reads from a requirement text: nothing where the text is no
/// requirement.
pub uninterp spec fn parsed_requirement(text: Seq<char>) -> Option<semver::VersionReq>;

/// Whether a version satisfies a requirement, as `semver` evaluates it.
pub uninterp spec fn requirement_matches(req: semver::VersionReq, version: semver::Version) -> bool;

/// `semver::Version::parse`: the version that the text denotes, or an error
/// where it denotes none.
#[verifier::external_body]
fn parse_version(text: &str) -> (res: Result<semver::Version, semver::Error>)
    ensures
        match res {
            Ok(v) => parsed_version(text@) == Some(v),
            Err(_) => parsed_version(text@) is None,
        },
{
    semver::Version::parse(text)
}

/// `semver::VersionReq::parse`: the requirement that the text denotes, or an
/// error where it denotes none.
#[verifier::external_body]
fn parse_requirement(text: &str) -> (res: Result<semver::VersionReq, semver::Error>)
    ensures
        match res {
            Ok(r) => parsed_requirement(text@) == Some(r),
            Err(_) => parsed_requirement(text@) is None,
        },
{
    semver::VersionReq::parse(text)
}

/// `semver::VersionReq::matches`.
#[verifier::external_body]
fn matches_requirement(req: &semver::VersionReq, version: &semver::Version) -> (b: bool)
    ensures
        b == requirement_matches(*req, *version),
{
    req.matches(version)
}

/// The requirement text that is used where none is configured.
pub fn default_supported_versions() -> (text: String)
    ensures
        text@ == ">=1.1.0-rc3"@,
{
    ">=1.1.0-rc3".to_owned()
}

/// A requirement text that denotes no requirement.
#[derive(Clone, Copy, Debug, PartialEq, Eq, Structural)]
pub struct InvalidRequirement;

/// The worker versions that the gateway talks to.
pub struct SupportedVersions {
    requirement: semver::VersionReq,
}

impl SupportedVersions {
    /// The requirement that a version must satisfy.
    pub closed spec fn requirement(&self) -> semver::VersionReq {
        self.requirement
    }

    /// Whether the version text denotes a version that satisfies the
    /// requirement.
    pub open spec fn admits(&self, version: Seq<char>) -> bool {
        match parsed_version(version) {
            Some(v) => requirement_matches(self.requirement(), v),
            None => false,
        }
    }

    /// Reads a requirement such as `>=1.1.0-rc3`.
    pub fn parse(text: &str) -> (res: Result<SupportedVersions, InvalidRequirement>)
        ensures
            match parsed_requirement(text@) {
                Some(r) => res matches Ok(s) && s.requirement() == r,
                None => res is Err,
            },
    {
        match parse_requirement(text) {
            Ok(requirement) => Ok(SupportedVersions { requirement }),
            Err(_) => Err(InvalidRequirement),
        }
    }

    /// Whether a worker that reports `version` is supported. A text that is no
    /// version is not.
    pub fn supports(&self, version: &str) -> (b: bool)
        ensures
            b == self.admits(version@),
    {
        match parse_version(version) {
            Ok(v) => matches_requirement(&self.requirement, &v),
            Err(_) => false,
        }
    }
}

} // verus!
