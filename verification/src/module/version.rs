//! Semantic versions and version requirements, parsed and matched by the
//! `semver` crate.
//!
//! A parsed value keeps the text it was parsed from; the values can only be
//! made by the parse functions of this module, so the text always names the
//! parsed value.

use vstd::prelude::*;

verus! {

/// The outcome of `semver::Version::parse` on a text: `None` when it parses,
/// else the text of the parse error.
pub uninterp spec fn version_parse_error(text: Seq<char>) -> Option<Seq<char>>;

/// The outcome of `semver::VersionReq::parse` on a text: `None` when it
/// parses, else the text of the parse error.
pub uninterp spec fn req_parse_error(text: Seq<char>) -> Option<Seq<char>>;

/// Whether the requirement parsed from `req` matches the version parsed from
/// `version`, as `semver::VersionReq::matches` decides.
pub uninterp spec fn req_matches_version(req: Seq<char>, version: Seq<char>) -> bool;

#[verifier::external_type_specification]
#[verifier::external_body]
pub struct ExSemverVersion(semver::Version);

#[verifier::external_type_specification]
#[verifier::external_body]
pub struct ExSemverVersionReq(semver::VersionReq);

/// A semantic version together with the text it was parsed from.
pub struct ParsedVersion {
    text: String,
    version: semver::Version,
}

/// A version requirement together with the text it was parsed from.
pub struct ParsedReq {
    text: String,
    req: semver::VersionReq,
}

impl ParsedVersion {
    /// The text this version was parsed from.
    pub closed spec fn source(&self) -> Seq<char> {
        self.text@
    }

    /// The text this version was parsed from.
    pub fn as_str(&self) -> (r: &str)
        ensures
            r@ == self.source(),
    {
        self.text.as_str()
    }
}

impl ParsedReq {
    /// The text this requirement was parsed from.
    pub closed spec fn source(&self) -> Seq<char> {
        self.text@
    }

    /// The text this requirement was parsed from.
    pub fn as_str(&self) -> (r: &str)
        ensures
            r@ == self.source(),
    {
        self.text.as_str()
    }
}

/// Parses a semantic version with `semver::Version::parse`.
///
/// Trusted: the result is `Ok` exactly when the crate accepts the text, and
/// an error carries the text of the crate's parse error.
#[verifier::external_body]
fn semver_parse_version(text: &str) -> (r: Result<ParsedVersion, String>)
    ensures
        match r {
            Ok(v) => version_parse_error(text@) is None && v.source() == text@,
            Err(m) => version_parse_error(text@) == Some(m@),
        },
{
    match semver::Version::parse(text) {
        Ok(version) => Ok(ParsedVersion { text: text.to_string(), version }),
        Err(e) => Err(e.to_string()),
    }
}

/// Parses a version requirement with `semver::VersionReq::parse`.
///
/// Trusted: the result is `Ok` exactly when the crate accepts the text, and
/// an error carries the text of the crate's parse error.
#[verifier::external_body]
pub(crate) fn parse_req(text: &str) -> (r: Result<ParsedReq, String>)
    ensures
        match r {
            Ok(q) => req_parse_error(text@) is None && q.source() == text@,
            Err(m) => req_parse_error(text@) == Some(m@),
        },
{
    match semver::VersionReq::parse(text) {
        Ok(req) => Ok(ParsedReq { text: text.to_string(), req }),
        Err(e) => Err(e.to_string()),
    }
}

/// Whether `req` matches `version`, by `semver::VersionReq::matches`.
///
/// Trusted: the answer is the crate's, named over the two source texts.
#[verifier::external_body]
pub(crate) fn req_matches(req: &ParsedReq, version: &ParsedVersion) -> (r: bool)
    ensures
        r == req_matches_version(req.source(), version.source()),
{
    req.req.matches(&version.version)
}

/// Parses `text` as a semantic version: `Ok` exactly when `semver` accepts
/// it, else the text of its parse error.
pub fn parse_version(text: &str) -> (r: Result<ParsedVersion, String>)
    ensures
        match r {
            Ok(v) => version_parse_error(text@) is None && v.source() == text@,
            Err(m) => version_parse_error(text@) == Some(m@),
        },
{
    semver_parse_version(text)
}

/// Whether `text` parses as a semantic version.
pub fn is_valid_version(text: &str) -> (r: bool)
    ensures
        r == (version_parse_error(text@) is None),
{
    semver_parse_version(text).is_ok()
}

/// Whether `text` parses as a version requirement.
pub fn is_valid_req(text: &str) -> (r: bool)
    ensures
        r == (req_parse_error(text@) is None),
{
    parse_req(text).is_ok()
}

} // verus!
