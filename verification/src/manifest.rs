//! The record that a repository is stamped with when it is set up.

use crate::note::NoteError;
use crate::text::copy_of;
use vstd::prelude::*;
use vstd::string::*;

verus! {

/// `semver::Version`, a parsed version: carried, never looked into.
#[verifier::external_type_specification]
#[verifier::external_body]
pub struct ExVersion(semver::Version);

/// `semver::Error`, why a text is no version: carried, never looked into.
#[verifier::external_type_specification]
#[verifier::external_body]
pub struct ExVersionError(semver::Error);

/// Whether `text` is a semantic version, as `semver::Version::parse`
/// accepts it.
pub uninterp spec fn is_version(text: Seq<char>) -> bool;

/// `semver::Version::parse`: reads `text` as a semantic version. The
/// contract names the texts that it accepts `is_version`; of the version
/// that it returns it says nothing.
#[verifier::external_body]
fn parse_version(text: &str) -> (r: Result<semver::Version, semver::Error>)
    ensures
        r is Ok <==> is_version(text@),
{
    semver::Version::parse(text)
}

/// Repo-specific configuration and information
#[derive(Debug, PartialEq, Eq)]
pub struct Manifest {
    /// The format version of this repo - generally matches the version of
    /// the tool that created the repo
    version: String,
}

impl Manifest {
    /// The text of the format version.
    pub closed spec fn version_text(&self) -> Seq<char> {
        self.version@
    }

    /// Construct a fresh manifest, stamped with `version`, which has to be
    /// a semantic version.
    pub fn new(version: &str) -> (r: Result<Manifest, NoteError>)
        ensures
            r is Ok <==> is_version(version@),
            r is Ok ==> r->Ok_0.version_text() == version@,
            r is Err ==> r->Err_0 == NoteError::InvalidVersion,
    {
        match parse_version(version) {
            Ok(_) => Ok(Manifest { version: copy_of(version) }),
            Err(_) => Err(NoteError::InvalidVersion),
        }
    }

    /// The format version.
    pub fn version(&self) -> (r: &str)
        ensures
            r@ == self.version_text(),
    {
        self.version.as_str()
    }
}

} // verus!
