//! The schema versions that a taxonomy can be built for.

use crate::error::VisError;
use crate::text::same_text;
use vstd::pervasive::unreached;
use vstd::prelude::*;

verus! {

/// A schema version. The variants are listed oldest first.
#[allow(non_camel_case_types)]
#[derive(Clone, Copy, Debug, PartialEq, Eq, PartialOrd, Ord, Hash, Structural)]
pub enum VisVersion {
    v3_4a,
    v3_5a,
    v3_6a,
    v3_7a,
}

impl VisVersion {
    /// The text that names this version, as it stands in a definition.
    pub open spec fn tag(self) -> Seq<char> {
        match self {
            VisVersion::v3_4a => "3-4a"@,
            VisVersion::v3_5a => "3-5a"@,
            VisVersion::v3_6a => "3-6a"@,
            VisVersion::v3_7a => "3-7a"@,
        }
    }

    /// The version that a text names, if it names one.
    pub open spec fn from_tag(tag: Seq<char>) -> Option<VisVersion> {
        if tag == "3-4a"@ {
            Some(VisVersion::v3_4a)
        } else if tag == "3-5a"@ {
            Some(VisVersion::v3_5a)
        } else if tag == "3-6a"@ {
            Some(VisVersion::v3_6a)
        } else if tag == "3-7a"@ {
            Some(VisVersion::v3_7a)
        } else {
            None
        }
    }

    /// Every version, oldest first.
    pub open spec fn every() -> Seq<VisVersion> {
        seq![VisVersion::v3_4a, VisVersion::v3_5a, VisVersion::v3_6a, VisVersion::v3_7a]
    }

    /// No two versions share a tag, so a tag names the version it came from.
    pub proof fn lemma_tag_round_trip(version: VisVersion)
        ensures
            VisVersion::from_tag(version.tag()) == Some(version),
    {
        reveal_strlit("3-4a");
        reveal_strlit("3-5a");
        reveal_strlit("3-6a");
        reveal_strlit("3-7a");
        assert("3-4a"@[2] == '4');
        assert("3-5a"@[2] == '5');
        assert("3-6a"@[2] == '6');
        assert("3-7a"@[2] == '7');
    }

    /// A text that names a version is that version's tag.
    pub proof fn lemma_from_tag_is_tag(tag: Seq<char>)
        ensures
            match VisVersion::from_tag(tag) {
                Some(version) => version.tag() == tag,
                None => forall|version: VisVersion| version.tag() != tag,
            },
    {
    }

    /// The tag of this version as an owned string.
    pub fn to_string(&self) -> (text: String)
        ensures
            text@ == self.tag(),
    {
        match self {
            VisVersion::v3_4a => "3-4a".to_owned(),
            VisVersion::v3_5a => "3-5a".to_owned(),
            VisVersion::v3_6a => "3-6a".to_owned(),
            VisVersion::v3_7a => "3-7a".to_owned(),
        }
    }

    /// Reads a version from its tag. A text that names no version is handed
    /// back inside the error.
    pub fn parse(input: &str) -> (parsed: Result<VisVersion, VisError>)
        ensures
            match VisVersion::from_tag(input@) {
                Some(version) => parsed == Ok::<VisVersion, VisError>(version),
                None => parsed matches Err(VisError::VersionNotRecognized(text)) && text@ == input@,
            },
    {
        if same_text(input, "3-4a") {
            Ok(VisVersion::v3_4a)
        } else if same_text(input, "3-5a") {
            Ok(VisVersion::v3_5a)
        } else if same_text(input, "3-6a") {
            Ok(VisVersion::v3_6a)
        } else if same_text(input, "3-7a") {
            Ok(VisVersion::v3_7a)
        } else {
            Err(VisError::VersionNotRecognized(input.to_owned()))
        }
    }

    /// Every version, oldest first.
    pub fn all() -> (versions: Vec<VisVersion>)
        ensures
            versions@ == VisVersion::every(),
    {
        let mut versions: Vec<VisVersion> = Vec::with_capacity(4);
        versions.push(VisVersion::v3_4a);
        versions.push(VisVersion::v3_5a);
        versions.push(VisVersion::v3_6a);
        versions.push(VisVersion::v3_7a);
        assert(versions@ =~= VisVersion::every());
        versions
    }
}

impl std::str::FromStr for VisVersion {
    type Err = VisError;

    /// Reads a version from its tag, as `parse` does.
    fn from_str(input: &str) -> (parsed: Result<VisVersion, VisError>)
        ensures
            match VisVersion::from_tag(input@) {
                Some(version) => parsed == Ok::<VisVersion, VisError>(version),
                None => parsed matches Err(VisError::VersionNotRecognized(text)) && text@ == input@,
            },
    {
        VisVersion::parse(input)
    }
}

/// Renders versions as text for callers that cannot call methods on a version.
pub struct VisVersionExtensions {}

impl VisVersionExtensions {
    pub fn new() -> (made: Self)
        ensures
            made == (VisVersionExtensions {  }),
    {
        VisVersionExtensions {  }
    }

    /// The tag of `version`.
    pub fn to_version_string(&self, version: VisVersion) -> (text: String)
        ensures
            text@ == version.tag(),
    {
        version.to_string()
    }
}

/// Reads and lists versions for callers that cannot call associated functions.
pub struct VisVersions {}

impl VisVersions {
    pub fn new() -> (made: Self)
        ensures
            made == (VisVersions {  }),
    {
        VisVersions {  }
    }

    /// The version that `input` names. The text has to name one.
    pub fn parse(&self, input: &str) -> (version: VisVersion)
        requires
            VisVersion::from_tag(input@).is_some(),
        ensures
            VisVersion::from_tag(input@) == Some(version),
    {
        match VisVersion::parse(input) {
            Ok(version) => version,
            Err(_) => unreached(),
        }
    }

    /// Every version, oldest first.
    pub fn all(&self) -> (versions: Vec<VisVersion>)
        ensures
            versions@ == VisVersion::every(),
    {
        VisVersion::all()
    }
}

} // verus!
