//! Error values of the library.

use vstd::prelude::*;

verus! {

/// Why a bundled resource could not be turned into a definition.
#[derive(Debug)]
pub enum LoadResourceError {
    /// No bundled file matches the request.
    ResourceNotFound,
    /// The file could not be decompressed into text; holds the decoder's message.
    ReadError(String),
    /// The text is not a definition; holds what is wrong with it.
    DeserializationError(String),
}

impl Clone for LoadResourceError {
    fn clone(&self) -> (copy: Self)
        ensures
            copy == *self,
    {
        match self {
            LoadResourceError::ResourceNotFound => LoadResourceError::ResourceNotFound,
            LoadResourceError::ReadError(m) => LoadResourceError::ReadError(m.clone()),
            LoadResourceError::DeserializationError(m) => LoadResourceError::DeserializationError(
                m.clone(),
            ),
        }
    }
}

impl LoadResourceError {
    /// The text shown for this error.
    pub open spec fn message(&self) -> Seq<char> {
        match self {
            LoadResourceError::ResourceNotFound => "resource not found"@,
            LoadResourceError::ReadError(m) => m@,
            LoadResourceError::DeserializationError(m) => m@,
        }
    }

    /// Renders the error as text.
    pub fn to_string(&self) -> (text: String)
        ensures
            text@ == self.message(),
    {
        match self {
            LoadResourceError::ResourceNotFound => "resource not found".to_owned(),
            LoadResourceError::ReadError(m) => m.clone(),
            LoadResourceError::DeserializationError(m) => m.clone(),
        }
    }
}

/// Why the registry could not hand out a taxonomy.
#[derive(Debug)]
pub enum VisError {
    /// The definition of the version could not be loaded; holds the cause.
    FailedToLoad(String),
    /// The text names no known schema version; holds the text.
    VersionNotRecognized(String),
}

impl Clone for VisError {
    fn clone(&self) -> (copy: Self)
        ensures
            copy == *self,
    {
        match self {
            VisError::FailedToLoad(m) => VisError::FailedToLoad(m.clone()),
            VisError::VersionNotRecognized(m) => VisError::VersionNotRecognized(m.clone()),
        }
    }
}

impl VisError {
    /// The text shown for this error.
    pub open spec fn message(&self) -> Seq<char> {
        match self {
            VisError::FailedToLoad(m) => m@,
            VisError::VersionNotRecognized(m) => m@,
        }
    }

    /// Renders the error as text.
    pub fn to_string(&self) -> (text: String)
        ensures
            text@ == self.message(),
    {
        match self {
            VisError::FailedToLoad(m) => m.clone(),
            VisError::VersionNotRecognized(m) => m.clone(),
        }
    }
}

} // verus!
