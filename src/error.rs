use vstd::prelude::*;

use crate::entry::DiffEntry;
use crate::path::Component;

verus! {

/// The reason two sides of a comparison differ.
#[derive(Debug, Clone, Copy, PartialEq, Eq, Structural)]
pub enum AssertionKind {
    /// One of the two sides is missing.
    Missing,
    /// The two sides have different types.
    FileType,
    /// The content of the two sides is different.
    Content,
}

impl AssertionKind {
    /// Test if the assertion is from one of the two sides being missing.
    pub fn is_missing(self) -> (r: bool)
        ensures
            r == (self == AssertionKind::Missing),
    {
        self == AssertionKind::Missing
    }

    /// Test if the assertion is from the two sides having different file types.
    pub fn is_file_type(self) -> (r: bool)
        ensures
            r == (self == AssertionKind::FileType),
    {
        self == AssertionKind::FileType
    }

    /// Test if the assertion is from the two sides having different content.
    pub fn is_content(self) -> (r: bool)
        ensures
            r == (self == AssertionKind::Content),
    {
        self == AssertionKind::Content
    }
}

/// The error type of the operating system's file operations.
#[verifier::external_type_specification]
#[verifier::external_body]
pub struct ExStdIoError(std::io::Error);

/// An error that keeps a walk from going on.
#[derive(Debug)]
pub enum IoError {
    /// The operating system, or a traversal, reported an error.
    Io(std::io::Error),
    /// A traversal produced a path that does not lie under the root it started from.
    NotUnderRoot(Vec<Component>),
}

/// A difference found between the two sides of a diff entry.
#[derive(Debug)]
pub struct AssertionError {
    kind: AssertionKind,
    entry: DiffEntry,
    msg: Option<String>,
    cause: Option<IoError>,
}

impl AssertionError {
    /// The kind of difference.
    pub closed spec fn spec_kind(&self) -> AssertionKind {
        self.kind
    }

    /// The entry in which the difference was found.
    pub closed spec fn spec_entry(&self) -> DiffEntry {
        self.entry
    }

    /// The message attached to the error, if any.
    pub closed spec fn spec_msg(&self) -> Option<String> {
        self.msg
    }

    /// The error met while looking for the difference, if any.
    pub closed spec fn spec_cause(&self) -> Option<IoError> {
        self.cause
    }

    /// The type of difference detected.
    pub fn kind(self) -> (r: AssertionKind)
        ensures
            r == self.spec_kind(),
    {
        self.kind
    }

    /// Access to the `DiffEntry` for which a difference was detected.
    pub fn entry(&self) -> (r: &DiffEntry)
        ensures
            *r == self.spec_entry(),
    {
        &self.entry
    }

    /// Underlying error found when trying to find a difference.
    pub fn cause(&self) -> (r: Option<&IoError>)
        ensures
            r is Some <==> self.spec_cause() is Some,
            r matches Some(c) ==> self.spec_cause() == Some(*c),
    {
        match &self.cause {
            Some(c) => Some(c),
            None => None,
        }
    }

    /// The message to display with the error, if one was added.
    pub fn msg(&self) -> (r: Option<&String>)
        ensures
            r is Some <==> self.spec_msg() is Some,
            r matches Some(m) ==> self.spec_msg() == Some(*m),
    {
        match &self.msg {
            Some(m) => Some(m),
            None => None,
        }
    }

    /// Add a message to display with the error.
    pub fn with_msg(self, msg: String) -> (r: Self)
        ensures
            r.spec_kind() == self.spec_kind(),
            r.spec_entry() == self.spec_entry(),
            r.spec_msg() == Some(msg),
            r.spec_cause() == self.spec_cause(),
    {
        AssertionError { kind: self.kind, entry: self.entry, msg: Some(msg), cause: self.cause }
    }

    /// Add an underlying error found when trying to find a difference.
    pub fn with_cause(self, err: IoError) -> (r: Self)
        ensures
            r.spec_kind() == self.spec_kind(),
            r.spec_entry() == self.spec_entry(),
            r.spec_msg() == self.spec_msg(),
            r.spec_cause() == Some(err),
    {
        AssertionError { kind: self.kind, entry: self.entry, msg: self.msg, cause: Some(err) }
    }

    /// An error of the given kind for `entry`, with no message and no cause.
    pub(crate) fn new(kind: AssertionKind, entry: DiffEntry) -> (r: Self)
        ensures
            r.spec_kind() == kind,
            r.spec_entry() == entry,
            r.spec_msg() is None,
            r.spec_cause() is None,
    {
        AssertionError { kind, entry, msg: None, cause: None }
    }
}

} // verus!
