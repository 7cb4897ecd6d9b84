use vstd::prelude::*;

use crate::error::{AssertionError, AssertionKind, IoError};
use crate::path::{copy_path, file_name_of, parts_of, Component, Part};

verus! {

/// The type of a filesystem object, as its own metadata reports it
/// (a symbolic link is not followed).
#[derive(Debug, Clone, Copy, PartialEq, Eq, Structural)]
pub enum FileKind {
    File,
    Dir,
    Symlink,
    BlockDevice,
    CharDevice,
    Fifo,
    Socket,
    Unknown,
}

impl FileKind {
    /// Whether this is a regular file.
    pub fn is_file(self) -> (r: bool)
        ensures
            r == (self == FileKind::File),
    {
        self == FileKind::File
    }

    /// Whether this is a directory.
    pub fn is_dir(self) -> (r: bool)
        ensures
            r == (self == FileKind::Dir),
    {
        self == FileKind::Dir
    }

    /// Whether this is a symbolic link.
    pub fn is_symlink(self) -> (r: bool)
        ensures
            r == (self == FileKind::Symlink),
    {
        self == FileKind::Symlink
    }
}

/// A path on one side of a comparison, and the kind of object there.
pub struct DirEntryView {
    pub path: Seq<Part>,
    /// `None` when nothing exists at the path.
    pub kind: Option<FileKind>,
}

/// One relative path seen on both sides of a comparison.
pub struct DiffEntryView {
    pub left: DirEntryView,
    pub right: DirEntryView,
}

impl DiffEntryView {
    /// Something exists on both sides.
    pub open spec fn both_exist(self) -> bool {
        self.left.kind is Some && self.right.kind is Some
    }

    /// Both sides exist and are of different kinds.
    pub open spec fn kinds_differ(self) -> bool {
        self.both_exist() && self.left.kind != self.right.kind
    }

    /// Both sides are regular files.
    pub open spec fn both_files(self) -> bool {
        self.left.kind == Some(FileKind::File) && self.right.kind == Some(FileKind::File)
    }
}

/// A potential directory entry: the path may not exist, in which case it
/// has no file type.
#[derive(Debug, Clone)]
pub struct DirEntry {
    path: Vec<Component>,
    file_type: Option<FileKind>,
}

impl View for DirEntry {
    type V = DirEntryView;

    closed spec fn view(&self) -> DirEntryView {
        DirEntryView { path: parts_of(self.path@), kind: self.file_type }
    }
}

impl DirEntry {
    /// An entry for `path`, at which an object of kind `kind` exists.
    pub fn existing(path: Vec<Component>, kind: FileKind) -> (r: DirEntry)
        ensures
            r@.path == parts_of(path@),
            r@.kind == Some(kind),
    {
        DirEntry { path, file_type: Some(kind) }
    }

    /// An entry for `path`, at which nothing exists.
    pub fn missing(path: Vec<Component>) -> (r: DirEntry)
        ensures
            r@.path == parts_of(path@),
            r@.kind is None,
    {
        DirEntry { path, file_type: None }
    }

    /// The full path that this entry represents.
    pub fn path(&self) -> (r: &Vec<Component>)
        ensures
            parts_of(r@) == self@.path,
    {
        &self.path
    }

    /// The file type of the object at this entry's path; `None` if it does not exist.
    pub fn file_type(&self) -> (r: Option<FileKind>)
        ensures
            r == self@.kind,
    {
        self.file_type
    }

    /// The file name of this entry: its last component, or the full path
    /// when that is not a plain name (e.g. `/`).
    pub fn file_name(&self) -> (r: Vec<Component>)
        ensures
            parts_of(r@) == file_name_of(self@.path),
    {
        let n = self.path.len();
        if n > 0 && self.path[n - 1].is_normal() {
            let last = self.path[n - 1].duplicate();
            let r = vec![last];
            assert(parts_of(r@) =~= file_name_of(self@.path));
            r
        } else {
            copy_path(&self.path)
        }
    }
}

/// The bytes of the two files of an entry, as far as they were read.
pub enum Contents {
    /// Nothing was read.
    Unread,
    /// The full content of the left and of the right file.
    Read(Vec<u8>, Vec<u8>),
    /// Reading one of the files failed.
    Failed(IoError),
}

/// The contents tell the two files apart: their bytes differ, or they could not be read.
pub open spec fn contents_differ(c: Contents) -> bool {
    match c {
        Contents::Read(a, b) => a@ != b@,
        Contents::Failed(_) => true,
        Contents::Unread => false,
    }
}

/// The verdict of the default policy: existence first, then type, then content.
pub open spec fn default_verdict(e: DiffEntryView, c: Contents) -> Option<AssertionKind> {
    if !e.both_exist() {
        Some(AssertionKind::Missing)
    } else if e.kinds_differ() {
        Some(AssertionKind::FileType)
    } else if e.both_files() && contents_differ(c) {
        Some(AssertionKind::Content)
    } else {
        None
    }
}

/// The verdict of the content check alone.
pub open spec fn content_verdict(e: DiffEntryView, c: Contents) -> Option<AssertionKind> {
    if e.both_files() && contents_differ(c) {
        Some(AssertionKind::Content)
    } else {
        None
    }
}

/// The cause an error of kind `kind` carries when the contents were `c`.
pub open spec fn cause_for(kind: AssertionKind, c: Contents) -> Option<IoError> {
    match c {
        Contents::Failed(e) => if kind == AssertionKind::Content {
            Some(e)
        } else {
            None
        },
        _ => None,
    }
}

/// `r` is the outcome of a check on `entry` whose verdict is `verdict`,
/// the contents given to it being `c`.
pub open spec fn judged(
    r: Result<DiffEntry, AssertionError>,
    entry: DiffEntry,
    verdict: Option<AssertionKind>,
    c: Contents,
) -> bool {
    match r {
        Ok(e) => verdict is None && e == entry,
        Err(x) => verdict == Some(x.spec_kind()) && x.spec_entry() == entry && x.spec_msg() is None
            && x.spec_cause() == cause_for(x.spec_kind(), c),
    }
}

/// Whether two byte sequences are equal.
fn same_bytes(a: &Vec<u8>, b: &Vec<u8>) -> (r: bool)
    ensures
        r == (a@ == b@),
{
    if a.len() != b.len() {
        return false;
    }
    let mut i: usize = 0;
    while i < a.len()
        invariant
            a@.len() == b@.len(),
            0 <= i <= a@.len(),
            forall|j: int| 0 <= j < i ==> a@[j] == b@[j],
        decreases a@.len() - i,
    {
        if a[i] != b[i] {
            return false;
        }
        i = i + 1;
    }
    assert(a@ =~= b@);
    true
}

/// Two paths to compare: one relative path, under the left and under the right root.
#[derive(Debug)]
pub struct DiffEntry {
    left: DirEntry,
    right: DirEntry,
}

impl DiffEntry {
    /// At least one of the two sides exists.
    #[verifier::type_invariant]
    spec fn one_side_exists(&self) -> bool {
        self.left.file_type is Some || self.right.file_type is Some
    }
}

impl View for DiffEntry {
    type V = DiffEntryView;

    closed spec fn view(&self) -> DiffEntryView {
        DiffEntryView { left: self.left@, right: self.right@ }
    }
}

impl DiffEntry {
    /// The pair of `left` and `right`; at least one of them exists.
    pub fn new(left: DirEntry, right: DirEntry) -> (r: DiffEntry)
        requires
            left@.kind is Some || right@.kind is Some,
        ensures
            r@ == (DiffEntryView { left: left@, right: right@ }),
    {
        DiffEntry { left, right }
    }

    /// The entry for the left tree, whether or not its path exists.
    pub fn left(&self) -> (r: &DirEntry)
        ensures
            r@ == self@.left,
    {
        &self.left
    }

    /// The entry for the right tree, whether or not its path exists.
    pub fn right(&self) -> (r: &DirEntry)
        ensures
            r@ == self@.right,
    {
        &self.right
    }

    /// Embed the entry into an `AssertionError` of the given kind.
    pub fn into_error(self, kind: AssertionKind) -> (r: AssertionError)
        ensures
            r.spec_kind() == kind,
            r.spec_entry() == self,
            r.spec_msg() is None,
            r.spec_cause() is None,
    {
        AssertionError::new(kind, self)
    }

    /// The file types of the two sides.
    fn file_types(&self) -> (r: (Option<FileKind>, Option<FileKind>))
        ensures
            r.0 == self@.left.kind,
            r.1 == self@.right.kind,
    {
        (self.left.file_type, self.right.file_type)
    }

    /// Whether both sides are regular files, so that a content check reads them.
    pub fn are_files(&self) -> (r: bool)
        ensures
            r == self@.both_files(),
    {
        let (left, right) = self.file_types();
        let left = match left {
            Some(k) => k.is_file(),
            None => false,
        };
        let right = match right {
            Some(k) => k.is_file(),
            None => false,
        };
        left && right
    }

    /// The default policy: an error if one side is missing, else if the two
    /// sides differ in type, else if they are files whose contents differ.
    /// `contents` holds the two files' bytes whenever both sides are files.
    pub fn assert_all(self, contents: Contents) -> (r: Result<Self, AssertionError>)
        requires
            self@.both_files() ==> !(contents is Unread),
        ensures
            judged(
                r,
                self,
                default_verdict(self@, contents),
                contents,
            ),
    {
        match self.file_types() {
            (Some(left), Some(right)) => {
                if left != right {
                    Err(self.into_error(AssertionKind::FileType))
                } else if left.is_file() {
                    self.assert_content(contents)
                } else {
                    Ok(self)
                }
            },
            _ => Err(self.into_error(AssertionKind::Missing)),
        }
    }

    /// An error iff one of the two paths does not exist.
    pub fn assert_exists(self) -> (r: Result<Self, AssertionError>)
        ensures
            judged(
                r,
                self,
                if self@.both_exist() {
                    None
                } else {
                    Some(AssertionKind::Missing)
                },
                Contents::Unread,
            ),
    {
        match self.file_types() {
            (Some(_), Some(_)) => Ok(self),
            _ => Err(self.into_error(AssertionKind::Missing)),
        }
    }

    /// An error iff both paths exist and are of different types; a missing
    /// side passes this check.
    pub fn assert_file_type(self) -> (r: Result<Self, AssertionError>)
        ensures
            judged(
                r,
                self,
                if self@.kinds_differ() {
                    Some(AssertionKind::FileType)
                } else {
                    None
                },
                Contents::Unread,
            ),
    {
        match self.file_types() {
            (Some(left), Some(right)) => {
                if left != right {
                    Err(self.into_error(AssertionKind::FileType))
                } else {
                    Ok(self)
                }
            },
            _ => Ok(self),
        }
    }

    /// An error iff both paths are regular files whose contents differ, or
    /// could not be read; any other entry passes this check.
    pub fn assert_content(self, contents: Contents) -> (r: Result<Self, AssertionError>)
        requires
            self@.both_files() ==> !(contents is Unread),
        ensures
            judged(
                r,
                self,
                content_verdict(self@, contents),
                contents,
            ),
    {
        if !self.are_files() {
            return Ok(self);
        }
        match contents {
            Contents::Read(left, right) => {
                if same_bytes(&left, &right) {
                    Ok(self)
                } else {
                    Err(self.into_error(AssertionKind::Content))
                }
            },
            Contents::Failed(e) => Err(self.into_error(AssertionKind::Content).with_cause(e)),
            Contents::Unread => Ok(self),
        }
    }
}

} // verus!
