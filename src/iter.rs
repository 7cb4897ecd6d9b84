use vstd::prelude::*;

use crate::entry::{DiffEntry, DiffEntryView, DirEntry, DirEntryView, FileKind};
use crate::error::IoError;
use crate::path::{copy_path, is_under, parts_of, rebase, relative, Component, Part};

verus! {

/// The path that stands under `to` where `p` stands under `from`.
pub open spec fn counterpart(from: Seq<Part>, to: Seq<Part>, p: Seq<Part>) -> Seq<Part> {
    to + relative(from, p)
}

/// A builder for an iterator that recursively diffs two directories.
#[derive(Debug, Clone)]
pub struct DirDiff {
    left: Vec<Component>,
    right: Vec<Component>,
}

impl DirDiff {
    /// The left root.
    pub closed spec fn spec_left(&self) -> Seq<Part> {
        parts_of(self.left@)
    }

    /// The right root.
    pub closed spec fn spec_right(&self) -> Seq<Part> {
        parts_of(self.right@)
    }

    /// A builder for recursively diffing two directories, starting at
    /// `left_root` and `right_root`.
    pub fn new(left_root: Vec<Component>, right_root: Vec<Component>) -> (r: Self)
        ensures
            r.spec_left() == parts_of(left_root@),
            r.spec_right() == parts_of(right_root@),
    {
        DirDiff { left: left_root, right: right_root }
    }

    /// The state of a walk over the two trees, before either traversal has begun.
    pub fn into_iter(self) -> (r: IntoIter)
        ensures
            r.spec_left_root() == self.spec_left(),
            r.spec_right_root() == self.spec_right(),
            r.spec_phase() == Phase::DrainLeft,
    {
        IntoIter { left_root: self.left, right_root: self.right, phase: Phase::DrainLeft }
    }
}

/// Which traversal a walk is draining.
#[derive(Debug, Clone, Copy, PartialEq, Eq, Structural)]
pub enum Phase {
    /// Every path of the left traversal is paired with its counterpart on the right.
    DrainLeft,
    /// The right traversal's paths that have no counterpart on the left are paired.
    DrainRight,
    /// Both traversals are drained.
    Done,
}

/// The state of a walk over two trees: the two roots and the phase.
///
/// The traversals themselves are driven by the caller: in `DrainLeft` it
/// hands each path of the left traversal to `right_counterpart` and
/// `pair_left`; once that traversal is drained it calls `finish_left`, then
/// hands each path of the right traversal to `left_counterpart`,
/// `already_paired` and `pair_right`, and calls `finish_right` at the end.
#[derive(Debug)]
pub struct IntoIter {
    left_root: Vec<Component>,
    right_root: Vec<Component>,
    phase: Phase,
}

impl IntoIter {
    pub closed spec fn spec_left_root(&self) -> Seq<Part> {
        parts_of(self.left_root@)
    }

    pub closed spec fn spec_right_root(&self) -> Seq<Part> {
        parts_of(self.right_root@)
    }

    pub closed spec fn spec_phase(&self) -> Phase {
        self.phase
    }

    /// The phase the walk is in.
    pub fn phase(&self) -> (r: Phase)
        ensures
            r == self.spec_phase(),
    {
        self.phase
    }

    /// The root of the left tree.
    pub fn left_root(&self) -> (r: &Vec<Component>)
        ensures
            parts_of(r@) == self.spec_left_root(),
    {
        &self.left_root
    }

    /// The root of the right tree.
    pub fn right_root(&self) -> (r: &Vec<Component>)
        ensures
            parts_of(r@) == self.spec_right_root(),
    {
        &self.right_root
    }

    /// The left traversal is drained: the walk goes on with the right one.
    pub fn finish_left(&mut self)
        ensures
            final(self).spec_left_root() == old(self).spec_left_root(),
            final(self).spec_right_root() == old(self).spec_right_root(),
            final(self).spec_phase() == if old(self).spec_phase() == Phase::DrainLeft {
                Phase::DrainRight
            } else {
                old(self).spec_phase()
            },
    {
        if self.phase == Phase::DrainLeft {
            self.phase = Phase::DrainRight;
        }
    }

    /// The right traversal is drained: the walk is over.
    pub fn finish_right(&mut self)
        ensures
            final(self).spec_left_root() == old(self).spec_left_root(),
            final(self).spec_right_root() == old(self).spec_right_root(),
            final(self).spec_phase() == if old(self).spec_phase() == Phase::DrainRight {
                Phase::Done
            } else {
                old(self).spec_phase()
            },
    {
        if self.phase == Phase::DrainRight {
            self.phase = Phase::Done;
        }
    }

    /// The path under the right root that corresponds to `left_path`, a path
    /// produced by the left traversal.
    pub fn right_counterpart(&self, left_path: &Vec<Component>) -> (r: Result<
        Vec<Component>,
        IoError,
    >)
        ensures
            r is Ok <==> is_under(self.spec_left_root(), parts_of(left_path@)),
            r matches Ok(q) ==> parts_of(q@) == counterpart(
                self.spec_left_root(),
                self.spec_right_root(),
                parts_of(left_path@),
            ),
            r matches Err(e) ==> e matches IoError::NotUnderRoot(p) && parts_of(p@) == parts_of(
                left_path@,
            ),
    {
        match rebase(&self.left_root, &self.right_root, left_path) {
            Some(q) => Ok(q),
            None => Err(IoError::NotUnderRoot(copy_path(left_path))),
        }
    }

    /// The path under the left root that corresponds to `right_path`, a path
    /// produced by the right traversal.
    pub fn left_counterpart(&self, right_path: &Vec<Component>) -> (r: Result<
        Vec<Component>,
        IoError,
    >)
        ensures
            r is Ok <==> is_under(self.spec_right_root(), parts_of(right_path@)),
            r matches Ok(q) ==> parts_of(q@) == counterpart(
                self.spec_right_root(),
                self.spec_left_root(),
                parts_of(right_path@),
            ),
            r matches Err(e) ==> e matches IoError::NotUnderRoot(p) && parts_of(p@) == parts_of(
                right_path@,
            ),
    {
        match rebase(&self.right_root, &self.left_root, right_path) {
            Some(q) => Ok(q),
            None => Err(IoError::NotUnderRoot(copy_path(right_path))),
        }
    }

    /// The entry for a path of the left traversal, which exists with kind
    /// `left_kind`, and its counterpart on the right, of kind `right_kind`
    /// (`None` when it does not exist).
    pub fn pair_left(
        left_path: Vec<Component>,
        left_kind: FileKind,
        right_path: Vec<Component>,
        right_kind: Option<FileKind>,
    ) -> (r: DiffEntry)
        ensures
            r@ == (DiffEntryView {
                left: DirEntryView { path: parts_of(left_path@), kind: Some(left_kind) },
                right: DirEntryView { path: parts_of(right_path@), kind: right_kind },
            }),
    {
        let left = DirEntry::existing(left_path, left_kind);
        let right = match right_kind {
            Some(k) => DirEntry::existing(right_path, k),
            None => DirEntry::missing(right_path),
        };
        DiffEntry::new(left, right)
    }

    /// Whether a path of the right traversal whose counterpart on the left
    /// has kind `left_kind` was already paired while the left traversal was
    /// drained: exactly when that counterpart exists.
    pub fn already_paired(left_kind: Option<FileKind>) -> (r: bool)
        ensures
            r == left_kind is Some,
    {
        left_kind.is_some()
    }

    /// The entry for a path of the right traversal, which exists with kind
    /// `right_kind`, whose counterpart on the left does not exist.
    pub fn pair_right(left_path: Vec<Component>, right_path: Vec<Component>, right_kind: FileKind) -> (r:
        DiffEntry)
        ensures
            r@ == (DiffEntryView {
                left: DirEntryView { path: parts_of(left_path@), kind: None },
                right: DirEntryView { path: parts_of(right_path@), kind: Some(right_kind) },
            }),
    {
        let left = DirEntry::missing(left_path);
        let right = DirEntry::existing(right_path, right_kind);
        DiffEntry::new(left, right)
    }
}

} // verus!
