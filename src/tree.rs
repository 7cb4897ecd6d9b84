use vstd::prelude::*;

use crate::entry::{Contents, DiffEntry, DiffEntryView, DirEntryView, FileKind, default_verdict};
use crate::error::{AssertionKind, IoError};
use crate::iter::{counterpart, DirDiff, IntoIter, Phase};
use crate::path::{copy_path, is_under, parts_of, relative, Component, Part};

verus! {

/// A filesystem object as a traversal reported it.
#[derive(Debug, Clone)]
pub struct WalkItem {
    /// Its full path.
    pub path: Vec<Component>,
    /// Its type.
    pub kind: FileKind,
    /// Its bytes when it is a regular file; empty otherwise.
    pub content: Vec<u8>,
}

/// A directory tree as one traversal saw it: the root, and every object
/// under it (the root itself excluded), in the order the traversal produced them.
#[derive(Debug, Clone)]
pub struct Tree {
    pub root: Vec<Component>,
    pub items: Vec<WalkItem>,
}

/// The path of an item.
pub open spec fn path_of(it: WalkItem) -> Seq<Part> {
    parts_of(it.path@)
}

/// The index of the first item at path `p`.
pub open spec fn first_at(items: Seq<WalkItem>, p: Seq<Part>) -> Option<int>
    decreases items.len(),
{
    if items.len() == 0 {
        None
    } else {
        match first_at(items.drop_last(), p) {
            Some(i) => Some(i),
            None => if path_of(items.last()) == p {
                Some(items.len() - 1)
            } else {
                None
            },
        }
    }
}

/// The first item at a path is one of the items, and at that path.
pub proof fn lemma_first_at_bounds(items: Seq<WalkItem>, p: Seq<Part>)
    ensures
        first_at(items, p) matches Some(i) ==> 0 <= i < items.len() && path_of(items[i]) == p,
    decreases items.len(),
{
    if items.len() > 0 {
        lemma_first_at_bounds(items.drop_last(), p);
    }
}

/// Where a prefix of the items holds an item at `p`, the first one is also
/// the first of all the items.
pub proof fn lemma_first_at_prefix(items: Seq<WalkItem>, k: int, p: Seq<Part>)
    requires
        0 <= k <= items.len(),
        first_at(items.take(k), p) is Some,
    ensures
        first_at(items, p) == first_at(items.take(k), p),
    decreases items.len(),
{
    if k == items.len() {
        assert(items.take(k) =~= items);
    } else {
        assert(items.drop_last().take(k) =~= items.take(k));
        lemma_first_at_prefix(items.drop_last(), k, p);
    }
}

/// The kind of the object at path `p`; `None` when there is none.
pub open spec fn kind_in(items: Seq<WalkItem>, p: Seq<Part>) -> Option<FileKind> {
    match first_at(items, p) {
        Some(i) => Some(items[i].kind),
        None => None,
    }
}

/// The bytes of the object at path `p`; empty when there is none.
pub open spec fn content_in(items: Seq<WalkItem>, p: Seq<Part>) -> Seq<u8> {
    match first_at(items, p) {
        Some(i) => items[i].content@,
        None => Seq::empty(),
    }
}

/// Every item of the tree lies under its root.
pub open spec fn all_under(t: Tree) -> bool {
    forall|i: int| 0 <= i < t.items@.len() ==> is_under(parts_of(t.root@), #[trigger] path_of(t.items@[i]))
}

/// Item `i` is the first that does not lie under `root`.
pub open spec fn first_stray(root: Seq<Part>, items: Seq<WalkItem>, i: int) -> bool {
    &&& 0 <= i < items.len()
    &&& !is_under(root, path_of(items[i]))
    &&& forall|k: int| 0 <= k < i ==> is_under(root, #[trigger] path_of(items[k]))
}

/// `e` names the first item, left tree first, that does not lie under its root.
pub open spec fn names_first_stray(l: Tree, r: Tree, e: IoError) -> bool {
    e matches IoError::NotUnderRoot(p) && if all_under(l) {
        exists|j: int| first_stray(parts_of(r.root@), r.items@, j) && parts_of(p@) == path_of(r.items@[j])
    } else {
        exists|i: int| first_stray(parts_of(l.root@), l.items@, i) && parts_of(p@) == path_of(l.items@[i])
    }
}

/// No path occurs twice among the items.
pub open spec fn distinct_paths(items: Seq<WalkItem>) -> bool {
    forall|i: int, j: int|
        0 <= i < items.len() && 0 <= j < items.len() && i != j ==> path_of(items[i]) != path_of(
            items[j],
        )
}

/// The tree is one a traversal can produce: every item lies under the
/// root, and each path occurs once.
pub open spec fn well_formed(t: Tree) -> bool {
    all_under(t) && distinct_paths(t.items@)
}

/// The relative path of each item.
pub open spec fn rels(t: Tree) -> Seq<Seq<Part>> {
    t.items@.map_values(|it: WalkItem| relative(parts_of(t.root@), path_of(it)))
}

/// The views of a sequence of entries.
pub open spec fn views(v: Seq<DiffEntry>) -> Seq<DiffEntryView> {
    v.map_values(|e: DiffEntry| e@)
}

/// The entry for the left item `it`.
pub open spec fn left_entry(l: Tree, r: Tree, it: WalkItem) -> DiffEntryView {
    let q = counterpart(parts_of(l.root@), parts_of(r.root@), path_of(it));
    DiffEntryView {
        left: DirEntryView { path: path_of(it), kind: Some(it.kind) },
        right: DirEntryView { path: q, kind: kind_in(r.items@, q) },
    }
}

/// What the left traversal yields: one entry per left item, in its order.
pub open spec fn left_phase(l: Tree, r: Tree) -> Seq<DiffEntryView> {
    l.items@.map_values(|it: WalkItem| left_entry(l, r, it))
}

/// What the right traversal yields, `ritems` being the items it has produced:
/// an entry for each whose counterpart on the left does not exist.
pub open spec fn right_phase(l: Tree, r: Tree, ritems: Seq<WalkItem>) -> Seq<DiffEntryView>
    decreases ritems.len(),
{
    if ritems.len() == 0 {
        Seq::empty()
    } else {
        let prev = right_phase(l, r, ritems.drop_last());
        let it = ritems.last();
        let q = counterpart(parts_of(r.root@), parts_of(l.root@), path_of(it));
        if kind_in(l.items@, q) is Some {
            prev
        } else {
            prev.push(
                DiffEntryView {
                    left: DirEntryView { path: q, kind: None },
                    right: DirEntryView { path: path_of(it), kind: Some(it.kind) },
                },
            )
        }
    }
}

/// The whole walk over two trees.
pub open spec fn walk(l: Tree, r: Tree) -> Seq<DiffEntryView> {
    left_phase(l, r) + right_phase(l, r, r.items@)
}

/// The default policy's verdict on an entry of the walk over `l` and `r`.
pub open spec fn tree_verdict(l: Tree, r: Tree, e: DiffEntryView) -> Option<AssertionKind> {
    if !e.both_exist() {
        Some(AssertionKind::Missing)
    } else if e.kinds_differ() {
        Some(AssertionKind::FileType)
    } else if e.both_files() && content_in(l.items@, e.left.path) != content_in(
        r.items@,
        e.right.path,
    ) {
        Some(AssertionKind::Content)
    } else {
        None
    }
}

/// Some entry of the walk over `l` and `r` fails the default policy.
pub open spec fn differ(l: Tree, r: Tree) -> bool {
    exists|i: int| 0 <= i < walk(l, r).len() && tree_verdict(l, r, #[trigger] walk(l, r)[i]) is Some
}

/// The index of the first item at path `p`.
fn find(items: &Vec<WalkItem>, p: &Vec<Component>) -> (r: Option<usize>)
    ensures
        match r {
            Some(i) => first_at(items@, parts_of(p@)) == Some(i as int),
            None => first_at(items@, parts_of(p@)) is None,
        },
{
    let mut i: usize = 0;
    while i < items.len()
        invariant
            0 <= i <= items@.len(),
            first_at(items@.take(i as int), parts_of(p@)) is None,
        decreases items@.len() - i,
    {
        assert(items@.take(i + 1).drop_last() =~= items@.take(i as int));
        if same_path(&items[i].path, p) {
            proof {
                lemma_first_at_prefix(items@, i + 1, parts_of(p@));
            }
            return Some(i);
        }
        i = i + 1;
    }
    assert(items@.take(i as int) =~= items@);
    None
}

/// Whether two paths have the same components.
fn same_path(a: &Vec<Component>, b: &Vec<Component>) -> (r: bool)
    ensures
        r == (parts_of(a@) == parts_of(b@)),
{
    if a.len() != b.len() {
        return false;
    }
    let mut i: usize = 0;
    while i < a.len()
        invariant
            a@.len() == b@.len(),
            0 <= i <= a@.len(),
            forall|j: int| 0 <= j < i ==> a@[j]@ == b@[j]@,
        decreases a@.len() - i,
    {
        if !a[i].same(&b[i]) {
            assert(parts_of(a@)[i as int] != parts_of(b@)[i as int]);
            return false;
        }
        i = i + 1;
    }
    assert(parts_of(a@) =~= parts_of(b@));
    true
}

/// The kind of the object at path `p` among `items`.
fn kind_at(items: &Vec<WalkItem>, p: &Vec<Component>) -> (r: Option<FileKind>)
    ensures
        r == kind_in(items@, parts_of(p@)),
{
    let r = find(items, p);
    proof {
        lemma_first_at_bounds(items@, parts_of(p@));
    }
    match r {
        Some(i) => Some(items[i].kind),
        None => None,
    }
}

/// A copy of the bytes of the object at path `p` among `items`.
fn content_at(items: &Vec<WalkItem>, p: &Vec<Component>) -> (r: Vec<u8>)
    ensures
        r@ == content_in(items@, parts_of(p@)),
{
    let r = find(items, p);
    proof {
        lemma_first_at_bounds(items@, parts_of(p@));
    }
    match r {
        Some(i) => copy_bytes(&items[i].content),
        None => Vec::new(),
    }
}

/// A copy of `b`.
fn copy_bytes(b: &Vec<u8>) -> (r: Vec<u8>)
    ensures
        r@ == b@,
{
    let mut r: Vec<u8> = Vec::new();
    let mut i: usize = 0;
    while i < b.len()
        invariant
            0 <= i <= b@.len(),
            r@ == b@.take(i as int),
        decreases b@.len() - i,
    {
        r.push(b[i]);
        i = i + 1;
        assert(r@ =~= b@.take(i as int));
    }
    assert(b@.take(i as int) =~= b@);
    r
}

/// Walks the trees `left` and `right` side by side: every item of the left
/// tree paired with its counterpart on the right, then every item of the
/// right tree whose counterpart on the left does not exist. Fails when an
/// item does not lie under its tree's root.
pub fn diff_trees(left: &Tree, right: &Tree) -> (r: Result<Vec<DiffEntry>, IoError>)
    ensures
        r is Ok <==> all_under(*left) && all_under(*right),
        r matches Ok(v) ==> views(v@) == walk(*left, *right),
        r matches Err(e) ==> names_first_stray(*left, *right, e),
{
    let mut state = DirDiff::new(copy_path(&left.root), copy_path(&right.root)).into_iter();
    let mut out: Vec<DiffEntry> = Vec::new();
    let mut i: usize = 0;
    while i < left.items.len()
        invariant
            0 <= i <= left.items@.len(),
            state.spec_left_root() == parts_of(left.root@),
            state.spec_right_root() == parts_of(right.root@),
            state.spec_phase() == Phase::DrainLeft,
            forall|k: int|
                0 <= k < i ==> is_under(parts_of(left.root@), #[trigger] path_of(left.items@[k])),
            views(out@) == left_phase(*left, *right).take(i as int),
        decreases left.items@.len() - i,
    {
        let it = &left.items[i];
        let q = match state.right_counterpart(&it.path) {
            Ok(q) => q,
            Err(e) => {
                assert(!is_under(parts_of(left.root@), path_of(left.items@[i as int])));
                assert(first_stray(parts_of(left.root@), left.items@, i as int));
                return Err(e);
            },
        };
        let rk = kind_at(&right.items, &q);
        let entry = IntoIter::pair_left(copy_path(&it.path), it.kind, q, rk);
        assert(entry@ == left_phase(*left, *right)[i as int]);
        let ghost prev = out@;
        out.push(entry);
        assert(views(out@) =~= views(prev).push(entry@));
        i = i + 1;
        assert(views(out@) =~= left_phase(*left, *right).take(i as int));
    }
    assert(left_phase(*left, *right).take(i as int) =~= left_phase(*left, *right));
    state.finish_left();
    let ghost lp = left_phase(*left, *right);
    let mut j: usize = 0;
    while j < right.items.len()
        invariant
            0 <= j <= right.items@.len(),
            all_under(*left),
            state.spec_left_root() == parts_of(left.root@),
            state.spec_right_root() == parts_of(right.root@),
            state.spec_phase() == Phase::DrainRight,
            lp == left_phase(*left, *right),
            forall|k: int|
                0 <= k < j ==> is_under(parts_of(right.root@), #[trigger] path_of(right.items@[k])),
            views(out@) == lp + right_phase(*left, *right, right.items@.take(j as int)),
        decreases right.items@.len() - j,
    {
        let it = &right.items[j];
        let q = match state.left_counterpart(&it.path) {
            Ok(q) => q,
            Err(e) => {
                assert(!is_under(parts_of(right.root@), path_of(right.items@[j as int])));
                assert(first_stray(parts_of(right.root@), right.items@, j as int));
                return Err(e);
            },
        };
        let lk = kind_at(&left.items, &q);
        assert(right.items@.take(j + 1).drop_last() =~= right.items@.take(j as int));
        assert(right.items@.take(j + 1).last() == right.items@[j as int]);
        if !IntoIter::already_paired(lk) {
            let entry = IntoIter::pair_right(q, copy_path(&it.path), it.kind);
            let ghost prev = out@;
            out.push(entry);
            assert(views(out@) =~= views(prev).push(entry@));
        }
        j = j + 1;
        assert(views(out@) =~= lp + right_phase(*left, *right, right.items@.take(j as int)));
    }
    assert(right.items@.take(j as int) =~= right.items@);
    state.finish_right();
    Ok(out)
}

/// Whether the trees differ: whether some entry of their walk fails the
/// default policy, the bytes of files being taken from the items. Fails when
/// an item does not lie under its tree's root.
pub fn trees_differ(left: &Tree, right: &Tree) -> (r: Result<bool, IoError>)
    ensures
        r is Ok <==> all_under(*left) && all_under(*right),
        r matches Ok(b) ==> b == differ(*left, *right),
        r matches Err(e) ==> names_first_stray(*left, *right, e),
{
    let mut entries = match diff_trees(left, right) {
        Ok(v) => v,
        Err(e) => {
            return Err(e);
        },
    };
    let ghost w = walk(*left, *right);
    let ghost all = entries@;
    let n = entries.len();
    let mut k: usize = 0;
    while k < n
        invariant
            n == all.len(),
            all_under(*left) && all_under(*right),
            views(all) == w,
            w == walk(*left, *right),
            0 <= k <= n,
            entries@ == all.skip(k as int),
            forall|i: int| 0 <= i < k ==> tree_verdict(*left, *right, #[trigger] w[i]) is None,
        decreases n - k,
    {
        assert(entries@[0] == all[k as int]);
        let e = entries.remove(0);
        assert(entries@ =~= all.skip(k + 1));
        let contents = if e.are_files() {
            Contents::Read(
                content_at(&left.items, e.left().path()),
                content_at(&right.items, e.right().path()),
            )
        } else {
            Contents::Unread
        };
        assert(w[k as int] == e@);
        assert(default_verdict(e@, contents) == tree_verdict(*left, *right, w[k as int]));
        match e.assert_all(contents) {
            Ok(_) => {},
            Err(_) => {
                return Ok(true);
            },
        }
        k = k + 1;
    }
    Ok(false)
}

} // verus!
