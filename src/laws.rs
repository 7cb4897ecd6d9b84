use vstd::prelude::*;

use crate::entry::{default_verdict, Contents, DiffEntryView, DirEntryView, FileKind};
use crate::error::AssertionKind;
use crate::iter::counterpart;
use crate::path::{is_under, parts_of, relative, Part};
use crate::tree::{
    content_in, differ, distinct_paths, first_at, kind_in, lemma_first_at_bounds, path_of, rels,
    right_phase, tree_verdict, walk, well_formed, left_phase, Tree, WalkItem,
};

verus! {

/// A path under `root` is `root` followed by its path relative to `root`.
proof fn lemma_rejoin(root: Seq<Part>, p: Seq<Part>)
    requires
        is_under(root, p),
    ensures
        p == root + relative(root, p),
{
    assert(p =~= root + relative(root, p));
}

/// `root` followed by `x` lies under `root`, relative to it at `x`.
proof fn lemma_relative_of_join(root: Seq<Part>, x: Seq<Part>)
    ensures
        is_under(root, root + x),
        relative(root, root + x) == x,
{
    assert((root + x).take(root.len() as int) =~= root);
    assert((root + x).skip(root.len() as int) =~= x);
}

/// With distinct paths, the first item at the path of item `j` is item `j`.
proof fn lemma_first_at_unique(items: Seq<WalkItem>, j: int, p: Seq<Part>)
    requires
        distinct_paths(items),
        0 <= j < items.len(),
        path_of(items[j]) == p,
    ensures
        first_at(items, p) == Some(j),
    decreases items.len(),
{
    let init = items.drop_last();
    lemma_first_at_bounds(init, p);
    if j == items.len() - 1 {
        match first_at(init, p) {
            Some(i) => {
                assert(init[i] == items[i]);
                assert(false);
            },
            None => {},
        }
    } else {
        assert forall|a: int, b: int|
            0 <= a < init.len() && 0 <= b < init.len() && a != b implies path_of(init[a])
            != path_of(init[b]) by {
            assert(init[a] == items[a] && init[b] == items[b]);
        }
        assert(init[j] == items[j]);
        lemma_first_at_unique(init, j, p);
    }
}

/// In a well-formed tree, the relative paths of two items differ.
proof fn lemma_rels_distinct(t: Tree, i: int, j: int)
    requires
        well_formed(t),
        0 <= i < t.items@.len(),
        0 <= j < t.items@.len(),
        i != j,
    ensures
        rels(t)[i] != rels(t)[j],
{
    let root = parts_of(t.root@);
    assert(is_under(root, path_of(t.items@[i])));
    assert(is_under(root, path_of(t.items@[j])));
    lemma_rejoin(root, path_of(t.items@[i]));
    lemma_rejoin(root, path_of(t.items@[j]));
}

/// In a well-formed tree, something exists at `root + x` exactly when `x`
/// is the relative path of an item, and then it is that item.
proof fn lemma_lookup(t: Tree, x: Seq<Part>)
    requires
        well_formed(t),
    ensures
        first_at(t.items@, parts_of(t.root@) + x) is Some <==> rels(t).contains(x),
        forall|j: int|
            0 <= j < t.items@.len() && #[trigger] rels(t)[j] == x ==> first_at(
                t.items@,
                parts_of(t.root@) + x,
            ) == Some(j),
{
    let root = parts_of(t.root@);
    let items = t.items@;
    lemma_first_at_bounds(items, root + x);
    lemma_relative_of_join(root, x);
    match first_at(items, root + x) {
        Some(i) => {
            assert(rels(t)[i] == x);
        },
        None => {},
    }
    assert forall|j: int| 0 <= j < items.len() && #[trigger] rels(t)[j] == x implies first_at(
        items,
        root + x,
    ) == Some(j) by {
        assert(is_under(root, path_of(items[j])));
        lemma_rejoin(root, path_of(items[j]));
        lemma_first_at_unique(items, j, root + x);
    }
}

/// The entry that the right item `j` yields when its counterpart on the left
/// does not exist.
pub open spec fn right_entry(l: Tree, r: Tree, j: int) -> DiffEntryView {
    DiffEntryView {
        left: DirEntryView { path: parts_of(l.root@) + rels(r)[j], kind: None },
        right: DirEntryView { path: path_of(r.items@[j]), kind: Some(r.items@[j].kind) },
    }
}

/// What the right traversal yields after its first `k` items: an entry for
/// each of them whose relative path the left tree lacks, in order, and nothing else.
proof fn lemma_right_phase(l: Tree, r: Tree, k: int)
    requires
        well_formed(l),
        well_formed(r),
        0 <= k <= r.items@.len(),
    ensures
        forall|i: int|
            0 <= i < right_phase(l, r, r.items@.take(k)).len() ==> exists|j: int|
                0 <= j < k && #[trigger] right_phase(l, r, r.items@.take(k))[i] == right_entry(
                    l,
                    r,
                    j,
                ) && !rels(l).contains(rels(r)[j]),
        forall|j: int|
            0 <= j < k && !rels(l).contains(#[trigger] rels(r)[j]) ==> exists|i: int|
                0 <= i < right_phase(l, r, r.items@.take(k)).len() && right_phase(
                    l,
                    r,
                    r.items@.take(k),
                )[i] == right_entry(l, r, j),
        forall|a: int, b: int|
            0 <= a < b < right_phase(l, r, r.items@.take(k)).len() ==> (#[trigger] right_phase(
                l,
                r,
                r.items@.take(k),
            )[a]).left.path != (#[trigger] right_phase(l, r, r.items@.take(k))[b]).left.path,
    decreases k,
{
    let lroot = parts_of(l.root@);
    let rroot = parts_of(r.root@);
    let s = r.items@.take(k);
    if k == 0 {
        assert(s.len() == 0);
    } else {
        lemma_right_phase(l, r, k - 1);
        let prev = right_phase(l, r, r.items@.take(k - 1));
        let cur = right_phase(l, r, s);
        assert(s.drop_last() =~= r.items@.take(k - 1));
        assert(s.last() == r.items@[k - 1]);
        let it = r.items@[k - 1];
        let x = rels(r)[k - 1];
        assert(is_under(rroot, path_of(it)));
        lemma_rejoin(rroot, path_of(it));
        assert(counterpart(rroot, lroot, path_of(it)) == lroot + x);
        lemma_lookup(l, x);
        if kind_in(l.items@, lroot + x) is Some {
            assert(cur == prev);
            assert(rels(l).contains(x));
        } else {
            assert(!rels(l).contains(x));
            assert(cur == prev.push(right_entry(l, r, k - 1)));
            assert(cur[prev.len() as int] == right_entry(l, r, k - 1));
            assert forall|a: int| 0 <= a < prev.len() implies (#[trigger] cur[a]).left.path
                != right_entry(l, r, k - 1).left.path by {
                assert(cur[a] == prev[a]);
                let j = choose|j: int|
                    0 <= j < k - 1 && #[trigger] prev[a] == right_entry(l, r, j) && !rels(
                        l,
                    ).contains(rels(r)[j]);
                lemma_rels_distinct(r, j, k - 1);
                lemma_relative_of_join(lroot, rels(r)[j]);
                lemma_relative_of_join(lroot, x);
            }
        }
        assert forall|j: int| 0 <= j < k && !rels(l).contains(#[trigger] rels(r)[j]) implies exists|
            i: int,
        | 0 <= i < cur.len() && cur[i] == right_entry(l, r, j) by {
            if j < k - 1 {
                let i = choose|i: int| 0 <= i < prev.len() && prev[i] == right_entry(l, r, j);
                assert(cur[i] == prev[i]);
            } else {
                assert(cur[prev.len() as int] == right_entry(l, r, k - 1));
            }
        }
    }
}

/// The relative path of each entry of the walk.
pub open spec fn walk_rels(l: Tree, r: Tree) -> Seq<Seq<Part>> {
    walk(l, r).map_values(|e: DiffEntryView| relative(parts_of(l.root@), e.left.path))
}

/// Walking two well-formed trees yields, for every relative path present in
/// either tree, exactly one entry, and for no other path: its two sides are
/// that path under each root, and each side reports the kind of what exists
/// there, absent exactly when that tree lacks the path.
pub proof fn lemma_walk_pairs_each_path_once(l: Tree, r: Tree)
    requires
        well_formed(l),
        well_formed(r),
    ensures
        forall|i: int|
            #![trigger walk(l, r)[i]]
            0 <= i < walk(l, r).len() ==> {
                &&& walk(l, r)[i].left.path == parts_of(l.root@) + walk_rels(l, r)[i]
                &&& walk(l, r)[i].right.path == parts_of(r.root@) + walk_rels(l, r)[i]
                &&& walk(l, r)[i].left.kind == kind_in(l.items@, walk(l, r)[i].left.path)
                &&& walk(l, r)[i].right.kind == kind_in(r.items@, walk(l, r)[i].right.path)
                &&& (walk(l, r)[i].left.kind is Some <==> rels(l).contains(walk_rels(l, r)[i]))
                &&& (walk(l, r)[i].right.kind is Some <==> rels(r).contains(walk_rels(l, r)[i]))
            },
        forall|x: Seq<Part>|
            walk_rels(l, r).contains(x) <==> (rels(l).contains(x) || rels(r).contains(x)),
        walk_rels(l, r).no_duplicates(),
{
    let lroot = parts_of(l.root@);
    let rroot = parts_of(r.root@);
    let lp = left_phase(l, r);
    assert(r.items@.take(r.items@.len() as int) =~= r.items@);
    lemma_right_phase(l, r, r.items@.len() as int);
    let rp = right_phase(l, r, r.items@);
    let w = walk(l, r);
    let wr = walk_rels(l, r);
    let n = lp.len();
    assert(w == lp + rp);
    assert forall|i: int| 0 <= i < w.len() implies {
        &&& #[trigger] w[i].left.path == lroot + wr[i]
        &&& w[i].right.path == rroot + wr[i]
        &&& w[i].left.kind == kind_in(l.items@, w[i].left.path)
        &&& w[i].right.kind == kind_in(r.items@, w[i].right.path)
        &&& (w[i].left.kind is Some <==> rels(l).contains(wr[i]))
        &&& (w[i].right.kind is Some <==> rels(r).contains(wr[i]))
        &&& (i < n ==> wr[i] == rels(l)[i])
        &&& (i >= n ==> !rels(l).contains(wr[i]))
    } by {
        if i < n {
            let it = l.items@[i];
            assert(w[i] == lp[i]);
            assert(is_under(lroot, path_of(it)));
            lemma_rejoin(lroot, path_of(it));
            let x = rels(l)[i];
            assert(wr[i] == x);
            lemma_lookup(l, x);
            lemma_lookup(r, x);
        } else {
            assert(w[i] == rp[i - n]);
            let j = choose|j: int|
                0 <= j < r.items@.len() && #[trigger] rp[i - n] == right_entry(l, r, j) && !rels(
                    l,
                ).contains(rels(r)[j]);
            let x = rels(r)[j];
            lemma_relative_of_join(lroot, x);
            assert(wr[i] == x);
            assert(is_under(rroot, path_of(r.items@[j])));
            lemma_rejoin(rroot, path_of(r.items@[j]));
            lemma_lookup(l, x);
            lemma_lookup(r, x);
        }
    }
    assert forall|x: Seq<Part>| wr.contains(x) <==> (rels(l).contains(x) || rels(r).contains(x)) by {
        if wr.contains(x) {
            let i = choose|i: int| 0 <= i < wr.len() && wr[i] == x;
            assert(w[i].left.path == lroot + wr[i]);
        }
        if rels(l).contains(x) {
            let i = choose|i: int| 0 <= i < rels(l).len() && rels(l)[i] == x;
            assert(w[i].left.path == lroot + wr[i]);
            assert(wr[i] == x);
        } else if rels(r).contains(x) {
            let j = choose|j: int| 0 <= j < rels(r).len() && rels(r)[j] == x;
            let i = choose|i: int| 0 <= i < rp.len() && rp[i] == right_entry(l, r, j);
            assert(w[n + i] == rp[i]);
            assert(w[n + i].left.path == lroot + wr[n + i]);
            lemma_relative_of_join(lroot, x);
            assert(wr[n + i] == x);
        }
    }
    assert forall|a: int, b: int| 0 <= a < wr.len() && 0 <= b < wr.len() && a != b implies wr[a]
        != wr[b] by {
        assert(w[a].left.path == lroot + wr[a]);
        assert(w[b].left.path == lroot + wr[b]);
        if a < n && b < n {
            lemma_rels_distinct(l, a, b);
        } else if a >= n && b >= n {
            assert(w[a] == rp[a - n]);
            assert(w[b] == rp[b - n]);
            if a < b {
                assert(rp[a - n].left.path != rp[b - n].left.path);
            } else {
                assert(rp[b - n].left.path != rp[a - n].left.path);
            }
        } else if a < n {
            assert(rels(l).contains(wr[a]));
        } else {
            assert(rels(l).contains(wr[b]));
        }
    }
}

/// `r` holds what `l` holds, possibly under another root and in another
/// order: at each relative path, an object of the same kind and the same bytes.
pub open spec fn same_tree(l: Tree, r: Tree) -> bool {
    forall|x: Seq<Part>|
        kind_in(l.items@, parts_of(l.root@) + x) == kind_in(r.items@, parts_of(r.root@) + x)
            && content_in(l.items@, parts_of(l.root@) + x) == content_in(
            r.items@,
            parts_of(r.root@) + x,
        )
}

/// A tree diffed against a copy of itself, even one at another root, shows
/// no difference.
pub proof fn lemma_copy_does_not_differ(l: Tree, r: Tree)
    requires
        well_formed(l),
        well_formed(r),
        same_tree(l, r),
    ensures
        !differ(l, r),
{
    let lroot = parts_of(l.root@);
    let rroot = parts_of(r.root@);
    let lp = left_phase(l, r);
    assert(r.items@.take(r.items@.len() as int) =~= r.items@);
    lemma_right_phase(l, r, r.items@.len() as int);
    let rp = right_phase(l, r, r.items@);
    if rp.len() > 0 {
        let j = choose|j: int|
            0 <= j < r.items@.len() && #[trigger] rp[0] == right_entry(l, r, j) && !rels(l).contains(
                rels(r)[j],
            );
        let x = rels(r)[j];
        lemma_lookup(l, x);
        lemma_lookup(r, x);
        assert(kind_in(l.items@, lroot + x) == kind_in(r.items@, rroot + x));
        assert(false);
    }
    let w = walk(l, r);
    assert(w =~= lp);
    assert forall|i: int| 0 <= i < w.len() implies tree_verdict(l, r, #[trigger] w[i]) is None by {
        let it = l.items@[i];
        assert(w[i] == lp[i]);
        assert(is_under(lroot, path_of(it)));
        lemma_rejoin(lroot, path_of(it));
        let x = rels(l)[i];
        lemma_lookup(l, x);
        assert(kind_in(l.items@, lroot + x) == Some(it.kind));
        assert(kind_in(l.items@, lroot + x) == kind_in(r.items@, rroot + x));
        assert(content_in(l.items@, lroot + x) == content_in(r.items@, rroot + x));
    }
}

/// A directory on one side and a regular file on the other is a file-type
/// difference under the default policy, whatever the contents.
pub proof fn lemma_dir_against_file_is_file_type(e: DiffEntryView, c: Contents)
    requires
        (e.left.kind == Some(FileKind::Dir) && e.right.kind == Some(FileKind::File)) || (
        e.left.kind == Some(FileKind::File) && e.right.kind == Some(FileKind::Dir)),
    ensures
        default_verdict(e, c) == Some(AssertionKind::FileType),
{
}

/// A side that does not exist makes the entry a missing-side difference
/// under the default policy, whatever the other side and the contents.
pub proof fn lemma_absent_side_is_missing(e: DiffEntryView, c: Contents)
    requires
        e.left.kind is None || e.right.kind is None,
    ensures
        default_verdict(e, c) == Some(AssertionKind::Missing),
{
}

/// Two regular files pass the default policy exactly when their bytes are equal.
pub proof fn lemma_file_contents_compared_exactly(e: DiffEntryView, a: Vec<u8>, b: Vec<u8>)
    requires
        e.both_files(),
    ensures
        default_verdict(e, Contents::Read(a, b)) is None <==> a@ == b@,
        a@ != b@ ==> default_verdict(e, Contents::Read(a, b)) == Some(AssertionKind::Content),
{
}

/// In the walk over two well-formed trees, the entry of a relative path that
/// only one of the trees holds is a missing-side difference.
pub proof fn lemma_one_sided_path_is_missing(l: Tree, r: Tree, i: int)
    requires
        well_formed(l),
        well_formed(r),
        0 <= i < walk(l, r).len(),
        rels(l).contains(walk_rels(l, r)[i]) != rels(r).contains(walk_rels(l, r)[i]),
    ensures
        tree_verdict(l, r, walk(l, r)[i]) == Some(AssertionKind::Missing),
{
    lemma_walk_pairs_each_path_once(l, r);
    assert(walk(l, r)[i].left.path == parts_of(l.root@) + walk_rels(l, r)[i]);
}

} // verus!
