use dir_diff::{
    diff_trees, trees_differ, AssertionKind, Component, Contents, DiffEntry, DirDiff, FileKind,
    IntoIter, IoError, Phase, Tree, WalkItem,
};

fn path(s: &str) -> Vec<Component> {
    s.split('/')
        .filter(|c| !c.is_empty())
        .map(|c| Component::Normal(c.to_string()))
        .collect()
}

fn file(p: &str, content: &[u8]) -> WalkItem {
    WalkItem { path: path(p), kind: FileKind::File, content: content.to_vec() }
}

fn dir(p: &str) -> WalkItem {
    WalkItem { path: path(p), kind: FileKind::Dir, content: Vec::new() }
}

fn tree(root: &str, items: Vec<WalkItem>) -> Tree {
    Tree { root: path(root), items }
}

fn names(p: &[Component]) -> Vec<String> {
    p.iter()
        .map(|c| match c {
            Component::Normal(s) => s.clone(),
            other => format!("{:?}", other),
        })
        .collect()
}

fn rel(e: &DiffEntry, root: &str) -> String {
    let n = path(root).len();
    names(&e.left().path()[n..]).join("/")
}

fn verdict(l: &Tree, r: &Tree, e: DiffEntry) -> Result<DiffEntry, AssertionKind> {
    let contents = if e.are_files() {
        let find = |t: &Tree, p: &Vec<Component>| {
            t.items.iter().find(|i| names(&i.path) == names(p)).unwrap().content.clone()
        };
        Contents::Read(find(l, e.left().path()), find(r, e.right().path()))
    } else {
        Contents::Unread
    };
    e.assert_all(contents).map_err(|x| x.kind())
}

#[test]
fn same_single_file_does_not_differ() {
    let l = tree("l", vec![file("l/a.txt", b"x")]);
    let r = tree("r", vec![file("r/a.txt", b"x")]);
    assert!(!trees_differ(&l, &r).unwrap());
}

#[test]
fn changed_single_file_differs_in_content() {
    let l = tree("l", vec![file("l/a.txt", b"x")]);
    let r = tree("r", vec![file("r/a.txt", b"y")]);
    assert!(trees_differ(&l, &r).unwrap());
    let entries = diff_trees(&l, &r).unwrap();
    assert_eq!(entries.len(), 1);
    let e = entries.into_iter().next().unwrap();
    assert_eq!(verdict(&l, &r, e).unwrap_err(), AssertionKind::Content);
}

#[test]
fn extra_file_on_right_is_missing_on_left() {
    let l = tree("l", vec![dir("l/dir")]);
    let r = tree("r", vec![dir("r/dir"), file("r/dir/file.txt", b"")]);
    assert!(trees_differ(&l, &r).unwrap());
    let entries = diff_trees(&l, &r).unwrap();
    assert_eq!(entries.len(), 2);
    let mut it = entries.into_iter();
    let first = it.next().unwrap();
    assert_eq!(rel(&first, "l"), "dir");
    assert!(verdict(&l, &r, first).is_ok());
    let second = it.next().unwrap();
    assert_eq!(rel(&second, "l"), "dir/file.txt");
    assert_eq!(second.left().file_type(), None);
    assert_eq!(second.right().file_type(), Some(FileKind::File));
    assert_eq!(verdict(&l, &r, second).unwrap_err(), AssertionKind::Missing);
}

#[test]
fn dir_against_file_is_file_type() {
    let l = tree("l", vec![dir("l/a")]);
    let r = tree("r", vec![file("r/a", b"x")]);
    assert!(trees_differ(&l, &r).unwrap());
    let e = diff_trees(&l, &r).unwrap().into_iter().next().unwrap();
    assert_eq!(verdict(&l, &r, e).unwrap_err(), AssertionKind::FileType);
}

#[test]
fn empty_roots_do_not_differ() {
    let l = tree("l", vec![]);
    let r = tree("r", vec![]);
    assert!(!trees_differ(&l, &r).unwrap());
    assert!(diff_trees(&l, &r).unwrap().is_empty());
}

#[test]
fn copy_at_other_root_does_not_differ() {
    let l = tree(
        "a/one",
        vec![dir("a/one/d"), file("a/one/d/f", b"hello\n"), file("a/one/g", b"\x00\x01")],
    );
    let r = tree(
        "b/two/three",
        vec![file("b/two/three/g", b"\x00\x01"), dir("b/two/three/d"), file("b/two/three/d/f", b"hello\n")],
    );
    assert!(!trees_differ(&l, &r).unwrap());
    assert!(!trees_differ(&l, &l).unwrap());
    assert_eq!(diff_trees(&l, &r).unwrap().len(), 3);
}

#[test]
fn one_sided_paths_are_paired_with_a_missing_side() {
    let l = tree("l", vec![file("l/only_left", b"1"), file("l/both", b"2")]);
    let r = tree("r", vec![file("r/both", b"2"), file("r/only_right", b"3")]);
    let entries = diff_trees(&l, &r).unwrap();
    let rels: Vec<String> = entries.iter().map(|e| rel(e, "l")).collect();
    assert_eq!(rels, vec!["only_left", "both", "only_right"]);
    assert_eq!(entries[0].right().file_type(), None);
    assert_eq!(names(entries[0].right().path()), vec!["r", "only_left"]);
    assert_eq!(entries[2].left().file_type(), None);
    assert_eq!(names(entries[2].left().path()), vec!["l", "only_right"]);
    for e in entries {
        let k = verdict(&l, &r, e);
        if let Err(k) = k {
            assert_eq!(k, AssertionKind::Missing);
        }
    }
}

#[test]
fn shared_paths_are_paired_once() {
    let l = tree("l", vec![dir("l/x"), file("l/x/y", b""), file("l/z", b"")]);
    let r = tree("r", vec![file("r/z", b""), file("r/x/y", b""), dir("r/x")]);
    let entries = diff_trees(&l, &r).unwrap();
    let rels: Vec<String> = entries.iter().map(|e| rel(e, "l")).collect();
    assert_eq!(rels, vec!["x", "x/y", "z"]);
}

#[test]
fn trailing_newline_is_a_content_difference() {
    let l = tree("l", vec![file("l/f", b"line")]);
    let r = tree("r", vec![file("r/f", b"line\n")]);
    assert!(trees_differ(&l, &r).unwrap());
}

#[test]
fn item_outside_its_root_is_an_error() {
    let l = tree("l", vec![file("elsewhere/f", b"")]);
    let r = tree("r", vec![]);
    match diff_trees(&l, &r) {
        Err(IoError::NotUnderRoot(p)) => assert_eq!(names(&p), vec!["elsewhere", "f"]),
        other => panic!("unexpected: {:?}", other.map(|v| v.len())),
    }
    assert!(matches!(trees_differ(&r, &l), Err(IoError::NotUnderRoot(_))));
}

#[test]
fn walk_state_moves_through_both_phases() {
    let mut state = DirDiff::new(path("l"), path("r")).into_iter();
    assert_eq!(state.phase(), Phase::DrainLeft);
    let right = state.right_counterpart(&path("l/a/b")).unwrap();
    assert_eq!(names(&right), vec!["r", "a", "b"]);
    assert!(state.right_counterpart(&path("r/a")).is_err());
    state.finish_right();
    assert_eq!(state.phase(), Phase::DrainLeft);
    state.finish_left();
    assert_eq!(state.phase(), Phase::DrainRight);
    let left = state.left_counterpart(&path("r/c")).unwrap();
    assert_eq!(names(&left), vec!["l", "c"]);
    assert!(IntoIter::already_paired(Some(FileKind::Dir)));
    assert!(!IntoIter::already_paired(None));
    let e = IntoIter::pair_right(left, path("r/c"), FileKind::File);
    assert_eq!(e.left().file_type(), None);
    assert_eq!(e.right().file_type(), Some(FileKind::File));
    state.finish_right();
    assert_eq!(state.phase(), Phase::Done);
    assert_eq!(names(state.left_root()), vec!["l"]);
    assert_eq!(names(state.right_root()), vec!["r"]);
}
