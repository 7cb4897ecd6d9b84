use vstd::prelude::*;

verus! {

/// One component of a filesystem path, as a path splits into them.
#[derive(Debug, Clone)]
pub enum Component {
    /// A platform prefix such as a drive letter.
    Prefix(String),
    /// The root directory.
    RootDir,
    /// A reference to the current directory, `.`.
    CurDir,
    /// A reference to the parent directory, `..`.
    ParentDir,
    /// A plain file or directory name.
    Normal(String),
}

/// What a path component denotes, with names as character sequences.
pub enum Part {
    Prefix(Seq<char>),
    RootDir,
    CurDir,
    ParentDir,
    Normal(Seq<char>),
}

impl View for Component {
    type V = Part;

    open spec fn view(&self) -> Part {
        match self {
            Component::Prefix(s) => Part::Prefix(s@),
            Component::RootDir => Part::RootDir,
            Component::CurDir => Part::CurDir,
            Component::ParentDir => Part::ParentDir,
            Component::Normal(s) => Part::Normal(s@),
        }
    }
}

/// The components of a path, each as what it denotes.
pub open spec fn parts_of(p: Seq<Component>) -> Seq<Part> {
    p.map_values(|c: Component| c@)
}

/// `path` lies under `root`: its first components are those of `root`.
pub open spec fn is_under(root: Seq<Part>, path: Seq<Part>) -> bool {
    root.len() <= path.len() && path.take(root.len() as int) == root
}

/// The path of `path` relative to `root`.
pub open spec fn relative(root: Seq<Part>, path: Seq<Part>) -> Seq<Part> {
    path.skip(root.len() as int)
}

/// The last component of a path when it is a plain name, else the whole path.
pub open spec fn file_name_of(p: Seq<Part>) -> Seq<Part> {
    if p.len() > 0 && p.last() is Normal {
        seq![p.last()]
    } else {
        p
    }
}

impl Component {
    /// Whether two components denote the same thing.
    pub fn same(&self, other: &Component) -> (r: bool)
        ensures
            r == (self@ == other@),
    {
        match (self, other) {
            (Component::Prefix(a), Component::Prefix(b)) => *a == *b,
            (Component::RootDir, Component::RootDir) => true,
            (Component::CurDir, Component::CurDir) => true,
            (Component::ParentDir, Component::ParentDir) => true,
            (Component::Normal(a), Component::Normal(b)) => *a == *b,
            _ => false,
        }
    }

    /// A new component that denotes the same thing.
    pub fn duplicate(&self) -> (r: Component)
        ensures
            r@ == self@,
    {
        match self {
            Component::Prefix(s) => Component::Prefix(s.clone()),
            Component::RootDir => Component::RootDir,
            Component::CurDir => Component::CurDir,
            Component::ParentDir => Component::ParentDir,
            Component::Normal(s) => Component::Normal(s.clone()),
        }
    }

    /// Whether this component is a plain name.
    pub fn is_normal(&self) -> (r: bool)
        ensures
            r == (self@ is Normal),
    {
        match self {
            Component::Normal(_) => true,
            _ => false,
        }
    }
}

/// Appends the components of `src` from index `from` on to `dst`.
fn extend_from(dst: &mut Vec<Component>, src: &Vec<Component>, from: usize)
    requires
        from <= src@.len(),
    ensures
        parts_of(final(dst)@) == parts_of(old(dst)@) + parts_of(src@).skip(from as int),
{
    let ghost start = parts_of(dst@);
    let mut i: usize = from;
    while i < src.len()
        invariant
            from <= i <= src@.len(),
            parts_of(dst@) == start + parts_of(src@).subrange(from as int, i as int),
        decreases src@.len() - i,
    {
        let ghost prev = dst@;
        let c = src[i].duplicate();
        dst.push(c);
        assert(dst@ == prev.push(c));
        assert(parts_of(dst@) =~= parts_of(prev).push(src@[i as int]@));
        i = i + 1;
        assert(parts_of(dst@) =~= start + parts_of(src@).subrange(from as int, i as int));
    }
    assert(parts_of(src@).subrange(from as int, i as int) =~= parts_of(src@).skip(from as int));
}

/// A new path with the same components.
pub fn copy_path(p: &Vec<Component>) -> (r: Vec<Component>)
    ensures
        parts_of(r@) == parts_of(p@),
{
    let mut r: Vec<Component> = Vec::new();
    extend_from(&mut r, p, 0);
    assert(parts_of(r@) =~= parts_of(p@));
    r
}

/// Whether `path` lies under `root`.
pub fn starts_with(root: &Vec<Component>, path: &Vec<Component>) -> (r: bool)
    ensures
        r == is_under(parts_of(root@), parts_of(path@)),
{
    if root.len() > path.len() {
        return false;
    }
    let mut i: usize = 0;
    while i < root.len()
        invariant
            root@.len() <= path@.len(),
            0 <= i <= root@.len(),
            forall|j: int| 0 <= j < i ==> root@[j]@ == path@[j]@,
        decreases root@.len() - i,
    {
        if !root[i].same(&path[i]) {
            assert(parts_of(path@).take(root@.len() as int)[i as int] != parts_of(root@)[i as int]);
            return false;
        }
        i = i + 1;
    }
    assert(parts_of(path@).take(root@.len() as int) =~= parts_of(root@));
    true
}

/// The path under `to_root` that stands where `path` stands under `from_root`;
/// `None` when `path` does not lie under `from_root`.
pub fn rebase(from_root: &Vec<Component>, to_root: &Vec<Component>, path: &Vec<Component>) -> (r:
    Option<Vec<Component>>)
    ensures
        r is Some <==> is_under(parts_of(from_root@), parts_of(path@)),
        r matches Some(q) ==> parts_of(q@) == parts_of(to_root@) + relative(
            parts_of(from_root@),
            parts_of(path@),
        ),
{
    if !starts_with(from_root, path) {
        return None;
    }
    let mut q = copy_path(to_root);
    extend_from(&mut q, path, from_root.len());
    Some(q)
}

} // verus!
