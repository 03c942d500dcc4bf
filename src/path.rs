//! Paths as sequences of components.
//!
//! A path is held as the list of its components, each a byte string, as a
//! Unix path reads once split at its separators. An absolute path lists the
//! components below the filesystem root; a relative path lists those below
//! some base directory.
use vstd::prelude::*;

verus! {

/// The components of `p` that follow `root`, when `p` lies strictly below
/// `root`; `None` for `root` itself and for a path outside it.
pub open spec fn relative_of(root: Seq<Seq<u8>>, p: Seq<Seq<u8>>) -> Option<Seq<Seq<u8>>> {
    if root.len() < p.len() && p.take(root.len() as int) == root {
        Some(p.skip(root.len() as int))
    } else {
        None
    }
}

/// An absolute path: the components below the filesystem root, outermost
/// first. The root directory itself has no components.
#[derive(Clone, Debug)]
pub struct AbsPath {
    pub parts: Vec<Vec<u8>>,
}

/// A path relative to some base directory, outermost component first.
#[derive(Clone, Debug)]
pub struct RelPath {
    pub parts: Vec<Vec<u8>>,
}

impl View for AbsPath {
    type V = Seq<Seq<u8>>;

    open spec fn view(&self) -> Seq<Seq<u8>> {
        self.parts.deep_view()
    }
}

impl View for RelPath {
    type V = Seq<Seq<u8>>;

    open spec fn view(&self) -> Seq<Seq<u8>> {
        self.parts.deep_view()
    }
}

/// The deep view of a byte string is its view.
proof fn lemma_bytes_deep_view(v: &Vec<u8>)
    ensures
        v.deep_view() == v@,
{
    assert(v.deep_view() =~= v@);
}

/// Whether two byte strings are equal.
pub fn bytes_equal(a: &Vec<u8>, b: &Vec<u8>) -> (r: bool)
    ensures
        r == (a@ == b@),
{
    if a.len() != b.len() {
        return false;
    }
    let mut i: usize = 0;
    while i < a.len()
        invariant
            a@.len() == b@.len(),
            0 <= i <= a@.len(),
            a@.take(i as int) == b@.take(i as int),
        decreases a@.len() - i,
    {
        if a[i] != b[i] {
            assert(a@[i as int] != b@[i as int]);
            return false;
        }
        assert(a@.take(i + 1) == a@.take(i as int).push(a@[i as int]));
        assert(b@.take(i + 1) == b@.take(i as int).push(b@[i as int]));
        i = i + 1;
    }
    assert(a@ == a@.take(a@.len() as int));
    assert(b@ == b@.take(b@.len() as int));
    true
}

/// Whether the components of `a`, from `start` on, are those of `b`.
fn parts_equal_from(a: &Vec<Vec<u8>>, start: usize, b: &Vec<Vec<u8>>) -> (r: bool)
    requires
        start <= a@.len(),
    ensures
        r == (a.deep_view().skip(start as int) == b.deep_view()),
{
    let ghost av = a.deep_view().skip(start as int);
    let ghost bv = b.deep_view();
    if a.len() - start != b.len() {
        assert(av.len() != bv.len());
        return false;
    }
    let mut i: usize = 0;
    while i < b.len()
        invariant
            av == a.deep_view().skip(start as int),
            bv == b.deep_view(),
            av.len() == bv.len(),
            bv.len() == b@.len(),
            start + b@.len() == a@.len(),
            a@.len() <= usize::MAX,
            0 <= i <= b@.len(),
            av.take(i as int) == bv.take(i as int),
        decreases b@.len() - i,
    {
        proof {
            lemma_bytes_deep_view(&a@[start + i]);
            lemma_bytes_deep_view(&b@[i as int]);
        }
        assert(av[i as int] == a@[start + i]@);
        if !bytes_equal(&a[start + i], &b[i]) {
            assert(av[i as int] != bv[i as int]);
            return false;
        }
        assert(av.take(i + 1) == av.take(i as int).push(av[i as int]));
        assert(bv.take(i + 1) == bv.take(i as int).push(bv[i as int]));
        i = i + 1;
    }
    assert(av == av.take(av.len() as int));
    assert(bv == bv.take(bv.len() as int));
    true
}

/// Whether the components of `a` begin the components of `b`.
fn parts_prefix(a: &Vec<Vec<u8>>, b: &Vec<Vec<u8>>) -> (r: bool)
    ensures
        r == (a@.len() <= b@.len() && b.deep_view().take(a@.len() as int) == a.deep_view()),
{
    let ghost av = a.deep_view();
    let ghost bv = b.deep_view();
    if a.len() > b.len() {
        return false;
    }
    let mut i: usize = 0;
    while i < a.len()
        invariant
            av == a.deep_view(),
            bv == b.deep_view(),
            a@.len() <= b@.len(),
            0 <= i <= a@.len(),
            bv.take(i as int) == av.take(i as int),
        decreases a@.len() - i,
    {
        proof {
            lemma_bytes_deep_view(&a@[i as int]);
            lemma_bytes_deep_view(&b@[i as int]);
        }
        if !bytes_equal(&a[i], &b[i]) {
            assert(bv.take(a@.len() as int)[i as int] != av[i as int]);
            return false;
        }
        assert(av.take(i + 1) == av.take(i as int).push(av[i as int]));
        assert(bv.take(i + 1) == bv.take(i as int).push(bv[i as int]));
        i = i + 1;
    }
    assert(av == av.take(av.len() as int));
    true
}

/// A copy of a byte string.
fn copy_bytes(b: &Vec<u8>) -> (r: Vec<u8>)
    ensures
        r@ == b@,
{
    let r = b.clone();
    assert(r@ =~= b@);
    r
}

/// A copy of a component list.
fn copy_parts(v: &Vec<Vec<u8>>, start: usize) -> (r: Vec<Vec<u8>>)
    requires
        start <= v@.len(),
    ensures
        r.deep_view() == v.deep_view().skip(start as int),
{
    let mut r: Vec<Vec<u8>> = Vec::new();
    let mut i: usize = start;
    while i < v.len()
        invariant
            start <= i <= v@.len(),
            r.deep_view() == v.deep_view().subrange(start as int, i as int),
        decreases v@.len() - i,
    {
        let c = copy_bytes(&v[i]);
        proof {
            lemma_bytes_deep_view(&c);
            lemma_bytes_deep_view(&v@[i as int]);
        }
        let ghost before = r.deep_view();
        r.push(c);
        assert(r.deep_view() =~= before.push(c.deep_view()));
        assert(r.deep_view() =~= v.deep_view().subrange(start as int, i + 1));
        i = i + 1;
    }
    r
}

impl AbsPath {
    /// The path with the given components.
    pub fn new(parts: Vec<Vec<u8>>) -> (r: AbsPath)
        ensures
            r@ == parts.deep_view(),
    {
        AbsPath { parts }
    }

    /// An equal path that owns its own storage.
    pub fn duplicate(&self) -> (r: AbsPath)
        ensures
            r@ == self@,
    {
        AbsPath { parts: copy_parts(&self.parts, 0) }
    }

    /// The directory holding this path: all components but the last.
    /// The root directory has none.
    pub fn parent(&self) -> (r: Option<AbsPath>)
        ensures
            self@.len() == 0 <==> r.is_none(),
            r matches Some(q) ==> q@ == self@.drop_last(),
    {
        if self.parts.len() == 0 {
            return None;
        }
        let mut parts: Vec<Vec<u8>> = Vec::new();
        let mut i: usize = 0;
        let last = self.parts.len() - 1;
        while i < last
            invariant
                last + 1 == self@.len(),
                0 <= i <= last,
                parts.deep_view() == self@.take(i as int),
            decreases last - i,
        {
            let c = copy_bytes(&self.parts[i]);
            proof {
                lemma_bytes_deep_view(&c);
                lemma_bytes_deep_view(&self.parts@[i as int]);
            }
            let ghost before = parts.deep_view();
            parts.push(c);
            assert(parts.deep_view() =~= before.push(c.deep_view()));
            assert(parts.deep_view() =~= self@.take(i + 1));
            i = i + 1;
        }
        assert(self@.take(last as int) =~= self@.drop_last());
        Some(AbsPath { parts })
    }

    /// The part of this path below `root`. `None` when this path is `root`
    /// itself or does not lie below it.
    pub fn relative_to(&self, root: &AbsPath) -> (r: Option<RelPath>)
        ensures
            r.is_some() == relative_of(root@, self@).is_some(),
            r matches Some(q) ==> Some(q@) == relative_of(root@, self@),
    {
        let n = root.parts.len();
        if n >= self.parts.len() {
            return None;
        }
        if !parts_prefix(&root.parts, &self.parts) {
            return None;
        }
        let rest = copy_parts(&self.parts, n);
        Some(RelPath { parts: rest })
    }
}

impl RelPath {
    /// The relative path with the given components.
    pub fn new(parts: Vec<Vec<u8>>) -> (r: RelPath)
        ensures
            r@ == parts.deep_view(),
    {
        RelPath { parts }
    }

    /// An equal path that owns its own storage.
    pub fn duplicate(&self) -> (r: RelPath)
        ensures
            r@ == self@,
    {
        RelPath { parts: copy_parts(&self.parts, 0) }
    }

    /// Whether two relative paths name the same place.
    pub fn same_as(&self, other: &RelPath) -> (r: bool)
        ensures
            r == (self@ == other@),
    {
        let r = parts_equal_from(&self.parts, 0, &other.parts);
        assert(self@.skip(0) =~= self@);
        r
    }
}

/// The place under `dest_dir_path` that corresponds to `rel_path`: the
/// destination's components followed by the relative ones.
pub fn create_dest_path_from_relative(rel_path: &RelPath, dest_dir_path: &AbsPath) -> (r: AbsPath)
    ensures
        r@ == dest_dir_path@ + rel_path@,
{
    let mut parts = copy_parts(&dest_dir_path.parts, 0);
    let rest = copy_parts(&rel_path.parts, 0);
    let ghost front = parts.deep_view();
    let mut tail = rest;
    parts.append(&mut tail);
    assert(parts.deep_view() =~= front + rest.deep_view());
    assert(dest_dir_path@.skip(0) =~= dest_dir_path@);
    assert(rel_path@.skip(0) =~= rel_path@);
    AbsPath { parts }
}

} // verus!
