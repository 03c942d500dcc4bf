//! Turning raw change notifications into the relative paths to relocate.
use vstd::prelude::*;
use crate::path::{relative_of, AbsPath, RelPath};

verus! {

/// What a change notification reports.
#[derive(Clone, Copy, Debug, PartialEq, Eq, Structural)]
pub enum EventKind {
    Created,
    Modified,
    Removed,
    Other,
}

/// A path named by a notification, with whether it referred to a regular
/// file when it was looked at.
#[derive(Clone, Debug)]
pub struct ObservedPath {
    pub path: AbsPath,
    pub is_file: bool,
}

impl ObservedPath {
    /// The path's components and its file flag.
    pub open spec fn view_pair(&self) -> (Seq<Seq<u8>>, bool) {
        (self.path@, self.is_file)
    }
}

/// The paths of a notification, each as its components and its file flag.
pub open spec fn observed_view(ps: Seq<ObservedPath>) -> Seq<(Seq<Seq<u8>>, bool)> {
    ps.map_values(|o: ObservedPath| o.view_pair())
}

/// The relative paths that a creation notification for `ps` yields under
/// `root`, in order: one for each regular file strictly below `root`.
pub open spec fn created_files(root: Seq<Seq<u8>>, ps: Seq<(Seq<Seq<u8>>, bool)>) -> Seq<Seq<Seq<u8>>>
    decreases ps.len(),
{
    if ps.len() == 0 {
        seq![]
    } else {
        let before = created_files(root, ps.drop_last());
        let (p, is_file) = ps.last();
        if is_file && relative_of(root, p).is_some() {
            before.push(relative_of(root, p).unwrap())
        } else {
            before
        }
    }
}

/// The relative paths that a notification of kind `kind` naming `ps` yields:
/// none unless it reports a creation.
pub open spec fn normalized(kind: EventKind, root: Seq<Seq<u8>>, ps: Seq<(Seq<Seq<u8>>, bool)>) -> Seq<Seq<Seq<u8>>> {
    if kind == EventKind::Created {
        created_files(root, ps)
    } else {
        seq![]
    }
}

/// A notification none of whose paths is a regular file yields no path to
/// relocate, whatever its kind.
pub proof fn lemma_non_files_ignored(kind: EventKind, root: Seq<Seq<u8>>, ps: Seq<(Seq<Seq<u8>>, bool)>)
    requires
        forall|i: int| 0 <= i < ps.len() ==> !ps[i].1,
    ensures
        normalized(kind, root, ps) == Seq::<Seq<Seq<u8>>>::empty(),
    decreases ps.len(),
{
    if ps.len() > 0 {
        let m = ps.drop_last();
        assert forall|i: int| 0 <= i < m.len() implies !m[i].1 by {
            assert(m[i] == ps[i]);
        }
        lemma_non_files_ignored(EventKind::Created, root, m);
        assert(!ps[ps.len() - 1].1);
    }
}

/// The relative paths to hand to dispatch for one notification, in the order
/// the notification names them. Only creation notifications count; of their
/// paths, those that are not regular files, the root itself and those outside
/// `root` are dropped.
pub fn normalize_event(root: &AbsPath, kind: EventKind, paths: &Vec<ObservedPath>) -> (r: Vec<RelPath>)
    ensures
        r@.map_values(|q: RelPath| q@) == normalized(kind, root@, observed_view(paths@)),
{
    let mut out: Vec<RelPath> = Vec::new();
    if kind != EventKind::Created {
        assert(out@.map_values(|q: RelPath| q@) =~= Seq::<Seq<Seq<u8>>>::empty());
        return out;
    }
    let ghost ps = observed_view(paths@);
    let mut i: usize = 0;
    while i < paths.len()
        invariant
            ps == observed_view(paths@),
            0 <= i <= paths@.len(),
            out@.map_values(|q: RelPath| q@) == created_files(root@, ps.take(i as int)),
        decreases paths@.len() - i,
    {
        let o = &paths[i];
        assert(ps.take(i + 1).drop_last() =~= ps.take(i as int));
        assert(ps.take(i + 1).last() == o.view_pair());
        if o.is_file {
            match o.path.relative_to(root) {
                Some(q) => {
                    let ghost before = out@;
                    out.push(q);
                    assert(out@.map_values(|q: RelPath| q@) =~= before.map_values(|q: RelPath| q@).push(q@));
                },
                None => {},
            }
        }
        i = i + 1;
    }
    assert(ps.take(paths@.len() as int) =~= ps);
    out
}

} // verus!
