//! The dispatch table: which relative paths have a relocation under way.
//!
//! One coordinator owns the table and feeds it, one message at a time, the
//! relative paths found by the normalizer and the paths whose relocation has
//! ended. For each message the table says whether a new relocation worker is
//! to be started, and for which path.
use vstd::prelude::*;
use crate::path::RelPath;

verus! {

/// A message to the coordinator.
#[derive(Debug)]
pub enum Intake {
    /// A creation notification named this file.
    Discovered(RelPath),
    /// The relocation of this file has ended, whatever its outcome.
    Finished(RelPath),
}

/// A message to the coordinator, over path components.
pub enum IntakeView {
    Discovered(Seq<Seq<u8>>),
    Finished(Seq<Seq<u8>>),
}

impl View for Intake {
    type V = IntakeView;

    open spec fn view(&self) -> IntakeView {
        match self {
            Intake::Discovered(p) => IntakeView::Discovered(p@),
            Intake::Finished(p) => IntakeView::Finished(p@),
        }
    }
}

/// One coordinator step: the paths held afterwards, and the path for
/// which a worker is started, if any. A discovered path that is already
/// held starts nothing; a finished path stops being held.
pub open spec fn step(held: Set<Seq<Seq<u8>>>, msg: IntakeView) -> (Set<Seq<Seq<u8>>>, Option<Seq<Seq<u8>>>) {
    match msg {
        IntakeView::Discovered(p) => {
            if held.contains(p) {
                (held, None)
            } else {
                (held.insert(p), Some(p))
            }
        },
        IntakeView::Finished(p) => (held.remove(p), None),
    }
}

/// The coordinator run over `msgs` from `held`: the paths held at the
/// end, and the paths for which workers were started, in order.
pub open spec fn run(held: Set<Seq<Seq<u8>>>, msgs: Seq<IntakeView>) -> (Set<Seq<Seq<u8>>>, Seq<Seq<Seq<u8>>>)
    decreases msgs.len(),
{
    if msgs.len() == 0 {
        (held, seq![])
    } else {
        let (t, started) = run(held, msgs.drop_last());
        let (t2, o) = step(t, msgs.last());
        (t2, match o {
            Some(p) => started.push(p),
            None => started,
        })
    }
}

/// How many times `p` occurs in `s`.
pub open spec fn occurrences(s: Seq<Seq<Seq<u8>>>, p: Seq<Seq<u8>>) -> nat
    decreases s.len(),
{
    if s.len() == 0 {
        0
    } else {
        occurrences(s.drop_last(), p) + if s.last() == p { 1nat } else { 0nat }
    }
}

/// Whether some message of `msgs` reports `p` as discovered.
pub open spec fn discovers(msgs: Seq<IntakeView>, p: Seq<Seq<u8>>) -> bool {
    exists|i: int| 0 <= i < msgs.len() && msgs[i] == IntakeView::Discovered(p)
}

/// Whether some message of `msgs` reports the relocation of `p` as ended.
pub open spec fn finishes(msgs: Seq<IntakeView>, p: Seq<Seq<u8>>) -> bool {
    exists|i: int| 0 <= i < msgs.len() && msgs[i] == IntakeView::Finished(p)
}

/// The map from relative path to relocation in flight, as the set of paths
/// it holds.
pub struct DispatchTable {
    active: Vec<RelPath>,
}

impl DispatchTable {
    /// The held paths, in the order they were admitted.
    pub closed spec fn keys(&self) -> Seq<Seq<Seq<u8>>> {
        self.active@.map_values(|q: RelPath| q@)
    }

    /// No path is held twice.
    pub closed spec fn wf(&self) -> bool {
        self.keys().no_duplicates()
    }

    pub closed spec fn view(&self) -> Set<Seq<Seq<u8>>> {
        self.keys().to_set()
    }

    /// A table that holds no path.
    pub fn new() -> (r: DispatchTable)
        ensures
            r.wf(),
            r.view() == Set::<Seq<Seq<u8>>>::empty(),
    {
        let r = DispatchTable { active: Vec::new() };
        assert(r.keys() =~= Seq::<Seq<Seq<u8>>>::empty());
        assert(r.view() =~= Set::<Seq<Seq<u8>>>::empty());
        r
    }

    /// Where `p` stands among the held paths, if it is held.
    fn position(&self, p: &RelPath) -> (r: Option<usize>)
        ensures
            r matches Some(i) ==> i < self.keys().len() && self.keys()[i as int] == p@,
            r is None ==> !self.keys().contains(p@),
    {
        let mut i: usize = 0;
        while i < self.active.len()
            invariant
                0 <= i <= self.active@.len(),
                forall|j: int| 0 <= j < i ==> self.keys()[j] != p@,
            decreases self.active@.len() - i,
        {
            if self.active[i].same_as(p) {
                return Some(i);
            }
            i = i + 1;
        }
        None
    }

    /// Whether `p` is held.
    pub fn contains(&self, p: &RelPath) -> (r: bool)
        ensures
            r == self.view().contains(p@),
    {
        match self.position(p) {
            Some(_) => true,
            None => false,
        }
    }

    /// How many paths are held.
    pub fn len(&self) -> (r: usize)
        requires
            self.wf(),
        ensures
            r == self.view().len(),
    {
        proof {
            self.keys().unique_seq_to_set();
        }
        self.active.len()
    }

    /// Holds `p` if it is not held yet. Returns whether it was absent, that
    /// is, whether a worker is to be started for it.
    pub fn take_in(&mut self, p: RelPath) -> (r: bool)
        requires
            old(self).wf(),
        ensures
            final(self).wf(),
            r == !old(self).view().contains(p@),
            final(self).view() == old(self).view().insert(p@),
    {
        match self.position(&p) {
            Some(_) => {
                assert(old(self).view().insert(p@) =~= old(self).view());
                false
            },
            None => {
                let ghost before = self.keys();
                self.active.push(p);
                assert(self.keys() =~= before.push(p@));
                proof {
                    before.lemma_push_to_set_commute(p@);
                    assert forall|a: int, b: int| 0 <= a < b < self.keys().len() implies self.keys()[a] != self.keys()[b] by {
                        if b == before.len() {
                            assert(before.contains(before[a]));
                        }
                    }
                }
                assert(self.view() =~= old(self).view().insert(p@));
                true
            },
        }
    }

    /// Stops holding `p`. Returns whether it was held.
    pub fn release(&mut self, p: &RelPath) -> (r: bool)
        requires
            old(self).wf(),
        ensures
            final(self).wf(),
            r == old(self).view().contains(p@),
            final(self).view() == old(self).view().remove(p@),
    {
        match self.position(p) {
            Some(i) => {
                let ghost before = self.keys();
                let _gone = self.active.remove(i);
                assert(self.keys() =~= before.remove(i as int));
                proof {
                    lemma_remove_unique(before, i as int);
                }
                true
            },
            None => {
                assert(old(self).view().remove(p@) =~= old(self).view());
                false
            },
        }
    }

    /// Applies one message: for a discovered path that is not held, holds it
    /// and returns it as the path to start a worker for; for a discovered
    /// path already held, does nothing; for a finished path, stops holding it.
    pub fn handle(&mut self, msg: Intake) -> (r: Option<RelPath>)
        requires
            old(self).wf(),
        ensures
            final(self).wf(),
            final(self).view() == step(old(self).view(), msg@).0,
            r.is_some() == step(old(self).view(), msg@).1.is_some(),
            r matches Some(q) ==> Some(q@) == step(old(self).view(), msg@).1,
    {
        match msg {
            Intake::Discovered(p) => {
                let q = p.duplicate();
                if self.take_in(p) {
                    Some(q)
                } else {
                    None
                }
            },
            Intake::Finished(p) => {
                let _was_held = self.release(&p);
                None
            },
        }
    }
}

/// How a run treats one path whose relocation is never reported as ended:
/// it is held at the end exactly when it was held before or was discovered,
/// and a worker is started for it once if it was not held and was
/// discovered, otherwise never.
pub proof fn lemma_run_one_path(held: Set<Seq<Seq<u8>>>, msgs: Seq<IntakeView>, p: Seq<Seq<u8>>)
    requires
        !finishes(msgs, p),
    ensures
        run(held, msgs).0.contains(p) == (held.contains(p) || discovers(msgs, p)),
        occurrences(run(held, msgs).1, p) == (if !held.contains(p) && discovers(msgs, p) { 1nat } else { 0nat }),
    decreases msgs.len(),
{
    if msgs.len() > 0 {
        let m = msgs.drop_last();
        let last = msgs.last();
        assert(!finishes(m, p)) by {
            if finishes(m, p) {
                let i = choose|i: int| 0 <= i < m.len() && m[i] == IntakeView::Finished(p);
                assert(msgs[i] == IntakeView::Finished(p));
            }
        }
        lemma_run_one_path(held, m, p);
        assert(discovers(msgs, p) == (discovers(m, p) || last == IntakeView::Discovered(p))) by {
            if discovers(m, p) {
                let i = choose|i: int| 0 <= i < m.len() && m[i] == IntakeView::Discovered(p);
                assert(msgs[i] == IntakeView::Discovered(p));
            }
            if last == IntakeView::Discovered(p) {
                assert(msgs[msgs.len() - 1] == IntakeView::Discovered(p));
            }
            if discovers(msgs, p) {
                let i = choose|i: int| 0 <= i < msgs.len() && msgs[i] == IntakeView::Discovered(p);
                if i < msgs.len() - 1 {
                    assert(m[i] == IntakeView::Discovered(p));
                }
            }
        }
        assert(last != IntakeView::Finished(p)) by {
            if last == IntakeView::Finished(p) {
                assert(msgs[msgs.len() - 1] == IntakeView::Finished(p));
            }
        }
        let (t, started) = run(held, m);
        match step(t, last).1 {
            Some(q) => {
                assert(started.push(q).drop_last() =~= started);
            },
            None => {},
        }
    }
}

/// However many times a path is discovered before its relocation is
/// reported as ended, exactly one worker is started for it, provided it was
/// not held when the messages began.
pub proof fn lemma_one_worker_per_path(held: Set<Seq<Seq<u8>>>, msgs: Seq<IntakeView>, p: Seq<Seq<u8>>)
    requires
        !held.contains(p),
        discovers(msgs, p),
        !finishes(msgs, p),
    ensures
        occurrences(run(held, msgs).1, p) == 1,
{
    lemma_run_one_path(held, msgs, p);
}

/// Taking an element out of a sequence without duplicates takes exactly
/// that element out of its set, and leaves no duplicates.
proof fn lemma_remove_unique(s: Seq<Seq<Seq<u8>>>, i: int)
    requires
        s.no_duplicates(),
        0 <= i < s.len(),
    ensures
        s.remove(i).no_duplicates(),
        s.remove(i).to_set() == s.to_set().remove(s[i]),
{
    let t = s.remove(i);
    assert forall|x| t.to_set().contains(x) <==> s.to_set().remove(s[i]).contains(x) by {
        if t.to_set().contains(x) {
            let k = choose|k: int| 0 <= k < t.len() && t[k] == x;
            if k < i {
                assert(s[k] == x);
            } else {
                assert(s[k + 1] == x);
            }
        }
        if s.to_set().remove(s[i]).contains(x) {
            let k = choose|k: int| 0 <= k < s.len() && s[k] == x;
            assert(k != i);
            if k < i {
                assert(t[k] == x);
            } else {
                assert(t[k - 1] == x);
            }
        }
    }
    assert(t.to_set() =~= s.to_set().remove(s[i]));
}

} // verus!
