//! The steps of one relocation: make the destination's directories, copy
//! the file, then delete the source.
//!
//! A `Relocation` says which filesystem action comes next; the caller
//! performs it and reports whether it succeeded. A failed step ends the
//! relocation: nothing that follows it is attempted.
use vstd::prelude::*;
use crate::path::{create_dest_path_from_relative, AbsPath, RelPath};

verus! {

/// How a relocation ended.
#[derive(Clone, Copy, Debug, PartialEq, Eq, Structural)]
pub enum Outcome {
    /// The file was copied and its source deleted.
    Moved,
    /// The destination's directories could not be made; nothing was copied.
    DirsFailed,
    /// The copy failed; the source was left in place.
    CopyFailed,
    /// The copy succeeded but the source could not be deleted.
    RemoveFailed,
}

/// Where a relocation stands.
#[derive(Clone, Copy, Debug, PartialEq, Eq, Structural)]
pub enum Stage {
    MakingDirs,
    Copying,
    Removing,
    Done(Outcome),
}

/// The next filesystem action of a relocation.
#[derive(Debug)]
pub enum Action {
    /// Make this directory and every missing ancestor.
    CreateDirs(AbsPath),
    /// Copy the file at the first path to the second.
    Copy(AbsPath, AbsPath),
    /// Delete this file.
    Remove(AbsPath),
    /// Nothing more to do.
    Finish(Outcome),
}

/// The stage that follows `s` once its action is reported as succeeded
/// or failed. An ended relocation stays ended.
pub open spec fn next_stage(s: Stage, succeeded: bool) -> Stage {
    match s {
        Stage::MakingDirs => if succeeded { Stage::Copying } else { Stage::Done(Outcome::DirsFailed) },
        Stage::Copying => if succeeded { Stage::Removing } else { Stage::Done(Outcome::CopyFailed) },
        Stage::Removing => if succeeded { Stage::Done(Outcome::Moved) } else { Stage::Done(Outcome::RemoveFailed) },
        Stage::Done(o) => Stage::Done(o),
    }
}

/// The stage of a relocation after the outcomes `reports`, in order, from
/// its start.
pub open spec fn stage_after(reports: Seq<bool>) -> Stage
    decreases reports.len(),
{
    if reports.len() == 0 {
        Stage::MakingDirs
    } else {
        next_stage(stage_after(reports.drop_last()), reports.last())
    }
}

/// The order of a relocation's steps. The copy is reached only once the
/// destination's directories were made, and the deletion of the source only
/// once the copy succeeded as well. A failed step ends the relocation with
/// the outcome of that step, whatever is reported afterwards: in particular
/// a failed copy never leads to the deletion of the source.
pub proof fn lemma_step_order(reports: Seq<bool>)
    ensures
        stage_after(reports) == Stage::Copying <==> reports == seq![true],
        stage_after(reports) == Stage::Removing <==> reports == seq![true, true],
        reports.len() >= 1 && !reports[0] ==> stage_after(reports) == Stage::Done(Outcome::DirsFailed),
        reports.len() >= 2 && reports[0] && !reports[1] ==> stage_after(reports) == Stage::Done(Outcome::CopyFailed),
    decreases reports.len(),
{
    if reports.len() > 0 {
        let m = reports.drop_last();
        lemma_step_order(m);
        if m.len() >= 1 {
            assert(m[0] == reports[0]);
        }
        if m.len() >= 2 {
            assert(m[1] == reports[1]);
        }
        if m.len() == 0 {
            assert(reports == seq![reports[0]]);
        }
        if m.len() == 1 {
            assert(reports == seq![reports[0], reports[1]]);
            if m[0] {
                assert(m =~= seq![true]);
            }
        }
        if reports == seq![true] {
            assert(m =~= Seq::<bool>::empty());
        }
        if reports == seq![true, true] {
            assert(m =~= seq![true]);
        }
    }
}

/// One relocation of the file at `source` to `dest`.
pub struct Relocation {
    source: AbsPath,
    dest: AbsPath,
    stage: Stage,
}

impl Relocation {
    pub closed spec fn source(&self) -> Seq<Seq<u8>> {
        self.source@
    }

    pub closed spec fn dest(&self) -> Seq<Seq<u8>> {
        self.dest@
    }

    pub closed spec fn stage(&self) -> Stage {
        self.stage
    }

    /// The relocation of `rel` from under `watch_root` to the same place
    /// under `dest_root`, not yet started.
    pub fn new(watch_root: &AbsPath, dest_root: &AbsPath, rel: &RelPath) -> (r: Relocation)
        requires
            rel@.len() > 0,
        ensures
            r.source() == watch_root@ + rel@,
            r.dest() == dest_root@ + rel@,
            r.stage() == Stage::MakingDirs,
    {
        Relocation {
            source: create_dest_path_from_relative(rel, watch_root),
            dest: create_dest_path_from_relative(rel, dest_root),
            stage: Stage::MakingDirs,
        }
    }

    /// Where the relocation stands.
    pub fn current_stage(&self) -> (r: Stage)
        ensures
            r == self.stage(),
    {
        self.stage
    }

    /// The action that the current stage calls for: the destination's
    /// directory first, then the copy, then the deletion of the source.
    pub fn action(&self) -> (r: Action)
        requires
            self.dest().len() > 0,
        ensures
            self.stage() == Stage::MakingDirs ==> (r matches Action::CreateDirs(d) && d@ == self.dest().drop_last()),
            self.stage() == Stage::Copying ==> (r matches Action::Copy(a, b) && a@ == self.source() && b@ == self.dest()),
            self.stage() == Stage::Removing ==> (r matches Action::Remove(a) && a@ == self.source()),
            self.stage() matches Stage::Done(o) ==> r == Action::Finish(o),
    {
        match self.stage {
            Stage::MakingDirs => {
                match self.dest.parent() {
                    Some(d) => Action::CreateDirs(d),
                    None => Action::Finish(Outcome::DirsFailed),
                }
            },
            Stage::Copying => Action::Copy(self.source.duplicate(), self.dest.duplicate()),
            Stage::Removing => Action::Remove(self.source.duplicate()),
            Stage::Done(o) => Action::Finish(o),
        }
    }

    /// Records whether the current action succeeded, and moves on.
    pub fn report(&mut self, succeeded: bool)
        requires
            !(old(self).stage() is Done),
        ensures
            final(self).stage() == next_stage(old(self).stage(), succeeded),
            final(self).source() == old(self).source(),
            final(self).dest() == old(self).dest(),
    {
        self.stage = match self.stage {
            Stage::MakingDirs => if succeeded { Stage::Copying } else { Stage::Done(Outcome::DirsFailed) },
            Stage::Copying => if succeeded { Stage::Removing } else { Stage::Done(Outcome::CopyFailed) },
            Stage::Removing => if succeeded { Stage::Done(Outcome::Moved) } else { Stage::Done(Outcome::RemoveFailed) },
            Stage::Done(o) => Stage::Done(o),
        };
    }
}

} // verus!
