//! The steps of an atomic file write: write a sibling temporary file,
//! flush and sync it, rename it over the target, then sync the directory.
//! The library decides each next step from the outcome of the previous
//! one; the caller performs the file operations.

use vstd::prelude::*;

verus! {

/// Where an atomic write stands.
#[derive(Debug, Clone, Copy, PartialEq, Eq)]
pub enum WriteStage {
    /// Nothing done yet; the temporary file is created next.
    Start,
    /// The temporary file exists; the data is written next.
    Created,
    /// The data is written; the writer is flushed next.
    Written,
    /// The writer is flushed; the file is synced next.
    Flushed,
    /// The file is synced; it is renamed over the target next.
    Synced,
    /// The rename failed; the temporary file is removed next.
    RenameFailed,
    /// The rename succeeded; the directory is synced next.
    Renamed,
    /// The write is over.
    Finished,
}

/// The step that failed when an atomic write fails.
#[derive(Debug, Clone, Copy, PartialEq, Eq)]
pub enum WriteFailure {
    CreateTemp,
    Write,
    Flush,
    Sync,
    Rename,
}

/// What the caller does next.
#[derive(Debug, Clone, Copy, PartialEq, Eq)]
pub enum WriteAction {
    /// Create (or truncate) the temporary file.
    CreateTemp,
    /// Write all the data to it.
    WriteData,
    /// Flush the buffered writer.
    Flush,
    /// Sync the temporary file to disk.
    SyncFile,
    /// Rename the temporary file over the target.
    RenameOverTarget,
    /// Remove the temporary file; its outcome does not matter.
    RemoveTemp,
    /// Open and sync the directory; its outcome does not matter.
    SyncDir,
    /// Stop: the write succeeded (`Ok`) or failed at the given step.
    Finish(Result<(), WriteFailure>),
}

/// The stage that follows `stage` when its step succeeded (`ok`) or not.
pub open spec fn next_stage(stage: WriteStage, ok: bool) -> WriteStage {
    match stage {
        WriteStage::Start => if ok {
            WriteStage::Created
        } else {
            WriteStage::Finished
        },
        WriteStage::Created => if ok {
            WriteStage::Written
        } else {
            WriteStage::Finished
        },
        WriteStage::Written => if ok {
            WriteStage::Flushed
        } else {
            WriteStage::Finished
        },
        WriteStage::Flushed => if ok {
            WriteStage::Synced
        } else {
            WriteStage::Finished
        },
        WriteStage::Synced => if ok {
            WriteStage::Renamed
        } else {
            WriteStage::RenameFailed
        },
        WriteStage::RenameFailed => WriteStage::Finished,
        WriteStage::Renamed => WriteStage::Finished,
        WriteStage::Finished => WriteStage::Finished,
    }
}

/// The outcome once the step of `stage` came back `ok` or not, if the
/// write ends there.
pub open spec fn outcome_after(stage: WriteStage, ok: bool) -> Option<Result<(), WriteFailure>> {
    match stage {
        WriteStage::Start => if ok {
            None
        } else {
            Some(Err(WriteFailure::CreateTemp))
        },
        WriteStage::Created => if ok {
            None
        } else {
            Some(Err(WriteFailure::Write))
        },
        WriteStage::Written => if ok {
            None
        } else {
            Some(Err(WriteFailure::Flush))
        },
        WriteStage::Flushed => if ok {
            None
        } else {
            Some(Err(WriteFailure::Sync))
        },
        WriteStage::Synced => None,
        WriteStage::RenameFailed => Some(Err(WriteFailure::Rename)),
        WriteStage::Renamed => Some(Ok(())),
        WriteStage::Finished => None,
    }
}

/// The action that performs the step of `stage`.
pub open spec fn stage_action(stage: WriteStage) -> WriteAction {
    match stage {
        WriteStage::Start => WriteAction::CreateTemp,
        WriteStage::Created => WriteAction::WriteData,
        WriteStage::Written => WriteAction::Flush,
        WriteStage::Flushed => WriteAction::SyncFile,
        WriteStage::Synced => WriteAction::RenameOverTarget,
        WriteStage::RenameFailed => WriteAction::RemoveTemp,
        WriteStage::Renamed => WriteAction::SyncDir,
        WriteStage::Finished => WriteAction::Finish(Err(WriteFailure::CreateTemp)),
    }
}

/// An atomic write of one file: the directory that holds it (synced after
/// the rename), its target and the temporary file beside it (the target's
/// path with `.tmp` appended).
pub struct AtomicWrite {
    pub dir: String,
    pub target: String,
    pub temp: String,
    pub stage: WriteStage,
    pub outcome: Option<Result<(), WriteFailure>>,
}

/// The temporary path of a write: the target's own path with `.tmp`
/// appended, so that it lies in the same directory as the target.
pub open spec fn temp_path(target: Seq<char>) -> Seq<char> {
    target + ".tmp"@
}

impl AtomicWrite {
    /// Plans the atomic write of `target`, a file in `dir`.
    pub fn new(dir: String, target: String) -> (w: AtomicWrite)
        ensures
            w.dir@ == dir@,
            w.target@ == target@,
            w.temp@ == temp_path(target@),
            w.stage == WriteStage::Start,
            w.outcome is None,
    {
        let mut temp = String::from_str(target.as_str());
        temp.append(".tmp");
        AtomicWrite { dir, target, temp, stage: WriteStage::Start, outcome: None }
    }

    /// The next thing to do.
    pub fn action(&self) -> (a: WriteAction)
        ensures
            a == (match self.outcome {
                Some(r) => WriteAction::Finish(r),
                None => stage_action(self.stage),
            }),
    {
        match self.outcome {
            Some(r) => WriteAction::Finish(r),
            None => match self.stage {
                WriteStage::Start => WriteAction::CreateTemp,
                WriteStage::Created => WriteAction::WriteData,
                WriteStage::Written => WriteAction::Flush,
                WriteStage::Flushed => WriteAction::SyncFile,
                WriteStage::Synced => WriteAction::RenameOverTarget,
                WriteStage::RenameFailed => WriteAction::RemoveTemp,
                WriteStage::Renamed => WriteAction::SyncDir,
                WriteStage::Finished => WriteAction::Finish(Err(WriteFailure::CreateTemp)),
            },
        }
    }

    /// Records whether the last action succeeded.
    pub fn record(&mut self, ok: bool)
        ensures
            old(self).outcome is Some ==> final(self).outcome == old(self).outcome
                && final(self).stage == old(self).stage,
            old(self).outcome is None ==> final(self).stage == next_stage(old(self).stage, ok)
                && final(self).outcome == outcome_after(old(self).stage, ok),
            final(self).dir == old(self).dir,
            final(self).target == old(self).target,
            final(self).temp == old(self).temp,
    {
        if self.outcome.is_some() {
            return;
        }
        let (stage, outcome) = match self.stage {
            WriteStage::Start => if ok {
                (WriteStage::Created, None)
            } else {
                (WriteStage::Finished, Some(Err(WriteFailure::CreateTemp)))
            },
            WriteStage::Created => if ok {
                (WriteStage::Written, None)
            } else {
                (WriteStage::Finished, Some(Err(WriteFailure::Write)))
            },
            WriteStage::Written => if ok {
                (WriteStage::Flushed, None)
            } else {
                (WriteStage::Finished, Some(Err(WriteFailure::Flush)))
            },
            WriteStage::Flushed => if ok {
                (WriteStage::Synced, None)
            } else {
                (WriteStage::Finished, Some(Err(WriteFailure::Sync)))
            },
            WriteStage::Synced => if ok {
                (WriteStage::Renamed, None)
            } else {
                (WriteStage::RenameFailed, None)
            },
            WriteStage::RenameFailed => (WriteStage::Finished, Some(Err(WriteFailure::Rename))),
            WriteStage::Renamed => (WriteStage::Finished, Some(Ok(()))),
            WriteStage::Finished => (WriteStage::Finished, None),
        };
        self.stage = stage;
        self.outcome = outcome;
    }
}

/// The stage reached and the outcome after a run of step results, from
/// `stage` with no outcome yet.
pub open spec fn run(stage: WriteStage, results: Seq<bool>) -> (WriteStage, Option<
    Result<(), WriteFailure>,
>)
    decreases results.len(),
{
    if results.len() == 0 {
        (stage, None)
    } else {
        match outcome_after(stage, results[0]) {
            Some(r) => (next_stage(stage, results[0]), Some(r)),
            None => run(next_stage(stage, results[0]), results.drop_first()),
        }
    }
}

/// The actions taken, in order, for a run of step results.
pub open spec fn actions(stage: WriteStage, results: Seq<bool>) -> Seq<WriteAction>
    decreases results.len(),
{
    if results.len() == 0 {
        seq![]
    } else {
        match outcome_after(stage, results[0]) {
            Some(r) => seq![stage_action(stage)],
            None => seq![stage_action(stage)] + actions(
                next_stage(stage, results[0]),
                results.drop_first(),
            ),
        }
    }
}

/// Law: a write succeeds exactly when the temporary file was created,
/// written, flushed and synced and the rename over the target succeeded;
/// whatever the directory sync gives. Any earlier failure fails the write
/// with the step that failed.
pub proof fn lemma_write_succeeds_iff_all_steps_do(results: Seq<bool>)
    requires
        results.len() >= 6,
    ensures
        run(WriteStage::Start, results).1 == Some(Ok::<(), WriteFailure>(())) <==> (results[0]
            && results[1] && results[2] && results[3] && results[4]),
        run(WriteStage::Start, results).1 is Some,
{
    reveal_with_fuel(run, 7);
    let r1 = results.drop_first();
    let r2 = r1.drop_first();
    let r3 = r2.drop_first();
    let r4 = r3.drop_first();
    let r5 = r4.drop_first();
    assert(r1 =~= results.skip(1));
    assert(r2 =~= results.skip(2));
    assert(r3 =~= results.skip(3));
    assert(r4 =~= results.skip(4));
    assert(r5 =~= results.skip(5));
}

/// Law: the target is touched only by the rename, and the rename is
/// issued only once the temporary file was created, written, flushed and
/// synced without error.
pub proof fn lemma_rename_only_after_sync(results: Seq<bool>, i: int)
    requires
        0 <= i < actions(WriteStage::Start, results).len(),
        actions(WriteStage::Start, results)[i] == WriteAction::RenameOverTarget,
    ensures
        i == 4,
        results[0] && results[1] && results[2] && results[3],
{
    let r1 = results.drop_first();
    let r2 = r1.drop_first();
    let r3 = r2.drop_first();
    let r4 = r3.drop_first();
    let r5 = r4.drop_first();
    reveal_with_fuel(actions, 7);
    assert(r1 =~= results.skip(1));
    assert(r2 =~= results.skip(2));
    assert(r3 =~= results.skip(3));
    assert(r4 =~= results.skip(4));
    assert(r5 =~= results.skip(5));
    assert(r1.len() > 0 ==> r1[0] == results[1]);
    assert(r2.len() > 0 ==> r2[0] == results[2]);
    assert(r3.len() > 0 ==> r3[0] == results[3]);
    assert(r4.len() > 0 ==> r4[0] == results[4]);
    assert(r5.len() > 0 ==> r5[0] == results[5]);
    let a = actions(WriteStage::Start, results);
    if results.len() > 0 && results[0] {
        if r1.len() > 0 && r1[0] {
            if r2.len() > 0 && r2[0] {
                if r3.len() > 0 && r3[0] {
                    if r4.len() > 0 {
                        if r4[0] {
                            if r5.len() > 0 {
                                assert(a =~= seq![WriteAction::CreateTemp, WriteAction::WriteData, WriteAction::Flush, WriteAction::SyncFile, WriteAction::RenameOverTarget, WriteAction::SyncDir]);
                            } else {
                                assert(a =~= seq![WriteAction::CreateTemp, WriteAction::WriteData, WriteAction::Flush, WriteAction::SyncFile, WriteAction::RenameOverTarget]);
                            }
                        } else {
                            if r5.len() > 0 {
                                assert(a =~= seq![WriteAction::CreateTemp, WriteAction::WriteData, WriteAction::Flush, WriteAction::SyncFile, WriteAction::RenameOverTarget, WriteAction::RemoveTemp]);
                            } else {
                                assert(a =~= seq![WriteAction::CreateTemp, WriteAction::WriteData, WriteAction::Flush, WriteAction::SyncFile, WriteAction::RenameOverTarget]);
                            }
                        }
                    } else {
                        assert(a =~= seq![WriteAction::CreateTemp, WriteAction::WriteData, WriteAction::Flush, WriteAction::SyncFile]);
                    }
                } else if r3.len() > 0 {
                    assert(a =~= seq![WriteAction::CreateTemp, WriteAction::WriteData, WriteAction::Flush, WriteAction::SyncFile]);
                } else {
                    assert(a =~= seq![WriteAction::CreateTemp, WriteAction::WriteData, WriteAction::Flush]);
                }
            } else if r2.len() > 0 {
                assert(a =~= seq![WriteAction::CreateTemp, WriteAction::WriteData, WriteAction::Flush]);
            } else {
                assert(a =~= seq![WriteAction::CreateTemp, WriteAction::WriteData]);
            }
        } else if r1.len() > 0 {
            assert(a =~= seq![WriteAction::CreateTemp, WriteAction::WriteData]);
        } else {
            assert(a =~= seq![WriteAction::CreateTemp]);
        }
    } else if results.len() > 0 {
        assert(a =~= seq![WriteAction::CreateTemp]);
    }
}

} // verus!
