//! A reification run over one intent: every check verdict is appended as it
//! is produced, and any verdict other than a pass fails the run.
use vstd::prelude::*;

verus! {

/// The lifecycle status of a run.
#[derive(Debug, Clone, Copy, PartialEq, Eq, Structural)]
pub enum RunStatus {
    Running,
    Completed,
    Failed,
}

/// An oracle's verdict.
#[derive(Debug, Clone, Copy, PartialEq, Eq, Structural)]
pub enum Verdict {
    Pass,
    Fail,
    Incoherence,
}

/// One oracle verdict, appended to the run as it is produced.
#[derive(Debug, Clone, PartialEq, Eq)]
pub struct CheckVerdict {
    pub check: String,
    pub verdict: Verdict,
    pub detail: String,
}

/// A reification run over one canonical intent.
#[derive(Debug, Clone, PartialEq, Eq)]
pub struct ReificationRun {
    pub run_id: String,
    pub intent_id: String,
    pub status: RunStatus,
    pub verdicts: Vec<CheckVerdict>,
}

/// Why a run could not be recorded.
#[derive(Debug, Clone, PartialEq, Eq)]
pub enum RunError {
    /// The run graph write failed.
    Graph(String),
}

/// The status a sequence of verdicts leaves a run in: failed as soon as
/// one verdict is not a pass, running otherwise.
pub open spec fn status_after(start: RunStatus, verdicts: Seq<CheckVerdict>) -> RunStatus
    decreases verdicts.len(),
{
    if verdicts.len() == 0 {
        start
    } else if verdicts.last().verdict != Verdict::Pass {
        RunStatus::Failed
    } else {
        status_after(start, verdicts.drop_last())
    }
}

impl ReificationRun {
    /// Start a run: running, with no verdicts.
    pub fn start(run_id: String, intent_id: String) -> (r: Self)
        ensures
            r.run_id == run_id,
            r.intent_id == intent_id,
            r.status == RunStatus::Running,
            r.verdicts@.len() == 0,
    {
        ReificationRun { run_id, intent_id, status: RunStatus::Running, verdicts: Vec::new() }
    }

    /// Append a verdict as produced. Any verdict other than a pass — a
    /// failure or an incoherence — fails the run.
    pub fn record(&mut self, verdict: CheckVerdict)
        ensures
            final(self).verdicts@ == old(self).verdicts@.push(verdict),
            final(self).run_id == old(self).run_id,
            final(self).intent_id == old(self).intent_id,
            final(self).status == if verdict.verdict != Verdict::Pass {
                RunStatus::Failed
            } else {
                old(self).status
            },
    {
        if verdict.verdict != Verdict::Pass {
            self.status = RunStatus::Failed;
        }
        self.verdicts.push(verdict);
    }

    /// Complete the run: a running run completes; a failed one stays failed.
    pub fn complete(self) -> (r: Self)
        ensures
            r.run_id == self.run_id,
            r.intent_id == self.intent_id,
            r.verdicts@ == self.verdicts@,
            r.status == if self.status == RunStatus::Running {
                RunStatus::Completed
            } else {
                self.status
            },
    {
        let mut s = self;
        if s.status == RunStatus::Running {
            s.status = RunStatus::Completed;
        }
        s
    }
}

/// A started run that records a sequence of verdicts stands in the status
/// those verdicts give: failed exactly when one of them is not a pass.
pub proof fn lemma_status_is_any_non_pass(verdicts: Seq<CheckVerdict>)
    ensures
        (status_after(RunStatus::Running, verdicts) == RunStatus::Failed) <==> exists|i: int|
            0 <= i < verdicts.len() && (#[trigger] verdicts[i]).verdict != Verdict::Pass,
        status_after(RunStatus::Running, verdicts) != RunStatus::Failed ==> status_after(
            RunStatus::Running,
            verdicts,
        ) == RunStatus::Running,
    decreases verdicts.len(),
{
    if verdicts.len() > 0 {
        lemma_status_is_any_non_pass(verdicts.drop_last());
        if verdicts.last().verdict == Verdict::Pass {
            assert forall|i: int| 0 <= i < verdicts.drop_last().len() implies verdicts.drop_last()[i]
                == verdicts[i] by {}
            if exists|i: int| 0 <= i < verdicts.len() && (#[trigger] verdicts[i]).verdict != Verdict::Pass {
                let i = choose|i: int|
                    0 <= i < verdicts.len() && (#[trigger] verdicts[i]).verdict != Verdict::Pass;
                assert(verdicts.drop_last()[i].verdict != Verdict::Pass);
            }
        }
    }
}

/// Recording a verdict leaves the run in the status the whole sequence of
/// verdicts gives; a failed run stays failed, whatever is recorded or
/// completed after.
pub proof fn lemma_record_follows_status(old_run: ReificationRun, verdict: CheckVerdict, new_status: RunStatus)
    requires
        old_run.status == status_after(RunStatus::Running, old_run.verdicts@),
        new_status == (if verdict.verdict != Verdict::Pass {
            RunStatus::Failed
        } else {
            old_run.status
        }),
    ensures
        new_status == status_after(RunStatus::Running, old_run.verdicts@.push(verdict)),
        old_run.status == RunStatus::Failed ==> new_status == RunStatus::Failed,
{
    assert(old_run.verdicts@.push(verdict).drop_last() =~= old_run.verdicts@);
}

} // verus!
