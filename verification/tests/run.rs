use loom::run::{CheckVerdict, ReificationRun, RunStatus, Verdict};

fn verdict(check: &str, verdict: Verdict) -> CheckVerdict {
    CheckVerdict { check: check.into(), verdict, detail: String::new() }
}

#[test]
fn passing_run_completes() {
    let mut run = ReificationRun::start("r1".into(), "intent-1".into());
    assert_eq!(run.status, RunStatus::Running);
    run.record(verdict("completeness", Verdict::Pass));
    run.record(verdict("tokens", Verdict::Pass));
    let run = run.complete();
    assert_eq!(run.status, RunStatus::Completed);
    assert_eq!(run.verdicts.len(), 2);
    assert_eq!(run.run_id, "r1");
}

#[test]
fn any_non_pass_fails_the_run_for_good() {
    let mut run = ReificationRun::start("r2".into(), "intent-2".into());
    run.record(verdict("tokens", Verdict::Incoherence));
    assert_eq!(run.status, RunStatus::Failed);
    run.record(verdict("motion", Verdict::Pass));
    assert_eq!(run.status, RunStatus::Failed);
    let run = run.complete();
    assert_eq!(run.status, RunStatus::Failed);
    assert_eq!(run.verdicts[0].check, "tokens");
}

#[test]
fn a_failed_check_fails_the_run() {
    let mut run = ReificationRun::start("r3".into(), "intent-3".into());
    run.record(verdict("contrast", Verdict::Fail));
    assert_eq!(run.complete().status, RunStatus::Failed);
}
