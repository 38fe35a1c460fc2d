use gstack::state::GsState;
use gstack::sync::{publish_decision, PublishDecision, SyncAction, SyncError, SyncEvent, SyncPhase, SyncRun};

fn s(x: &str) -> String {
    x.to_string()
}

fn stack3() -> GsState {
    let mut st = GsState::new();
    st.new_stack(s("f"), &s("a"), s("main")).unwrap();
    st.add_to_stack(&s("f/a"), &s("b")).unwrap();
    st.add_to_stack(&s("f/b"), &s("c")).unwrap();
    st
}

/// Runs a sync to its end; `tips` gives the remote tip seen for each branch.
fn drive(run: &mut SyncRun, tips: &dyn Fn(&str) -> Option<String>, fail_rebase: Option<&str>, fail_push: bool) -> Vec<String> {
    let mut log = Vec::new();
    loop {
        match run.action() {
            SyncAction::Pull { branch } => {
                log.push(format!("pull {branch}"));
                run.advance(SyncEvent::Failed);
            }
            SyncAction::Rebase { branch, onto } => {
                log.push(format!("rebase {branch} {onto}"));
                if fail_rebase == Some(branch.as_str()) {
                    run.advance(SyncEvent::Failed);
                } else {
                    run.advance(SyncEvent::Succeeded);
                }
            }
            SyncAction::ReadTips { branch } => {
                log.push(format!("tips {branch}"));
                run.advance(SyncEvent::Tips { local: format!("L-{branch}"), remote: tips(&branch) });
            }
            SyncAction::Push { branch, lease } => {
                log.push(format!("push {branch} {lease:?}"));
                run.advance(if fail_push { SyncEvent::Failed } else { SyncEvent::Succeeded });
            }
            SyncAction::Restore { branch } => {
                log.push(format!("restore {branch}"));
                run.advance(SyncEvent::Succeeded);
            }
            SyncAction::Finished => {
                log.push(s("finished"));
                return log;
            }
            SyncAction::Failed { error } => {
                log.push(format!("failed {error:?}"));
                return log;
            }
        }
    }
}

#[test]
fn publish_decisions() {
    assert!(matches!(publish_decision(&s("x"), &None), PublishDecision::Create));
    assert!(matches!(publish_decision(&s("x"), &Some(s("x"))), PublishDecision::UpToDate));
    match publish_decision(&s("x"), &Some(s("y"))) {
        PublishDecision::ForceWithLease { expected } => assert_eq!(expected, "y"),
        _ => panic!("expected a guarded force push"),
    }
}

#[test]
fn sync_rebases_bottom_first_and_publishes() {
    let st = stack3();
    let mut run = SyncRun::new(&st.stacks[0], s("f/b"));
    let log = drive(&mut run, &|b: &str| if b == "f/a" { None } else { Some(format!("R-{b}")) }, None, false);
    assert_eq!(
        log,
        vec![
            "pull f/a", "pull f/b", "pull f/c",
            "rebase f/a main", "tips f/a", "push f/a None",
            "rebase f/b f/a", "tips f/b", "push f/b Some(\"R-f/b\")",
            "rebase f/c f/b", "tips f/c", "push f/c Some(\"R-f/c\")",
            "restore f/b", "finished",
        ]
    );
    assert_eq!(run.phase, SyncPhase::Done);
}

#[test]
fn second_sync_without_changes_pushes_nothing() {
    let st = stack3();
    let mut run = SyncRun::new(&st.stacks[0], s("f/c"));
    let log = drive(&mut run, &|b: &str| Some(format!("L-{b}")), None, false);
    assert!(log.iter().all(|l| !l.starts_with("push")));
    assert_eq!(log.last().unwrap(), "finished");
}

#[test]
fn rebase_conflict_stops_on_the_branch() {
    let st = stack3();
    let mut run = SyncRun::new(&st.stacks[0], s("f/c"));
    let log = drive(&mut run, &|_: &str| None, Some("f/b"), false);
    assert_eq!(log.last().unwrap(), &format!("failed {:?}", SyncError::RebaseFailed { index: 1 }));
    assert!(log.iter().all(|l| !l.starts_with("restore")));
}

#[test]
fn rejected_push_restores_then_fails() {
    let st = stack3();
    let mut run = SyncRun::new(&st.stacks[0], s("main"));
    let log = drive(&mut run, &|_: &str| Some(s("other")), None, true);
    let n = log.len();
    assert_eq!(log[n - 2], "restore main");
    assert_eq!(log[n - 1], format!("failed {:?}", SyncError::PublishRejected { index: 0 }));
}

#[test]
fn unreadable_tips_restore_then_fail() {
    let st = stack3();
    let mut run = SyncRun::new(&st.stacks[0], s("main"));
    for _ in 0..3 {
        run.advance(SyncEvent::Succeeded);
    }
    assert!(matches!(run.action(), SyncAction::Rebase { .. }));
    run.advance(SyncEvent::Succeeded);
    assert!(matches!(run.action(), SyncAction::ReadTips { .. }));
    run.advance(SyncEvent::Failed);
    match run.action() {
        SyncAction::Restore { branch } => assert_eq!(branch, "main"),
        _ => panic!("expected the checkout to be restored"),
    }
    run.advance(SyncEvent::Failed);
    assert!(matches!(run.action(), SyncAction::Failed { error: SyncError::TipsUnreadable { index: 0 } }));
}

#[test]
fn failed_restore_is_reported() {
    let mut st = GsState::new();
    st.new_stack(s("f"), &s("a"), s("main")).unwrap();
    let mut run = SyncRun::new(&st.stacks[0], s("main"));
    run.advance(SyncEvent::Succeeded); // pull
    run.advance(SyncEvent::Succeeded); // rebase
    run.advance(SyncEvent::Tips { local: s("x"), remote: Some(s("x")) });
    assert!(matches!(run.action(), SyncAction::Restore { .. }));
    run.advance(SyncEvent::Failed);
    assert!(matches!(run.action(), SyncAction::Failed { error: SyncError::RestoreFailed }));
}
