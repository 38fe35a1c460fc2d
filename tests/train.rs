use gstack::state::GsState;
use gstack::train::{MergeTrain, TrainAction, TrainError, TrainEvent, TrainPhase};

fn s(x: &str) -> String {
    x.to_string()
}

fn registry() -> GsState {
    let mut st = GsState::new();
    st.new_stack(s("f"), &s("a"), s("main")).unwrap();
    st.add_to_stack(&s("f/a"), &s("b")).unwrap();
    st.add_to_stack(&s("f/b"), &s("c")).unwrap();
    st
}

fn run(train: &mut MergeTrain, st: &mut GsState, fail_at: Option<usize>) -> (Vec<String>, Option<TrainError>) {
    let mut log = Vec::new();
    let mut current = s("f/a");
    let mut step = 0;
    loop {
        let act = train.action();
        let ev = if fail_at == Some(step) { TrainEvent::Failed } else { TrainEvent::Succeeded };
        step += 1;
        match act {
            TrainAction::Retarget { pull, base } => log.push(format!("retarget {pull} {base}")),
            TrainAction::Sync => log.push(s("sync")),
            TrainAction::Merge { pull } => log.push(format!("merge {pull}")),
            TrainAction::Settle => log.push(s("settle")),
            TrainAction::Retire { branch } => {
                if let Some(b) = branch {
                    if ev == TrainEvent::Succeeded {
                        if let Some(to) = st.remove_branch(&b, &current) {
                            current = to;
                        }
                    }
                    log.push(format!("retire {b}"));
                }
            }
            TrainAction::Finished => return (log, None),
            TrainAction::Stopped { error } => return (log, Some(error)),
        }
        train.advance(ev);
    }
}

#[test]
fn train_of_three_merges_in_order_and_drops_the_stack() {
    let mut st = registry();
    let mut train = MergeTrain::new(s("main"), vec![1, 2, 3], vec![Some(s("f/a")), Some(s("f/b")), Some(s("f/c"))]);
    let (log, err) = run(&mut train, &mut st, None);
    assert_eq!(err, None);
    assert_eq!(
        log,
        vec![
            "retarget 1 main", "sync", "merge 1", "settle", "retire f/a",
            "retarget 2 main", "sync", "merge 2", "settle", "retire f/b",
            "retarget 3 main", "sync", "merge 3", "settle", "retire f/c",
        ]
    );
    assert_eq!(st.stacks.len(), 0);
}

#[test]
fn failed_merge_stops_and_keeps_what_was_retired() {
    let mut st = registry();
    let mut train = MergeTrain::new(s("main"), vec![1, 2, 3], vec![Some(s("f/a")), Some(s("f/b")), Some(s("f/c"))]);
    let (_, err) = run(&mut train, &mut st, Some(7));
    assert_eq!(err, Some(TrainError { phase: TrainPhase::Merge, pull: 2 }));
    assert_eq!(st.stacks[0].branches, vec![s("f/b"), s("f/c")]);
}

#[test]
fn empty_train_finishes_at_once() {
    let mut st = registry();
    let mut train = MergeTrain::new(s("main"), vec![], vec![]);
    let (log, err) = run(&mut train, &mut st, None);
    assert!(log.is_empty());
    assert_eq!(err, None);
}

#[test]
fn failed_retarget_names_its_step_and_request() {
    let mut st = registry();
    let mut train = MergeTrain::new(s("main"), vec![1, 2, 3], vec![Some(s("f/a")), Some(s("f/b")), Some(s("f/c"))]);
    let (_, err) = run(&mut train, &mut st, Some(10));
    assert_eq!(err, Some(TrainError { phase: TrainPhase::Retarget, pull: 3 }));
    assert_eq!(st.stacks[0].branches, vec![s("f/c")]);
}
