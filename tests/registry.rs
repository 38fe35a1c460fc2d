use gstack::state::{GitStack, GsState, StackError, StateError};

fn s(x: &str) -> String {
    x.to_string()
}

fn sample() -> GsState {
    let mut st = GsState::new();
    assert_eq!(st.new_stack(s("feat"), &s("a"), s("main")), Ok(s("feat/a")));
    assert_eq!(st.add_to_stack(&s("feat/a"), &s("b")), Ok(s("feat/b")));
    assert_eq!(st.add_to_stack(&s("feat/b"), &s("c")), Ok(s("feat/c")));
    st
}

#[test]
fn resolve_round_trip() {
    let st = sample();
    assert_eq!(st.resolve(&s("feat/a")), Some((0, 0)));
    assert_eq!(st.resolve(&s("feat/b")), Some((0, 1)));
    assert_eq!(st.resolve(&s("feat/c")), Some((0, 2)));
    assert_eq!(st.resolve(&s("main")), None);
    assert_eq!(st.resolve(&s("other")), None);
}

#[test]
fn second_stack_resolves_to_its_own_index() {
    let mut st = sample();
    assert_eq!(st.new_stack(s("fix"), &s("x"), s("main")), Ok(s("fix/x")));
    assert_eq!(st.resolve(&s("fix/x")), Some((1, 0)));
    assert_eq!(st.stack_of(&s("feat/c")), Some(0));
    assert_eq!(st.stack_of(&s("fix/x")), Some(1));
}

#[test]
fn adding_outside_a_stack_is_refused() {
    let mut st = sample();
    assert_eq!(st.add_to_stack(&s("main"), &s("d")), Err(StackError::NotInStack));
    assert_eq!(st.stacks[0].branches.len(), 3);
}

#[test]
fn adding_a_tracked_branch_is_refused() {
    let mut st = sample();
    assert_eq!(st.add_to_stack(&s("feat/c"), &s("a")), Err(StackError::AlreadyTracked));
    assert_eq!(st.new_stack(s("feat"), &s("b"), s("main")), Err(StackError::AlreadyTracked));
    assert_eq!(st.stacks.len(), 1);
    assert_eq!(st.stacks[0].branches.len(), 3);
}

#[test]
fn invalid_branch_names_are_refused() {
    let mut st = sample();
    assert_eq!(st.add_to_stack(&s("feat/a"), &s("two words")), Err(StackError::InvalidBranchName));
    assert_eq!(st.new_stack(s("-x"), &s("y"), s("main")), Err(StackError::InvalidBranchName));
    assert_eq!(st.new_stack(s("x"), &s("y."), s("main")), Err(StackError::InvalidBranchName));
    assert_eq!(st.stacks.len(), 1);
}

#[test]
fn removing_an_untracked_branch_changes_nothing() {
    let mut st = sample();
    assert_eq!(st.remove_branch(&s("nope"), &s("nope")), None);
    assert_eq!(st.stacks.len(), 1);
    assert_eq!(st.stacks[0].branches, vec![s("feat/a"), s("feat/b"), s("feat/c")]);
}

#[test]
fn removing_the_checkout_checks_out_the_new_bottom() {
    let mut st = sample();
    assert_eq!(st.remove_branch(&s("feat/b"), &s("feat/b")), Some(s("feat/a")));
    assert_eq!(st.stacks[0].branches, vec![s("feat/a"), s("feat/c")]);
    assert_eq!(st.remove_branch(&s("feat/a"), &s("feat/a")), Some(s("feat/c")));
    assert_eq!(st.stacks[0].branches, vec![s("feat/c")]);
}

#[test]
fn removing_the_last_branch_checks_out_the_base_and_drops_the_stack() {
    let mut st = GsState::new();
    st.new_stack(s("p"), &s("only"), s("develop")).unwrap();
    assert_eq!(st.remove_branch(&s("p/only"), &s("p/only")), Some(s("develop")));
    assert_eq!(st.stacks.len(), 0);
}

#[test]
fn removing_another_branch_checks_out_nothing() {
    let mut st = sample();
    assert_eq!(st.remove_branch(&s("feat/a"), &s("feat/c")), None);
    assert_eq!(st.stacks[0].branches, vec![s("feat/b"), s("feat/c")]);
}

#[test]
fn stacks_stay_non_empty_through_changes() {
    let mut st = sample();
    st.new_stack(s("fix"), &s("x"), s("main")).unwrap();
    st.remove_branch(&s("fix/x"), &s("main"));
    st.remove_branch(&s("feat/a"), &s("main"));
    st.add_to_stack(&s("feat/c"), &s("d")).unwrap();
    st.remove_branch(&s("feat/b"), &s("main"));
    assert!(st.is_well_formed());
    assert!(st.stacks.iter().all(|k| !k.branches.is_empty()));
    assert_eq!(st.stacks.len(), 1);
    st.remove_branch(&s("feat/c"), &s("main"));
    st.remove_branch(&s("feat/d"), &s("main"));
    assert_eq!(st.stacks.len(), 0);
    assert!(st.is_well_formed());
}

#[test]
fn well_formedness_is_checked() {
    let dup = GsState {
        stacks: vec![
            GitStack { prefix: None, base_branch: s("main"), branches: vec![s("a")] },
            GitStack { prefix: None, base_branch: s("main"), branches: vec![s("b"), s("a")] },
        ],
    };
    assert!(!dup.is_well_formed());
    let empty = GsState {
        stacks: vec![GitStack { prefix: None, base_branch: s("main"), branches: vec![] }],
    };
    assert!(!empty.is_well_formed());
    let twice = GsState {
        stacks: vec![GitStack { prefix: None, base_branch: s("main"), branches: vec![s("a"), s("a")] }],
    };
    assert!(!twice.is_well_formed());
    assert!(sample().is_well_formed());
}

#[test]
fn navigation_within_a_stack() {
    let st = sample();
    assert_eq!(st.branch_above(&s("feat/a")), Some(s("feat/b")));
    assert_eq!(st.branch_above(&s("feat/c")), None);
    assert_eq!(st.branch_below(&s("feat/c")), Some(s("feat/b")));
    assert_eq!(st.branch_below(&s("feat/a")), None);
    assert_eq!(st.base_of(&s("feat/b")), Some(s("main")));
    assert_eq!(st.base_of(&s("main")), None);
    assert_eq!(st.branch_above(&s("main")), None);
}

#[test]
fn choices_list_branches_top_first() {
    let st = sample();
    let c = st.stacks[0].branch_choices();
    assert_eq!(c, vec![s("(2): feat/c"), s("(1): feat/b"), s("(0): feat/a")]);
    assert_eq!(st.stacks[0].branch_of_choice(0), Some(s("feat/c")));
    assert_eq!(st.stacks[0].branch_of_choice(2), Some(s("feat/a")));
    assert_eq!(st.stacks[0].branch_of_choice(3), None);
}

#[test]
fn choices_list_stacks_by_prefix() {
    let mut st = sample();
    st.new_stack(s("fix"), &s("x"), s("main")).unwrap();
    assert_eq!(st.stack_choices(), vec![s("(0): feat"), s("(1): fix")]);
    assert_eq!(st.bottom_of_stack(1), Some(s("fix/x")));
    assert_eq!(st.bottom_of_stack(2), None);
}

#[test]
fn all_branches_and_reset() {
    let mut st = sample();
    st.new_stack(s("fix"), &s("x"), s("main")).unwrap();
    assert_eq!(st.all_branches(), vec![s("feat/a"), s("feat/b"), s("feat/c"), s("fix/x")]);
    st.reset();
    assert_eq!(st.stacks.len(), 0);
    assert_eq!(st.all_branches(), Vec::<String>::new());
}

#[test]
fn stack_without_prefix_names_branches_plainly() {
    let mut st = GsState {
        stacks: vec![GitStack { prefix: None, base_branch: s("main"), branches: vec![s("a")] }],
    };
    assert_eq!(st.add_to_stack(&s("a"), &s("b")), Ok(s("/b")));
}

#[test]
fn low_level_changes_report_their_errors() {
    let mut st = sample();
    assert_eq!(st.push_stack(None, s("main"), s("feat/b")), Err(StateError::AlreadyTracked));
    assert_eq!(st.add_branch(&s("main"), s("z")), Err(StateError::NotInStack));
    assert_eq!(st.add_branch(&s("feat/a"), s("feat/c")), Err(StateError::AlreadyTracked));
    assert_eq!(st.add_branch(&s("feat/a"), s("z")), Ok(()));
    assert_eq!(st.stacks[0].branches.last().unwrap(), "z");
    assert_eq!(st.push_stack(Some(s("q")), s("dev"), s("q/1")), Ok(()));
    assert_eq!(st.resolve(&s("q/1")), Some((1, 0)));
    assert!(st.tracks(&s("q/1")));
    assert!(!st.tracks(&s("dev")));
}
