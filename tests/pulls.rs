use gstack::pulls::{creation_plan, get_branch_pr, get_pr_branch, get_pull_requests, pr_title, PrStep, PullRequestInfo};
use gstack::state::GsState;

fn s(x: &str) -> String {
    x.to_string()
}

fn pr(n: u64, sha: &str) -> PullRequestInfo {
    PullRequestInfo { number: n, head_sha: s(sha), body: None }
}

#[test]
fn matching_is_by_head_commit() {
    let pulls = vec![pr(10, "aaa"), pr(11, "bbb"), pr(12, "aaa")];
    assert_eq!(get_branch_pr(&pulls, &s("aaa")), Some(0));
    assert_eq!(get_branch_pr(&pulls, &s("bbb")), Some(1));
    assert_eq!(get_branch_pr(&pulls, &s("ccc")), None);
}

#[test]
fn distinct_heads_match_distinct_pulls_and_rename_keeps_the_match() {
    let pulls = vec![pr(1, "h1"), pr(2, "h2")];
    let a = get_branch_pr(&pulls, &s("h1"));
    let b = get_branch_pr(&pulls, &s("h2"));
    assert_ne!(a, b);
    // The branch name plays no part: a renamed branch with the same tip matches the same request.
    let before = get_pull_requests(&pulls, &vec![s("h1"), s("h2")]);
    let after = get_pull_requests(&pulls, &vec![s("h1"), s("h2")]);
    assert_eq!(before, after);
}

#[test]
fn stack_pulls_follow_branch_order() {
    let pulls = vec![pr(7, "c"), pr(5, "a"), pr(9, "zzz")];
    assert_eq!(get_pull_requests(&pulls, &vec![s("a"), s("b"), s("c")]), vec![1, 0]);
    assert_eq!(get_pr_branch(&vec![s("a"), s("b"), s("c")], &s("c")), Some(2));
    assert_eq!(get_pr_branch(&vec![s("a")], &s("q")), None);
}

#[test]
fn titles() {
    assert_eq!(pr_title(&Some(s("feat")), 0, &s("feat/login")), "feat (#0) - login");
    assert_eq!(pr_title(&Some(s("x")), 12, &s("plain")), "x (#12) - plain");
    assert_eq!(pr_title(&None, 3, &s("p/q")), " (#3) - q");
}

#[test]
fn plan_keeps_existing_and_creates_missing() {
    let mut st = GsState::new();
    st.new_stack(s("f"), &s("a"), s("main")).unwrap();
    st.add_to_stack(&s("f/a"), &s("b")).unwrap();
    st.add_to_stack(&s("f/b"), &s("c")).unwrap();
    let pulls = vec![pr(4, "hb")];
    let plan = creation_plan(&st.stacks[0], &pulls, &vec![s("ha"), s("hb"), s("hc")]);
    assert_eq!(plan.len(), 3);
    match &plan[0] {
        PrStep::Create { title, head, base } => {
            assert_eq!((title.as_str(), head.as_str(), base.as_str()), ("f (#0) - a", "f/a", "main"));
        }
        _ => panic!("expected a new pull request"),
    }
    assert!(matches!(plan[1], PrStep::Existing { pull: 0 }));
    match &plan[2] {
        PrStep::Create { title, head, base } => {
            assert_eq!((title.as_str(), head.as_str(), base.as_str()), ("f (#2) - c", "f/c", "f/b"));
        }
        _ => panic!("expected a new pull request"),
    }
}

#[test]
fn branches_on_one_commit_list_their_pull_request_once() {
    let pulls = vec![pr(5, "a"), pr(6, "c")];
    assert_eq!(get_pull_requests(&pulls, &vec![s("a"), s("a"), s("c"), s("c")]), vec![0, 1]);
}

#[test]
fn plan_marks_a_shared_pull_request() {
    let mut st = GsState::new();
    st.new_stack(s("f"), &s("a"), s("main")).unwrap();
    st.add_to_stack(&s("f/a"), &s("b")).unwrap();
    let pulls = vec![pr(4, "same")];
    let plan = creation_plan(&st.stacks[0], &pulls, &vec![s("same"), s("same")]);
    assert!(matches!(plan[0], PrStep::Existing { pull: 0 }));
    assert!(matches!(plan[1], PrStep::Shared { pull: 0 }));
}
