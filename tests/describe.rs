use gstack::describe::{kept_body_text, pr_description};

fn s(x: &str) -> String {
    x.to_string()
}

#[test]
fn description_lists_chain_top_first() {
    let d = pr_description(&vec![3, 4, 5], 4, &Some(s("Adds the login form.")));
    assert_eq!(d, "Adds the login form.\n---\n- #5\n- #4 (This PR)\n- #3\n\n**Created by [gstack](https://github.com/Bendzae/gstack)**");
}

#[test]
fn description_without_body() {
    let d = pr_description(&vec![8], 8, &None);
    assert_eq!(d, "\n---\n- #8 (This PR)\n\n**Created by [gstack](https://github.com/Bendzae/gstack)**");
}

#[test]
fn regenerating_keeps_the_same_section() {
    let chain = vec![10, 11];
    let first = pr_description(&chain, 10, &Some(s("Intro\nmore")));
    let second = pr_description(&chain, 10, &Some(first.clone()));
    assert_eq!(first, second);
    let other = pr_description(&chain, 11, &Some(first.clone()));
    assert_eq!(other, "Intro\nmore\n---\n- #11 (This PR)\n- #10\n\n**Created by [gstack](https://github.com/Bendzae/gstack)**");
    assert_eq!(first.matches("(This PR)").count(), 1);
}

#[test]
fn kept_text_stops_at_marker_line() {
    assert_eq!(kept_body_text(&s("a\nb\nx---y\nc")), "a\nb");
    assert_eq!(kept_body_text(&s("---")), "");
    assert_eq!(kept_body_text(&s("a\n")), "a");
    assert_eq!(kept_body_text(&s("a\n\nb")), "a\n\nb");
    assert_eq!(kept_body_text(&s("")), "");
    assert_eq!(kept_body_text(&s("--")), "--");
}
