use gstack::config::{ConfigError, GlobalConfig};
use gstack::naming::{decimal, get_branch_name, last_segment_of, NameError};

#[test]
fn decimal_digits() {
    assert_eq!(decimal(0), "0");
    assert_eq!(decimal(7), "7");
    assert_eq!(decimal(10), "10");
    assert_eq!(decimal(1234567890), "1234567890");
    assert_eq!(decimal(u64::MAX), u64::MAX.to_string());
}

#[test]
fn branch_names_join_prefix_and_name() {
    assert_eq!(get_branch_name(&"feat".to_string(), &"login".to_string()), Ok("feat/login".to_string()));
}

#[test]
fn branch_names_follow_git_rules() {
    let bad = [("a", "b c"), ("-a", "b"), ("a", "b."), ("a", ".b"), ("a", "b..c"), ("a", "b@{c"), ("a", "b~1"), ("a", "b^"), ("a", "b:c"), ("a", "b\\c"), ("a", "b\u{7}")];
    for (p, n) in bad {
        assert_eq!(get_branch_name(&p.to_string(), &n.to_string()), Err(NameError::InvalidBranchName), "{p}/{n}");
    }
    assert!(get_branch_name(&"x".to_string(), &"a.b-c_d".to_string()).is_ok());
}

#[test]
fn last_segment_after_last_slash() {
    assert_eq!(last_segment_of(&"feat/part/login".to_string()), "login");
    assert_eq!(last_segment_of(&"plain".to_string()), "plain");
    assert_eq!(last_segment_of(&"trailing/".to_string()), "");
}

#[test]
fn config_token() {
    let c = GlobalConfig { personal_access_token: Some("SECRET-REDACTED".to_string()) };
    assert_eq!(c.token(), Ok("SECRET-REDACTED".to_string()));
    let none = GlobalConfig { personal_access_token: None };
    assert_eq!(none.token(), Err(ConfigError::MissingToken));
}
