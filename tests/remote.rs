use gstack::remote::{remote_info_from_groups, remote_repo_info, remote_repo_url, RemoteError};

fn lines(v: &[&str]) -> Vec<String> {
    v.iter().map(|x| x.to_string()).collect()
}

#[test]
fn https_remote() {
    let info = remote_repo_info(&lines(&["https://github.com/octo/widgets.git"])).ok().unwrap();
    assert_eq!(info.owner, "octo");
    assert_eq!(info.name, "widgets");
}

#[test]
fn ssh_remote() {
    let info = remote_repo_info(&lines(&["git@github.com:someone/tool.git"])).ok().unwrap();
    assert_eq!(info.owner, "someone");
    assert_eq!(info.name, "tool");
}

#[test]
fn malformed_remote() {
    assert_eq!(remote_repo_info(&lines(&["https://example.org/x"])).err(), Some(RemoteError::MalformedUrl));
}

#[test]
fn missing_remote() {
    assert_eq!(remote_repo_info(&lines(&[])).err(), Some(RemoteError::NoRemote));
    assert_eq!(remote_repo_url(&lines(&[])), Err(RemoteError::NoRemote));
    assert_eq!(remote_repo_url(&lines(&["u", "v"])), Ok("u".to_string()));
}

#[test]
fn groups_to_info() {
    let g = vec![Some("all".to_string()), Some("https://github.com/".to_string()), Some("o".to_string()), Some("n".to_string())];
    let info = remote_info_from_groups(Some(g)).ok().unwrap();
    assert_eq!((info.owner.as_str(), info.name.as_str()), ("o", "n"));
    assert_eq!(remote_info_from_groups(None).err(), Some(RemoteError::MalformedUrl));
    assert_eq!(remote_info_from_groups(Some(vec![Some("x".to_string())])).err(), Some(RemoteError::MalformedUrl));
}
