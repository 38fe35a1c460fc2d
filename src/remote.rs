use vstd::prelude::*;
use crate::state::opt_view;

verus! {

/// The owner and the name of the repository on the hosting provider.
pub struct RemoteRepoInfo {
    pub owner: String,
    pub name: String,
}

/// Why the remote repository could not be told.
#[derive(Debug, Clone, Copy, PartialEq, Eq, Structural)]
pub enum RemoteError {
    /// The repository has no `origin` remote.
    NoRemote,
    /// The `origin` URL is not one of the hosting provider's.
    MalformedUrl,
}

/// The hosting provider's remote URLs, over https or ssh: the second group is
/// the owner, the third the repository's name.
pub const GITHUB_REMOTE_PATTERN: &'static str = "(https://github.com/|git@github.com:)([^/]+)/([^/]+)\\.git";

/// What `pattern` captures in `text`: `None` when it does not compile or does
/// not match; else each group in order, the whole match first, `None` for a
/// group that took no part in the match.
pub uninterp spec fn regex_groups(pattern: Seq<char>, text: Seq<char>) -> Option<Seq<Option<Seq<char>>>>;

pub open spec fn groups_view(v: Seq<Option<String>>) -> Seq<Option<Seq<char>>> {
    v.map_values(|g: Option<String>| opt_view(g))
}

/// Relies on regex's `Regex::new`, which compiles `pattern`, and
/// `Regex::captures`, which gives the groups of the leftmost match in `text`.
#[verifier::external_body]
fn regex_captures(pattern: &str, text: &str) -> (r: Option<Vec<Option<String>>>)
    ensures
        match r {
            Some(v) => regex_groups(pattern@, text@) == Some(groups_view(v@)),
            None => regex_groups(pattern@, text@) is None,
        },
{
    let re = regex::Regex::new(pattern).ok()?;
    let caps = re.captures(text)?;
    Some(caps.iter().map(|m| m.map(|m| m.as_str().to_string())).collect())
}

/// The `origin` URL out of what `git config --get remote.origin.url` printed,
/// line by line: its first line, or `NoRemote` when it printed nothing.
pub fn remote_repo_url(output: &Vec<String>) -> (r: Result<String, RemoteError>)
    ensures
        output@.len() == 0 ==> r == Err::<String, RemoteError>(RemoteError::NoRemote),
        output@.len() > 0 ==> (r matches Ok(u) && u@ == output@[0]@),
{
    if output.len() == 0 {
        Err(RemoteError::NoRemote)
    } else {
        Ok(output[0].clone())
    }
}

/// Owner and name out of the groups that the remote pattern captured.
pub open spec fn info_of_groups(g: Option<Seq<Option<Seq<char>>>>) -> Option<(Seq<char>, Seq<char>)> {
    match g {
        Some(v) => if v.len() > 3 && v[2] is Some && v[3] is Some {
            Some((v[2].unwrap(), v[3].unwrap()))
        } else {
            None
        },
        None => None,
    }
}

/// The repository that the groups captured by `GITHUB_REMOTE_PATTERN` name:
/// the owner is the second group, the name the third; without a match the
/// URL is malformed.
pub fn remote_info_from_groups(groups: Option<Vec<Option<String>>>) -> (r: Result<
    RemoteRepoInfo,
    RemoteError,
>)
    ensures
        match info_of_groups(
            match groups {
                Some(v) => Some(groups_view(v@)),
                None => None,
            },
        ) {
            Some(p) => r matches Ok(info) && info.owner@ == p.0 && info.name@ == p.1,
            None => r == Err::<RemoteRepoInfo, RemoteError>(RemoteError::MalformedUrl),
        },
{
    match groups {
        Some(v) => {
            if v.len() > 3 {
                match (&v[2], &v[3]) {
                    (Some(owner), Some(name)) => {
                        return Ok(RemoteRepoInfo { owner: owner.clone(), name: name.clone() });
                    },
                    _ => {},
                }
            }
            Err(RemoteError::MalformedUrl)
        },
        None => Err(RemoteError::MalformedUrl),
    }
}

/// The repository on the hosting provider that `origin` points at, out of
/// what `git config --get remote.origin.url` printed.
pub fn remote_repo_info(output: &Vec<String>) -> (r: Result<RemoteRepoInfo, RemoteError>)
    ensures
        output@.len() == 0 ==> r == Err::<RemoteRepoInfo, RemoteError>(RemoteError::NoRemote),
        output@.len() > 0 ==> match info_of_groups(
            regex_groups(GITHUB_REMOTE_PATTERN@, output@[0]@),
        ) {
            Some(p) => r matches Ok(info) && info.owner@ == p.0 && info.name@ == p.1,
            None => r == Err::<RemoteRepoInfo, RemoteError>(RemoteError::MalformedUrl),
        },
{
    let url = match remote_repo_url(output) {
        Ok(u) => u,
        Err(e) => {
            return Err(e);
        },
    };
    let groups = regex_captures(GITHUB_REMOTE_PATTERN, url.as_str());
    remote_info_from_groups(groups)
}

} // verus!
