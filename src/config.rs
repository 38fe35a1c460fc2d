use vstd::prelude::*;

verus! {

/// The user's settings, shared by every repository.
pub struct GlobalConfig {
    pub personal_access_token: Option<String>,
}

/// Why the settings cannot be used.
#[derive(Debug, Clone, Copy, PartialEq, Eq, Structural)]
pub enum ConfigError {
    /// No access token for the hosting provider is set.
    MissingToken,
}

impl GlobalConfig {
    /// The access token for the hosting provider.
    pub fn token(&self) -> (r: Result<String, ConfigError>)
        ensures
            self.personal_access_token matches Some(t) ==> (r matches Ok(x) && x@ == t@),
            self.personal_access_token is None ==> r == Err::<String, ConfigError>(
                ConfigError::MissingToken,
            ),
    {
        match &self.personal_access_token {
            Some(t) => Ok(t.clone()),
            None => Err(ConfigError::MissingToken),
        }
    }
}

} // verus!
