//! The stored credentials and where the data lives.
use vstd::prelude::*;

use crate::store::Stored;

verus! {

/// The consumer key pair of the app, the access token pair once connected, and
/// the directory that holds the data.
#[derive(Debug)]
pub struct Config {
    pub consumer_key: String,
    pub consumer_secret: String,
    pub access_token: Option<String>,
    pub access_token_secret: Option<String>,
    pub data_dir: String,
}

/// Why the configuration could not be loaded.
#[derive(Debug)]
pub enum ConfigError {
    Io(std::io::Error),
    Json(serde_json::Error),
}

/// Both halves of the access token are present.
pub open spec fn connected(c: Config) -> bool {
    c.access_token is Some && c.access_token_secret is Some
}

/// The configuration of a first run: empty keys, no tokens, no data directory.
pub open spec fn unconnected_config(c: Config) -> bool {
    &&& c.consumer_key@ == Seq::<char>::empty()
    &&& c.consumer_secret@ == Seq::<char>::empty()
    &&& c.access_token is None
    &&& c.access_token_secret is None
    &&& c.data_dir@ == Seq::<char>::empty()
}

/// The configuration of a first run with the given data directory: empty keys,
/// no tokens.
pub open spec fn first_run_config(c: Config, data_dir: Seq<char>) -> bool {
    &&& c.consumer_key@ == Seq::<char>::empty()
    &&& c.consumer_secret@ == Seq::<char>::empty()
    &&& c.access_token is None
    &&& c.access_token_secret is None
    &&& c.data_dir@ == data_dir
}

impl Default for Config {
    fn default() -> (c: Config)
        ensures
            unconnected_config(c),
    {
        Config {
            consumer_key: String::new(),
            consumer_secret: String::new(),
            access_token: None,
            access_token_secret: None,
            data_dir: String::new(),
        }
    }
}

impl Config {
    /// Whether both halves of the access token are stored.
    pub fn is_connected(&self) -> (yes: bool)
        ensures
            yes == connected(*self),
    {
        self.access_token.is_some() && self.access_token_secret.is_some()
    }

    /// The configuration from what reading the config file gave: a missing file is
    /// a first run (empty keys, no tokens, and the default data directory, which
    /// is `slix` under the user's config directory); an unreadable file is an I/O
    /// error and one that does not parse a JSON error.
    pub fn load(file: Stored<Config>, default_data_dir: String) -> (loaded: Result<
        Config,
        ConfigError,
    >)
        ensures
            match file {
                Stored::Missing => loaded matches Ok(c) && first_run_config(c, default_data_dir@)
                    && !connected(c),
                Stored::Unreadable(e) => loaded == Err::<Config, ConfigError>(ConfigError::Io(e)),
                Stored::Malformed(e) => loaded == Err::<Config, ConfigError>(ConfigError::Json(e)),
                Stored::Found(c) => loaded == Ok::<Config, ConfigError>(c),
            },
    {
        match file {
            Stored::Missing => Ok(
                Config {
                    consumer_key: String::new(),
                    consumer_secret: String::new(),
                    access_token: None,
                    access_token_secret: None,
                    data_dir: default_data_dir,
                },
            ),
            Stored::Unreadable(e) => Err(ConfigError::Io(e)),
            Stored::Malformed(e) => Err(ConfigError::Json(e)),
            Stored::Found(c) => Ok(c),
        }
    }

    /// Stores the access token pair that the PIN flow gave.
    pub fn set_access_token(&mut self, token: String, secret: String)
        ensures
            final(self).access_token == Some(token),
            final(self).access_token_secret == Some(secret),
            final(self).consumer_key == old(self).consumer_key,
            final(self).consumer_secret == old(self).consumer_secret,
            final(self).data_dir == old(self).data_dir,
            connected(*final(self)),
    {
        self.access_token = Some(token);
        self.access_token_secret = Some(secret);
    }
}

} // verus!
