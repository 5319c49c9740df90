//! The process configuration: what the environment gives, and the defaults
//! for what it leaves out.

use crate::idset::texts;
use crate::list::{listed, parse_list};
use crate::text::str_same;
use vstd::prelude::*;

verus! {

/// The configuration of the indexer.
#[derive(Debug, Clone, PartialEq, Eq)]
pub struct Config {
    pub database_url: String,
    pub solana_http_url: String,
    pub solana_ws_url: String,
    pub commitment: String,
    pub target_program_ids: Vec<String>,
}

/// Why no configuration could be made.
#[derive(Debug, Clone, Copy, PartialEq, Eq, Structural)]
pub enum ConfigError {
    /// The datastore's connection string is not set.
    MissingDatabaseUrl,
}

/// The value that is set, or else the default.
pub open spec fn or_default(value: Option<String>, default: Seq<char>) -> Seq<char> {
    match value {
        Some(v) => v@,
        None => default,
    }
}

/// The value that is set, or else the default.
fn value_or(value: Option<String>, default: &str) -> (r: String)
    ensures
        r@ == or_default(value, default@),
{
    match value {
        Some(v) => v,
        None => default.to_owned(),
    }
}

impl ConfigError {
    /// The error in words.
    pub fn message(&self) -> (r: &'static str)
        ensures
            r@ == "DATABASE_URL is required"@,
    {
        "DATABASE_URL is required"
    }
}

impl Config {
    /// Makes the configuration from the values that are set. The connection
    /// string of the datastore is required; the node's endpoints and the
    /// commitment level have defaults; the targets are the names that the
    /// list holds, and none where no list is set.
    pub fn from_values(
        database_url: Option<String>,
        solana_http_url: Option<String>,
        solana_ws_url: Option<String>,
        commitment: Option<String>,
        target_program_ids: Option<String>,
    ) -> (r: Result<Config, ConfigError>)
        ensures
            match r {
                Ok(cfg) => {
                    &&& database_url matches Some(url)
                    &&& cfg.database_url@ == url@
                    &&& cfg.solana_http_url@ == or_default(
                        solana_http_url,
                        "https://api.devnet.solana.com"@,
                    )
                    &&& cfg.solana_ws_url@ == or_default(
                        solana_ws_url,
                        "wss://api.devnet.solana.com/"@,
                    )
                    &&& cfg.commitment@ == or_default(commitment, "finalized"@)
                    &&& texts(cfg.target_program_ids@) == match target_program_ids {
                        Some(list) => listed(list@),
                        None => Seq::empty(),
                    }
                },
                Err(e) => database_url is None && e == ConfigError::MissingDatabaseUrl,
            },
    {
        match database_url {
            Some(url) => {
                let targets = match target_program_ids {
                    Some(list) => parse_list(list.as_str()),
                    None => Vec::new(),
                };
                Ok(
                    Config {
                        database_url: url,
                        solana_http_url: value_or(solana_http_url, "https://api.devnet.solana.com"),
                        solana_ws_url: value_or(solana_ws_url, "wss://api.devnet.solana.com/"),
                        commitment: value_or(commitment, "finalized"),
                        target_program_ids: targets,
                    },
                )
            },
            None => Err(ConfigError::MissingDatabaseUrl),
        }
    }
}

/// Tells whether the continuous loop is to run: when the flag is set to `1`.
pub fn indexer_enabled(flag: Option<&str>) -> (r: bool)
    ensures
        r == (flag matches Some(v) && v@ == "1"@),
{
    match flag {
        Some(v) => str_same(v, "1"),
        None => false,
    }
}

} // verus!
