//! Configuration as the core consumes it: plain values, validated
//! before any fetch. Reading the file, deserializing it and resolving
//! secrets are the orchestration layer's work.
use vstd::prelude::*;

use crate::dates::valid_offset_seconds;
use crate::filter::{regex_valid, FilterConfigError, TeamPattern};

verus! {

/// Where a credential comes from: the environment, the file itself, or
/// a separate file. Resolution is the delivery side's concern.
#[derive(Debug)]
pub enum Secret {
    Env,
    Plain(String),
    File(String),
}

impl Default for Secret {
    fn default() -> (r: Secret)
        ensures
            r is Env,
    {
        Secret::Env
    }
}

/// The delivery collaborator's settings.
#[derive(Debug)]
pub struct PushoverConfig {
    pub token: Secret,
    pub user_key: Secret,
    pub notification_sound: String,
    pub notification_title: String,
    pub notification_message: String,
}

/// The default notification sound.
pub fn notification_sound() -> (r: String)
    ensures
        r@ == "intermission"@,
{
    "intermission".to_owned()
}

/// A run's configuration: source locations, the fixed UTC offset in
/// seconds, the lookahead window in days, the team pattern text, and
/// the delivery settings.
#[derive(Debug)]
pub struct Config {
    pub scrape_urls: Vec<String>,
    pub utc_offset_seconds: i32,
    pub search_duration_in_days: u64,
    pub team_regex: String,
    pub pushover: PushoverConfig,
}

/// Why a configuration was rejected at validation time.
#[derive(Debug)]
pub enum ConfigError {
    /// The UTC offset is a day or more in magnitude.
    InvalidOffset,
    /// The team pattern is not valid regular-expression syntax.
    InvalidPattern(FilterConfigError),
}

impl Config {
    /// The configured offset is a usable UTC offset.
    pub open spec fn offset_ok(self) -> bool {
        valid_offset_seconds(self.utc_offset_seconds as int)
    }

    /// Configuration-time validation: an invalid team pattern or
    /// offset is rejected here, before any fetch, so filtering itself
    /// is total. On success, hands back the compiled pattern.
    pub fn validate(&self) -> (r: Result<TeamPattern, ConfigError>)
        ensures
            r matches Ok(p) ==> self.offset_ok() && regex_valid(self.team_regex@) && p.source()
                == self.team_regex@,
            r matches Err(e) ==> !(self.offset_ok() && regex_valid(self.team_regex@)),
            r matches Err(e) ==> (e is InvalidOffset <==> !self.offset_ok()),
    {
        if self.utc_offset_seconds <= -86400 || self.utc_offset_seconds >= 86400 {
            return Err(ConfigError::InvalidOffset);
        }
        match TeamPattern::new(self.team_regex.as_str()) {
            Ok(p) => Ok(p),
            Err(e) => Err(ConfigError::InvalidPattern(e)),
        }
    }
}

} // verus!
