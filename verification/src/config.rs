//! The environment the app runs in, and the health report the UI asks for.
use vstd::prelude::*;

use crate::text::str_eq;

verus! {

#[derive(Debug, Clone, Copy, PartialEq, Eq, Structural)]
pub enum AppEnvironment {
    Development,
    Staging,
    Production,
}

/// "staging" and "production" name those environments; anything else,
/// including nothing, is development.
pub open spec fn environment_of(value: Seq<char>) -> AppEnvironment {
    if value == "staging"@ {
        AppEnvironment::Staging
    } else if value == "production"@ {
        AppEnvironment::Production
    } else {
        AppEnvironment::Development
    }
}

impl AppEnvironment {
    /// See `environment_of`.
    pub fn from_name(value: &str) -> (r: Self)
        ensures
            r == environment_of(value@),
    {
        if str_eq(value, "staging") {
            AppEnvironment::Staging
        } else if str_eq(value, "production") {
            AppEnvironment::Production
        } else {
            AppEnvironment::Development
        }
    }
}

impl<'a> From<&'a str> for AppEnvironment {
    fn from(value: &'a str) -> (r: Self) {
        AppEnvironment::from_name(value)
    }
}

impl<'a> vstd::std_specs::convert::FromSpecImpl<&'a str> for AppEnvironment {
    open spec fn obeys_from_spec() -> bool {
        true
    }

    open spec fn from_spec(value: &'a str) -> Self {
        environment_of(value@)
    }
}

#[derive(Debug, Clone, Copy)]
pub struct AppConfig {
    pub environment: AppEnvironment,
}

/// The configuration for the value of the environment variable that selects
/// the environment (`None` when it is unset or unreadable).
pub fn config_from_variable(raw: Option<&str>) -> (r: AppConfig)
    ensures
        r.environment == environment_of(
            match raw {
                Some(v) => v@,
                None => "development"@,
            },
        ),
        raw is None ==> r.environment == AppEnvironment::Development,
{
    proof {
        reveal_strlit("development");
        reveal_strlit("staging");
        reveal_strlit("production");
        assert("development"@.len() == 11);
        assert("staging"@.len() == 7);
        assert("production"@.len() == 10);
    }
    let value = match raw {
        Some(v) => v,
        None => "development",
    };
    AppConfig { environment: AppEnvironment::from_name(value) }
}

/// What the health check reports.
#[derive(Debug)]
pub struct AppHealth {
    pub status: &'static str,
    pub version: &'static str,
    pub environment: AppEnvironment,
}

/// A healthy report for this build's version in the configured environment.
pub fn app_health(version: &'static str, config: AppConfig) -> (r: AppHealth)
    ensures
        r.status@ == "ok"@,
        r.version == version,
        r.environment == config.environment,
{
    AppHealth { status: "ok", version, environment: config.environment }
}

} // verus!
