//! The tool's configuration values, with their defaults.
//!
//! Loading a configuration file, and finding the home directory that the
//! default workspace lives under, are the caller's concern: the caller
//! fills `workspace_dir` before use.

use vstd::prelude::*;

verus! {

/// Configuration consumed by the subsystem as opaque parameters.
pub struct Config {
    pub enabled: bool,
    pub language: String,
    pub model: String,
    pub open_after_generate: bool,
    pub workspace_dir: String,
    pub session_max_age_min: u64,
}

pub fn default_enabled() -> (r: bool)
    ensures
        r == true,
{
    true
}

pub fn default_language() -> (r: String)
    ensures
        r@ == "ja"@,
{
    "ja".to_owned()
}

pub fn default_model() -> (r: String)
    ensures
        r@ == "sonnet"@,
{
    "sonnet".to_owned()
}

pub fn default_open_after_generate() -> (r: bool)
    ensures
        r == false,
{
    false
}

pub fn default_session_max_age_min() -> (r: u64)
    ensures
        r == 30,
{
    30
}

impl Default for Config {
    /// The default configuration; the workspace directory starts empty
    /// and is filled by the caller, who knows the home directory.
    fn default() -> (c: Config)
        ensures
            c.enabled == true,
            c.language@ == "ja"@,
            c.model@ == "sonnet"@,
            c.open_after_generate == false,
            c.workspace_dir@ == Seq::<char>::empty(),
            c.session_max_age_min == 30,
    {
        Config {
            enabled: default_enabled(),
            language: default_language(),
            model: default_model(),
            open_after_generate: default_open_after_generate(),
            workspace_dir: String::new(),
            session_max_age_min: default_session_max_age_min(),
        }
    }
}

} // verus!
