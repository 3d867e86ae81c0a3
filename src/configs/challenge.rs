//! Where challenges and artifacts are stored, and how long instances live.
use vstd::prelude::*;

verus! {

/// Milliseconds in a minute.
pub const MINUTE_MS: u64 = 60000;

/// The default time to live of a container instance: thirty minutes, in milliseconds.
pub fn default_expiry() -> (r: Option<u64>)
    ensures
        r == Some((30 * MINUTE_MS) as u64),
{
    Some(30 * MINUTE_MS)
}

/// The default directory of challenge sources.
pub fn default_challenge_root() -> (r: String)
    ensures
        r@ == "challenges"@,
{
    "challenges".to_string()
}

/// The default directory of built artifacts.
pub fn default_artifact_root() -> (r: String)
    ensures
        r@ == "artifacts"@,
{
    "artifacts".to_string()
}

} // verus!
