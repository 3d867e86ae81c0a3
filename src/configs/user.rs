//! User sessions.
use vstd::prelude::*;

verus! {

/// Seconds in an hour.
pub const HOUR_SECS: u64 = 3600;

/// The default lifetime of a session: twelve hours, in seconds.
pub fn default_expiry() -> (r: u64)
    ensures
        r == 12 * HOUR_SECS,
{
    12 * HOUR_SECS
}

#[derive(Debug)]
pub struct SessionConfig {
    /// How long a session lives, in seconds.
    pub expiry: u64,
}

impl Default for SessionConfig {
    fn default() -> (r: Self)
        ensures
            r.expiry == 12 * HOUR_SECS,
    {
        SessionConfig { expiry: default_expiry() }
    }
}

} // verus!
