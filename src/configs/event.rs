//! The event's presentation.
use vstd::prelude::*;

verus! {

/// The default name of the event.
pub fn default_name() -> (r: String)
    ensures
        r@ == "attackr"@,
{
    "attackr".to_string()
}

/// Where a time stands relative to the event's period: before its start (`-1`), after its
/// end (`1`), or within it (`0`). An unset bound does not limit the period.
pub fn cmp_period(time: i64, start_at: Option<i64>, end_at: Option<i64>) -> (r: i8)
    ensures
        r == -1 <==> (start_at matches Some(s) && time < s),
        r == 1 <==> !(start_at matches Some(s) && time < s) && (end_at matches Some(e) && time > e),
        r == 0 <==> !(start_at matches Some(s) && time < s) && !(end_at matches Some(e) && time > e),
{
    if let Some(s) = start_at {
        if time < s {
            return -1;
        }
    }
    if let Some(e) = end_at {
        if time > e {
            return 1;
        }
    }
    0
}

/// Whether challenges are open to a user: always to an administrator, otherwise once the
/// event has started.
pub fn is_available(is_admin: bool, now: i64, start_at: Option<i64>, end_at: Option<i64>) -> (r: bool)
    ensures
        r == (is_admin || !(start_at matches Some(s) && now < s)),
{
    if is_admin {
        return true;
    }
    cmp_period(now, start_at, end_at) != -1
}

} // verus!
