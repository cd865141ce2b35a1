//! The refresh interval of the dashboard's configuration.

use vstd::prelude::*;

verus! {

/// The refresh interval in seconds when the configuration names none.
pub fn default_refresh_secs() -> (r: u64)
    ensures
        r == 1,
{
    1
}

/// A configured refresh interval, floored at one second.
pub fn sanitise_refresh_secs(secs: u64) -> (r: u64)
    ensures
        r == if secs < 1 {
            1
        } else {
            secs
        },
        r >= 1,
{
    if secs < 1 {
        1
    } else {
        secs
    }
}

} // verus!
