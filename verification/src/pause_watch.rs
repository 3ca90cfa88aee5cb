//! Following the pause flag.
use vstd::prelude::*;

verus! {

/// Seconds between two looks at the flag.
pub const PAUSE_POLL_INTERVAL_SECONDS: u64 = 1;

/// What the user did since the last look.
#[derive(Debug, Clone, Copy, PartialEq, Eq, Structural)]
pub enum PauseChange {
    /// Filtering was paused.
    Paused,
    /// Filtering was resumed.
    Resumed,
}

/// What a look at the flag comes to: the state that queries are answered by,
/// and the change, if it is one, that is logged once.
pub fn observe_pause_flag(previous: bool, flag_set: bool) -> (r: (bool, Option<PauseChange>))
    ensures
        r.0 == flag_set,
        r.1 == if flag_set == previous {
            None
        } else if flag_set {
            Some(PauseChange::Paused)
        } else {
            Some(PauseChange::Resumed)
        },
{
    if flag_set == previous {
        (flag_set, None)
    } else if flag_set {
        (flag_set, Some(PauseChange::Paused))
    } else {
        (flag_set, Some(PauseChange::Resumed))
    }
}

} // verus!
