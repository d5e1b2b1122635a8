//! Monitoring scopes. Nothing is ever monitored, so every event is inactive.

use vstd::prelude::*;

verus! {

/// The state of one event.
#[derive(Clone, Copy, Debug, PartialEq, Eq, Structural)]
pub struct PyMonitoringState {
    pub active: u8,
    pub opaque: u8,
}

/// The one version of the monitoring configuration.
pub const MONITORING_VERSION: u64 = 0;

/// Enter a scope: the first `length` states become inactive, the rest are
/// left alone, and the version is recorded.
pub fn PyMonitoring_EnterScope(
    state_array: &mut Vec<PyMonitoringState>,
    version: &mut u64,
    length: isize,
) -> (r: i32)
    requires
        length <= old(state_array)@.len(),
    ensures
        r == 0,
        *final(version) == MONITORING_VERSION,
        final(state_array)@.len() == old(state_array)@.len(),
        forall|i: int|
            0 <= i < old(state_array)@.len() ==> #[trigger] final(state_array)@[i] == (if i
                < length {
                PyMonitoringState { active: 0, opaque: 0 }
            } else {
                old(state_array)@[i]
            }),
{
    *version = MONITORING_VERSION;
    if length > 0 {
        let n: usize = length as usize;
        let mut i: usize = 0;
        while i < n
            invariant
                i <= n == length <= state_array@.len(),
                *version == MONITORING_VERSION,
                state_array@.len() == old(state_array)@.len(),
                forall|k: int|
                    0 <= k < old(state_array)@.len() ==> #[trigger] state_array@[k] == (if k < i {
                        PyMonitoringState { active: 0, opaque: 0 }
                    } else {
                        old(state_array)@[k]
                    }),
            decreases n - i,
        {
            state_array.set(i, PyMonitoringState { active: 0, opaque: 0 });
            i = i + 1;
        }
    }
    0
}

/// Leave a scope: there is nothing to unwind.
pub fn PyMonitoring_ExitScope() -> (r: i32)
    ensures
        r == 0,
{
    0
}

} // verus!
