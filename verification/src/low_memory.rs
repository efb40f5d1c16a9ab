//! Process-wide flags of the low-memory mode, held in one state value.
use vstd::prelude::*;

verus! {

/// Flags of the low-memory mode and the time of the last window activity.
#[derive(Debug)]
pub struct LowMemoryState {
    pub low_memory_mode: bool,
    pub user_requested_exit: bool,
    pub auto_manager_started: bool,
    pub last_window_activity_at_ms: u64,
    pub exiting_low_memory: bool,
}

impl LowMemoryState {
    /// All flags clear, no activity recorded.
    pub fn new() -> (s: Self)
        ensures
            !s.low_memory_mode,
            !s.user_requested_exit,
            !s.auto_manager_started,
            s.last_window_activity_at_ms == 0,
            !s.exiting_low_memory,
    {
        LowMemoryState {
            low_memory_mode: false,
            user_requested_exit: false,
            auto_manager_started: false,
            last_window_activity_at_ms: 0,
            exiting_low_memory: false,
        }
    }
}

/// The state after `try_mark_auto_manager_started`, and its result.
pub open spec fn mark_auto_manager(s: LowMemoryState) -> (LowMemoryState, bool) {
    (LowMemoryState { auto_manager_started: true, ..s }, !s.auto_manager_started)
}

/// The state after `try_start_exit_low_memory`, and its result.
pub open spec fn start_exit(s: LowMemoryState) -> (LowMemoryState, bool) {
    (LowMemoryState { exiting_low_memory: true, ..s }, !s.exiting_low_memory)
}

/// The state after `finish_exit_low_memory`.
pub open spec fn finish_exit(s: LowMemoryState) -> LowMemoryState {
    LowMemoryState { exiting_low_memory: false, ..s }
}

/// Milliseconds since the Unix epoch, from the system clock (0 when the
/// clock reads before the epoch). Nothing is stated of the value.
#[verifier::external_body]
pub(crate) fn now_unix_ms() -> (ms: u64) {
    std::time::SystemTime::now()
        .duration_since(std::time::UNIX_EPOCH)
        .map(|duration| duration.as_millis() as u64)
        .unwrap_or(0)
}

pub fn is_low_memory_mode(state: &LowMemoryState) -> (r: bool)
    ensures
        r == state.low_memory_mode,
{
    state.low_memory_mode
}

pub fn set_low_memory_mode(state: &mut LowMemoryState, active: bool)
    ensures
        *final(state) == (LowMemoryState { low_memory_mode: active, ..*old(state) }),
{
    state.low_memory_mode = active;
}

/// Records `now_ms` as the time of the last window activity.
pub fn mark_window_activity_at(state: &mut LowMemoryState, now_ms: u64)
    ensures
        *final(state) == (LowMemoryState { last_window_activity_at_ms: now_ms, ..*old(state) }),
{
    state.last_window_activity_at_ms = now_ms;
}

/// Records the current time as the time of the last window activity.
pub fn mark_window_activity(state: &mut LowMemoryState)
    ensures
        *final(state) == (LowMemoryState {
            last_window_activity_at_ms: final(state).last_window_activity_at_ms,
            ..*old(state)
        }),
{
    let now = now_unix_ms();
    mark_window_activity_at(state, now);
}

pub fn last_window_activity_at_ms(state: &LowMemoryState) -> (r: u64)
    ensures
        r == state.last_window_activity_at_ms,
{
    state.last_window_activity_at_ms
}

/// Stamps the window activity time at start-up.
pub fn init_window_activity_timestamp(state: &mut LowMemoryState)
    ensures
        *final(state) == (LowMemoryState {
            last_window_activity_at_ms: final(state).last_window_activity_at_ms,
            ..*old(state)
        }),
{
    mark_window_activity(state);
}

/// Claims the auto-manager start: true exactly for the first claim.
pub fn try_mark_auto_manager_started(state: &mut LowMemoryState) -> (r: bool)
    ensures
        (*final(state), r) == mark_auto_manager(*old(state)),
{
    let was = state.auto_manager_started;
    state.auto_manager_started = true;
    !was
}

pub fn set_user_requested_exit(state: &mut LowMemoryState, requested: bool)
    ensures
        *final(state) == (LowMemoryState { user_requested_exit: requested, ..*old(state) }),
{
    state.user_requested_exit = requested;
}

pub fn is_user_requested_exit(state: &LowMemoryState) -> (r: bool)
    ensures
        r == state.user_requested_exit,
{
    state.user_requested_exit
}

/// Claims the exit from low-memory mode: true unless an exit is in progress.
pub fn try_start_exit_low_memory(state: &mut LowMemoryState) -> (r: bool)
    ensures
        (*final(state), r) == start_exit(*old(state)),
{
    let was = state.exiting_low_memory;
    state.exiting_low_memory = true;
    !was
}

/// Ends the exit from low-memory mode.
pub fn finish_exit_low_memory(state: &mut LowMemoryState)
    ensures
        *final(state) == finish_exit(*old(state)),
{
    state.exiting_low_memory = false;
}

/// The auto manager is claimed at most once: after any claim, every further
/// claim fails.
pub proof fn law_auto_manager_started_once(s: LowMemoryState)
    ensures
        !mark_auto_manager(mark_auto_manager(s).0).1,
        mark_auto_manager(mark_auto_manager(s).0).0 == mark_auto_manager(s).0,
{
}

/// An exit in progress blocks every other exit until it is finished; after
/// finishing, the next exit succeeds.
pub proof fn law_exit_guard(s: LowMemoryState)
    ensures
        !start_exit(start_exit(s).0).1,
        start_exit(finish_exit(start_exit(s).0)).1,
        start_exit(finish_exit(s)).1,
{
}

} // verus!
