use crate::state::Event;
use vstd::prelude::*;

verus! {

/// The first real-time signal that is safe to use. glibc's threads take the
/// first few real-time signals for themselves, so `SIGRTMIN` may be above 32;
/// the signals below 36 are left alone.
pub const SIGRTMIN_SAFE: i32 = 36;

/// The signal that asks to move forward in the history.
pub const SIG_FORWARD: i32 = SIGRTMIN_SAFE;

/// The signal that asks to move backward in the history.
pub const SIG_BACKWARD: i32 = SIGRTMIN_SAFE + 1;

/// The signal that asks to undo the last move.
pub const SIG_LAST: i32 = SIGRTMIN_SAFE + 2;

/// The number of the interrupt signal on Linux.
pub open spec fn spec_sigint() -> i32 {
    2
}

/// Relies on signal_hook::SIGINT, which is libc's `SIGINT`: 2 on Linux.
#[verifier::external_body]
pub(crate) fn sigint() -> (r: i32)
    ensures
        r == spec_sigint(),
{
    signal_hook::SIGINT
}

/// The event that a received signal stands for, if any.
pub open spec fn spec_event_for_signal(sig: i32) -> Option<Event> {
    if sig == SIG_FORWARD {
        Some(Event::Forward)
    } else if sig == SIG_BACKWARD {
        Some(Event::Backward)
    } else if sig == SIG_LAST {
        Some(Event::Last)
    } else if sig == spec_sigint() {
        Some(Event::Exit)
    } else {
        None
    }
}

/// The signals that the program listens for.
pub fn watched_signals() -> (r: Vec<i32>)
    ensures
        r@ == seq![spec_sigint(), SIG_FORWARD, SIG_BACKWARD, SIG_LAST],
{
    vec![sigint(), SIG_FORWARD, SIG_BACKWARD, SIG_LAST]
}

/// Maps a received signal to the event it stands for; other signals map to
/// nothing.
pub fn event_for_signal(sig: i32) -> (r: Option<Event>)
    ensures
        r == spec_event_for_signal(sig),
{
    if sig == SIG_FORWARD {
        Some(Event::Forward)
    } else if sig == SIG_BACKWARD {
        Some(Event::Backward)
    } else if sig == SIG_LAST {
        Some(Event::Last)
    } else if sig == sigint() {
        Some(Event::Exit)
    } else {
        None
    }
}

} // verus!
