//! Which console and process signals ask the daemon to shut down.
use vstd::prelude::*;

verus! {

/// The Windows console events that ask the daemon to shut down: Ctrl+C,
/// Ctrl+Break, closing the console, logging off and system shutdown.
pub open spec fn is_shutdown_event(event: u32) -> bool {
    event == 0 || event == 1 || event == 2 || event == 5 || event == 6
}

/// Whether a Windows console event asks the daemon to shut down (the event
/// is then handled).
pub fn console_event_requests_shutdown(event: u32) -> (r: bool)
    ensures
        r == is_shutdown_event(event),
{
    event == 0 || event == 1 || event == 2 || event == 5 || event == 6
}

/// The Unix signals on which the daemon shuts down: SIGINT and SIGTERM.
pub open spec fn is_shutdown_signal(signal: i32) -> bool {
    signal == 2 || signal == 15
}

/// Whether a Unix signal asks the daemon to shut down.
pub fn signal_requests_shutdown(signal: i32) -> (r: bool)
    ensures
        r == is_shutdown_signal(signal),
{
    signal == 2 || signal == 15
}

} // verus!
