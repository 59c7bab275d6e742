//! What the device does when it starts: show the calendar or serve the configuration page.
use vstd::prelude::*;

verus! {

/// The two ways the device can run after a start.
#[derive(Clone, Copy, Debug, PartialEq, Eq, Structural)]
pub enum BootType {
    /// Draw the calendar and sleep.
    Display,
    /// Serve the configuration page.
    Config,
}

/// Why the device woke from deep sleep.
#[derive(Clone, Copy, Debug, PartialEq, Eq, Structural)]
pub enum WakeupCause {
    /// The button pin was pulled low.
    Button,
    /// The sleep timer expired.
    Timer,
    /// Anything else (power on, reset).
    Other,
}

/// The other way of running.
pub open spec fn toggled(b: BootType) -> BootType {
    match b {
        BootType::Display => BootType::Config,
        BootType::Config => BootType::Display,
    }
}

/// The other way of running, as a press of the button selects it.
pub fn toggle_boot_type(b: BootType) -> (r: BootType)
    ensures
        r == toggled(b),
        r != b,
{
    match b {
        BootType::Display => BootType::Config,
        BootType::Config => BootType::Display,
    }
}

/// The way to run after waking: the configuration page after the button, the calendar
/// after the timer, and otherwise what was chosen before.
pub fn boot_type_after_wakeup(cause: WakeupCause, current: BootType) -> (r: BootType)
    ensures
        cause == WakeupCause::Button ==> r == BootType::Config,
        cause == WakeupCause::Timer ==> r == BootType::Display,
        cause == WakeupCause::Other ==> r == current,
{
    match cause {
        WakeupCause::Button => BootType::Config,
        WakeupCause::Timer => BootType::Display,
        WakeupCause::Other => current,
    }
}

/// Pressing the button twice returns to the way of running one started with.
pub proof fn lemma_toggle_twice(b: BootType)
    ensures
        toggled(toggled(b)) == b,
{
}

} // verus!
