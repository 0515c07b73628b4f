use crate::app::KeyEvent;
use vstd::prelude::*;

verus! {

/// Terminal events.
#[derive(Debug, Clone, Copy)]
pub enum Event {
    /// Terminal tick.
    Tick,
    /// Key press.
    Key(KeyEvent),
    /// Terminal resize.
    Resize(u16, u16),
}

/// How long to wait for input before the next tick is due: what is left of
/// the tick period, or nothing once it has passed (durations in nanoseconds).
pub fn poll_timeout(tick_rate: u128, elapsed: u128) -> (r: u128)
    ensures
        r == (if elapsed <= tick_rate {
            tick_rate - elapsed
        } else {
            0
        }),
{
    if elapsed <= tick_rate {
        tick_rate - elapsed
    } else {
        0
    }
}

/// Whether a tick is due once `elapsed` has passed since the last one.
pub fn tick_due(elapsed: u128, tick_rate: u128) -> (r: bool)
    ensures
        r == (elapsed >= tick_rate),
{
    elapsed >= tick_rate
}

} // verus!
