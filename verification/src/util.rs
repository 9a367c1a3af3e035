//! Input events and the settings of the event source.

use vstd::prelude::*;

verus! {

/// What the event source hands to the dashboard.
pub enum Event<I> {
    /// A key press.
    Input(I),
    /// The tick interval has passed.
    Tick,
}

/// Settings of the event source.
#[derive(Debug, Clone, Copy)]
pub struct Config {
    /// The tick interval, in milliseconds.
    pub tick_rate: u64,
}

impl Default for Config {
    /// A tick every second.
    fn default() -> (r: Config)
        ensures
            r.tick_rate == 1000,
    {
        Config { tick_rate: 1000 }
    }
}

} // verus!
