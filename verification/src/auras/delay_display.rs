//! The delay display: how long the log went quiet before the latest line.
use vstd::prelude::*;
use vstd::string::*;
use crate::text::{decimal, push_decimal};

verus! {

/// The last delay worth showing, in milliseconds.
pub struct State {
    pub last_delay: u32,
}

/// The text the delay window shows.
pub open spec fn delay_label(delay: u32) -> Seq<char> {
    "Current delay: "@ + decimal(delay as nat)
}

impl State {
    pub fn new() -> (s: Self)
        ensures
            s.last_delay == 0,
    {
        State { last_delay: 0 }
    }

    /// Takes in a log line that came `elapsed_ms` milliseconds after the
    /// previous one. The delay is the elapsed time cut to 32 bits, as
    /// `as u32` cuts it; a delay above 10 ms is kept for display and asks
    /// for a repaint, a shorter one is ignored.
    pub fn handle_log_line(&mut self, elapsed_ms: u128) -> (repaint: bool)
        ensures
            repaint == ((elapsed_ms as u32) > 10),
            final(self).last_delay == if repaint {
                elapsed_ms as u32
            } else {
                old(self).last_delay
            },
    {
        let delay = elapsed_ms as u32;
        if delay > 10 {
            self.last_delay = delay;
            true
        } else {
            false
        }
    }

    /// `format!("Current delay: {}", last_delay)`.
    pub fn label(&self) -> (r: String)
        ensures
            r@ == delay_label(self.last_delay),
    {
        let mut s = String::from_str("Current delay: ");
        push_decimal(&mut s, self.last_delay as u64);
        s
    }
}

} // verus!
