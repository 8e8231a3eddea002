//! The shutdown signal that every engine, session and stream observes.
//!
//! The signal is a plain value. Whoever shares it between threads or tasks
//! puts it behind a lock of their own and wakes what is blocked; the rules
//! of the signal itself are here.

use vstd::prelude::*;

verus! {

/// A request to shut down, which can be made and never taken back.
#[derive(Debug, Clone, Copy, PartialEq, Eq, Structural)]
pub struct Shutdown {
    cancelled: bool,
}

/// What a long-lived loop does next.
#[derive(Debug, Clone, Copy, PartialEq, Eq, Structural)]
pub enum LoopStep {
    /// Go on: accept, read or write once more.
    Continue,
    /// Stop taking new work and close in good order.
    Drain,
}

impl View for Shutdown {
    type V = bool;

    /// Whether shutdown has been asked for.
    closed spec fn view(&self) -> bool {
        self.cancelled
    }
}

impl Shutdown {
    /// A signal that nobody has raised.
    pub fn new() -> (s: Shutdown)
        ensures
            !s@,
    {
        Shutdown { cancelled: false }
    }

    /// Asks for shutdown. The result says whether this call was the first
    /// to do so; asking again changes nothing.
    pub fn cancel(&mut self) -> (first: bool)
        ensures
            final(self)@,
            first == !old(self)@,
    {
        let first = !self.cancelled;
        self.cancelled = true;
        first
    }

    /// Whether shutdown has been asked for. Never blocks.
    pub fn is_cancelled(&self) -> (b: bool)
        ensures
            b == self@,
    {
        self.cancelled
    }

    /// What a loop does at its next blocking point: it goes on until
    /// shutdown has been asked for, and drains from then on.
    pub fn next_step(&self) -> (step: LoopStep)
        ensures
            step == (if self@ {
                LoopStep::Drain
            } else {
                LoopStep::Continue
            }),
    {
        if self.cancelled {
            LoopStep::Drain
        } else {
            LoopStep::Continue
        }
    }
}

} // verus!
