//! The outcome of probing one port.

use vstd::prelude::*;

verus! {

/// What one finished probe found: the port it concerned and whether a TCP
/// connection could be established to it before the deadline.
#[derive(Clone, Copy, Debug, PartialEq, Eq, Structural)]
pub struct PortOutcome {
    pub port: u16,
    pub open: bool,
}

impl PortOutcome {
    /// Pairs a port with the verdict of its probe.
    pub fn new(port: u16, open: bool) -> (outcome: PortOutcome)
        ensures
            outcome.port == port,
            outcome.open == open,
    {
        PortOutcome { port, open }
    }
}

} // verus!
