//! The decision logic of a TCP port scanner with bounded concurrency.
//!
//! Given a host and a range of ports, a scan finds out which ports accept a
//! TCP connection within a deadline, and reports them in ascending order.
//! This library holds every decision of such a scan and none of its input
//! and output: its caller resolves names, opens connections and prints.
//!
//! - A [`ScanRequest`] is a scan that was found valid.
//! - A [`Coordinator`] says which probe to start next, when to wait for a
//!   probe in flight, and when the scan is over; it keeps the number of
//!   probes in flight within the concurrency of the request.
//! - A [`Probe`] says, for one port, which candidate address to try next,
//!   and whether the port is open: it is at the first connection
//!   established, and it is not when every candidate has failed.
//! - A [`ScanResult`] holds the ports found open, sorted ascending in
//!   whatever order the probes finished.
//! - [`report`] writes the banner and the list of open ports.

pub mod coordinator;
pub mod decimal;
pub mod outcome;
pub mod probe;
pub mod report;
pub mod request;
pub mod scan_result;
pub mod scan_state;

pub use coordinator::Coordinator;
pub use outcome::PortOutcome;
pub use probe::{Probe, ProbeStep};
pub use request::{ScanRequest, ValidationError};
pub use scan_result::ScanResult;
pub use scan_state::Action;
