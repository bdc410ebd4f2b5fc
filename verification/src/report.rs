//! What a scan tells its user: a banner before it starts, and the list of
//! open ports when it is over.

use vstd::prelude::*;
use vstd::string::*;
use crate::decimal::{decimal, decimal_string};
use crate::outcome::PortOutcome;
use crate::request::{ScanRequest, ScanRequestView, ValidationError};
use crate::scan_result::{ScanResult, is_result_of, lemma_result_members};

verus! {

/// The banner of a scan: host, range, concurrency and deadline.
pub open spec fn banner_text(request: ScanRequestView) -> Seq<char> {
    "Scanning "@ + request.host + " from "@ + decimal(request.start_port as nat) + " to "@
        + decimal(request.end_port as nat) + " (concurrency="@ + decimal(request.concurrency)
        + ", timeout="@ + decimal(request.timeout_millis as nat) + "ms)..."@
}

/// The line that lists one open port.
pub open spec fn port_line(port: u16) -> Seq<char> {
    "  - "@ + decimal(port as nat)
}

/// The report of a scan, line by line. Where no port is open it is one line
/// that says so; otherwise a heading, and one line for each open port in
/// the order of the result.
pub open spec fn report_text(ports: Seq<u16>) -> Seq<Seq<char>> {
    if ports.len() == 0 {
        seq!["No open TCP ports found in range."@]
    } else {
        seq!["Open TCP ports:"@] + ports.map_values(|port: u16| port_line(port))
    }
}

/// Why a request was refused, in words.
pub open spec fn refusal_text(error: ValidationError) -> Seq<char> {
    match error {
        ValidationError::ReversedRange => "start port must be <= end port"@,
        ValidationError::ZeroConcurrency => "concurrency must be at least 1"@,
    }
}

/// Writes the banner that announces the scan of `request`.
pub fn banner(request: &ScanRequest) -> (text: String)
    ensures
        text@ == banner_text(request@),
{
    let mut text = "Scanning ".to_owned();
    text.append(request.host());
    text.append(" from ");
    text.append(decimal_string(request.start_port() as u64).as_str());
    text.append(" to ");
    text.append(decimal_string(request.end_port() as u64).as_str());
    text.append(" (concurrency=");
    text.append(decimal_string(request.concurrency() as u64).as_str());
    text.append(", timeout=");
    text.append(decimal_string(request.timeout_millis()).as_str());
    text.append("ms)...");
    text
}

/// Writes the report of a finished scan, one string for each line.
pub fn report_lines(result: &ScanResult) -> (lines: Vec<String>)
    ensures
        lines.deep_view() == report_text(result@),
{
    let ports = result.ports();
    let mut lines: Vec<String> = Vec::new();
    if ports.len() == 0 {
        lines.push("No open TCP ports found in range.".to_owned());
    } else {
        lines.push("Open TCP ports:".to_owned());
        let mut i: usize = 0;
        while i < ports.len()
            invariant
                i <= ports@.len(),
                ports@.len() > 0,
                ports@ == result@,
                lines@.len() == i + 1,
                forall|k: int| 0 <= k < lines@.len() ==> lines@[k]@ == report_text(result@)[k],
            decreases ports@.len() - i,
        {
            let mut line = "  - ".to_owned();
            line.append(decimal_string(ports[i] as u64).as_str());
            lines.push(line);
            i = i + 1;
        }
    }
    lines
}

/// Says in words why a request was refused.
pub fn refusal_message(error: ValidationError) -> (text: &'static str)
    ensures
        text@ == refusal_text(error),
{
    match error {
        ValidationError::ReversedRange => "start port must be <= end port",
        ValidationError::ZeroConcurrency => "concurrency must be at least 1",
    }
}

/// Where no probe found its port open, the result is empty, and the report
/// is the one line that says that no open port was found.
pub proof fn lemma_report_without_open_port(outcomes: Seq<PortOutcome>, ports: Seq<u16>)
    requires
        forall|i: int| 0 <= i < outcomes.len() ==> !outcomes[i].open,
        is_result_of(ports, outcomes),
    ensures
        ports.len() == 0,
        report_text(ports) == seq!["No open TCP ports found in range."@],
{
    lemma_result_members(ports, outcomes);
    if ports.len() > 0 {
        assert(ports.contains(ports[0]));
    }
}

} // verus!
