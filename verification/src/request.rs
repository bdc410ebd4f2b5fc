//! A validated request to scan a range of ports on one host.

use vstd::prelude::*;
use vstd::string::*;

verus! {

/// Why a scan was not accepted.
#[derive(Clone, Copy, Debug, PartialEq, Eq, Structural)]
pub enum ValidationError {
    /// The first port of the range lies above the last.
    ReversedRange,
    /// No probe at all would be allowed in flight.
    ZeroConcurrency,
}

/// The first port of the range where the user names none.
pub const DEFAULT_START_PORT: u16 = 1;

/// The last port of the range where the user names none.
pub const DEFAULT_END_PORT: u16 = 1024;

/// The concurrency where the user names none.
pub const DEFAULT_CONCURRENCY: usize = 100;

/// The deadline of a connection attempt, in milliseconds, where the user
/// names none.
pub const DEFAULT_TIMEOUT_MILLIS: u64 = 300;

/// The ports from `first` to `last`, both included, in ascending order. The
/// range is empty where `first` lies above `last`.
pub open spec fn port_range(first: u16, last: u16) -> Seq<u16> {
    if first <= last {
        Seq::new((last - first + 1) as nat, |i: int| (first + i) as u16)
    } else {
        Seq::empty()
    }
}

/// What a request holds, as plain values.
pub struct ScanRequestView {
    pub host: Seq<char>,
    pub start_port: u16,
    pub end_port: u16,
    pub concurrency: nat,
    pub timeout_millis: u64,
}

impl ScanRequestView {
    /// The range is not reversed, and at least one probe may be in flight.
    pub open spec fn valid(self) -> bool {
        &&& self.start_port <= self.end_port
        &&& self.concurrency >= 1
    }

    /// The ports to probe, in the order in which they are dispatched.
    pub open spec fn ports(self) -> Seq<u16> {
        port_range(self.start_port, self.end_port)
    }

    /// The number of ports to probe.
    pub open spec fn port_count(self) -> nat {
        (self.end_port - self.start_port + 1) as nat
    }
}

/// A scan to carry out: the host, the inclusive range of ports, the largest
/// number of probes in flight at any time, and the deadline of each
/// connection attempt in milliseconds.
#[derive(Clone, Debug)]
pub struct ScanRequest {
    host: String,
    start_port: u16,
    end_port: u16,
    concurrency: usize,
    timeout_millis: u64,
}

impl View for ScanRequest {
    type V = ScanRequestView;

    closed spec fn view(&self) -> ScanRequestView {
        ScanRequestView {
            host: self.host@,
            start_port: self.start_port,
            end_port: self.end_port,
            concurrency: self.concurrency as nat,
            timeout_millis: self.timeout_millis,
        }
    }
}

impl ScanRequest {
    /// Every request that exists is valid.
    pub open spec fn wf(&self) -> bool {
        self@.valid()
    }

    /// Accepts a scan of the ports from `start_port` to `end_port` on `host`
    /// with at most `concurrency` probes in flight. A reversed range is
    /// refused, and so is a concurrency of zero, with which no probe could
    /// ever start; the range is looked at first.
    pub fn new(
        host: String,
        start_port: u16,
        end_port: u16,
        concurrency: usize,
        timeout_millis: u64,
    ) -> (checked: Result<ScanRequest, ValidationError>)
        ensures
            (match checked {
                Ok(request) => {
                    &&& start_port <= end_port
                    &&& concurrency >= 1
                    &&& request.wf()
                    &&& request@ == (ScanRequestView {
                        host: host@,
                        start_port,
                        end_port,
                        concurrency: concurrency as nat,
                        timeout_millis,
                    })
                },
                Err(ValidationError::ReversedRange) => start_port > end_port,
                Err(ValidationError::ZeroConcurrency) => start_port <= end_port && concurrency == 0,
            }),
    {
        if start_port > end_port {
            Err(ValidationError::ReversedRange)
        } else if concurrency == 0 {
            Err(ValidationError::ZeroConcurrency)
        } else {
            Ok(ScanRequest { host, start_port, end_port, concurrency, timeout_millis })
        }
    }

    /// The scan of `host` that is made where the user names nothing else:
    /// the ports from 1 to 1024, at most 100 probes in flight, and 300
    /// milliseconds for each connection attempt.
    pub fn with_defaults(host: String) -> (request: ScanRequest)
        ensures
            request.wf(),
            request@ == (ScanRequestView {
                host: host@,
                start_port: 1,
                end_port: 1024,
                concurrency: 100,
                timeout_millis: 300,
            }),
    {
        ScanRequest {
            host,
            start_port: DEFAULT_START_PORT,
            end_port: DEFAULT_END_PORT,
            concurrency: DEFAULT_CONCURRENCY,
            timeout_millis: DEFAULT_TIMEOUT_MILLIS,
        }
    }

    /// The host to scan: a name or a literal address.
    pub fn host(&self) -> (host: &str)
        ensures
            host@ == self@.host,
    {
        self.host.as_str()
    }

    /// The first port of the range.
    pub fn start_port(&self) -> (port: u16)
        ensures
            port == self@.start_port,
    {
        self.start_port
    }

    /// The last port of the range.
    pub fn end_port(&self) -> (port: u16)
        ensures
            port == self@.end_port,
    {
        self.end_port
    }

    /// The largest number of probes that may be in flight at any time.
    pub fn concurrency(&self) -> (limit: usize)
        ensures
            limit == self@.concurrency,
    {
        self.concurrency
    }

    /// The deadline of each connection attempt, in milliseconds.
    pub fn timeout_millis(&self) -> (millis: u64)
        ensures
            millis == self@.timeout_millis,
    {
        self.timeout_millis
    }

    /// The number of ports in the range: one probe is dispatched for each.
    pub fn port_count(&self) -> (count: u32)
        requires
            self.wf(),
        ensures
            count == self@.port_count(),
            count == self@.end_port - self@.start_port + 1,
            1 <= count <= 65536,
    {
        (self.end_port - self.start_port) as u32 + 1
    }

    /// The ports of the range in dispatch order: ascending, each once, from
    /// the first to the last.
    pub fn ports(&self) -> (ports: Vec<u16>)
        requires
            self.wf(),
        ensures
            ports@ == self@.ports(),
            ports@.len() == self@.port_count(),
            forall|i: int| 0 <= i < ports@.len() ==> ports@[i] == self@.start_port + i,
    {
        let mut ports: Vec<u16> = Vec::new();
        let mut port: u16 = self.start_port;
        while port < self.end_port
            invariant
                self.start_port <= port <= self.end_port,
                ports@.len() == port - self.start_port,
                forall|i: int| 0 <= i < ports@.len() ==> ports@[i] == self.start_port + i,
            decreases self.end_port - port,
        {
            ports.push(port);
            port = port + 1;
        }
        ports.push(port);
        ports
    }
}

/// A range that is not reversed holds each of its ports exactly once, in
/// ascending order, and no other port: the two bounds are among them, be
/// they the lowest and the highest port there is.
pub proof fn lemma_port_range(first: u16, last: u16)
    requires
        first <= last,
    ensures
        port_range(first, last).len() == last - first + 1,
        port_range(first, last).first() == first,
        port_range(first, last).last() == last,
        port_range(first, last).no_duplicates(),
        forall|i: int, j: int|
            0 <= i < j < port_range(first, last).len() ==> port_range(first, last)[i] < port_range(
                first,
                last,
            )[j],
        forall|port: u16|
            port_range(first, last).contains(port) <==> first <= port <= last,
{
    let range = port_range(first, last);
    assert forall|port: u16| range.contains(port) <==> first <= port <= last by {
        if first <= port <= last {
            assert(range[port - first] == port);
        }
    }
}

} // verus!
