//! The scan coordinator: which probe to start, when to wait, when to stop.
//!
//! The coordinator holds the state of one scan. Its caller runs the probes:
//! it asks for the next action, starts the probe of a port when told to,
//! waits for a probe in flight when told to, and records each outcome as it
//! arrives. No probe is started beyond the concurrency of the request, and
//! the result is made only when every port of the range has its outcome.

use vstd::prelude::*;
use crate::outcome::PortOutcome;
use crate::request::ScanRequest;
use crate::scan_result::{ScanResult, is_result_of, strictly_ascending};
use crate::scan_state::{
    Action, ScanState, lemma_advance_inv, lemma_finished_is_complete, lemma_initial_inv,
    lemma_record_inv,
};

verus! {

/// The state of one scan.
#[derive(Debug)]
pub struct Coordinator {
    start_port: u16,
    end_port: u16,
    concurrency: usize,
    /// How many ports have been dispatched: the lowest of the range.
    dispatched: u32,
    /// The ports in flight, each once.
    in_flight: Vec<u16>,
    /// The outcomes in the order of their arrival.
    outcomes: Vec<PortOutcome>,
}

impl View for Coordinator {
    type V = ScanState;

    closed spec fn view(&self) -> ScanState {
        ScanState {
            start_port: self.start_port,
            end_port: self.end_port,
            concurrency: self.concurrency as nat,
            dispatched: self.dispatched as nat,
            in_flight: self.in_flight@.to_set(),
            outcomes: self.outcomes@,
        }
    }
}

/// Where `port` stands among `ports`, if it is there.
fn position(ports: &Vec<u16>, port: u16) -> (found: Option<usize>)
    ensures
        found is Some <==> ports@.contains(port),
        found matches Some(i) ==> i < ports@.len() && ports@[i as int] == port,
{
    let mut i: usize = 0;
    while i < ports.len()
        invariant
            i <= ports@.len(),
            forall|k: int| 0 <= k < i ==> ports@[k] != port,
        decreases ports@.len() - i,
    {
        if ports[i] == port {
            return Some(i);
        }
        i = i + 1;
    }
    None
}

/// Taking one element out of a sequence without duplicates takes it out of
/// the set of its elements, and leaves a sequence without duplicates.
proof fn lemma_remove_distinct(ports: Seq<u16>, i: int)
    requires
        ports.no_duplicates(),
        0 <= i < ports.len(),
    ensures
        ports.remove(i).no_duplicates(),
        ports.remove(i).to_set() == ports.to_set().remove(ports[i]),
{
    let rest = ports.remove(i);
    let others = ports.to_set().remove(ports[i]);
    assert forall|port: u16| rest.to_set().contains(port) <==> others.contains(port) by {
        if ports.contains(port) && port != ports[i] {
            let k: int = choose|k: int| 0 <= k < ports.len() && ports[k] == port;
            if k < i {
                assert(rest[k] == port);
            } else {
                assert(rest[k - 1] == port);
            }
        }
    }
}

impl Coordinator {
    /// The ports in flight are held once each.
    pub closed spec fn in_flight_distinct(&self) -> bool {
        self.in_flight@.no_duplicates()
    }

    /// The invariant of a scan holds.
    pub open spec fn wf(&self) -> bool {
        &&& self@.inv()
        &&& self.in_flight_distinct()
    }

    /// Starts the scan that `request` asks for: nothing is dispatched yet.
    pub fn new(request: &ScanRequest) -> (coordinator: Coordinator)
        requires
            request.wf(),
        ensures
            coordinator.wf(),
            coordinator@ == ScanState::initial(request@),
    {
        let coordinator = Coordinator {
            start_port: request.start_port(),
            end_port: request.end_port(),
            concurrency: request.concurrency(),
            dispatched: 0,
            in_flight: Vec::new(),
            outcomes: Vec::new(),
        };
        proof {
            lemma_initial_inv(request@);
            assert(coordinator.in_flight@.to_set() =~= Set::<u16>::empty());
        }
        coordinator
    }

    /// Says what to do next. While a port of the range is left and fewer
    /// probes are in flight than the concurrency allows, the answer is to
    /// dispatch the lowest port left, which is in flight from this call on.
    /// Otherwise the answer is to await a probe in flight, or, where none is
    /// in flight, to finish; the state is then unchanged.
    pub fn next_action(&mut self) -> (action: Action)
        requires
            old(self).wf(),
        ensures
            final(self).wf(),
            action == old(self)@.action(),
            final(self)@ == old(self)@.advance(),
    {
        proof {
            self.in_flight@.unique_seq_to_set();
            lemma_advance_inv(self@);
        }
        let count: u32 = (self.end_port - self.start_port) as u32 + 1;
        if self.dispatched < count && self.in_flight.len() < self.concurrency {
            let port: u16 = (self.start_port as u32 + self.dispatched) as u16;
            proof {
                self.in_flight@.lemma_push_to_set_commute(port);
            }
            self.in_flight.push(port);
            self.dispatched = self.dispatched + 1;
            Action::Dispatch(port)
        } else if self.in_flight.len() > 0 {
            Action::Await
        } else {
            Action::Finish
        }
    }

    /// Records that the probe of `port` has finished and found the port
    /// open, or not. The port is then no longer in flight, and its outcome
    /// is the last of the outcomes. Returns whether the port was in flight;
    /// a report for a port that was not changes nothing.
    pub fn record(&mut self, port: u16, open: bool) -> (accepted: bool)
        requires
            old(self).wf(),
        ensures
            final(self).wf(),
            accepted == old(self)@.in_flight.contains(port),
            final(self)@ == old(self)@.record(port, open),
    {
        proof {
            lemma_record_inv(self@, port, open);
        }
        match position(&self.in_flight, port) {
            Some(i) => {
                proof {
                    lemma_remove_distinct(self.in_flight@, i as int);
                }
                self.in_flight.remove(i);
                self.outcomes.push(PortOutcome { port, open });
                true
            },
            None => false,
        }
    }

    /// Whether the scan is over: every port of the range has been
    /// dispatched, and no probe is in flight.
    pub fn is_finished(&self) -> (finished: bool)
        requires
            self.wf(),
        ensures
            finished == self@.finished(),
    {
        proof {
            self.in_flight@.unique_seq_to_set();
        }
        let count: u32 = (self.end_port - self.start_port) as u32 + 1;
        self.dispatched == count && self.in_flight.len() == 0
    }

    /// The result of the scan, once it is over: the ports of the range that
    /// were found open, in ascending order, each once. Before that there is
    /// no result.
    pub fn finish(&self) -> (result: Option<ScanResult>)
        requires
            self.wf(),
        ensures
            result is Some <==> self@.finished(),
            result matches Some(found) ==> ({
                &&& found.wf()
                &&& is_result_of(found@, self@.outcomes)
                &&& strictly_ascending(found@)
                &&& forall|port: u16|
                    found@.contains(port) <==> self@.outcomes.contains(
                        PortOutcome { port, open: true },
                    )
                &&& forall|port: u16|
                    found@.contains(port) ==> self@.start_port <= port <= self@.end_port
            }),
    {
        if self.is_finished() {
            let found = ScanResult::from_outcomes(&self.outcomes);
            proof {
                lemma_finished_is_complete(self@);
            }
            Some(found)
        } else {
            None
        }
    }

    /// The number of probes dispatched so far.
    pub fn dispatched_count(&self) -> (count: u32)
        ensures
            count == self@.dispatched,
    {
        self.dispatched
    }

    /// The number of probes in flight.
    pub fn in_flight_count(&self) -> (count: usize)
        requires
            self.wf(),
        ensures
            count == self@.in_flight.len(),
            count <= self@.concurrency,
    {
        proof {
            self.in_flight@.unique_seq_to_set();
        }
        self.in_flight.len()
    }

    /// The outcomes recorded so far, in the order of their arrival.
    pub fn outcomes(&self) -> (outcomes: &Vec<PortOutcome>)
        ensures
            outcomes@ == self@.outcomes,
    {
        &self.outcomes
    }
}

} // verus!
