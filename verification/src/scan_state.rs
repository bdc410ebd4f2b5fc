//! The state of a scan as a mathematical value, and the steps it can take.
//!
//! The ports of the range are dispatched in ascending order, never more at a
//! time than the concurrency allows. A dispatched port is in flight until
//! the outcome of its probe is recorded; outcomes arrive in any order. The
//! scan is over when every port of the range has been dispatched and none is
//! in flight any more.

use vstd::prelude::*;
use crate::outcome::PortOutcome;
use crate::request::ScanRequestView;
use crate::scan_result::{
    distinct_ports, is_result_of, lemma_result_members, lemma_result_of_distinct_ports,
    strictly_ascending,
};

verus! {

/// What the caller of the coordinator has to do next.
#[derive(Clone, Copy, Debug, PartialEq, Eq, Structural)]
pub enum Action {
    /// Start the probe of this port, which is in flight from now on.
    Dispatch(u16),
    /// Wait until a probe in flight has finished, and record its outcome.
    Await,
    /// Every port of the range has its outcome: the scan is over.
    Finish,
}

/// What can happen to a scan.
pub enum Event {
    /// The caller asks what to do next.
    Advance,
    /// The probe of this port has finished, and has found it open or not.
    Completed(u16, bool),
}

/// The state of a scan.
pub struct ScanState {
    /// The first port of the range.
    pub start_port: u16,
    /// The last port of the range.
    pub end_port: u16,
    /// The largest number of probes that may be in flight.
    pub concurrency: nat,
    /// How many ports have been dispatched: they are the lowest of the range.
    pub dispatched: nat,
    /// The ports whose probes have been dispatched and have not finished.
    pub in_flight: Set<u16>,
    /// The outcomes recorded so far, in the order of their arrival.
    pub outcomes: Seq<PortOutcome>,
}

impl ScanState {
    /// The number of ports in the range.
    pub open spec fn port_count(self) -> nat {
        (self.end_port - self.start_port + 1) as nat
    }

    /// The state in which a scan starts: nothing dispatched, nothing found.
    pub open spec fn initial(request: ScanRequestView) -> ScanState {
        ScanState {
            start_port: request.start_port,
            end_port: request.end_port,
            concurrency: request.concurrency,
            dispatched: 0,
            in_flight: Set::empty(),
            outcomes: Seq::empty(),
        }
    }

    /// Whether the probe of `port` has been dispatched.
    pub open spec fn is_dispatched(self, port: u16) -> bool {
        self.start_port <= port < self.start_port + self.dispatched
    }

    /// Whether an outcome has been recorded for `port`.
    pub open spec fn has_outcome(self, port: u16) -> bool {
        exists|i: int| 0 <= i < self.outcomes.len() && #[trigger] self.outcomes[i].port == port
    }

    /// Whether another probe may start: a port of the range is left, and
    /// fewer probes are in flight than the concurrency allows.
    pub open spec fn can_dispatch(self) -> bool {
        &&& self.dispatched < self.port_count()
        &&& self.in_flight.len() < self.concurrency
    }

    /// The port to dispatch next: the lowest that has not been dispatched.
    pub open spec fn next_port(self) -> u16 {
        (self.start_port + self.dispatched) as u16
    }

    /// Whether the scan is over.
    pub open spec fn finished(self) -> bool {
        &&& self.dispatched == self.port_count()
        &&& self.in_flight.len() == 0
    }

    /// What the caller has to do in this state.
    pub open spec fn action(self) -> Action {
        if self.can_dispatch() {
            Action::Dispatch(self.next_port())
        } else if self.in_flight.len() > 0 {
            Action::Await
        } else {
            Action::Finish
        }
    }

    /// The state after the caller has asked what to do: where a probe may
    /// start, the next port is in flight; otherwise nothing has changed.
    pub open spec fn advance(self) -> ScanState {
        if self.can_dispatch() {
            ScanState {
                dispatched: self.dispatched + 1,
                in_flight: self.in_flight.insert(self.next_port()),
                ..self
            }
        } else {
            self
        }
    }

    /// The state after the probe of `port` has reported `open`: the port is
    /// no longer in flight, and its outcome is the last of the outcomes. A
    /// report for a port that is not in flight changes nothing.
    pub open spec fn record(self, port: u16, open: bool) -> ScanState {
        if self.in_flight.contains(port) {
            ScanState {
                in_flight: self.in_flight.remove(port),
                outcomes: self.outcomes.push(PortOutcome { port, open }),
                ..self
            }
        } else {
            self
        }
    }

    /// The state after one event.
    pub open spec fn step(self, event: Event) -> ScanState {
        match event {
            Event::Advance => self.advance(),
            Event::Completed(port, open) => self.record(port, open),
        }
    }

    /// The state after a sequence of events.
    pub open spec fn run(self, events: Seq<Event>) -> ScanState
        decreases events.len(),
    {
        if events.len() == 0 {
            self
        } else {
            self.run(events.drop_last()).step(events.last())
        }
    }

    /// How many steps are left until the scan is over: each port of the
    /// range has yet to be dispatched, unless it was, and to get its
    /// outcome, unless it has one.
    pub open spec fn remaining_steps(self) -> int {
        2 * self.port_count() - self.dispatched - self.outcomes.len()
    }

    /// What holds of a scan at every moment. The range is not reversed and
    /// the concurrency is not zero. No more ports are dispatched than the
    /// range holds, and no more probes are in flight than the concurrency
    /// allows. Every dispatched port is either in flight or has exactly one
    /// outcome, never both, and nothing else is in flight or has an outcome.
    pub open spec fn inv(self) -> bool {
        &&& self.start_port <= self.end_port
        &&& self.concurrency >= 1
        &&& self.dispatched <= self.port_count()
        &&& self.in_flight.finite()
        &&& self.in_flight.len() <= self.concurrency
        &&& self.in_flight.len() + self.outcomes.len() == self.dispatched
        &&& distinct_ports(self.outcomes)
        &&& forall|port: u16| #[trigger]
            self.in_flight.contains(port) ==> {
                &&& self.is_dispatched(port)
                &&& !self.has_outcome(port)
            }
        &&& forall|i: int|
            0 <= i < self.outcomes.len() ==> self.is_dispatched(#[trigger] self.outcomes[i].port)
        &&& forall|port: u16| #[trigger]
            self.is_dispatched(port) ==> {
                ||| self.in_flight.contains(port)
                ||| self.has_outcome(port)
            }
    }

    /// The state that a scan of `request` has reached after `events`.
    pub open spec fn reached(request: ScanRequestView, events: Seq<Event>) -> ScanState {
        ScanState::initial(request).run(events)
    }
}

/// A scan starts in a state in which the invariant holds.
pub proof fn lemma_initial_inv(request: ScanRequestView)
    requires
        request.valid(),
    ensures
        ScanState::initial(request).inv(),
{
}

/// Asking what to do next keeps the invariant.
pub proof fn lemma_advance_inv(state: ScanState)
    requires
        state.inv(),
    ensures
        state.advance().inv(),
{
    if state.can_dispatch() {
        let port: u16 = state.next_port();
        let next = state.advance();
        assert(next.outcomes == state.outcomes);
        assert forall|other: u16| #[trigger] next.is_dispatched(other) implies {
            ||| next.in_flight.contains(other)
            ||| next.has_outcome(other)
        } by {
            if other != port {
                assert(state.is_dispatched(other));
            }
        }
    }
}

/// Recording an outcome keeps the invariant.
pub proof fn lemma_record_inv(state: ScanState, port: u16, open: bool)
    requires
        state.inv(),
    ensures
        state.record(port, open).inv(),
{
    if state.in_flight.contains(port) {
        let next = state.record(port, open);
        let last: int = state.outcomes.len() as int;
        assert(next.outcomes[last].port == port);
        assert forall|other: u16| #[trigger] next.is_dispatched(other) implies {
            ||| next.in_flight.contains(other)
            ||| next.has_outcome(other)
        } by {
            assert(state.is_dispatched(other));
            if other != port && !state.in_flight.contains(other) {
                let i: int = choose|i: int|
                    0 <= i < state.outcomes.len() && #[trigger] state.outcomes[i].port == other;
                assert(next.outcomes[i].port == other);
            }
        }
    }
}

/// The action fits the state. A port is dispatched only if it belongs to the
/// range and was not dispatched before; the caller is told to wait only
/// while a probe is in flight whose outcome can be recorded; and the caller
/// is told to finish exactly when the scan is over.
pub proof fn lemma_action_fits_state(state: ScanState)
    requires
        state.inv(),
    ensures
        state.action() matches Action::Dispatch(port) ==> ({
            &&& state.start_port <= port <= state.end_port
            &&& port == state.start_port + state.dispatched
            &&& !state.is_dispatched(port)
        }),
        state.action() is Await ==> exists|port: u16| state.in_flight.contains(port),
        state.action() is Finish <==> state.finished(),
{
    if state.action() is Await {
        assert(state.in_flight.contains(state.in_flight.choose()));
    }
}

/// A scan makes progress and comes to an end. Every dispatch and every
/// outcome recorded for a probe in flight takes one step off the steps that
/// are left; nothing else changes their number; and the scan is over
/// exactly when none is left.
pub proof fn lemma_progress(state: ScanState, event: Event)
    requires
        state.inv(),
    ensures
        0 <= state.remaining_steps() <= 2 * state.port_count(),
        state.finished() <==> state.remaining_steps() == 0,
        state.step(event) == state ==> ({
            state.step(event).remaining_steps() == state.remaining_steps()
        }),
        state.step(event) != state ==> ({
            state.step(event).remaining_steps() == state.remaining_steps() - 1
        }),
        event is Advance && state.can_dispatch() ==> state.step(event) != state,
        event matches Event::Completed(port, _) && state.in_flight.contains(port) ==> ({
            state.step(event) != state
        }),
{
}

/// The invariant holds in every state that a scan can reach.
pub proof fn lemma_reached_inv(request: ScanRequestView, events: Seq<Event>)
    requires
        request.valid(),
    ensures
        ScanState::reached(request, events).inv(),
    decreases events.len(),
{
    if events.len() == 0 {
        lemma_initial_inv(request);
    } else {
        lemma_reached_inv(request, events.drop_last());
        let before = ScanState::reached(request, events.drop_last());
        match events.last() {
            Event::Advance => lemma_advance_inv(before),
            Event::Completed(port, open) => lemma_record_inv(before, port, open),
        }
    }
}

/// The range and the concurrency of a scan never change.
pub proof fn lemma_reached_keeps_request(request: ScanRequestView, events: Seq<Event>)
    ensures
        ScanState::reached(request, events).start_port == request.start_port,
        ScanState::reached(request, events).end_port == request.end_port,
        ScanState::reached(request, events).concurrency == request.concurrency,
    decreases events.len(),
{
    if events.len() > 0 {
        lemma_reached_keeps_request(request, events.drop_last());
    }
}

/// At no moment of a scan are more probes in flight than the concurrency of
/// the request allows, whatever happens and in whatever order.
pub proof fn lemma_in_flight_within_concurrency(request: ScanRequestView, events: Seq<Event>)
    requires
        request.valid(),
    ensures
        ScanState::reached(request, events).in_flight.len() <= request.concurrency,
{
    lemma_reached_inv(request, events);
    lemma_reached_keeps_request(request, events);
}

/// When the invariant holds and the scan is over, each port of the range
/// has been dispatched and has exactly one outcome, and there is no other
/// outcome.
pub proof fn lemma_finished_is_complete(state: ScanState)
    requires
        state.inv(),
        state.finished(),
    ensures
        state.dispatched == state.end_port - state.start_port + 1,
        state.outcomes.len() == state.end_port - state.start_port + 1,
        distinct_ports(state.outcomes),
        forall|i: int|
            0 <= i < state.outcomes.len() ==> ({
                state.start_port <= (#[trigger] state.outcomes[i]).port <= state.end_port
            }),
        forall|port: u16|
            state.start_port <= port <= state.end_port ==> #[trigger] state.has_outcome(port),
{
    assert forall|port: u16| state.start_port <= port <= state.end_port implies {
        #[trigger] state.has_outcome(port)
    } by {
        assert(state.is_dispatched(port));
    }
}

/// However a scan of a valid request has run, once it is over one probe has
/// been dispatched for each port of the range, from the first to the last,
/// and each of these ports has exactly one outcome: none is missing, none
/// occurs twice, and no outcome concerns another port.
pub proof fn lemma_finished_scan_covers_range(request: ScanRequestView, events: Seq<Event>)
    requires
        request.valid(),
        ScanState::reached(request, events).finished(),
    ensures
        ScanState::reached(request, events).dispatched == request.end_port - request.start_port
            + 1,
        ScanState::reached(request, events).outcomes.len() == request.end_port
            - request.start_port + 1,
        distinct_ports(ScanState::reached(request, events).outcomes),
        forall|i: int|
            0 <= i < ScanState::reached(request, events).outcomes.len() ==> ({
                request.start_port <= (#[trigger] ScanState::reached(
                    request,
                    events,
                ).outcomes[i]).port <= request.end_port
            }),
        forall|port: u16|
            request.start_port <= port <= request.end_port ==> ({
                #[trigger] ScanState::reached(request, events).has_outcome(port)
            }),
{
    lemma_reached_inv(request, events);
    lemma_reached_keeps_request(request, events);
    lemma_finished_is_complete(ScanState::reached(request, events));
}

/// The result of a scan that is over holds exactly the ports of the range
/// that the network answered on: where each probe reported what `is_open`
/// says of its port, the result is the ascending sequence, without
/// repetition, of the ports of the range for which `is_open` holds.
pub proof fn lemma_finished_scan_result(
    state: ScanState,
    result: Seq<u16>,
    is_open: spec_fn(u16) -> bool,
)
    requires
        state.inv(),
        state.finished(),
        is_result_of(result, state.outcomes),
        forall|i: int|
            0 <= i < state.outcomes.len() ==> ({
                (#[trigger] state.outcomes[i]).open == is_open(state.outcomes[i].port)
            }),
    ensures
        strictly_ascending(result),
        forall|port: u16|
            result.contains(port) <==> ({
                &&& state.start_port <= port <= state.end_port
                &&& is_open(port)
            }),
{
    lemma_finished_is_complete(state);
    lemma_result_members(result, state.outcomes);
    lemma_result_of_distinct_ports(result, state.outcomes);
    assert forall|port: u16|
        result.contains(port) <==> {
            &&& state.start_port <= port <= state.end_port
            &&& is_open(port)
        } by {
        if state.start_port <= port <= state.end_port && is_open(port) {
            assert(state.has_outcome(port));
        }
    }
}

} // verus!
