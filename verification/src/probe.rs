//! Probing one port: which candidate address to try next, and when to stop.
//!
//! A host name resolves to a sequence of candidate socket addresses. The
//! prober attempts a TCP connection to each in resolution order, every
//! attempt bounded by the deadline, and stops at the first that succeeds.
//! A [`Probe`] holds the decisions of that loop; the caller resolves the
//! name, makes the connection attempts and reports how each one ended.

use vstd::prelude::*;
use vstd::string::*;
use crate::decimal::{decimal, decimal_string};

verus! {

/// What the prober has to do next.
#[derive(Clone, Copy, Debug, PartialEq, Eq, Structural)]
pub enum ProbeStep {
    /// Attempt a connection to the candidate address with this index, counted
    /// from zero in resolution order.
    Connect(usize),
    /// The probe is over, and this is whether the port is open.
    Done(bool),
}

/// The state of a probe.
pub struct ProbeState {
    /// How many candidate addresses the resolution gave.
    pub candidates: nat,
    /// How many connection attempts have ended: one for each of the first
    /// candidates.
    pub attempts: nat,
    /// Whether the last of these attempts established a connection.
    pub connected: bool,
}

impl ProbeState {
    /// The state before the first attempt.
    pub open spec fn initial(candidates: nat) -> ProbeState {
        ProbeState { candidates, attempts: 0, connected: false }
    }

    /// No candidate is tried twice, and a connection takes an attempt.
    pub open spec fn inv(self) -> bool {
        &&& self.attempts <= self.candidates
        &&& self.connected ==> self.attempts >= 1
    }

    /// What the prober has to do in this state: nothing more once a
    /// connection was established, else attempt the first candidate not yet
    /// tried, and give up when none is left.
    pub open spec fn step(self) -> ProbeStep {
        if self.connected {
            ProbeStep::Done(true)
        } else if self.attempts < self.candidates {
            ProbeStep::Connect(self.attempts as usize)
        } else {
            ProbeStep::Done(false)
        }
    }

    /// The state after the attempt that was due has ended as `connected`
    /// says. Where no attempt was due, nothing changes.
    pub open spec fn after(self, connected: bool) -> ProbeState {
        if self.step() is Connect {
            ProbeState { attempts: self.attempts + 1, connected, ..self }
        } else {
            self
        }
    }

    /// The state in which the probe ends when each attempt ends as
    /// `reachable` says of the candidate concerned.
    pub open spec fn run(self, reachable: Seq<bool>) -> ProbeState
        decreases self.candidates - self.attempts,
    {
        if self.inv() && self.step() is Connect {
            self.after(reachable[self.attempts as int]).run(reachable)
        } else {
            self
        }
    }
}

/// Whether any candidate address accepts a connection, where `reachable[i]`
/// says so of the candidate with index `i`.
pub open spec fn any_reachable(reachable: Seq<bool>) -> bool {
    exists|i: int| 0 <= i < reachable.len() && reachable[i]
}

/// How many connection attempts a probe makes: up to and including the first
/// candidate that accepts, or all of them where none does.
pub open spec fn attempts_needed(reachable: Seq<bool>) -> nat
    decreases reachable.len(),
{
    if reachable.len() == 0 {
        0
    } else if reachable[0] {
        1
    } else {
        1 + attempts_needed(reachable.drop_first())
    }
}

/// The progress of one probe.
#[derive(Clone, Copy, Debug)]
pub struct Probe {
    candidates: usize,
    attempts: usize,
    connected: bool,
}

impl View for Probe {
    type V = ProbeState;

    closed spec fn view(&self) -> ProbeState {
        ProbeState {
            candidates: self.candidates as nat,
            attempts: self.attempts as nat,
            connected: self.connected,
        }
    }
}

impl Probe {
    /// The invariant of a probe holds.
    pub open spec fn wf(&self) -> bool {
        self@.inv()
    }

    /// A probe of a host that resolved to `candidates` addresses. With no
    /// address it is over at once, and the port counts as closed.
    pub fn new(candidates: usize) -> (probe: Probe)
        ensures
            probe.wf(),
            probe@ == ProbeState::initial(candidates as nat),
    {
        Probe { candidates, attempts: 0, connected: false }
    }

    /// A probe of a host whose name could not be resolved. It is over at
    /// once, and the port counts as closed.
    pub fn unresolved() -> (probe: Probe)
        ensures
            probe.wf(),
            probe@ == ProbeState::initial(0),
            probe@.step() == ProbeStep::Done(false),
    {
        Probe { candidates: 0, attempts: 0, connected: false }
    }

    /// What to do next: attempt the first candidate not yet tried, or stop.
    /// The probe stops with the port open as soon as one attempt has
    /// established a connection, and with the port closed once every
    /// candidate has failed.
    pub fn next_step(&self) -> (step: ProbeStep)
        requires
            self.wf(),
        ensures
            step == self@.step(),
    {
        if self.connected {
            ProbeStep::Done(true)
        } else if self.attempts < self.candidates {
            ProbeStep::Connect(self.attempts)
        } else {
            ProbeStep::Done(false)
        }
    }

    /// Takes note of how the attempt that `next_step` asked for has ended:
    /// `connected` is true where the connection was established before the
    /// deadline, false where it was refused, unreachable or timed out.
    /// Returns whether an attempt was due; where none was, nothing changes.
    pub fn record(&mut self, connected: bool) -> (due: bool)
        requires
            old(self).wf(),
        ensures
            final(self).wf(),
            due == (old(self)@.step() is Connect),
            final(self)@ == old(self)@.after(connected),
    {
        if self.connected || self.attempts >= self.candidates {
            false
        } else {
            self.attempts = self.attempts + 1;
            self.connected = connected;
            true
        }
    }
}

/// A probe that has only seen failures ends by saying whether one of the
/// candidates still untried accepts a connection, after as many further
/// attempts as it takes to find the first of them.
proof fn lemma_run_from(state: ProbeState, reachable: Seq<bool>)
    requires
        state.inv(),
        !state.connected,
        state.candidates == reachable.len(),
    ensures
        state.run(reachable).inv(),
        state.run(reachable).candidates == state.candidates,
        state.run(reachable).step() == ProbeStep::Done(
            exists|i: int| state.attempts <= i < reachable.len() && reachable[i],
        ),
        state.run(reachable).attempts == state.attempts + attempts_needed(
            reachable.skip(state.attempts as int),
        ),
    decreases reachable.len() - state.attempts,
{
    let tried: int = state.attempts as int;
    let rest = reachable.skip(tried);
    if state.step() is Connect {
        let next = state.after(reachable[tried]);
        if reachable[tried] {
            assert(next.run(reachable) == next);
        } else {
            lemma_run_from(next, reachable);
            assert(rest.drop_first() =~= reachable.skip(tried + 1));
        }
    }
}

/// A probe whose attempts end as `reachable` says finds the port open
/// exactly if some candidate accepts a connection. It tries the candidates
/// in resolution order up to the first that accepts, and none after it, so
/// that it never makes more attempts than there are candidates.
pub proof fn lemma_run_outcome(reachable: Seq<bool>)
    ensures
        ProbeState::initial(reachable.len()).run(reachable).step() == ProbeStep::Done(
            any_reachable(reachable),
        ),
        ProbeState::initial(reachable.len()).run(reachable).attempts == attempts_needed(
            reachable,
        ),
        attempts_needed(reachable) <= reachable.len(),
{
    lemma_run_from(ProbeState::initial(reachable.len()), reachable);
    assert(reachable.skip(0) =~= reachable);
}

/// Probing again finds the same for as long as the listener is stable:
/// whether the port is found open depends on nothing but whether some
/// candidate address accepts a connection, whatever the number and the
/// order of the candidates.
pub proof fn lemma_probe_is_repeatable(first: Seq<bool>, second: Seq<bool>)
    requires
        any_reachable(first) == any_reachable(second),
    ensures
        ProbeState::initial(first.len()).run(first).step() == ProbeState::initial(
            second.len(),
        ).run(second).step(),
{
    lemma_run_outcome(first);
    lemma_run_outcome(second);
}

/// The text that is resolved for a probe: the host, a colon, and the port in
/// decimal notation.
pub open spec fn target_text(host: Seq<char>, port: u16) -> Seq<char> {
    host + seq![':'] + decimal(port as nat)
}

/// Builds the text to resolve for a probe of `port` on `host`.
pub fn target_address(host: &str, port: u16) -> (target: String)
    ensures
        target@ == target_text(host@, port),
{
    let mut target = host.to_owned();
    target.append(":");
    target.append(decimal_string(port as u64).as_str());
    proof {
        reveal_strlit(":");
    }
    target
}

} // verus!
