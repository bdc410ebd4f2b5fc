//! The result of a scan: the open ports, in ascending order.
//!
//! Probes finish in an order that nobody controls, so the outcomes arrive in
//! any order. The result is made from them by keeping the ports found open
//! and sorting these; it is the same for every order of arrival.

use vstd::prelude::*;
use vstd::seq_lib::{lemma_sorted_unique, to_multiset_build};
use crate::outcome::PortOutcome;

verus! {

/// The ports found open, in the order in which their outcomes arrived.
pub open spec fn open_ports(outcomes: Seq<PortOutcome>) -> Seq<u16> {
    outcomes.filter(|outcome: PortOutcome| outcome.open).map_values(
        |outcome: PortOutcome| outcome.port,
    )
}

/// No port comes before a smaller one.
pub open spec fn ascending(ports: Seq<u16>) -> bool {
    forall|i: int, j: int| 0 <= i <= j < ports.len() ==> ports[i] <= ports[j]
}

/// Every port is smaller than all that come after it: the ports ascend, and
/// none occurs twice.
pub open spec fn strictly_ascending(ports: Seq<u16>) -> bool {
    forall|i: int, j: int| 0 <= i < j < ports.len() ==> ports[i] < ports[j]
}

/// No two outcomes concern the same port.
pub open spec fn distinct_ports(outcomes: Seq<PortOutcome>) -> bool {
    forall|i: int, j: int|
        0 <= i < j < outcomes.len() ==> outcomes[i].port != outcomes[j].port
}

/// `ports` is the result of a scan with these outcomes: the ports found
/// open, each as often as it was found open, in ascending order.
pub open spec fn is_result_of(ports: Seq<u16>, outcomes: Seq<PortOutcome>) -> bool {
    &&& ascending(ports)
    &&& ports.to_multiset() == open_ports(outcomes).to_multiset()
}

/// The open ports of a finished scan, in ascending order.
#[derive(Clone, Debug)]
pub struct ScanResult {
    ports: Vec<u16>,
}

impl View for ScanResult {
    type V = Seq<u16>;

    closed spec fn view(&self) -> Seq<u16> {
        self.ports@
    }
}

/// Sorts `ports` in place with `sort_unstable` of the standard library's
/// slices. Taken on trust from its documentation: afterwards the elements
/// are in ascending order, and they are the elements that were there before,
/// each as often as before. On `u16` the order is total, so it does not
/// panic.
#[verifier::external_body]
fn sort_ports(ports: &mut Vec<u16>)
    ensures
        ascending(final(ports)@),
        final(ports)@.to_multiset() == old(ports)@.to_multiset(),
{
    ports.sort_unstable();
}

/// Keeps the ports found open, in the order of arrival.
pub fn collect_open_ports(outcomes: &Vec<PortOutcome>) -> (ports: Vec<u16>)
    ensures
        ports@ == open_ports(outcomes@),
{
    let mut ports: Vec<u16> = Vec::new();
    let mut i: usize = 0;
    proof {
        lemma_open_ports_empty();
    }
    while i < outcomes.len()
        invariant
            i <= outcomes@.len(),
            ports@ == open_ports(outcomes@.take(i as int)),
        decreases outcomes@.len() - i,
    {
        let outcome = outcomes[i];
        proof {
            lemma_open_ports_push(outcomes@.take(i as int), outcome);
            assert(outcomes@.take(i as int).push(outcome) =~= outcomes@.take(i + 1));
        }
        if outcome.open {
            ports.push(outcome.port);
        }
        i = i + 1;
    }
    assert(outcomes@.take(i as int) =~= outcomes@);
    ports
}

impl ScanResult {
    /// The ports are in ascending order.
    pub open spec fn wf(&self) -> bool {
        ascending(self@)
    }

    /// Makes the result of a scan from the outcomes of its probes, in
    /// whatever order they arrived: the ports found open, sorted ascending.
    /// Where no two outcomes concern the same port, no port occurs twice.
    pub fn from_outcomes(outcomes: &Vec<PortOutcome>) -> (result: ScanResult)
        ensures
            result.wf(),
            is_result_of(result@, outcomes@),
            result@.len() == open_ports(outcomes@).len(),
            forall|port: u16|
                result@.contains(port) <==> outcomes@.contains(PortOutcome { port, open: true }),
            distinct_ports(outcomes@) ==> strictly_ascending(result@),
    {
        let mut ports = collect_open_ports(outcomes);
        sort_ports(&mut ports);
        proof {
            lemma_result_len(ports@, outcomes@);
            lemma_result_members(ports@, outcomes@);
            if distinct_ports(outcomes@) {
                lemma_result_of_distinct_ports(ports@, outcomes@);
            }
        }
        ScanResult { ports }
    }

    /// The open ports, in ascending order.
    pub fn ports(&self) -> (ports: &Vec<u16>)
        ensures
            ports@ == self@,
    {
        &self.ports
    }

    /// The open ports, in ascending order.
    pub fn into_ports(self) -> (ports: Vec<u16>)
        ensures
            ports@ == self@,
    {
        self.ports
    }

    /// The number of open ports.
    pub fn len(&self) -> (count: usize)
        ensures
            count == self@.len(),
    {
        self.ports.len()
    }

    /// Whether no port was found open.
    pub fn is_empty(&self) -> (empty: bool)
        ensures
            empty == (self@.len() == 0),
    {
        self.ports.len() == 0
    }
}

/// Without outcomes no port is open.
pub proof fn lemma_open_ports_empty()
    ensures
        open_ports(Seq::<PortOutcome>::empty()) == Seq::<u16>::empty(),
{
    reveal(Seq::filter);
}

/// One more outcome adds its port behind the open ports if it found the
/// port open, and leaves them as they are if not.
pub proof fn lemma_open_ports_push(outcomes: Seq<PortOutcome>, outcome: PortOutcome)
    ensures
        open_ports(outcomes.push(outcome)) == (if outcome.open {
            open_ports(outcomes).push(outcome.port)
        } else {
            open_ports(outcomes)
        }),
{
    let found_open = |outcome: PortOutcome| outcome.open;
    let port_of = |outcome: PortOutcome| outcome.port;
    outcomes.lemma_filter_push(outcome, found_open);
    if outcome.open {
        outcomes.filter(found_open).lemma_push_map_commute(port_of, outcome);
    }
}

/// A port is among the open ports as often as an outcome that found it open
/// is among the outcomes.
pub proof fn lemma_open_ports_count(outcomes: Seq<PortOutcome>, port: u16)
    ensures
        open_ports(outcomes).to_multiset().count(port) == outcomes.to_multiset().count(
            PortOutcome { port, open: true },
        ),
    decreases outcomes.len(),
{
    broadcast use vstd::multiset::group_multiset_axioms;

    if outcomes.len() == 0 {
        lemma_open_ports_empty();
        assert(outcomes =~= Seq::<PortOutcome>::empty());
        outcomes.to_multiset_ensures();
        Seq::<u16>::empty().to_multiset_ensures();
    } else {
        let earlier = outcomes.drop_last();
        let last = outcomes.last();
        assert(outcomes =~= earlier.push(last));
        lemma_open_ports_count(earlier, port);
        lemma_open_ports_push(earlier, last);
        to_multiset_build(earlier, last);
        if last.open {
            to_multiset_build(open_ports(earlier), last.port);
        }
    }
}

/// The open ports do not depend on the order of the outcomes, but for their
/// own order: outcomes that arrived in another order give the same ports,
/// each as often.
pub proof fn lemma_open_ports_of_permutation(first: Seq<PortOutcome>, second: Seq<PortOutcome>)
    requires
        first.to_multiset() == second.to_multiset(),
    ensures
        open_ports(first).to_multiset() == open_ports(second).to_multiset(),
{
    assert forall|port: u16|
        open_ports(first).to_multiset().count(port) == open_ports(second).to_multiset().count(
            port,
        ) by {
        lemma_open_ports_count(first, port);
        lemma_open_ports_count(second, port);
    }
}

/// Two ascending sequences that hold the same ports, each as often, are
/// equal.
pub proof fn lemma_ascending_unique(first: Seq<u16>, second: Seq<u16>)
    requires
        ascending(first),
        ascending(second),
        first.to_multiset() == second.to_multiset(),
    ensures
        first == second,
{
    let at_most = |a: u16, b: u16| a <= b;
    lemma_sorted_unique(first, second, at_most);
}

/// The outcomes determine the result: there is only one.
pub proof fn lemma_result_unique(first: Seq<u16>, second: Seq<u16>, outcomes: Seq<PortOutcome>)
    requires
        is_result_of(first, outcomes),
        is_result_of(second, outcomes),
    ensures
        first == second,
{
    lemma_ascending_unique(first, second);
}

/// The result is the same in whatever order the probes finish: two scans
/// whose outcomes differ only in the order of arrival have the same result.
pub proof fn lemma_result_ignores_completion_order(
    first: Seq<PortOutcome>,
    second: Seq<PortOutcome>,
    first_result: Seq<u16>,
    second_result: Seq<u16>,
)
    requires
        first.to_multiset() == second.to_multiset(),
        is_result_of(first_result, first),
        is_result_of(second_result, second),
    ensures
        first_result == second_result,
{
    lemma_open_ports_of_permutation(first, second);
    lemma_result_unique(first_result, second_result, first);
}

/// The result holds as many ports as were found open.
pub proof fn lemma_result_len(ports: Seq<u16>, outcomes: Seq<PortOutcome>)
    requires
        is_result_of(ports, outcomes),
    ensures
        ports.len() == open_ports(outcomes).len(),
{
    ports.to_multiset_ensures();
    open_ports(outcomes).to_multiset_ensures();
}

/// A port is in the result exactly if an outcome found it open.
pub proof fn lemma_result_members(ports: Seq<u16>, outcomes: Seq<PortOutcome>)
    requires
        is_result_of(ports, outcomes),
    ensures
        forall|port: u16|
            ports.contains(port) <==> outcomes.contains(PortOutcome { port, open: true }),
{
    assert forall|port: u16|
        ports.contains(port) <==> outcomes.contains(PortOutcome { port, open: true }) by {
        ports.to_multiset_ensures();
        outcomes.to_multiset_ensures();
        lemma_open_ports_count(outcomes, port);
    }
}

/// Where no two outcomes concern the same port, the result holds no port
/// twice.
pub proof fn lemma_result_of_distinct_ports(ports: Seq<u16>, outcomes: Seq<PortOutcome>)
    requires
        is_result_of(ports, outcomes),
        distinct_ports(outcomes),
    ensures
        strictly_ascending(ports),
{
    assert forall|i: int, j: int| 0 <= i < j < ports.len() implies ports[i] < ports[j] by {
        if ports[i] == ports[j] {
            let port: u16 = ports[i];
            let found = PortOutcome { port, open: true };
            lemma_open_ports_count(outcomes, port);
            lemma_count_at_least_two(ports, i, j);
            lemma_count_at_most_one(outcomes, found);
        }
    }
}

/// A value at two places of a sequence counts at least twice.
proof fn lemma_count_at_least_two(ports: Seq<u16>, i: int, j: int)
    requires
        0 <= i < j < ports.len(),
        ports[i] == ports[j],
    ensures
        ports.to_multiset().count(ports[i]) >= 2,
{
    broadcast use vstd::multiset::group_multiset_axioms;
    broadcast use vstd::seq_lib::group_to_multiset_ensures;

    let port: u16 = ports[i];
    let without_j = ports.remove(j);
    let without_both = without_j.remove(i);
    assert(without_both.to_multiset() =~= without_j.to_multiset().remove(port));
    assert(without_j.to_multiset().count(port) >= 1);
}

/// Among outcomes of distinct ports, no outcome counts twice.
proof fn lemma_count_at_most_one(outcomes: Seq<PortOutcome>, outcome: PortOutcome)
    requires
        distinct_ports(outcomes),
    ensures
        outcomes.to_multiset().count(outcome) <= 1,
    decreases outcomes.len(),
{
    broadcast use vstd::multiset::group_multiset_axioms;

    outcomes.to_multiset_ensures();
    if outcomes.len() > 0 {
        let earlier = outcomes.drop_last();
        let last = outcomes.last();
        assert(outcomes =~= earlier.push(last));
        lemma_count_at_most_one(earlier, outcome);
        to_multiset_build(earlier, last);
        if last == outcome && earlier.to_multiset().count(outcome) >= 1 {
            earlier.to_multiset_ensures();
            let k: int = choose|k: int| 0 <= k < earlier.len() && earlier[k] == outcome;
            assert(outcomes[k].port == outcomes.last().port);
        }
    }
}

} // verus!
