use portscan::coordinator::Coordinator;
use portscan::outcome::PortOutcome;
use portscan::request::ScanRequest;
use portscan::scan_state::Action;

fn request(start: u16, end: u16, concurrency: usize) -> ScanRequest {
    ScanRequest::new("localhost".to_string(), start, end, concurrency, 300).unwrap()
}

/// Runs a whole scan in which each probe in flight finishes in the order
/// that `pick` chooses, and a port is open where `is_open` says so. Returns
/// the ports in dispatch order, the largest number of probes in flight, and
/// the coordinator at its end.
fn run_scan(
    request: &ScanRequest,
    pick: fn(&Vec<u16>) -> usize,
    is_open: fn(u16) -> bool,
) -> (Vec<u16>, usize, Coordinator) {
    let mut coordinator = Coordinator::new(request);
    let mut flying: Vec<u16> = Vec::new();
    let mut dispatched = Vec::new();
    let mut most = 0;
    loop {
        match coordinator.next_action() {
            Action::Dispatch(port) => {
                flying.push(port);
                dispatched.push(port);
                most = most.max(flying.len());
                assert_eq!(coordinator.in_flight_count(), flying.len());
                assert!(flying.len() <= request.concurrency());
            }
            Action::Await => {
                assert!(!flying.is_empty());
                let port = flying.remove(pick(&flying));
                assert!(coordinator.record(port, is_open(port)));
                assert_eq!(coordinator.in_flight_count(), flying.len());
            }
            Action::Finish => break,
        }
    }
    assert!(flying.is_empty());
    (dispatched, most, coordinator)
}

fn oldest(_: &Vec<u16>) -> usize {
    0
}

fn newest(flying: &Vec<u16>) -> usize {
    flying.len() - 1
}

fn middle(flying: &Vec<u16>) -> usize {
    flying.len() / 2
}

fn even(port: u16) -> bool {
    port % 2 == 0
}

fn none(_: u16) -> bool {
    false
}

fn all(_: u16) -> bool {
    true
}

#[test]
fn fresh_scan_has_nothing_dispatched() {
    let coordinator = Coordinator::new(&request(1, 10, 3));
    assert_eq!(coordinator.dispatched_count(), 0);
    assert_eq!(coordinator.in_flight_count(), 0);
    assert!(coordinator.outcomes().is_empty());
    assert!(!coordinator.is_finished());
    assert!(coordinator.finish().is_none());
}

#[test]
fn ports_are_dispatched_in_ascending_order_up_to_the_concurrency() {
    let mut coordinator = Coordinator::new(&request(1, 3, 2));
    assert_eq!(coordinator.next_action(), Action::Dispatch(1));
    assert_eq!(coordinator.next_action(), Action::Dispatch(2));
    assert_eq!(coordinator.next_action(), Action::Await);
    assert_eq!(coordinator.next_action(), Action::Await);
    assert_eq!(coordinator.in_flight_count(), 2);
    assert_eq!(coordinator.dispatched_count(), 2);
    assert!(coordinator.record(2, true));
    assert_eq!(coordinator.in_flight_count(), 1);
    assert_eq!(coordinator.next_action(), Action::Dispatch(3));
    assert_eq!(coordinator.next_action(), Action::Await);
    assert!(coordinator.record(3, false));
    assert!(coordinator.finish().is_none());
    assert!(coordinator.record(1, true));
    assert_eq!(coordinator.next_action(), Action::Finish);
    assert_eq!(coordinator.next_action(), Action::Finish);
    assert!(coordinator.is_finished());
    assert_eq!(
        coordinator.outcomes(),
        &vec![PortOutcome::new(2, true), PortOutcome::new(3, false), PortOutcome::new(1, true)]
    );
    assert_eq!(coordinator.finish().unwrap().into_ports(), vec![1, 2]);
}

#[test]
fn report_for_a_port_not_in_flight_changes_nothing() {
    let mut coordinator = Coordinator::new(&request(10, 12, 2));
    assert!(!coordinator.record(10, true));
    assert_eq!(coordinator.next_action(), Action::Dispatch(10));
    assert!(!coordinator.record(11, true));
    assert!(!coordinator.record(9, true));
    assert!(coordinator.record(10, false));
    assert!(!coordinator.record(10, true));
    assert_eq!(coordinator.outcomes(), &vec![PortOutcome::new(10, false)]);
    assert_eq!(coordinator.in_flight_count(), 0);
    assert_eq!(coordinator.dispatched_count(), 1);
}

#[test]
fn scan_is_not_over_while_a_probe_is_in_flight() {
    let mut coordinator = Coordinator::new(&request(5, 5, 4));
    assert_eq!(coordinator.next_action(), Action::Dispatch(5));
    assert_eq!(coordinator.next_action(), Action::Await);
    assert!(!coordinator.is_finished());
    assert!(coordinator.finish().is_none());
    assert!(coordinator.record(5, true));
    assert!(coordinator.is_finished());
    assert_eq!(coordinator.finish().unwrap().into_ports(), vec![5]);
}

#[test]
fn every_port_of_the_range_is_dispatched_once_and_has_one_outcome() {
    let request = request(20, 120, 7);
    let (dispatched, most, coordinator) = run_scan(&request, middle, even);
    assert_eq!(dispatched, request.ports());
    assert_eq!(dispatched.len(), 120 - 20 + 1);
    assert_eq!(most, 7);
    assert_eq!(coordinator.dispatched_count(), 101);
    assert_eq!(coordinator.outcomes().len(), 101);
    let mut seen: Vec<u16> = coordinator.outcomes().iter().map(|o| o.port).collect();
    seen.sort();
    assert_eq!(seen, request.ports());
    for outcome in coordinator.outcomes() {
        assert_eq!(outcome.open, even(outcome.port));
    }
}

#[test]
fn result_does_not_depend_on_the_order_of_completion() {
    let request = request(1, 200, 16);
    let expected: Vec<u16> = (1..=200).filter(|p| p % 2 == 0).collect();
    for pick in [oldest as fn(&Vec<u16>) -> usize, newest, middle] {
        let (_, _, coordinator) = run_scan(&request, pick, even);
        assert_eq!(coordinator.finish().unwrap().into_ports(), expected);
    }
}

#[test]
fn ports_that_finish_out_of_order_come_out_sorted() {
    let mut coordinator = Coordinator::new(&request(1, 3, 3));
    assert_eq!(coordinator.next_action(), Action::Dispatch(1));
    assert_eq!(coordinator.next_action(), Action::Dispatch(2));
    assert_eq!(coordinator.next_action(), Action::Dispatch(3));
    assert!(coordinator.record(3, true));
    assert!(coordinator.record(1, true));
    assert!(coordinator.record(2, true));
    assert_eq!(coordinator.next_action(), Action::Finish);
    assert_eq!(coordinator.finish().unwrap().into_ports(), vec![1, 2, 3]);
}

#[test]
fn concurrency_of_one_probes_one_port_at_a_time() {
    let request = request(1, 50, 1);
    let (dispatched, most, coordinator) = run_scan(&request, newest, all);
    assert_eq!(most, 1);
    assert_eq!(dispatched, request.ports());
    assert_eq!(coordinator.finish().unwrap().into_ports(), request.ports());
}

#[test]
fn concurrency_above_the_range_dispatches_the_whole_range_at_once() {
    let mut coordinator = Coordinator::new(&request(1, 4, 100));
    for port in 1..=4 {
        assert_eq!(coordinator.next_action(), Action::Dispatch(port));
    }
    assert_eq!(coordinator.next_action(), Action::Await);
    assert_eq!(coordinator.in_flight_count(), 4);
}

#[test]
fn scan_without_open_port_ends_with_an_empty_result() {
    let request = request(1, 64, 10);
    let (_, _, coordinator) = run_scan(&request, oldest, none);
    let result = coordinator.finish().unwrap();
    assert!(result.is_empty());
    assert_eq!(result.into_ports(), Vec::<u16>::new());
}

#[test]
fn whole_port_space_is_scanned_from_the_lowest_port_to_the_highest() {
    let request = request(0, 65535, 100);
    let (dispatched, most, coordinator) = run_scan(&request, newest, all);
    assert_eq!(dispatched.len(), 65536);
    assert_eq!(dispatched[0], 0);
    assert_eq!(dispatched[65535], 65535);
    assert_eq!(most, 100);
    assert_eq!(coordinator.dispatched_count(), 65536);
    let result = coordinator.finish().unwrap();
    assert_eq!(result.len(), 65536);
    assert_eq!(result.ports(), &request.ports());
}

#[test]
fn highest_port_is_dispatched_like_any_other() {
    let mut coordinator = Coordinator::new(&request(65534, 65535, 5));
    assert_eq!(coordinator.next_action(), Action::Dispatch(65534));
    assert_eq!(coordinator.next_action(), Action::Dispatch(65535));
    assert_eq!(coordinator.next_action(), Action::Await);
    assert!(coordinator.record(65535, true));
    assert!(coordinator.record(65534, false));
    assert_eq!(coordinator.next_action(), Action::Finish);
    assert_eq!(coordinator.finish().unwrap().into_ports(), vec![65535]);
}

#[test]
fn lowest_port_is_dispatched_like_any_other() {
    let mut coordinator = Coordinator::new(&request(0, 0, 5));
    assert_eq!(coordinator.next_action(), Action::Dispatch(0));
    assert_eq!(coordinator.next_action(), Action::Await);
    assert!(coordinator.record(0, true));
    assert_eq!(coordinator.next_action(), Action::Finish);
    assert_eq!(coordinator.finish().unwrap().into_ports(), vec![0]);
}
