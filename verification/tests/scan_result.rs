use portscan::outcome::PortOutcome;
use portscan::scan_result::{collect_open_ports, ScanResult};

#[test]
fn result_is_sorted_whatever_the_order_of_arrival() {
    let outcomes = vec![
        PortOutcome::new(80, true),
        PortOutcome::new(22, true),
        PortOutcome::new(443, true),
    ];
    let result = ScanResult::from_outcomes(&outcomes);
    assert_eq!(result.ports(), &vec![22, 80, 443]);
}

#[test]
fn every_order_of_arrival_gives_the_same_result() {
    let a = PortOutcome::new(80, true);
    let b = PortOutcome::new(22, true);
    let c = PortOutcome::new(443, true);
    let d = PortOutcome::new(8080, false);
    let orders = [
        vec![a, b, c, d],
        vec![d, c, b, a],
        vec![b, d, a, c],
        vec![c, a, d, b],
    ];
    for outcomes in orders.iter() {
        assert_eq!(ScanResult::from_outcomes(outcomes).into_ports(), vec![22, 80, 443]);
    }
}

#[test]
fn closed_ports_are_left_out() {
    let outcomes = vec![
        PortOutcome::new(25, false),
        PortOutcome::new(443, true),
        PortOutcome::new(21, false),
        PortOutcome::new(22, true),
    ];
    assert_eq!(collect_open_ports(&outcomes), vec![443, 22]);
    let result = ScanResult::from_outcomes(&outcomes);
    assert_eq!(result.ports(), &vec![22, 443]);
    assert_eq!(result.len(), 2);
    assert!(!result.is_empty());
}

#[test]
fn no_open_port_gives_an_empty_result() {
    let outcomes = vec![PortOutcome::new(1, false), PortOutcome::new(2, false)];
    let result = ScanResult::from_outcomes(&outcomes);
    assert!(result.is_empty());
    assert_eq!(result.len(), 0);
    assert_eq!(result.ports(), &Vec::<u16>::new());
}

#[test]
fn no_outcome_gives_an_empty_result() {
    let result = ScanResult::from_outcomes(&Vec::new());
    assert!(result.is_empty());
    assert_eq!(collect_open_ports(&Vec::new()), Vec::<u16>::new());
}

#[test]
fn boundary_ports_are_sorted_like_any_other() {
    let outcomes = vec![
        PortOutcome::new(65535, true),
        PortOutcome::new(1024, true),
        PortOutcome::new(0, true),
    ];
    assert_eq!(ScanResult::from_outcomes(&outcomes).into_ports(), vec![0, 1024, 65535]);
}

#[test]
fn a_port_found_open_twice_is_kept_twice() {
    let outcomes = vec![
        PortOutcome::new(80, true),
        PortOutcome::new(22, true),
        PortOutcome::new(80, true),
    ];
    assert_eq!(ScanResult::from_outcomes(&outcomes).into_ports(), vec![22, 80, 80]);
}

#[test]
fn outcome_holds_port_and_verdict() {
    let outcome = PortOutcome::new(8080, true);
    assert_eq!(outcome.port, 8080);
    assert!(outcome.open);
    assert_eq!(outcome, PortOutcome { port: 8080, open: true });
    assert_ne!(outcome, PortOutcome::new(8080, false));
}
