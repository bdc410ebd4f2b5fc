use portscan::request::{
    ScanRequest, ValidationError, DEFAULT_CONCURRENCY, DEFAULT_END_PORT, DEFAULT_START_PORT,
    DEFAULT_TIMEOUT_MILLIS,
};

#[test]
fn reversed_range_is_refused() {
    let checked = ScanRequest::new("example.com".to_string(), 100, 50, 100, 300);
    assert_eq!(checked.err(), Some(ValidationError::ReversedRange));
}

#[test]
fn zero_concurrency_is_refused() {
    let checked = ScanRequest::new("example.com".to_string(), 1, 1024, 0, 300);
    assert_eq!(checked.err(), Some(ValidationError::ZeroConcurrency));
}

#[test]
fn reversed_range_is_reported_before_zero_concurrency() {
    let checked = ScanRequest::new("example.com".to_string(), 2, 1, 0, 300);
    assert_eq!(checked.err(), Some(ValidationError::ReversedRange));
}

#[test]
fn valid_request_keeps_its_values() {
    let request = ScanRequest::new("192.168.1.10".to_string(), 20, 25, 8, 0).unwrap();
    assert_eq!(request.host(), "192.168.1.10");
    assert_eq!(request.start_port(), 20);
    assert_eq!(request.end_port(), 25);
    assert_eq!(request.concurrency(), 8);
    assert_eq!(request.timeout_millis(), 0);
}

#[test]
fn single_port_range_is_accepted() {
    let request = ScanRequest::new("localhost".to_string(), 443, 443, 1, 300).unwrap();
    assert_eq!(request.port_count(), 1);
    assert_eq!(request.ports(), vec![443]);
}

#[test]
fn port_count_is_last_minus_first_plus_one() {
    let request = ScanRequest::new("localhost".to_string(), 20, 25, 8, 300).unwrap();
    assert_eq!(request.port_count(), 6);
    assert_eq!(request.ports(), vec![20, 21, 22, 23, 24, 25]);
}

#[test]
fn boundary_ports_are_in_the_range() {
    let request = ScanRequest::new("localhost".to_string(), 0, 65535, 100, 300).unwrap();
    assert_eq!(request.port_count(), 65536);
    let ports = request.ports();
    assert_eq!(ports.len(), 65536);
    assert_eq!(ports[0], 0);
    assert_eq!(ports[65535], 65535);
    for (i, port) in ports.iter().enumerate() {
        assert_eq!(*port as usize, i);
    }
}

#[test]
fn lowest_port_alone_is_a_range() {
    let request = ScanRequest::new("localhost".to_string(), 0, 0, 1, 300).unwrap();
    assert_eq!(request.ports(), vec![0]);
}

#[test]
fn highest_port_alone_is_a_range() {
    let request = ScanRequest::new("localhost".to_string(), 65535, 65535, 1, 300).unwrap();
    assert_eq!(request.ports(), vec![65535]);
}

#[test]
fn defaults_are_those_of_the_command_line() {
    assert_eq!(DEFAULT_START_PORT, 1);
    assert_eq!(DEFAULT_END_PORT, 1024);
    assert_eq!(DEFAULT_CONCURRENCY, 100);
    assert_eq!(DEFAULT_TIMEOUT_MILLIS, 300);
    let request = ScanRequest::with_defaults("example.com".to_string());
    assert_eq!(request.host(), "example.com");
    assert_eq!(request.start_port(), 1);
    assert_eq!(request.end_port(), 1024);
    assert_eq!(request.concurrency(), 100);
    assert_eq!(request.timeout_millis(), 300);
    assert_eq!(request.port_count(), 1024);
}
