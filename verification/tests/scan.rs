use portscan::report::ProbeOutcome;
use portscan::request::{ScanError, ScanRequest};
use portscan::scan::{ports_in_range, scan_from_outcomes, ScanState};

/// Runs a whole scan of [start, end] against a simulated listener state:
/// every port in `open` resolves open, every other port closed. Outcomes are
/// recorded in ascending port order unless `reversed`.
fn scan_simulated(start: u16, end: u16, open: &[u16], reversed: bool) -> Vec<u16> {
    let req = ScanRequest::new(String::from("localhost"), start, end, 200);
    let mut state = match ScanState::new(&req) {
        Ok(s) => s,
        Err(e) => panic!("valid request rejected: {:?}", e),
    };
    let mut plan = ports_in_range(start, end);
    if reversed {
        plan.reverse();
    }
    for port in plan {
        state.record(port, open.contains(&port));
    }
    assert!(state.is_complete());
    state.report().open_port_numbers()
}

#[test]
fn invalid_range_rejected_before_any_probe() {
    let req = ScanRequest::new(String::from("localhost"), 100, 1, 1000);
    assert_eq!(req.validate(), Err(ScanError::InvalidRange));
    match ScanState::new(&req) {
        Ok(_) => panic!("empty range accepted"),
        Err(e) => assert_eq!(e, ScanError::InvalidRange),
    }
}

#[test]
fn invalid_timeout_rejected() {
    let req = ScanRequest::new(String::from("localhost"), 1, 100, 0);
    assert_eq!(req.validate(), Err(ScanError::InvalidTimeout));
    match ScanState::new(&req) {
        Ok(_) => panic!("zero timeout accepted"),
        Err(e) => assert_eq!(e, ScanError::InvalidTimeout),
    }
}

#[test]
fn valid_request_accepted() {
    let req = ScanRequest::new(String::from("localhost"), 1, 1024, 1000);
    assert_eq!(req.validate(), Ok(()));
    let state = match ScanState::new(&req) {
        Ok(s) => s,
        Err(e) => panic!("valid request rejected: {:?}", e),
    };
    assert_eq!(state.start_port(), 1);
    assert_eq!(state.end_port(), 1024);
    assert_eq!(state.timeout_ms(), 1000);
    assert!(!state.is_complete());
}

#[test]
fn plan_attempts_every_port_exactly_once() {
    let plan = ports_in_range(10, 20);
    assert_eq!(plan.len(), 11);
    assert_eq!(plan, (10u16..=20).collect::<Vec<u16>>());
    for i in 0..plan.len() {
        for j in (i + 1)..plan.len() {
            assert_ne!(plan[i], plan[j]);
        }
    }
}

#[test]
fn single_port_range_scans_exactly_one_port() {
    let plan = ports_in_range(443, 443);
    assert_eq!(plan, vec![443]);
    assert_eq!(scan_simulated(443, 443, &[443], false), vec![443]);
    assert_eq!(scan_simulated(443, 443, &[], false), Vec::<u16>::new());
}

#[test]
fn report_is_ascending_and_within_range() {
    let report = scan_simulated(20, 30, &[29, 21, 25], true);
    assert_eq!(report, vec![21, 25, 29]);
    for w in report.windows(2) {
        assert!(w[0] < w[1]);
    }
    for p in &report {
        assert!((20..=30).contains(p));
    }
}

#[test]
fn completion_order_does_not_change_report() {
    let ascending = scan_simulated(5, 9, &[6, 8], false);
    let descending = scan_simulated(5, 9, &[6, 8], true);
    assert_eq!(ascending, descending);
    assert_eq!(ascending, vec![6, 8]);
}

#[test]
fn repeated_scan_of_static_listeners_is_idempotent() {
    let first = scan_simulated(8000, 8010, &[8002, 8007], false);
    let second = scan_simulated(8000, 8010, &[8002, 8007], true);
    let third = scan_simulated(8000, 8010, &[8002, 8007], false);
    assert_eq!(first, second);
    assert_eq!(second, third);
}

#[test]
fn listener_only_on_8080_reported_alone() {
    let report = scan_simulated(8000, 8100, &[8080], false);
    assert_eq!(report, vec![8080]);
}

#[test]
fn no_listeners_gives_empty_report() {
    let report = scan_simulated(1, 100, &[], false);
    assert_eq!(report, Vec::<u16>::new());
}

#[test]
fn accept_after_timeout_reaches_report_as_closed() {
    // A listener that accepts only after the per-attempt timeout resolves as
    // open = false, and the port must then be absent from the report.
    let req = ScanRequest::new(String::from("localhost"), 80, 81, 50);
    let mut state = ScanState::new(&req).ok().unwrap();
    state.record(80, false);
    state.record(81, true);
    assert!(state.is_complete());
    let report = state.report().open_port_numbers();
    assert!(!report.contains(&80));
    assert!(report.contains(&81));
    assert_eq!(report, vec![81]);
}

#[test]
fn batch_of_outcomes_recorded_in_completion_order() {
    let req = ScanRequest::new(String::from("localhost"), 50, 54, 200);
    let mut state = ScanState::new(&req).ok().unwrap();
    let outcomes = vec![
        ProbeOutcome { port: 53, open: true },
        ProbeOutcome { port: 50, open: false },
        ProbeOutcome { port: 52, open: true },
        ProbeOutcome { port: 54, open: false },
        ProbeOutcome { port: 51, open: false },
    ];
    state.record_all(&outcomes);
    assert!(state.is_complete());
    assert_eq!(state.report().open_port_numbers(), vec![52, 53]);
}

#[test]
fn scan_from_outcomes_end_to_end() {
    let req = ScanRequest::new(String::from("localhost"), 8000, 8003, 200);
    let outcomes = vec![
        ProbeOutcome { port: 8002, open: true },
        ProbeOutcome { port: 8000, open: false },
        ProbeOutcome { port: 8003, open: true },
        ProbeOutcome { port: 8001, open: false },
    ];
    let report = match scan_from_outcomes(&req, &outcomes) {
        Ok(r) => r,
        Err(e) => panic!("valid request rejected: {:?}", e),
    };
    assert_eq!(report.open_port_numbers(), vec![8002, 8003]);
}

#[test]
fn scan_from_outcomes_rejects_malformed_request() {
    let empty_range = ScanRequest::new(String::from("localhost"), 9, 1, 200);
    match scan_from_outcomes(&empty_range, &Vec::new()) {
        Ok(_) => panic!("empty range accepted"),
        Err(e) => assert_eq!(e, ScanError::InvalidRange),
    }
    let zero_timeout = ScanRequest::new(String::from("localhost"), 1, 9, 0);
    match scan_from_outcomes(&zero_timeout, &Vec::new()) {
        Ok(_) => panic!("zero timeout accepted"),
        Err(e) => assert_eq!(e, ScanError::InvalidTimeout),
    }
}

#[test]
fn partial_scan_is_not_complete() {
    let req = ScanRequest::new(String::from("localhost"), 10, 12, 100);
    let mut state = ScanState::new(&req).ok().unwrap();
    assert!(!state.is_recorded(10));
    state.record(10, true);
    assert!(state.is_recorded(10));
    assert!(!state.is_recorded(11));
    assert!(!state.is_complete());
    state.record(12, false);
    assert!(!state.is_complete());
    state.record(11, false);
    assert!(state.is_complete());
}

#[test]
fn full_port_range_is_covered() {
    let plan = ports_in_range(0, 65535);
    assert_eq!(plan.len(), 65536);
    assert_eq!(plan[0], 0);
    assert_eq!(plan[65535], 65535);
    let report = scan_simulated(0, 65535, &[0, 65535], false);
    assert_eq!(report, vec![0, 65535]);
}

#[test]
fn report_accessors_agree() {
    let req = ScanRequest::new(String::from("localhost"), 7, 9, 100);
    let mut state = ScanState::new(&req).ok().unwrap();
    state.record(7, true);
    state.record(8, false);
    state.record(9, true);
    let report = state.report();
    assert_eq!(report.len(), 2);
    let first = report.outcome_at(0);
    let second = report.outcome_at(1);
    assert_eq!(first, ProbeOutcome { port: 7, open: true });
    assert_eq!(second, ProbeOutcome { port: 9, open: true });
    assert_eq!(report.open_port_numbers(), vec![7, 9]);
}
