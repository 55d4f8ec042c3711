use port_sniffer::arguments::{ip_fallback, Address, Arguments};
use port_sniffer::limiter::CONCURRENCY_LIMIT;
use port_sniffer::report::report_lines;
use port_sniffer::scanner::{Action, ScanOutcome, ScanTarget, Scanner};

/// What a run against a stub saw.
struct Run {
    launched: Vec<u16>,
    peak: usize,
    open: Vec<u16>,
}

/// The order in which running attempts end.
#[derive(Clone, Copy)]
enum Ending {
    OldestFirst,
    NewestFirst,
    MiddleFirst,
}

fn scanner_for(start_port: u16, end_port: u16, capacity: usize) -> Scanner {
    let args = Arguments { address: ip_fallback(), start_port, end_port };
    match Scanner::new(&args, capacity) {
        Some(scanner) => scanner,
        None => panic!("the arguments were rejected"),
    }
}

/// The action that starts an attempt on `port` of the fallback address.
fn launch(port: u16) -> Action {
    Action::Launch(ScanTarget { address: ip_fallback(), port })
}

/// Drives a whole scan against a stub in which exactly the ports of
/// `answering` accept a connection.
fn run(
    start_port: u16,
    end_port: u16,
    capacity: usize,
    answering: &[u16],
    ending: Ending,
) -> Run {
    let mut scanner = scanner_for(start_port, end_port, capacity);
    let mut running: Vec<u16> = Vec::new();
    let mut launched: Vec<u16> = Vec::new();
    let mut peak: usize = 0;
    loop {
        match scanner.next_action() {
            Action::Launch(target) => {
                assert_eq!(target.address, ip_fallback());
                launched.push(target.port);
                running.push(target.port);
                if running.len() > peak {
                    peak = running.len();
                }
                assert_eq!(scanner.in_flight_count(), running.len());
                assert!(scanner.in_flight_count() <= capacity);
            },
            Action::Wait => {
                assert!(!running.is_empty());
                let port = match ending {
                    Ending::OldestFirst => running.remove(0),
                    Ending::NewestFirst => running.remove(running.len() - 1),
                    Ending::MiddleFirst => running.remove(running.len() / 2),
                };
                assert!(scanner.complete(port, answering.contains(&port)));
            },
            Action::Finish => {
                assert!(running.is_empty());
                assert!(scanner.is_finished());
                break;
            },
        }
    }
    assert_eq!(scanner.attempt_count() as usize, launched.len());
    Run { launched, peak, open: scanner.into_open_ports() }
}

#[test]
fn every_port_of_the_range_is_attempted_once() {
    let seen = run(1, 100, 7, &[], Ending::OldestFirst);
    assert_eq!(seen.launched.len(), 99);
    let expected: Vec<u16> = (1..100).collect();
    assert_eq!(seen.launched, expected);
}

#[test]
fn attempts_equal_the_length_of_the_range() {
    assert_eq!(run(5, 6, 1, &[], Ending::OldestFirst).launched.len(), 1);
    assert_eq!(run(1000, 3000, 64, &[], Ending::NewestFirst).launched.len(), 2000);
    assert_eq!(run(65000, 65535, 1000, &[], Ending::MiddleFirst).launched.len(), 535);
}

#[test]
fn whole_default_range_is_attempted() {
    let args = Arguments::default();
    let answering: [u16; 3] = [22, 80, 8080];
    let seen =
        run(args.start_port, args.end_port, CONCURRENCY_LIMIT, &answering, Ending::OldestFirst);
    assert_eq!(seen.launched.len(), 65534);
    assert_eq!(seen.launched[0], 1);
    assert_eq!(seen.launched[65533], 65534);
    assert_eq!(seen.peak, 1000);
    assert_eq!(seen.open, vec![22, 80, 8080]);
}

#[test]
fn stub_ports_are_reported_in_ascending_order() {
    let expected: Vec<String> = vec![
        String::new(),
        String::from("22 is open"),
        String::from("80 is open"),
        String::from("8080 is open"),
    ];
    for ending in [Ending::OldestFirst, Ending::NewestFirst, Ending::MiddleFirst] {
        for capacity in [1usize, 2, 50, 1000] {
            let seen = run(1, 9000, capacity, &[22, 80, 8080], ending);
            assert_eq!(seen.open, vec![22, 80, 8080]);
            assert_eq!(report_lines(&seen.open), expected);
        }
    }
}

#[test]
fn answering_port_outside_the_range_is_never_reported() {
    for ending in [Ending::OldestFirst, Ending::NewestFirst, Ending::MiddleFirst] {
        let seen = run(1, 100, 10, &[22, 80, 8080], ending);
        assert_eq!(seen.open, vec![22, 80]);
        assert!(!seen.launched.contains(&8080));
        let lines = report_lines(&seen.open);
        let expected: Vec<String> =
            vec![String::new(), String::from("22 is open"), String::from("80 is open")];
        assert_eq!(lines, expected);
    }
}

#[test]
fn reported_ports_lie_in_the_range() {
    let answering: Vec<u16> = (0..2000).map(|i| i * 3).collect();
    let seen = run(100, 1500, 33, &answering, Ending::MiddleFirst);
    assert!(!seen.open.is_empty());
    for port in &seen.open {
        assert!(100 <= *port && *port < 1500);
        assert!(answering.contains(port));
    }
    let expected: Vec<u16> = (100..1500).filter(|p| p % 3 == 0).collect();
    assert_eq!(seen.open, expected);
}

#[test]
fn end_port_itself_is_not_scanned() {
    let seen = run(20, 23, 5, &[20, 22, 23], Ending::OldestFirst);
    assert_eq!(seen.launched, vec![20, 21, 22]);
    assert_eq!(seen.open, vec![20, 22]);
}

#[test]
fn empty_range_reports_only_the_blank_line() {
    let mut scanner = scanner_for(50, 50, 1000);
    assert!(scanner.is_finished());
    assert_eq!(scanner.next_action(), Action::Finish);
    assert_eq!(scanner.attempt_count(), 0);
    assert_eq!(scanner.in_flight_count(), 0);
    let open = scanner.into_open_ports();
    assert!(open.is_empty());
    assert_eq!(report_lines(&open), vec![String::new()]);
}

#[test]
fn reversed_range_is_an_empty_scan() {
    let mut scanner = scanner_for(100, 50, 1000);
    assert!(scanner.is_finished());
    assert_eq!(scanner.next_action(), Action::Finish);
    assert_eq!(scanner.next_action(), Action::Finish);
    assert_eq!(scanner.attempt_count(), 0);
    assert!(!scanner.complete(75, true));
    let open = scanner.into_open_ports();
    assert!(open.is_empty());
    assert_eq!(report_lines(&open), vec![String::new()]);
    let seen = run(65535, 1, 10, &[1, 2, 65535], Ending::OldestFirst);
    assert!(seen.launched.is_empty());
    assert!(seen.open.is_empty());
}

#[test]
fn in_flight_never_exceeds_the_capacity() {
    for capacity in [1usize, 2, 3, 10, 48, 49, 100] {
        for ending in [Ending::OldestFirst, Ending::NewestFirst, Ending::MiddleFirst] {
            let seen = run(1, 50, capacity, &[], ending);
            assert!(seen.peak <= capacity);
            assert_eq!(seen.peak, capacity.min(49));
            assert_eq!(seen.launched.len(), 49);
        }
    }
}

#[test]
fn scanner_waits_while_every_slot_is_taken() {
    let mut scanner = scanner_for(10, 20, 2);
    assert_eq!(scanner.next_action(), launch(10));
    assert_eq!(scanner.next_action(), launch(11));
    assert_eq!(scanner.next_action(), Action::Wait);
    assert_eq!(scanner.next_action(), Action::Wait);
    assert_eq!(scanner.in_flight_count(), 2);
    assert!(scanner.complete(11, false));
    assert_eq!(scanner.in_flight_count(), 1);
    assert_eq!(scanner.next_action(), launch(12));
    assert_eq!(scanner.next_action(), Action::Wait);
    assert_eq!(scanner.attempt_count(), 3);
    assert!(!scanner.is_finished());
}

#[test]
fn scanner_waits_for_the_last_attempts_before_it_finishes() {
    let mut scanner = scanner_for(1, 3, 10);
    assert_eq!(scanner.next_action(), launch(1));
    assert_eq!(scanner.next_action(), launch(2));
    assert_eq!(scanner.next_action(), Action::Wait);
    assert!(!scanner.is_finished());
    assert!(scanner.complete(2, true));
    assert_eq!(scanner.next_action(), Action::Wait);
    assert!(scanner.complete(1, true));
    assert!(scanner.is_finished());
    assert_eq!(scanner.next_action(), Action::Finish);
    assert_eq!(scanner.into_open_ports(), vec![1, 2]);
}

#[test]
fn scanner_without_slots_launches_nothing() {
    let mut scanner = scanner_for(1, 10, 0);
    assert_eq!(scanner.next_action(), Action::Wait);
    assert_eq!(scanner.in_flight_count(), 0);
    assert_eq!(scanner.attempt_count(), 0);
    assert!(!scanner.is_finished());
}

#[test]
fn end_of_an_attempt_that_is_not_running_is_not_accepted() {
    let mut scanner = scanner_for(10, 20, 4);
    assert!(!scanner.complete(10, true));
    assert_eq!(scanner.next_action(), launch(10));
    assert!(!scanner.complete(11, true));
    assert!(!scanner.complete(9, true));
    assert!(!scanner.complete(8080, true));
    assert_eq!(scanner.in_flight_count(), 1);
    assert!(scanner.complete(10, true));
    assert!(!scanner.complete(10, true));
    assert!(!scanner.complete(10, false));
    assert_eq!(scanner.in_flight_count(), 0);
    loop {
        match scanner.next_action() {
            Action::Launch(target) => {
                assert!(scanner.complete(target.port, false));
            },
            Action::Wait => panic!("nothing is running"),
            Action::Finish => break,
        }
    }
    assert_eq!(scanner.into_open_ports(), vec![10]);
}

#[test]
fn failed_attempts_are_not_reported() {
    let seen = run(1, 200, 16, &[], Ending::NewestFirst);
    assert_eq!(seen.launched.len(), 199);
    assert!(seen.open.is_empty());
}

#[test]
fn every_answering_port_is_reported_once() {
    let answering: Vec<u16> = (1..300).collect();
    let seen = run(1, 300, 25, &answering, Ending::MiddleFirst);
    assert_eq!(seen.open, answering);
}

#[test]
fn same_scan_twice_gives_the_same_report() {
    let answering: [u16; 6] = [443, 22, 8080, 80, 3306, 5432];
    let first = run(1, 9000, 1000, &answering, Ending::OldestFirst);
    let second = run(1, 9000, 1000, &answering, Ending::OldestFirst);
    assert_eq!(first.open, second.open);
    assert_eq!(report_lines(&first.open), report_lines(&second.open));
    let third = run(1, 9000, 3, &answering, Ending::NewestFirst);
    let fourth = run(1, 9000, 500, &answering, Ending::MiddleFirst);
    assert_eq!(first.open, third.open);
    assert_eq!(first.open, fourth.open);
    assert_eq!(first.open, vec![22, 80, 443, 3306, 5432, 8080]);
}

#[test]
fn target_keeps_the_address_of_the_arguments() {
    let args = Arguments { address: Address::V6(1), start_port: 443, end_port: 444 };
    let mut scanner = match Scanner::new(&args, 1) {
        Some(scanner) => scanner,
        None => panic!("the arguments were rejected"),
    };
    let target = ScanTarget { address: Address::V6(1), port: 443 };
    assert_eq!(scanner.next_action(), Action::Launch(target));
}

#[test]
fn outcome_is_open_only_when_connected() {
    let target = ScanTarget { address: ip_fallback(), port: 8080 };
    assert_eq!(target.outcome(true), ScanOutcome::Open(8080));
    assert_eq!(target.outcome(false), ScanOutcome::Closed);
}

#[test]
fn attempt_that_never_ends_keeps_its_slot() {
    let mut scanner = scanner_for(1, 6, 2);
    assert_eq!(scanner.next_action(), launch(1));
    assert_eq!(scanner.next_action(), launch(2));
    // The attempt on port 1 hangs; every other attempt ends at once.
    let mut port: u16 = 2;
    while port < 6 {
        assert_eq!(scanner.next_action(), Action::Wait);
        assert!(scanner.complete(port, false));
        if port < 5 {
            assert_eq!(scanner.next_action(), launch(port + 1));
        }
        assert!(scanner.in_flight_count() <= 2);
        port += 1;
    }
    assert_eq!(scanner.attempt_count(), 5);
    assert_eq!(scanner.in_flight_count(), 1);
    assert!(!scanner.is_finished());
    assert_eq!(scanner.next_action(), Action::Wait);
    assert_eq!(scanner.next_action(), Action::Wait);
    assert!(scanner.complete(1, true));
    assert_eq!(scanner.next_action(), Action::Finish);
    assert_eq!(scanner.into_open_ports(), vec![1]);
}

#[test]
fn hung_attempts_on_every_slot_stall_the_scan() {
    let mut scanner = scanner_for(1, 100, 3);
    assert_eq!(scanner.next_action(), launch(1));
    assert_eq!(scanner.next_action(), launch(2));
    assert_eq!(scanner.next_action(), launch(3));
    let mut asked: u32 = 0;
    while asked < 50 {
        assert_eq!(scanner.next_action(), Action::Wait);
        asked += 1;
    }
    assert_eq!(scanner.attempt_count(), 3);
    assert_eq!(scanner.in_flight_count(), 3);
    assert!(!scanner.is_finished());
}
