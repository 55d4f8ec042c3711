use port_sniffer::arguments::{
    end_port_guard, ip_fallback, start_port_guard, Address, Arguments, DEFAULT_END_PORT,
    DEFAULT_START_PORT, MAX,
};
use port_sniffer::scanner::Scanner;

#[test]
fn start_port_zero_is_refused_by_its_guard() {
    assert!(!start_port_guard(&0));
}

#[test]
fn start_port_guard_accepts_every_positive_port() {
    assert!(start_port_guard(&1));
    assert!(start_port_guard(&80));
    assert!(start_port_guard(&65535));
}

#[test]
fn end_port_guard_accepts_up_to_the_largest_port() {
    assert!(end_port_guard(&0));
    assert!(end_port_guard(&1024));
    assert!(end_port_guard(&65535));
    assert_eq!(MAX, 65535);
}

#[test]
fn a_port_number_above_the_largest_does_not_fit() {
    assert!(u16::try_from(65536u32).is_err());
    assert!(u16::try_from(70000u32).is_err());
    assert!("65536".parse::<u16>().is_err());
    assert_eq!("65535".parse::<u16>(), Ok(MAX));
}

#[test]
fn arguments_are_valid_when_both_guards_pass() {
    let good = Arguments { address: ip_fallback(), start_port: 1, end_port: 65535 };
    assert!(good.is_valid());
    let reversed = Arguments { address: ip_fallback(), start_port: 500, end_port: 20 };
    assert!(reversed.is_valid());
    let zero = Arguments { address: ip_fallback(), start_port: 0, end_port: 100 };
    assert!(!zero.is_valid());
}

#[test]
fn scan_with_start_port_zero_is_rejected() {
    let zero = Arguments { address: ip_fallback(), start_port: 0, end_port: 100 };
    assert!(Scanner::new(&zero, 1000).is_none());
    let zero_to_zero = Arguments { address: ip_fallback(), start_port: 0, end_port: 0 };
    assert!(Scanner::new(&zero_to_zero, 1000).is_none());
}

#[test]
fn scan_with_valid_arguments_is_accepted() {
    let args = Arguments { address: Address::V6(1), start_port: 1, end_port: 65535 };
    assert!(Scanner::new(&args, 1000).is_some());
}

#[test]
fn fallback_address_is_the_loopback() {
    assert_eq!(ip_fallback(), Address::V4(0x7F00_0001));
    assert_eq!(ip_fallback(), Address::V4((127 << 24) | 1));
}

#[test]
fn default_arguments_scan_every_port_of_the_loopback() {
    let args = Arguments::default();
    assert_eq!(args.address, Address::V4(0x7F00_0001));
    assert_eq!(args.start_port, 1);
    assert_eq!(args.end_port, 65535);
    assert_eq!(DEFAULT_START_PORT, 1);
    assert_eq!(DEFAULT_END_PORT, 65535);
    assert!(args.is_valid());
}
