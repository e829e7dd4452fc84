use std::time::Duration;

use bose_connect::error::ErrorKind;
use bose_connect::transport::rfcomm::{bdaddr, socket_timeout, Address};

#[test]
fn rfcomm_address_round_trips() {
    let a: Address = "AA:BB:CC:00:00:01".parse().unwrap();
    assert_eq!(a.0, [0xaa, 0xbb, 0xcc, 0x00, 0x00, 0x01]);
    assert_eq!(a.to_string(), "AA:BB:CC:00:00:01");
}

#[test]
fn rfcomm_a_bad_address_is_rejected_not_guessed() {
    assert!("AA:BB:CC".parse::<Address>().is_err());
    assert!("AA:BB:CC:00:00:ZZ".parse::<Address>().is_err());
}

#[test]
fn the_kernel_wants_the_address_reversed() {
    let a: Address = "AA:BB:CC:00:00:01".parse().unwrap();
    assert_eq!(bdaddr(a), [0x01, 0x00, 0x00, 0xcc, 0xbb, 0xaa]);
}

#[test]
fn lowercase_hex_octets_are_accepted() {
    let a = Address::parse("aa:bb:cc:0:0:1").unwrap();
    assert_eq!(a.0, [0xaa, 0xbb, 0xcc, 0x00, 0x00, 0x01]);
}

#[test]
fn a_zero_timeout_is_rejected_because_it_means_block_forever() {
    let d = Duration::ZERO;
    let Err(e) = socket_timeout(d.as_secs(), d.subsec_nanos()) else {
        panic!("a zero timeout was accepted");
    };
    assert_eq!(e.kind, ErrorKind::InvalidInput);
}

#[test]
fn a_timeout_is_set_as_seconds_and_microseconds() {
    let d = Duration::from_millis(4_250);
    assert_eq!(socket_timeout(d.as_secs(), d.subsec_nanos()).unwrap(), (4, 250_000));
}
