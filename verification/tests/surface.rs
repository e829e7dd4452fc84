use bose_connect::session::Listing;
use bose_connect::surface::{Known, Surface};
use bose_connect::wire::{Addr, Refusal};

/// A surface where `listed` functions enumerated with those opcodes, and
/// `functions` answered without listing themselves.
fn surface(listed: &[(u8, &[u8])], functions: &[u8]) -> Surface {
    let mut s = Surface::new();
    for (f, ops) in listed {
        s.record_listing(*f, Listing::Records(ops.to_vec()));
    }
    for f in functions {
        s.record_listing(*f, Listing::Refused(Refusal::BadOperator));
    }
    s
}

#[test]
fn a_function_that_enumerated_answers_for_every_opcode_in_it() {
    // A QC35's function 01 lists 02 03 04 06. There is no 07, so there is no
    // equaliser — and saying so costs no round trip and no timeout, which is
    // the whole point of enumerating first.
    let s = surface(&[(0x01, &[0x02, 0x03, 0x04, 0x06])], &[]);
    assert_eq!(s.state(Addr::at(0x01, 0x06)), Known::Live);
    assert_eq!(s.state(Addr::at(0x01, 0x07)), Known::Absent);
}

#[test]
fn opcode_00_is_live_although_no_enumeration_ever_lists_it() {
    let s = surface(&[(0x01, &[0x02])], &[]);
    assert_eq!(s.state(Addr::at(0x01, 0x00)), Known::Live);
}

#[test]
fn a_function_that_refuses_to_list_leaves_its_opcodes_unproven() {
    // Five functions on the Ultra refuse the sweep and are full of data.
    // Writing them off is how immersive audio stayed hidden for eight labelled
    // observations.
    let s = surface(&[], &[0x05]);
    assert_eq!(s.state(Addr::at(0x05, 0x0f)), Known::Unproven);
    // A function that never answered at all is a different case.
    assert_eq!(s.state(Addr::at(0x1f, 0x03)), Known::Absent);
}

#[test]
fn a_probe_overrides_a_listing() {
    let mut s = surface(&[(0x01, &[0x02])], &[]);
    assert_eq!(s.state(Addr::at(0x01, 0x0a)), Known::Absent);
    s.settle(Addr::at(0x01, 0x0a), true);
    assert_eq!(s.state(Addr::at(0x01, 0x0a)), Known::Live);
}

#[test]
fn only_function_absent_writes_a_function_off() {
    let mut s = Surface::new();
    s.record_listing(0x05, Listing::Refused(Refusal::FunctionAbsent));
    s.record_listing(0x07, Listing::Silent);
    s.record_listing(0x04, Listing::Records(vec![]));
    assert_eq!(s.state(Addr::at(0x05, 0x0f)), Known::Absent);
    assert_eq!(s.state(Addr::at(0x07, 0x01)), Known::Absent);
    assert_eq!(s.state(Addr::at(0x04, 0x09)), Known::Unproven);
    assert_eq!(s.functions(), vec![0x04]);
}

#[test]
fn live_lists_listed_addresses_then_proven_ones() {
    let mut s = surface(&[(0x02, &[0x02]), (0x01, &[0x06, 0x02])], &[0x05]);
    s.settle(Addr::at(0x05, 0x0f), true);
    s.settle(Addr::at(0x05, 0x01), false);
    assert_eq!(
        s.live(),
        vec![Addr::at(0x01, 0x02), Addr::at(0x01, 0x06), Addr::at(0x02, 0x02), Addr::at(0x05, 0x0f)]
    );
    assert_eq!(s.functions(), vec![0x01, 0x02, 0x05]);
}
