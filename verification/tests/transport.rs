use bose_connect::error::ErrorKind;
use bose_connect::framing::{Message, Operator, Refusal};
use bose_connect::transport::{Address, Replay, Session};

fn hex(s: &str) -> Vec<u8> {
    (0..s.len()).step_by(2).map(|i| u8::from_str_radix(&s[i..i + 2], 16).unwrap()).collect()
}

#[test]
fn transport_address_round_trips() {
    let a: Address = "AA:BB:CC:00:00:01".parse().unwrap();
    assert_eq!(a.0, [0xaa, 0xbb, 0xcc, 0x00, 0x00, 0x01]);
    assert_eq!(a.to_string(), "AA:BB:CC:00:00:01");
}

#[test]
fn transport_a_bad_address_is_rejected_not_guessed() {
    assert!("AA:BB:CC".parse::<Address>().is_err());
    assert!("AA:BB:CC:00:00:ZZ".parse::<Address>().is_err());
}

#[test]
fn transport_opening_a_session_sends_the_handshake_first() {
    let t = Replay::new(vec![Some(hex("00010305312e302e34"))]);
    let s = Session::open(t).unwrap();
    assert_eq!(s.transport_sent()[0], hex("00010100"));
}

#[test]
fn transport_replays_a_qc35_noise_cancelling_read() {
    let t = Replay::new(vec![
        Some(hex("00010305312e302e34")), // handshake
        Some(hex("01060302010b")),       // 01 06 -> level 01, 11 positions
    ]);
    let mut s = Session::open(t).unwrap();
    let reply = s.request(&Message::get(0x01, 0x06)).unwrap().unwrap();
    assert_eq!(reply[0].operator, Operator::Status);
    assert_eq!(reply[0].payload, vec![0x01, 0x0b]);
}

#[test]
fn transport_a_refused_opcode_is_reported_not_mistaken_for_data() {
    // An Ultra asked for the QC35's noise-cancelling opcode.
    let t = Replay::new(vec![Some(hex("00010305312e322e30")), Some(hex("0106040104"))]);
    let mut s = Session::open(t).unwrap();
    let reply = s.request(&Message::get(0x01, 0x06)).unwrap().unwrap();
    assert_eq!(reply[0].refusal(), Some(Refusal::OpcodeAbsent));
}

#[test]
fn silence_is_none_not_an_error() {
    // `01 07` on a QC35: no reply, no refusal, and the channel stays usable.
    let t = Replay::new(vec![Some(hex("00010305312e302e34")), None, Some(hex("01060302010b"))]);
    let mut s = Session::open(t).unwrap();
    assert!(s.request(&Message::get(0x01, 0x07)).unwrap().is_none());
    assert!(s.request(&Message::get(0x01, 0x06)).unwrap().is_some());
}

#[test]
fn an_address_error_says_which_part_is_wrong() {
    let e = Address::parse("AA:BB:CC").unwrap_err();
    assert_eq!(e.kind(), ErrorKind::InvalidInput);
    assert_eq!(e.message, "expected six octets");
    let e = Address::parse("AA:BB:CC:00:00:ZZ").unwrap_err();
    assert_eq!(e.message, "bad octet");
}

#[test]
fn an_old_style_enumeration_reads_to_its_terminator() {
    let t = Replay::new(vec![
        Some(hex("00010305312e302e34")),
        Some(hex("1f0603020001")),
        Some(hex("1f010600")),
    ]);
    let mut s = Session::open(t).unwrap();
    let msgs = s.enumerate(0x1f).unwrap();
    assert_eq!(msgs.len(), 2);
    assert!(msgs[1].is_terminator());
    assert_eq!(s.transport_sent()[1], hex("1f010500"));
}
