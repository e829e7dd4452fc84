use bose_connect::fixtures;
use bose_connect::transport::{Scripted, Transport};
use bose_connect::wire::decode;

/// Send `request` and collect everything the fixture owes for it.
fn ask(t: &mut Scripted, request: &[u8]) -> Vec<u8> {
    t.send(request).unwrap();
    let mut out = Vec::new();
    let mut buf = [0u8; 64];
    while let Ok(n) = t.recv(&mut buf) {
        out.extend_from_slice(&buf[..n]);
    }
    out
}

#[test]
fn a_fixture_listing_parses_whole_and_stays_in_its_function() {
    let mut t = fixtures::ultra_hp();
    let reply = ask(&mut t, &[0x1f, 0x01, 0x05, 0x00]);
    let records = decode(&reply).unwrap();
    // Processing, ten slots and three settings, then the closing Result.
    assert_eq!(records.len(), 15);
    assert!(records.iter().all(|m| m.addr.function == 0x1f));
}

#[test]
fn a_fixture_answers_a_read_at_the_record_asked() {
    let mut t = fixtures::qc35();
    let reply = ask(&mut t, &[0x00, 0x03, 0x01, 0x00]);
    let records = decode(&reply).unwrap();
    assert_eq!(records.len(), 1);
    assert_eq!((records[0].addr.function, records[0].addr.opcode), (0x00, 0x03));
    assert_eq!(records[0].payload, vec![0x40, 0x0c, 0x02]);
}

#[test]
fn a_silent_record_owes_nothing() {
    let mut t = fixtures::qc35();
    assert!(ask(&mut t, &[0x01, 0x07, 0x01, 0x00]).is_empty());
}
