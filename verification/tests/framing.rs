use bose_connect::framing::{decode, Error, Message, Operator, Refusal};

fn hex(s: &str) -> Vec<u8> {
    (0..s.len()).step_by(2).map(|i| u8::from_str_radix(&s[i..i + 2], 16).unwrap()).collect()
}

#[test]
fn framing_encodes_a_read() {
    // The session handshake: every device answers this, and some answer
    // nothing until it has been sent.
    assert_eq!(Message::get(0x00, 0x01).encode().unwrap(), hex("00010100"));
}

#[test]
fn framing_encodes_a_write() {
    // Noise cancelling to low on a QC35.
    let m = Message::set(0x01, 0x06, vec![0x03]);
    assert_eq!(m.encode().unwrap(), hex("0106020103"));
}

#[test]
fn framing_decodes_a_version_reply() {
    let msgs = decode(&hex("00010305312e302e34")).unwrap();
    assert_eq!(msgs.len(), 1);
    assert_eq!(msgs[0].operator, Operator::Status);
    assert_eq!(String::from_utf8_lossy(&msgs[0].payload), "1.0.4");
}

#[test]
fn framing_decodes_a_multi_record_enumeration() {
    // A QC35 answering `01 01 05 00`: five records and a terminator, with the
    // name redacted to keep a real device out of the fixtures.
    let stream = hex(&[
        "01010700",           // result, zero length
        "010203050041424344", // name: a leading 00, then "ABCD"
        "01030305a10004c3de", // language and flags
        "010403013c",         // auto-off, 60 minutes
        "01060302010b",       // noise cancelling
        "01010600",           // terminator
    ]
    .concat());
    let msgs = decode(&stream).unwrap();
    assert_eq!(msgs.len(), 6);
    assert_eq!(msgs[1].payload, hex("0041424344"));
    assert!(msgs.last().unwrap().is_terminator());
}

#[test]
fn framing_a_refusal_parses_like_any_record_and_is_named() {
    // 04 with payload 03: the function does not exist on this model.
    let m = &decode(&hex("1f03040103")).unwrap()[0];
    assert_eq!(m.refusal(), Some(Refusal::FunctionAbsent));
    // 04 with payload 04: the function exists, the opcode does not.
    let m = &decode(&hex("000f040104")).unwrap()[0];
    assert_eq!(m.refusal(), Some(Refusal::OpcodeAbsent));
    // Anything else is not a refusal, however it looks.
    assert_eq!(decode(&hex("01060302010b")).unwrap()[0].refusal(), None);
}

#[test]
fn framing_selecting_a_mode_is_a_write_that_does_not_use_set() {
    // `1f 03` takes operator 0x05, not 0x02. Filtering captures for writes by
    // operator 0x02 alone misses it, which is how it was nearly missed.
    let m = Message::new(0x1f, 0x03, Operator::Start, vec![0x00, 0x01]);
    assert_eq!(m.encode().unwrap(), hex("1f0305020001"));
}

#[test]
fn framing_a_short_payload_is_an_error_not_a_partial_parse() {
    // Claims five payload bytes, supplies two.
    assert!(matches!(
        decode(&hex("000103050102")),
        Err(Error::ShortPayload { at: 0, want: 5, have: 2 })
    ));
}

#[test]
fn framing_a_stray_trailing_byte_is_an_error() {
    assert!(matches!(decode(&hex("0001010000")), Err(Error::Truncated { at: 4 })));
}

#[test]
fn framing_an_unknown_refusal_reason_is_kept() {
    let m = &decode(&hex("0106040106")).unwrap()[0];
    assert_eq!(m.refusal(), Some(Refusal::Other(6)));
}
