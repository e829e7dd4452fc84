use bose_connect::wire::{decode, records, Addr, Error, Message, Operator, Refusal};

fn h(s: &str) -> Vec<u8> {
    (0..s.len()).step_by(2).map(|i| u8::from_str_radix(&s[i..i + 2], 16).unwrap()).collect()
}

#[test]
fn wire_encodes_a_read() {
    // The session handshake: every device answers this, and some answer
    // nothing until it has been sent.
    assert_eq!(Message::get(Addr::at(0x00, 0x01)).encode().unwrap(), h("00010100"));
}

#[test]
fn wire_encodes_a_write() {
    // Noise cancelling to low on a QC35.
    let m = Message::set(Addr::at(0x01, 0x06), vec![0x03]);
    assert_eq!(m.encode().unwrap(), h("0106020103"));
}

#[test]
fn wire_decodes_a_version_reply() {
    let msgs = decode(&h("00010305312e302e34")).unwrap();
    assert_eq!(msgs.len(), 1);
    assert_eq!(msgs[0].operator, Operator::Status);
    assert_eq!(String::from_utf8_lossy(&msgs[0].payload), "1.0.4");
}

#[test]
fn wire_decodes_a_multi_record_enumeration() {
    // A QC35 answering `01 01 05 00`: five records and a terminator, with the
    // name redacted to keep a real device out of the fixtures.
    let stream = h(&[
        "01010700",           // result, zero length
        "010203050041424344", // name: a leading 00, then "ABCD"
        "01030305a10004c3de", // language and flags
        "010403013c",         // auto-off, 60 minutes
        "01060302010b",       // noise cancelling
        "01010600",           // terminator
    ]
    .concat());
    let msgs = decode(&stream).unwrap();
    assert_eq!(msgs.len(), 6);
    assert_eq!(msgs[1].payload, h("0041424344"));
    assert!(msgs.last().unwrap().is_terminator());
}

#[test]
fn wire_a_refusal_parses_like_any_record_and_is_named() {
    // 04 with payload 03: the function does not exist on this model.
    let m = &decode(&h("1f03040103")).unwrap()[0];
    assert_eq!(m.refusal(), Some(Refusal::FunctionAbsent));
    // 04 with payload 04: the function exists, the opcode does not.
    let m = &decode(&h("000f040104")).unwrap()[0];
    assert_eq!(m.refusal(), Some(Refusal::OpcodeAbsent));
    // Anything else is not a refusal, however it looks.
    assert_eq!(decode(&h("01060302010b")).unwrap()[0].refusal(), None);
}

#[test]
fn wire_selecting_a_mode_is_a_write_that_does_not_use_set() {
    // `1f 03` takes operator 0x05, not 0x02. Filtering captures for writes by
    // operator 0x02 alone misses it, which is how it was nearly missed.
    let m = Message::new(Addr::at(0x1f, 0x03), Operator::Start, vec![0x00, 0x01]);
    assert_eq!(m.encode().unwrap(), h("1f0305020001"));
}

#[test]
fn wire_a_short_payload_is_an_error_not_a_partial_parse() {
    // Claims five payload bytes, supplies two.
    assert!(matches!(
        decode(&h("000103050102")),
        Err(Error::ShortPayload { at: 0, want: 5, have: 2 })
    ));
}

#[test]
fn wire_a_stray_trailing_byte_is_an_error() {
    assert!(matches!(decode(&h("0001010000")), Err(Error::Truncated { at: 4 })));
}

#[test]
fn records_are_walked_without_copying_the_buffer() {
    let buf = h("01060302010b010403013c");
    let mut got: Vec<&[u8]> = Vec::new();
    let mut it = records(&buf);
    while let Some(r) = it.next() {
        got.push(r.unwrap().payload);
    }
    assert_eq!(got, vec![&[0x01u8, 0x0b][..], &[0x3c][..]]);
}

#[test]
fn a_malformed_buffer_yields_its_error_once_and_stops() {
    // The cursor has to advance past a failure, or the walk hands the same
    // error out forever and any collect over it never returns.
    let buf = h("000103050102");
    let mut it = records(&buf);
    assert!(it.next().unwrap().is_err());
    assert!(it.next().is_none());
}

#[test]
fn a_message_prints_its_address_operator_and_payload() {
    let m = Message::new(Addr::at(0x01, 0x06), Operator::Status, vec![0x01, 0x0b]);
    assert_eq!(m.to_string(), "01 06 Status [01 0b]");
    assert_eq!(Addr::at(0x1f, 0x03).to_string(), "1f 03");
}

#[test]
fn a_payload_longer_than_a_length_byte_is_not_encoded() {
    let m = Message::set(Addr::at(0x01, 0x02), vec![0x41; 256]);
    assert!(matches!(m.encode(), Err(Error::PayloadTooLong(256))));
}

#[test]
fn an_encoded_reply_decodes_to_itself() {
    let ms = vec![
        Message::new(Addr::at(0x01, 0x06), Operator::Status, vec![0x01, 0x0b]),
        Message::new(Addr::at(0x01, 0x01), Operator::Result, vec![]),
    ];
    let mut bytes = Vec::new();
    for m in &ms {
        bytes.extend_from_slice(&m.encode().unwrap());
    }
    assert_eq!(decode(&bytes).unwrap(), ms);
}
