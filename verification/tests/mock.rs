use bose_connect::error::ErrorKind;
use bose_connect::transport::{Recording, Replay, Scripted, Transport};

#[test]
fn a_scripted_reply_is_given_once_not_forever() {
    // `enumerate` reads until a terminator arrives. A double that repeats its
    // reply on every read turns that into a spin — which is how this was
    // found, by a test that never returned.
    let mut t = Scripted::new().on(&[0x1f, 0x01, 0x05, 0x00], &[0x1f, 0x01, 0x04, 0x01, 0x03]);
    t.send(&[0x1f, 0x01, 0x05, 0x00]).unwrap();
    let mut buf = [0u8; 64];
    assert_eq!(t.recv(&mut buf).unwrap(), 5);
    assert_eq!(t.recv(&mut buf).unwrap_err().kind(), ErrorKind::TimedOut);
}

#[test]
fn a_reply_longer_than_the_buffer_is_served_in_pieces_not_a_panic() {
    let long: Vec<u8> = (0..300).map(|i| i as u8).collect();
    let mut t = Replay::new(vec![Some(long.clone())]);
    let mut buf = [0u8; 128];
    assert_eq!(t.recv(&mut buf).unwrap(), 128);
    assert_eq!(t.recv(&mut buf).unwrap(), 128);
    assert_eq!(t.recv(&mut buf).unwrap(), 44);
}

#[test]
fn an_unscripted_request_is_refused_as_a_missing_function() {
    let mut t = Scripted::new();
    t.send(&[0x07, 0x02, 0x01, 0x00]).unwrap();
    let mut buf = [0u8; 16];
    let n = t.recv(&mut buf).unwrap();
    assert_eq!(&buf[..n], &[0x07, 0x02, 0x04, 0x01, 0x03]);
}

#[test]
fn a_later_script_entry_replaces_an_earlier_one() {
    let mut t = Scripted::new().on(&[0x01, 0x02, 0x01, 0x00], &[0xaa]).on(&[0x01, 0x02, 0x01, 0x00], &[0xbb]);
    t.send(&[0x01, 0x02, 0x01, 0x00]).unwrap();
    let mut buf = [0u8; 16];
    assert_eq!(t.recv(&mut buf).unwrap(), 1);
    assert_eq!(buf[0], 0xbb);
    assert_eq!(t.sent(), &[vec![0x01, 0x02, 0x01, 0x00]]);
}

#[test]
fn a_silent_script_entry_times_out() {
    let mut t = Scripted::new().silent(&[0x01, 0x07, 0x01, 0x00]);
    t.send(&[0x01, 0x07, 0x01, 0x00]).unwrap();
    let mut buf = [0u8; 16];
    assert_eq!(t.recv(&mut buf).unwrap_err().kind(), ErrorKind::TimedOut);
}
