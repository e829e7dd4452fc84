use bose_connect::error::{Error, ErrorKind, IoError};
use bose_connect::session::{Listing, Session};
use bose_connect::transport::{Replay, Transport};
use bose_connect::wire::{Addr, Refusal};

fn h(s: &str) -> Vec<u8> {
    (0..s.len()).step_by(2).map(|i| u8::from_str_radix(&s[i..i + 2], 16).unwrap()).collect()
}

const ANC: Addr = Addr { function: 0x01, opcode: 0x06 };

#[test]
fn session_opening_a_session_sends_the_handshake_first() {
    let t = Replay::new(vec![Some(h("00010305312e302e34"))]);
    let s = Session::open(t).unwrap();
    assert_eq!(s.transport_sent()[0], h("00010100"));
}

#[test]
fn session_replays_a_qc35_noise_cancelling_read() {
    let t = Replay::new(vec![
        Some(h("00010305312e302e34")), // handshake
        Some(h("01060302010b")),       // 01 06 -> level 01, 11 positions
    ]);
    let mut s = Session::open(t).unwrap();
    assert_eq!(s.read(ANC).unwrap(), vec![0x01, 0x0b]);
}

#[test]
fn session_a_refused_opcode_is_reported_not_mistaken_for_data() {
    // An Ultra asked for the QC35's noise-cancelling opcode.
    let t = Replay::new(vec![Some(h("00010305312e322e30")), Some(h("0106040104"))]);
    let mut s = Session::open(t).unwrap();
    assert!(matches!(s.read(ANC), Err(Error::Refused { why: Refusal::OpcodeAbsent, .. })));
}

#[test]
fn silence_is_its_own_error_not_a_refusal() {
    // `01 07` on a QC35: no reply, no refusal, and the channel stays usable.
    let t = Replay::new(vec![Some(h("00010305312e302e34")), None, Some(h("01060302010b"))]);
    let mut s = Session::open(t).unwrap();
    assert!(matches!(s.read(Addr::at(0x01, 0x07)), Err(Error::Silent(_))));
    assert!(s.read(ANC).is_ok());
}

/// A transport that hands back one byte at a time.
struct Dribble {
    reply: Vec<u8>,
    at: usize,
}

impl Transport for Dribble {
    fn send(&mut self, _: &[u8]) -> Result<(), IoError> {
        Ok(())
    }
    fn recv(&mut self, buf: &mut [u8]) -> Result<usize, IoError> {
        if self.at >= self.reply.len() {
            return Err(IoError::new(ErrorKind::TimedOut, "done"));
        }
        buf[0] = self.reply[self.at];
        self.at += 1;
        Ok(1)
    }
}

fn dribbling(reply: &str) -> Session<Dribble> {
    Session::resume(Dribble { reply: h(reply), at: 0 })
}

#[test]
fn a_reply_split_across_reads_is_still_one_reply() {
    // RFCOMM is a stream. Reading once and decoding whatever arrived fails on
    // any reply the kernel hands over in pieces.
    assert_eq!(dribbling("01060302010b").read(ANC).unwrap(), vec![0x01, 0x0b]);
}

#[test]
fn an_unsolicited_record_is_not_served_as_the_answer() {
    // Operator 00 arrives without a request. Taking the first thing that
    // parses answers a question the device was never asked.
    let mut s = dribbling("030100030fbfe401060302010b");
    assert_eq!(s.read(ANC).unwrap(), vec![0x01, 0x0b]);
}

struct Closed;

impl Transport for Closed {
    fn send(&mut self, _: &[u8]) -> Result<(), IoError> {
        Ok(())
    }
    fn recv(&mut self, _: &mut [u8]) -> Result<usize, IoError> {
        Ok(0)
    }
}

#[test]
fn a_closed_connection_is_an_error_not_an_empty_reply() {
    // Ok(0) decoded to an empty message list, which contains no refusal, which
    // made every capability probe answer "present". Headphones that power off
    // mid-probe produced a plausible-looking device.
    let mut s = Session::resume(Closed);
    let Err(Error::Io(e)) = s.read(Addr::at(0x00, 0x03)) else {
        panic!("expected an io error");
    };
    assert_eq!(e.kind(), ErrorKind::UnexpectedEof);
}

#[test]
fn an_enumeration_arriving_in_pieces_is_reassembled() {
    // Ten mode records are 555 bytes against an MTU well below that, so an
    // enumeration always arrives split. A prefix parses cleanly while omitting
    // most of the answer, so a single read looks like success.
    let mut whole = String::new();
    for i in 0..3u8 {
        whole.push_str(&format!("1f060302{i:02x}01"));
    }
    whole.push_str("1f010600");
    let msgs = dribbling(&whole).enumerate(0x1f).unwrap();
    assert_eq!(msgs.len(), 4);
    assert_eq!(msgs[0].payload, vec![0x00, 0x01]);
}

/// A device that answers and answers and never says it has finished.
struct Flood;

impl Transport for Flood {
    fn send(&mut self, _: &[u8]) -> Result<(), IoError> {
        Ok(())
    }
    fn recv(&mut self, buf: &mut [u8]) -> Result<usize, IoError> {
        buf[..6].copy_from_slice(&[0x1f, 0x06, 0x03, 0x02, 0x00, 0x01]);
        Ok(6)
    }
}

#[test]
fn an_enumeration_that_never_ends_is_an_error_not_a_hang() {
    let mut s = Session::resume(Flood);
    let Err(Error::Io(e)) = s.enumerate(0x1f) else {
        panic!("expected an io error");
    };
    assert_eq!(e.kind(), ErrorKind::InvalidData);
}

#[test]
fn an_enumeration_lists_opcodes_and_drops_its_terminator() {
    let mut s = dribbling("010203050041424344010403013c01010600");
    assert_eq!(s.list(0x01).unwrap(), Listing::Records(vec![0x02, 0x04]));
}

#[test]
fn a_write_reports_a_refusal_rather_than_succeeding_quietly() {
    let t = Replay::new(vec![Some(h("00010305312e302e34")), Some(h("0106040106"))]);
    let mut s = Session::open(t).unwrap();
    assert!(matches!(
        s.write(ANC, vec![0x02]),
        Err(Error::Refused { why: Refusal::BadArgument, .. })
    ));
}

#[test]
fn a_write_that_is_acknowledged_with_nothing_still_succeeds() {
    let t = Replay::new(vec![Some(h("00010305312e302e34")), None]);
    let mut s = Session::open(t).unwrap();
    assert!(s.write(ANC, vec![0x01]).is_ok());
}

#[test]
fn a_function_that_refuses_to_list_is_not_an_empty_one() {
    let mut s = dribbling("1f01040105");
    assert_eq!(s.list(0x1f).unwrap(), Listing::Refused(Refusal::BadOperator));
    let mut quiet = dribbling("");
    assert_eq!(quiet.list(0x1f).unwrap(), Listing::Silent);
}

/// A notification on every read, never the answer.
struct Chatter;

impl Transport for Chatter {
    fn send(&mut self, _: &[u8]) -> Result<(), IoError> {
        Ok(())
    }
    fn recv(&mut self, buf: &mut [u8]) -> Result<usize, IoError> {
        buf[..5].copy_from_slice(&[0x03, 0x01, 0x00, 0x01, 0x0f]);
        Ok(5)
    }
}

#[test]
fn a_device_that_talks_past_the_question_counts_as_silent() {
    let mut s = Session::resume(Chatter);
    assert!(matches!(s.read(ANC), Err(Error::Silent(a)) if a == ANC));
}

#[test]
fn a_refusal_reads_as_a_sentence_with_its_address() {
    let t = Replay::new(vec![Some(h("00010305312e322e30")), Some(h("0106040104"))]);
    let mut s = Session::open(t).unwrap();
    let e = s.read(ANC).unwrap_err();
    assert_eq!(e.to_string(), "01 06: this device has no such setting");
    assert_eq!(e.kind(), ErrorKind::InvalidInput);
}

#[test]
fn an_unanswered_handshake_still_opens_the_session() {
    let s = Session::open(Replay::new(vec![None])).unwrap();
    assert_eq!(s.transport_sent(), &[h("00010100")][..]);
}

#[test]
fn greeting_a_resumed_session_sends_the_handshake_and_keeps_nothing_of_the_answer() {
    let mut s = Session::resume(Replay::new(vec![Some(h("00010305312e302e34")), Some(h("01060302010b"))]));
    assert!(s.greet().is_ok());
    assert_eq!(s.transport_sent(), &[h("00010100")][..]);
    assert_eq!(s.read(ANC).unwrap(), vec![0x01, 0x0b]);
}
