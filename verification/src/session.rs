//! One exchange with a device.
//!
//! RFCOMM is a stream, not a datagram channel: a reply can arrive split across
//! reads, and two replies can arrive in one. Everything above this layer sees
//! whole records addressed to what it asked for.

use vstd::prelude::*;
use vstd::slice::slice_to_vec;

use crate::error::{Error, ErrorKind, IoError, Result};
use crate::transport::{
    arrival, as_arrivals, ends_with, handshake, heard_before, joined, sent_before, Arrival, Gathered,
    Gathering, Recording, Transport,
};
use crate::wire::{
    boundary_index, encode_frames, lemma_decode_encode, lemma_decode_prefix,
    lemma_encode_frames_concat, operator_canonical, sendable,
    decode, decode_spec, encode_frame, frame_refusal, frames, push_bytes, Addr, Frame, Message,
    Operator, Refusal,
};

verus! {

/// Ten 47-byte mode records plus framing is the largest answer observed; this
/// is an order of magnitude above it.
pub const MAX_ENUMERATION: usize = 8192;

/// Reads spent waiting for one answer before the device counts as silent.
/// Reading stops at the first timeout long before this; the bound only makes
/// certain that a device which keeps talking without ever mentioning what was
/// asked is not waited on forever.
pub const MAX_READS: usize = 0x1_0000;

/// What a function said when asked to list itself.
#[derive(Debug, Clone, PartialEq, Eq)]
pub enum Listing {
    /// The opcodes it listed. An index, not an inventory: opcode `00` is never
    /// listed, and opcodes holding only zeros appear to be omitted.
    Records(Vec<u8>),
    /// It exists and will not list itself.
    Refused(Refusal),
    /// Nothing came back.
    Silent,
}

/// The first frame at `addr`.
pub open spec fn first_at(fs: Seq<Frame>, addr: Addr) -> Option<Frame>
    decreases fs.len(),
{
    if fs.len() == 0 {
        None
    } else if fs[0].addr == addr {
        Some(fs[0])
    } else {
        first_at(fs.drop_first(), addr)
    }
}

/// What buffered bytes answer about `addr`: nothing yet (keep reading), the
/// payload, or the refusal. Only a buffer that parses whole answers.
pub open spec fn answer(pending: Seq<u8>, addr: Addr) -> Option<core::result::Result<Seq<u8>, Refusal>> {
    if pending.len() == 0 {
        None
    } else {
        match decode_spec(pending) {
            Err(_) => None,
            Ok(fs) => match first_at(fs, addr) {
                None => None,
                Some(f) => match frame_refusal(f) {
                    Some(why) => Some(Err(why)),
                    None => Some(Ok(f.payload)),
                },
            },
        }
    }
}

/// The record for `addr` among decoded messages, if any.
fn find_at(msgs: &Vec<Message>, addr: Addr) -> (r: Option<usize>)
    ensures
        match first_at(frames(msgs@), addr) {
            None => r is None,
            Some(f) => r matches Some(i) && i < msgs@.len() && msgs@[i as int]@ == f,
        },
{
    let mut i: usize = 0;
    proof {
        assert(frames(msgs@).subrange(0, msgs@.len() as int) =~= frames(msgs@));
    }
    while i < msgs.len()
        invariant
            i <= msgs@.len(),
            first_at(frames(msgs@), addr) == first_at(
                frames(msgs@).subrange(i as int, msgs@.len() as int),
                addr,
            ),
        decreases msgs@.len() - i,
    {
        proof {
            let s = frames(msgs@).subrange(i as int, msgs@.len() as int);
            assert(s.drop_first() =~= frames(msgs@).subrange(i + 1, msgs@.len() as int));
            assert(s[0] == msgs@[i as int]@);
        }
        if msgs[i].addr == addr {
            return Some(i);
        }
        i = i + 1;
    }
    None
}

/// What buffered bytes answer about `addr`, as [`answer`] says.
pub fn match_reply(pending: &[u8], addr: Addr) -> (r: Option<Result<Vec<u8>>>)
    ensures
        match answer(pending@, addr) {
            None => r is None,
            Some(Ok(p)) => r matches Some(Ok(v)) && v@ == p,
            Some(Err(why)) => r matches Some(Err(Error::Refused { addr: a, why: w })) && a == addr
                && w == why,
        },
{
    if pending.len() == 0 {
        return None;
    }
    let msgs = match decode(pending) {
        Ok(m) => m,
        Err(_) => {
            return None;
        },
    };
    match find_at(&msgs, addr) {
        None => None,
        Some(i) => match msgs[i].refusal() {
            Some(why) => Some(Err(Error::Refused { addr, why })),
            None => Some(Ok(msgs[i].payload.clone())),
        },
    }
}

/// What a function's listing says, from the records it sent back.
pub open spec fn listing_of(fs: Seq<Frame>, function: u8) -> ListingView {
    if fs.len() == 0 {
        ListingView::Silent
    } else {
        match first_refusal(fs) {
            Some(why) => ListingView::Refused(why),
            None => ListingView::Records(
                fs.filter(|f: Frame| f.operator == Operator::Status && f.addr.function == function).map_values(
                    |f: Frame| f.addr.opcode,
                ),
            ),
        }
    }
}

/// The first refusal among records.
pub open spec fn first_refusal(fs: Seq<Frame>) -> Option<Refusal>
    decreases fs.len(),
{
    if fs.len() == 0 {
        None
    } else {
        match frame_refusal(fs[0]) {
            Some(why) => Some(why),
            None => first_refusal(fs.drop_first()),
        }
    }
}

/// A listing as the specification sees it.
pub enum ListingView {
    Records(Seq<u8>),
    Refused(Refusal),
    Silent,
}

impl View for Listing {
    type V = ListingView;

    open spec fn view(&self) -> ListingView {
        match self {
            Listing::Records(v) => ListingView::Records(v@),
            Listing::Refused(r) => ListingView::Refused(*r),
            Listing::Silent => ListingView::Silent,
        }
    }
}

/// What a function said when asked to list itself, read from its reply.
///
/// The three outcomes are not interchangeable: a function that refuses to
/// enumerate may still be full of data — five on the Ultra are — so a refusal
/// must not read as an empty inventory. Status records only: an enumeration
/// opens with `<fn> 01 07 00`, a zero-length result, and closes with the
/// terminator; counting either as content lists opcode 01 as a record that does
/// not exist.
pub fn listing(reply: &Vec<Message>, function: u8) -> (l: Listing)
    ensures
        l@ == listing_of(frames(reply@), function),
{
    if reply.len() == 0 {
        return Listing::Silent;
    }
    let ghost fs = frames(reply@);
    let mut i: usize = 0;
    proof {
        assert(fs.subrange(0, fs.len() as int) =~= fs);
    }
    while i < reply.len()
        invariant
            fs == frames(reply@),
            i <= reply@.len(),
            first_refusal(fs) == first_refusal(fs.subrange(i as int, fs.len() as int)),
        decreases reply@.len() - i,
    {
        proof {
            let s = fs.subrange(i as int, fs.len() as int);
            assert(s.drop_first() =~= fs.subrange(i + 1, fs.len() as int));
            assert(s[0] == reply@[i as int]@);
        }
        match reply[i].refusal() {
            Some(why) => {
                return Listing::Refused(why);
            },
            None => {},
        }
        i = i + 1;
    }
    proof {
        assert(fs.subrange(fs.len() as int, fs.len() as int) =~= Seq::<Frame>::empty());
    }
    let ghost pred = |f: Frame| f.operator == Operator::Status && f.addr.function == function;
    let mut ops: Vec<u8> = Vec::new();
    let mut j: usize = 0;
    while j < reply.len()
        invariant
            fs == frames(reply@),
            j <= reply@.len(),
            pred == (|f: Frame| f.operator == Operator::Status && f.addr.function == function),
            ops@ == fs.subrange(0, j as int).filter(pred).map_values(|f: Frame| f.addr.opcode),
        decreases reply@.len() - j,
    {
        let ghost before = ops@;
        proof {
            let s = fs.subrange(0, j + 1);
            assert(s =~= fs.subrange(0, j as int).push(reply@[j as int]@));
            fs.subrange(0, j as int).lemma_filter_push(reply@[j as int]@, pred);
        }
        if reply[j].operator == Operator::Status && reply[j].addr.function == function {
            ops.push(reply[j].addr.opcode);
            proof {
                let s0 = fs.subrange(0, j as int).filter(pred);
                assert(s0.push(reply@[j as int]@).map_values(|f: Frame| f.addr.opcode)
                    =~= s0.map_values(|f: Frame| f.addr.opcode).push(reply@[j as int].addr.opcode));
            }
        }
        j = j + 1;
    }
    proof {
        assert(fs.subrange(0, fs.len() as int) =~= fs);
    }
    Listing::Records(ops)
}

/// A conversation with a device.
pub struct Session<T: Transport> {
    transport: T,
    /// Bytes read but not yet consumed.
    pending: Vec<u8>,
    /// What this session handed to a send that succeeded, in order.
    log: Ghost<Seq<Seq<u8>>>,
    /// What each receive this session made brought, in order.
    arrived: Ghost<Seq<Arrival>>,
    /// The bytes the last answer was looked for in.
    reply: Ghost<Seq<u8>>,
    /// The bytes each settled exchange's answer was looked for in, in order.
    history: Ghost<Seq<Seq<u8>>>,
    /// The errors of the link that ended a call, in order.
    link: Ghost<Seq<IoError>>,
}

impl<T: Transport> Session<T> {
    /// What has been sent, in order: the transport's own record where it keeps
    /// one, what this session sent where it does not.
    pub closed spec fn sent_log(&self) -> Seq<Seq<u8>> {
        if self.transport.records() {
            self.transport.sent_log()
        } else {
            self.log@
        }
    }

    /// What each receive brought, in order, recorded the same way.
    pub closed spec fn heard(&self) -> Seq<Arrival> {
        if self.transport.records() {
            self.transport.heard()
        } else {
            self.arrived@
        }
    }

    /// Bytes received and not yet consumed.
    pub closed spec fn buffered(&self) -> Seq<u8> {
        self.pending@
    }

    /// The errors of the link that ended a call, in order.
    /// Whether every send over this session's transport succeeds.
    pub closed spec fn sends_always(&self) -> bool {
        self.transport.sends_always()
    }

    pub closed spec fn link_errors(&self) -> Seq<IoError> {
        self.link@
    }

    /// The bytes the device had sent when the last exchange settled: what its
    /// answer, or its silence, was read from.
    pub closed spec fn replied(&self) -> Seq<u8> {
        self.reply@
    }

    /// What [`Session::replied`] was after each exchange that got its request
    /// out, oldest first.
    pub closed spec fn replies(&self) -> Seq<Seq<u8>> {
        self.history@
    }

    /// Hand `data` to the transport, keeping this session's record of it.
    fn send_bytes(&mut self, data: &[u8]) -> (r: core::result::Result<(), IoError>)
        ensures
            final(self).sent_log() == (if r is Ok {
                old(self).sent_log().push(data@)
            } else {
                old(self).sent_log()
            }),
            final(self).heard() == old(self).heard(),
            final(self).buffered() == old(self).buffered(),
            final(self).replied() == old(self).replied(),
            final(self).replies() == old(self).replies(),
            final(self).link_errors() == (match r {
                Ok(_) => old(self).link_errors(),
                Err(e) => old(self).link_errors().push(e),
            }),
            old(self).transport.sends_always() ==> r is Ok,
            final(self).transport.sends_always() == old(self).transport.sends_always(),
    {
        let r = self.transport.send(data);
        match &r {
            Ok(()) => {
                self.log = Ghost(self.log@.push(data@));
            },
            Err(e) => {
                self.link = Ghost(self.link@.push(*e));
            },
        }
        r
    }

    /// Take what the transport has into `buf`, keeping this session's record
    /// of what arrived.
    fn recv_bytes(&mut self, buf: &mut [u8]) -> (r: core::result::Result<usize, IoError>)
        ensures
            final(buf)@.len() == old(buf)@.len(),
            r matches Ok(n) ==> n <= old(buf)@.len(),
            final(self).heard() == old(self).heard().push(arrival(r, final(buf)@)),
            final(self).sent_log() == old(self).sent_log(),
            final(self).buffered() == old(self).buffered(),
            final(self).replied() == old(self).replied(),
            final(self).replies() == old(self).replies(),
            final(self).link_errors() == old(self).link_errors(),
    {
        let r = self.transport.recv(buf);
        self.arrived = Ghost(self.arrived@.push(arrival(r, buf@)));
        r
    }

    /// Open a session, sending the handshake first.
    ///
    /// Some devices answer nothing at all until `00 01 01 00` has been sent, so
    /// this is not optional politeness. Whatever comes back to it is read and
    /// dropped: a device that stays quiet here may still answer everything
    /// afterwards, so an unanswered handshake is no error.
    pub fn open(transport: T) -> (r: Result<Self>)
        ensures
            r matches Ok(s) ==> s.sent_log() == sent_before(transport).push(handshake())
                && s.heard().len() == heard_before(transport).len() + 1 && s.heard().drop_last()
                == heard_before(transport) && s.buffered().len() == 0 && s.replies().len() == 0,
            r matches Err(e) ==> e is Io,
            transport.sends_always() ==> r is Ok,
    {
        let mut s = Session {
            transport,
            pending: Vec::new(),
            log: Ghost(Seq::empty()),
            arrived: Ghost(Seq::empty()),
            reply: Ghost(Seq::empty()),
            history: Ghost(Seq::empty()),
            link: Ghost(Seq::empty()),
        };
        match s.greet() {
            Ok(()) => Ok(s),
            Err(e) => Err(e),
        }
    }

    /// Send the handshake and read, and drop, whatever comes back to it. Only
    /// the send can fail: a device that stays quiet here may still answer
    /// everything afterwards, so an unanswered handshake is no error.
    pub fn greet(&mut self) -> (r: Result<()>)
        ensures
            r matches Err(e) ==> e matches Error::Io(io) && unsent(*old(self), *final(self), io),
            r is Ok ==> {
                &&& final(self).sent_log() == old(self).sent_log().push(handshake())
                &&& final(self).heard().len() == old(self).heard().len() + 1
                &&& final(self).heard().drop_last() == old(self).heard()
                &&& final(self).buffered() == old(self).buffered()
                &&& final(self).replies() == old(self).replies()
                &&& final(self).link_errors() == old(self).link_errors()
            },
            old(self).sends_always() ==> r is Ok,
    {
        let hello = Message::get(Addr::at(0x00, 0x01));
        let bytes = match hello.encode() {
            Ok(b) => b,
            Err(e) => {
                return Err(Error::Frame(e));
            },
        };
        proof {
            assert(bytes@ =~= handshake());
        }
        match self.send_bytes(bytes.as_slice()) {
            Ok(()) => {},
            Err(e) => {
                return Err(Error::Io(e));
            },
        }
        let mut buf: Vec<u8> = vec![0u8; 512];
        let _ = self.recv_bytes(buf.as_mut_slice());
        Ok(())
    }

    /// A session over a transport that is already past the handshake.
    pub fn resume(transport: T) -> (s: Self)
        ensures
            s.sent_log() == sent_before(transport),
            s.heard() == heard_before(transport),
            s.buffered().len() == 0,
            s.replies().len() == 0,
    {
        Session {
            transport,
            pending: Vec::new(),
            log: Ghost(Seq::empty()),
            arrived: Ghost(Seq::empty()),
            reply: Ghost(Seq::empty()),
            history: Ghost(Seq::empty()),
            link: Ghost(Seq::empty()),
        }
    }

    /// Read one record. The payload, or the reason there is none.
    pub fn read(&mut self, addr: Addr) -> (r: Result<Vec<u8>>)
        ensures
            exchanged(*old(self), *final(self), read_request(addr), addr, r),
    {
        let m = Message::get(addr);
        proof {
            assert(encode_frame(m@) =~= seq![addr.function, addr.opcode, 0x01, 0x00]);
        }
        self.exchange(&m, addr)
    }

    /// Write one record, and report what the device answered.
    ///
    /// Discarding the reply reports a refusal as success — the caller sets a
    /// value, sees no error, and the device is unchanged. So a refusal in what
    /// the device sent is reported, never taken for success; an acknowledgement
    /// is success. Silence is accepted: several writes acknowledge with nothing.
    pub fn write(&mut self, addr: Addr, payload: Vec<u8>) -> (r: Result<()>)
        ensures
            payload@.len() > 255 ==> (r matches Err(Error::Frame(_))) && *final(self)
                == *old(self),
            payload@.len() <= 255 ==> written(
                *old(self),
                *final(self),
                write_request(addr, payload@),
                addr,
                r,
            ),
    {
        let m = Message::set(addr, payload);
        let r = self.exchange(&m, addr);
        match r {
            Ok(_) => Ok(()),
            Err(Error::Silent(_)) => Ok(()),
            Err(e) => Err(e),
        }
    }

    /// Send one message and read until the record answering it arrives.
    ///
    /// A single `recv` is not a reply. Reading once and decoding whatever came
    /// back fails two ways on a stream socket — a reply split mid-record decodes
    /// as truncated, and one split on a record boundary leaves its tail to be
    /// served as the answer to the next request, which desynchronises the
    /// session silently and permanently.
    ///
    /// Matching on the address is the other half of that. A device volunteers
    /// notifications with operator `00`, and stopping at the first thing that
    /// parses hands one of those back as the answer to a question it never saw.
    pub fn exchange(&mut self, m: &Message, addr: Addr) -> (r: Result<Vec<u8>>)
        ensures
            m.payload@.len() > 255 ==> (r matches Err(Error::Frame(_))) && *final(self)
                == *old(self),
            m.payload@.len() <= 255 ==> exchanged(*old(self), *final(self), encode_frame(m@), addr, r),
    {
        let bytes = match m.encode() {
            Ok(b) => b,
            Err(e) => {
                return Err(Error::Frame(e));
            },
        };
        match self.send_bytes(bytes.as_slice()) {
            Ok(()) => {},
            Err(e) => {
                return Err(Error::Io(e));
            },
        }
        let r = self.await_answer(addr);
        self.history = Ghost(self.history@.push(self.reply@));
        r
    }

    /// Read until what arrived settles what `addr` holds.
    fn await_answer(&mut self, addr: Addr) -> (r: Result<Vec<u8>>)
        ensures
            final(self).sent_log() == old(self).sent_log(),
            final(self).replies() == old(self).replies(),
            old(self).heard().is_prefix_of(final(self).heard()),
            read_through(old(self).buffered(), arrived_since(*old(self), *final(self)), addr),
            reading(old(self).buffered(), arrived_since(*old(self), *final(self)), addr) matches Reading::Ended(
                s,
            ) && reports(r, s, addr),
            replied_clauses(r, final(self).replied(), addr),
            final(self).link_errors() == (match reading(old(self).buffered(), arrived_since(*old(self), *final(self)), addr) {
                Reading::Ended(Settled::Broken(e)) => old(self).link_errors().push(e),
                _ => old(self).link_errors(),
            }),
            r is Ok ==> final(self).buffered().len() == 0,
            r matches Err(Error::Io(io)) ==> (final(self).link_errors().len() > old(self).link_errors().len()
                && final(self).link_errors().last() == io) || (io.kind == ErrorKind::UnexpectedEof
                && io.message@ == closed_text()),
            r matches Err(Error::Frame(d)) ==> decode_spec(final(self).replied()) == Err::<
                Seq<Frame>,
                crate::wire::Error,
            >(d),
    {
        let ghost b0 = self.pending@;
        let ghost h0 = self.heard();
        let mut chunk: Vec<u8> = vec![0u8; 1024];
        let mut reads: usize = 0;
        proof {
            assert(h0.subrange(h0.len() as int, h0.len() as int) =~= Seq::<Arrival>::empty());
            assert(h0.is_prefix_of(h0));
        }
        loop
            invariant
                chunk@.len() == 1024,
                reads <= MAX_READS,
                self.sent_log() == old(self).sent_log(),
                self.replies() == old(self).replies(),
                self.link_errors() == old(self).link_errors(),
                h0 == old(self).heard(),
                b0 == old(self).buffered(),
                h0.is_prefix_of(self.heard()),
                reading(b0, self.heard().subrange(h0.len() as int, self.heard().len() as int), addr)
                    == look(self.pending@, reads as nat, addr),
                forall|k: int|
                    0 <= k < self.heard().len() - h0.len() ==> #[trigger] reading(
                        b0,
                        self.heard().subrange(h0.len() as int, self.heard().len() as int).subrange(0, k),
                        addr,
                    ) is Waiting,
            decreases MAX_READS - reads,
        {
            let ghost arrivals = self.heard().subrange(h0.len() as int, self.heard().len() as int);
            let ghost before = self.pending@;
            let found = self.take_matching(addr);
            self.reply = Ghost(before);
            match found {
                Some(found) => {
                    return found;
                },
                None => {},
            }
            if reads >= MAX_READS {
                return self.give_up(addr);
            }
            reads = reads + 1;
            let got = self.recv_bytes(chunk.as_mut_slice());
            let ghost a = arrival(got, chunk@);
            proof {
                let now = self.heard().subrange(h0.len() as int, self.heard().len() as int);
                assert(now =~= arrivals.push(a));
                assert(now.drop_last() =~= arrivals);
                assert(h0.is_prefix_of(self.heard()));
                assert forall|k: int| 0 <= k < now.len() implies #[trigger] reading(b0, now.subrange(0, k), addr) is Waiting by {
                    if k < arrivals.len() {
                        assert(now.subrange(0, k) =~= arrivals.subrange(0, k));
                    } else {
                        assert(now.subrange(0, k) =~= arrivals);
                    }
                }
            }
            match got {
                // The peer closed. An empty buffer is not an empty reply.
                Ok(n) => {
                    if n == 0 {
                        return Err(
                            Error::Io(
                                IoError::new(ErrorKind::UnexpectedEof, "device closed the connection"),
                            ),
                        );
                    }
                    push_bytes(&mut self.pending, vstd::slice::slice_subrange(chunk.as_slice(), 0, n));
                },
                Err(e) => {
                    if e.is_timeout() {
                        return self.give_up(addr);
                    }
                    self.link = Ghost(self.link@.push(e));
                    return Err(Error::Io(e));
                },
            }
        }
    }

    /// Something arrived but never completed, or never mentioned what was
    /// asked. Say so rather than returning a partial parse or another record's
    /// payload.
    fn give_up(&mut self, addr: Addr) -> (r: Result<Vec<u8>>)
        ensures
            final(self).sent_log() == old(self).sent_log(),
            final(self).heard() == old(self).heard(),
            final(self).replied() == old(self).replied(),
            final(self).replies() == old(self).replies(),
            final(self).buffered().len() == 0,
            final(self).link_errors() == old(self).link_errors(),
            reports(r, given_up(old(self).buffered()), addr),
    {
        if self.pending.len() == 0 {
            return Err(Error::Silent(addr));
        }
        let mut leftover: Vec<u8> = Vec::new();
        core::mem::swap(&mut leftover, &mut self.pending);
        match decode(leftover.as_slice()) {
            Err(e) => Err(Error::Frame(e)),
            Ok(_) => Err(Error::Silent(addr)),
        }
    }

    /// The record for `addr` in what has been buffered so far, if the buffer
    /// parses whole. `None` means keep reading.
    ///
    /// Consumed either way. Records for other addresses are notifications or
    /// leftovers: keeping them would serve one as the next request's answer,
    /// and giving up on them would abandon a reply still on its way.
    fn take_matching(&mut self, addr: Addr) -> (r: Option<Result<Vec<u8>>>)
        ensures
            final(self).sent_log() == old(self).sent_log(),
            final(self).heard() == old(self).heard(),
            final(self).replies() == old(self).replies(),
            final(self).link_errors() == old(self).link_errors(),
            match answer(old(self).buffered(), addr) {
                None => r is None,
                Some(Ok(p)) => r matches Some(Ok(v)) && v@ == p,
                Some(Err(why)) => r matches Some(Err(Error::Refused { addr: a, why: w })) && a
                    == addr && w == why,
            },
            final(self).buffered() == leftover(old(self).buffered()),
    {
        if self.pending.len() == 0 {
            return None;
        }
        let parses = match decode(self.pending.as_slice()) {
            Ok(_) => true,
            Err(_) => false,
        };
        let found = match_reply(self.pending.as_slice(), addr);
        if parses {
            self.pending.clear();
        }
        found
    }

    /// Ask a function to list itself, reading until it says it has finished.
    ///
    /// An enumeration does not fit one read: the mode table alone is 555 bytes
    /// against a much smaller MTU, and a prefix may parse cleanly while omitting
    /// most of the answer.
    ///
    /// A refusal is returned as itself rather than as an empty list — five
    /// functions refuse to enumerate while holding data, so "refuses" and "has
    /// nothing" must stay distinguishable.
    pub fn enumerate(&mut self, function: u8) -> (r: Result<Vec<Message>>)
        ensures
            enumerated(*old(self), *final(self), function, r),
            r matches Ok(ms) ==> decode_spec(final(self).replied()) == Ok::<
                Seq<Frame>,
                crate::wire::Error,
            >(frames(ms@)),
            final(self).buffered().len() == 0 || r is Err,
            grew(*old(self), *final(self)),
            r matches Err(e) ==> broke_off(*old(self), *final(self), e),
    {
        let req = Message::enumerate(function);
        let bytes = match req.encode() {
            Ok(b) => b,
            Err(e) => {
                return Err(Error::Frame(e));
            },
        };
        proof {
            assert(bytes@ =~= seq![function, 0x01, 0x05, 0x00]);
        }
        match self.send_bytes(bytes.as_slice()) {
            Ok(()) => {},
            Err(e) => {
                return Err(Error::Io(e));
            },
        }
        let r = self.gather(function);
        self.history = Ghost(self.history@.push(self.reply@));
        r
    }

    /// Read an enumeration's reply until it is finished, then decode it.
    fn gather(&mut self, function: u8) -> (r: Result<Vec<Message>>)
        ensures
            final(self).sent_log() == old(self).sent_log(),
            final(self).replies() == old(self).replies(),
            final(self).buffered().len() == 0,
            old(self).heard().is_prefix_of(final(self).heard()),
            gathered_through(old(self).buffered(), arrived_since(*old(self), *final(self)), function),
            gathering(old(self).buffered(), arrived_since(*old(self), *final(self)), function) matches Gathering::Ended(
                g,
            ) && listed_as(r, g) && final(self).replied() == gathered_bytes(g, final(self).replied()),
            final(self).link_errors() == (match gathering(old(self).buffered(), arrived_since(*old(self), *final(self)), function) {
                Gathering::Ended(Gathered::Broken(e)) => old(self).link_errors().push(e),
                _ => old(self).link_errors(),
            }),
            r matches Ok(ms) ==> decode_spec(final(self).replied()) == Ok::<
                Seq<Frame>,
                crate::wire::Error,
            >(frames(ms@)),
            r matches Err(Error::Frame(d)) ==> decode_spec(final(self).replied()) == Err::<Seq<Frame>, crate::wire::Error>(d),
            r matches Err(Error::Io(io)) ==> (final(self).link_errors().len() > old(self).link_errors().len()
                && final(self).link_errors().last() == io) || (io.kind == ErrorKind::InvalidData
                && io.message@ == never_terminated() && final(self).replied().len() > MAX_ENUMERATION),
    {
        let terminator: [u8; 4] = [function, 0x01, 0x06, 0x00];
        let mut acc: Vec<u8> = Vec::new();
        core::mem::swap(&mut acc, &mut self.pending);
        let mut chunk: Vec<u8> = vec![0u8; 1024];
        let ghost a0 = acc@;
        let ghost h0 = self.heard();
        proof {
            assert(h0.subrange(h0.len() as int, h0.len() as int) =~= Seq::<Arrival>::empty());
            assert(h0.is_prefix_of(h0));
            assert(terminator@ =~= seq![function, 0x01, 0x06, 0x00]);
        }
        loop
            invariant
                chunk@.len() == 1024,
                terminator@ == seq![function, 0x01, 0x06, 0x00],
                self.sent_log() == old(self).sent_log(),
                self.replies() == old(self).replies(),
                self.link_errors() == old(self).link_errors(),
                self.pending@.len() == 0,
                h0 == old(self).heard(),
                a0 == old(self).buffered(),
                h0.is_prefix_of(self.heard()),
                gathering(a0, self.heard().subrange(h0.len() as int, self.heard().len() as int), function)
                    == look_list(acc@, function),
                forall|k: int|
                    0 <= k < self.heard().len() - h0.len() ==> #[trigger] gathering(
                        a0,
                        self.heard().subrange(h0.len() as int, self.heard().len() as int).subrange(0, k),
                        function,
                    ) is Waiting,
                acc@.len() <= MAX_ENUMERATION + 1024 || acc@ == a0,
            decreases (if acc@.len() > MAX_ENUMERATION {
                0
            } else {
                MAX_ENUMERATION + 1 - acc@.len()
            }),
        {
            // A device that answers without ever terminating would otherwise be
            // read until memory runs out; real hardware times out, but a
            // misbehaving one — or a test double that repeats its reply — does
            // not.
            if acc.len() > MAX_ENUMERATION {
                self.reply = Ghost(acc@);
                return Err(
                    Error::Io(IoError::new(ErrorKind::InvalidData, "enumeration never terminated")),
                );
            }
            // A refusal is short, complete and has no terminator; stop on it
            // rather than waiting out the timeout.
            if ends_with(acc.as_slice(), &terminator) || (acc.len() >= 5 && acc[0] == function
                && acc[1] == 0x01 && acc[2] == 0x04) {
                return self.settle_listing(acc);
            }
            let ghost arrivals = self.heard().subrange(h0.len() as int, self.heard().len() as int);
            let got = self.recv_bytes(chunk.as_mut_slice());
            let ghost a = arrival(got, chunk@);
            proof {
                let now = self.heard().subrange(h0.len() as int, self.heard().len() as int);
                assert(now =~= arrivals.push(a));
                assert(now.drop_last() =~= arrivals);
                assert(h0.is_prefix_of(self.heard()));
                assert forall|k: int| 0 <= k < now.len() implies #[trigger] gathering(a0, now.subrange(0, k), function) is Waiting by {
                    if k < arrivals.len() {
                        assert(now.subrange(0, k) =~= arrivals.subrange(0, k));
                    } else {
                        assert(now.subrange(0, k) =~= arrivals);
                    }
                }
            }
            match got {
                Ok(n) => {
                    if n == 0 {
                        return self.settle_listing(acc);
                    }
                    push_bytes(&mut acc, vstd::slice::slice_subrange(chunk.as_slice(), 0, n));
                },
                Err(e) => {
                    if e.is_timeout() {
                        return self.settle_listing(acc);
                    }
                    self.reply = Ghost(acc@);
                    self.link = Ghost(self.link@.push(e));
                    return Err(Error::Io(e));
                },
            }
        }
    }

    /// Decode a finished listing, keeping its bytes as the reply.
    fn settle_listing(&mut self, acc: Vec<u8>) -> (r: Result<Vec<Message>>)
        ensures
            final(self).sent_log() == old(self).sent_log(),
            final(self).heard() == old(self).heard(),
            final(self).replies() == old(self).replies(),
            final(self).buffered() == old(self).buffered(),
            final(self).link_errors() == old(self).link_errors(),
            final(self).replied() == acc@,
            listed_as(r, Gathered::Complete(acc@)),
            r matches Ok(ms) ==> decode_spec(acc@) == Ok::<Seq<Frame>, crate::wire::Error>(
                frames(ms@),
            ),
            r matches Err(Error::Frame(d)) ==> decode_spec(acc@) == Err::<Seq<Frame>, crate::wire::Error>(d),
            r is Ok || r is Err && r->Err_0 is Frame,
    {
        self.reply = Ghost(acc@);
        if acc.len() == 0 {
            let none: Vec<Message> = Vec::new();
            proof {
                assert(frames(none@) =~= Seq::<Frame>::empty());
                assert(acc@ =~= Seq::<u8>::empty());
            }
            return Ok(none);
        }
        match decode(acc.as_slice()) {
            Ok(ms) => Ok(ms),
            Err(e) => Err(Error::Frame(e)),
        }
    }

    /// What a function said when asked to list itself.
    pub fn list(&mut self, function: u8) -> (r: Result<Listing>)
        ensures
            r matches Ok(l) ==> final(self).sent_log() == old(self).sent_log().push(
                enumerate_request(function),
            ) && final(self).replies() == old(self).replies().push(final(self).replied())
                && l@ == listing_in(final(self).replied(), function),
            enumerated_listing(*old(self), *final(self), function, r),
            grew(*old(self), *final(self)),
            r matches Err(e) ==> broke_off(*old(self), *final(self), e),
    {
        let reply = self.enumerate(function)?;
        Ok(listing(&reply, function))
    }
}

/// What the first record at an address is: one of the records, at that address.
proof fn lemma_first_at(fs: Seq<Frame>, addr: Addr)
    ensures
        first_at(fs, addr) matches Some(f) ==> f.addr == addr && fs.contains(f),
    decreases fs.len(),
{
    if fs.len() > 0 && fs[0].addr != addr {
        lemma_first_at(fs.drop_first(), addr);
        match first_at(fs.drop_first(), addr) {
            Some(f) => {
                let k = choose|k: int| 0 <= k < fs.drop_first().len() && fs.drop_first()[k] == f;
                assert(fs[k + 1] == f);
            },
            None => {},
        }
    } else if fs.len() > 0 {
        assert(fs[0] == fs[0]);
    }
}

/// An answer is only ever a record at the address asked about: a notification
/// or a leftover for another address is never served as the reply, and a
/// buffer that does not parse whole answers nothing.
pub proof fn lemma_answer_is_at_addr(pending: Seq<u8>, addr: Addr)
    ensures
        answer(pending, addr) is Some ==> (decode_spec(pending) matches Ok(fs) && exists|f: Frame|
            fs.contains(f) && f.addr == addr && match answer(pending, addr) {
                Some(Ok(p)) => frame_refusal(f) is None && f.payload == p,
                Some(Err(why)) => frame_refusal(f) == Some(why),
                None => false,
            }),
{
    if let Ok(fs) = decode_spec(pending) {
        lemma_first_at(fs, addr);
    }
}

/// The bytes of a read of `addr`: `<fn> <op> 01 00`.
pub open spec fn read_request(addr: Addr) -> Seq<u8> {
    seq![addr.function, addr.opcode, 0x01, 0x00]
}

/// The bytes of a write of `payload` to `addr`.
pub open spec fn write_request(addr: Addr, payload: Seq<u8>) -> Seq<u8> {
    encode_frame(Frame { addr, operator: Operator::SetGet, payload })
}

/// The bytes asking `function` to list itself: `<fn> 01 05 00`.
pub open spec fn enumerate_request(function: u8) -> Seq<u8> {
    seq![function, 0x01, 0x05, 0x00]
}

/// How one exchange ended.
pub enum Settled {
    /// The payload at the address asked about.
    Answer(Seq<u8>),
    /// A refusal at the address asked about.
    Refusal(Refusal),
    /// Nothing for the address before the device went quiet.
    Silence,
    /// What was buffered when the device went quiet never parsed whole.
    Garbled(crate::wire::Error),
    /// The device closed the connection.
    Hangup,
    /// The link failed.
    Broken(IoError),
}

/// Where reading an answer stands.
pub enum Reading {
    /// Nothing settled yet: what stays buffered, and how many receives were
    /// made.
    Waiting(Seq<u8>, nat),
    Ended(Settled),
}

/// What is kept of a buffer once it has been looked at: nothing, once it
/// parses whole — records for other addresses are notifications or leftovers.
pub open spec fn leftover(buf: Seq<u8>) -> Seq<u8> {
    if buf.len() > 0 && decode_spec(buf) is Ok {
        Seq::empty()
    } else {
        buf
    }
}

/// Giving up with `rest` still buffered: silence, or the reason it does not
/// parse.
pub open spec fn given_up(rest: Seq<u8>) -> Settled {
    if rest.len() == 0 {
        Settled::Silence
    } else {
        match decode_spec(rest) {
            Err(d) => Settled::Garbled(d),
            Ok(_) => Settled::Silence,
        }
    }
}

/// Looking at `buf` after `reads` receives: answered, given up after
/// [`MAX_READS`], or waiting with what is kept of it.
pub open spec fn look(buf: Seq<u8>, reads: nat, addr: Addr) -> Reading {
    match answer(buf, addr) {
        Some(Ok(p)) => Reading::Ended(Settled::Answer(p)),
        Some(Err(why)) => Reading::Ended(Settled::Refusal(why)),
        None => if reads >= MAX_READS {
            Reading::Ended(given_up(leftover(buf)))
        } else {
            Reading::Waiting(leftover(buf), reads)
        },
    }
}

/// One receive: bytes are added and looked at again; the peer closing, or the
/// link failing, ends it; a timeout gives up on what is buffered.
pub open spec fn hear(state: Reading, a: Arrival, addr: Addr) -> Reading {
    match state {
        Reading::Waiting(rest, reads) => match a {
            Arrival::Bytes(b) => look(rest + b, reads + 1, addr),
            Arrival::Closed => Reading::Ended(Settled::Hangup),
            Arrival::Failed(e) => if e.kind == ErrorKind::TimedOut {
                Reading::Ended(given_up(rest))
            } else {
                Reading::Ended(Settled::Broken(e))
            },
        },
        Reading::Ended(s) => Reading::Ended(s),
    }
}

/// Where reading an answer about `addr` stands, with `buf` buffered at the
/// start and `arrivals` received since.
pub open spec fn reading(buf: Seq<u8>, arrivals: Seq<Arrival>, addr: Addr) -> Reading
    decreases arrivals.len(),
{
    if arrivals.len() == 0 {
        look(buf, 0, addr)
    } else {
        hear(reading(buf, arrivals.drop_last(), addr), arrivals.last(), addr)
    }
}

/// Reading went on exactly as long as nothing was settled: every receive but
/// the last left it waiting, and the last settled it.
pub open spec fn read_through(buf: Seq<u8>, arrivals: Seq<Arrival>, addr: Addr) -> bool {
    &&& reading(buf, arrivals, addr) is Ended
    &&& forall|k: int|
        0 <= k < arrivals.len() ==> #[trigger] reading(buf, arrivals.subrange(0, k), addr) is Waiting
}

/// What was received between two states of a session.
pub open spec fn arrived_since<T: Transport>(before: Session<T>, after: Session<T>) -> Seq<Arrival> {
    after.heard().subrange(before.heard().len() as int, after.heard().len() as int)
}

/// `r` is what an exchange that ended as `s` returns.
pub open spec fn reports(r: Result<Vec<u8>>, s: Settled, addr: Addr) -> bool {
    match s {
        Settled::Answer(p) => r matches Ok(v) && v@ == p,
        Settled::Refusal(why) => r matches Err(Error::Refused { addr: a, why: w }) && a == addr && w
            == why,
        Settled::Silence => r matches Err(Error::Silent(a)) && a == addr,
        Settled::Garbled(d) => r matches Err(Error::Frame(x)) && x == d,
        Settled::Hangup => r matches Err(Error::Io(e)) && e.kind == ErrorKind::UnexpectedEof
            && e.message@ == closed_text(),
        Settled::Broken(e) => r matches Err(Error::Io(x)) && x == e,
    }
}

/// `r` is what a verb that reads `addr` returns for a read that ended as `s`:
/// a payload gives the value or, where it does not decode, is reported with its
/// bytes; anything else is reported as the read reports it.
pub open spec fn read_reports<V>(r: Result<V>, s: Settled, addr: Addr) -> bool {
    match s {
        Settled::Answer(p) => r is Ok || (r matches Err(Error::Malformed { addr: a, got }) && a
            == addr && got@ == p),
        Settled::Refusal(why) => r matches Err(Error::Refused { addr: a, why: w }) && a == addr && w
            == why,
        Settled::Silence => r matches Err(Error::Silent(a)) && a == addr,
        Settled::Garbled(d) => r matches Err(Error::Frame(x)) && x == d,
        Settled::Hangup => r matches Err(Error::Io(e)) && e.kind == ErrorKind::UnexpectedEof
            && e.message@ == closed_text(),
        Settled::Broken(e) => r matches Err(Error::Io(x)) && x == e,
    }
}

/// `r` is what a write whose exchange ended as `s` returns: an answer or
/// silence is success, anything else is reported as the exchange reports it.
pub open spec fn write_reports(r: Result<()>, s: Settled, addr: Addr) -> bool {
    match s {
        Settled::Answer(_) => r is Ok,
        Settled::Silence => r is Ok,
        Settled::Refusal(why) => r matches Err(Error::Refused { addr: a, why: w }) && a == addr && w
            == why,
        Settled::Garbled(d) => r matches Err(Error::Frame(x)) && x == d,
        Settled::Hangup => r matches Err(Error::Io(e)) && e.kind == ErrorKind::UnexpectedEof
            && e.message@ == closed_text(),
        Settled::Broken(e) => r matches Err(Error::Io(x)) && x == e,
    }
}

/// What the bytes the answer was looked for in say, for each result.
pub open spec fn replied_clauses(r: Result<Vec<u8>>, replied: Seq<u8>, addr: Addr) -> bool {
    &&& r matches Ok(p) ==> answer(replied, addr) == Some(Ok::<Seq<u8>, Refusal>(p@))
    &&& r matches Err(Error::Refused { why, .. }) ==> answer(replied, addr) == Some(
        Err::<Seq<u8>, Refusal>(why),
    )
    &&& (r matches Err(Error::Silent(_)) || r matches Err(Error::Frame(_))) ==> answer(
        replied,
        addr,
    ) is None
}

/// The request never went out: the send failed with the error returned, and
/// nothing else changed.
pub open spec fn unsent<T: Transport>(before: Session<T>, after: Session<T>, e: IoError) -> bool {
    &&& after.sent_log() == before.sent_log()
    &&& after.heard() == before.heard()
    &&& after.replies() == before.replies()
    &&& after.buffered() == before.buffered()
    &&& after.link_errors() == before.link_errors().push(e)
}

/// The request went out, what came back was read until it settled what `addr`
/// holds, and where the answer was looked for is kept.
pub open spec fn went_out<T: Transport>(before: Session<T>, after: Session<T>, request: Seq<u8>, addr: Addr) -> bool {
    &&& after.sent_log() == before.sent_log().push(request)
    &&& before.heard().is_prefix_of(after.heard())
    &&& read_through(before.buffered(), arrived_since(before, after), addr)
    &&& after.replies() == before.replies().push(after.replied())
}

/// How the exchange for `addr` between two states of a session settled.
pub open spec fn settled<T: Transport>(before: Session<T>, after: Session<T>, addr: Addr) -> Reading {
    reading(before.buffered(), arrived_since(before, after), addr)
}

/// One request-and-answer: either the request never went out and the send's
/// error is returned, or it went out, reading went on exactly until what came
/// back settled what `addr` holds, and `r` says how it settled.
pub open spec fn exchanged<T: Transport>(
    before: Session<T>,
    after: Session<T>,
    request: Seq<u8>,
    addr: Addr,
    r: Result<Vec<u8>>,
) -> bool {
    &&& {
        ||| r matches Err(Error::Io(e)) && unsent(before, after, e)
        ||| went_out(before, after, request, addr) && (settled(before, after, addr) matches Reading::Ended(
            s,
        ) && reports(r, s, addr))
    }
    &&& replied_clauses(r, after.replied(), addr)
    &&& grew(before, after)
    &&& r matches Err(e) ==> broke_off(before, after, e) || e is Refused || e is Silent
}

/// One write: as [`exchanged`], with an answer or silence reported as success.
pub open spec fn written<T: Transport>(
    before: Session<T>,
    after: Session<T>,
    request: Seq<u8>,
    addr: Addr,
    r: Result<()>,
) -> bool {
    &&& {
        ||| r matches Err(Error::Io(e)) && unsent(before, after, e)
        ||| went_out(before, after, request, addr) && (settled(before, after, addr) matches Reading::Ended(
            s,
        ) && write_reports(r, s, addr))
    }
    &&& grew(before, after)
    &&& r matches Err(e) ==> broke_off(before, after, e) || e is Refused
}

/// What a session keeps only grows: what was sent, and the link's errors.
pub open spec fn grew<T: Transport>(before: Session<T>, after: Session<T>) -> bool {
    &&& after.sent_log().len() >= before.sent_log().len()
    &&& after.link_errors().len() >= before.link_errors().len()
}

/// Why a device that hung up is given up on.
pub open spec fn closed_text() -> Seq<char> {
    "device closed the connection"@
}

/// Why an enumeration that never ends is given up on.
pub open spec fn never_terminated() -> Seq<char> {
    "enumeration never terminated"@
}

/// An error a call ended with came from the exchange itself: an `Io` error is
/// the last the link reported, reported during the call, or — once a request
/// went out — the device hanging up or never finishing its answer; a `Frame`
/// error says why what the device sent back does not parse.
pub open spec fn broke_off<T: Transport>(before: Session<T>, after: Session<T>, e: Error) -> bool {
    match e {
        Error::Io(io) => {
            ||| after.link_errors().len() > before.link_errors().len() && after.link_errors().last()
                == io
            ||| after.sent_log().len() > before.sent_log().len() && io.kind
                == ErrorKind::UnexpectedEof && io.message@ == closed_text()
            ||| after.sent_log().len() > before.sent_log().len() && io.kind
                == ErrorKind::InvalidData && io.message@ == never_terminated()
                && after.replied().len() > MAX_ENUMERATION
        },
        Error::Frame(d) => after.sent_log().len() > before.sent_log().len() && decode_spec(
            after.replied(),
        ) == Err::<Seq<Frame>, crate::wire::Error>(d),
        _ => false,
    }
}

/// An enumeration reply is finished when it ends with the terminator
/// `<fn> 01 06 00`, or when a refusal stands at its front.
pub open spec fn finished(acc: Seq<u8>, function: u8) -> bool {
    ||| acc.len() >= 4 && acc.subrange(acc.len() - 4, acc.len() as int) == seq![
        function,
        0x01u8,
        0x06u8,
        0x00u8,
    ]
    ||| acc.len() >= 5 && acc[0] == function && acc[1] == 0x01 && acc[2] == 0x04
}

/// Looking at what was gathered: too much, finished, or waiting for more.
pub open spec fn look_list(acc: Seq<u8>, function: u8) -> Gathering {
    if acc.len() > MAX_ENUMERATION {
        Gathering::Ended(Gathered::Overrun(acc))
    } else if finished(acc, function) {
        Gathering::Ended(Gathered::Complete(acc))
    } else {
        Gathering::Waiting(acc)
    }
}

/// One receive while gathering: bytes are added, the peer closing or a timeout
/// ends the reply as it stands, a failure breaks it off.
pub open spec fn hear_list(state: Gathering, a: Arrival, function: u8) -> Gathering {
    match state {
        Gathering::Waiting(acc) => match a {
            Arrival::Bytes(b) => look_list(acc + b, function),
            Arrival::Closed => Gathering::Ended(Gathered::Complete(acc)),
            Arrival::Failed(e) => if e.kind == ErrorKind::TimedOut {
                Gathering::Ended(Gathered::Complete(acc))
            } else {
                Gathering::Ended(Gathered::Broken(e))
            },
        },
        Gathering::Ended(g) => Gathering::Ended(g),
    }
}

/// Where gathering `function`'s listing stands, with `acc` buffered at the
/// start and `arrivals` received since.
pub open spec fn gathering(acc: Seq<u8>, arrivals: Seq<Arrival>, function: u8) -> Gathering
    decreases arrivals.len(),
{
    if arrivals.len() == 0 {
        look_list(acc, function)
    } else {
        hear_list(gathering(acc, arrivals.drop_last(), function), arrivals.last(), function)
    }
}

/// Gathering went on exactly as long as the reply was unfinished.
pub open spec fn gathered_through(acc: Seq<u8>, arrivals: Seq<Arrival>, function: u8) -> bool {
    &&& gathering(acc, arrivals, function) is Ended
    &&& forall|k: int|
        0 <= k < arrivals.len() ==> #[trigger] gathering(acc, arrivals.subrange(0, k), function) is Waiting
}

/// The bytes a gathered reply is kept as; `otherwise` where the link broke.
pub open spec fn gathered_bytes(g: Gathered, otherwise: Seq<u8>) -> Seq<u8> {
    match g {
        Gathered::Complete(acc) => acc,
        Gathered::Overrun(acc) => acc,
        Gathered::Broken(_) => otherwise,
    }
}

/// `r` is what an enumeration whose reply ended as `g` returns: the records
/// the reply decodes to, why it does not decode, or why it was given up on.
pub open spec fn listed_as(r: Result<Vec<Message>>, g: Gathered) -> bool {
    match g {
        Gathered::Complete(acc) => if acc.len() == 0 {
            r matches Ok(ms) && ms@.len() == 0
        } else {
            match decode_spec(acc) {
                Ok(fs) => r matches Ok(ms) && frames(ms@) == fs,
                Err(d) => r matches Err(Error::Frame(x)) && x == d,
            }
        },
        Gathered::Overrun(_) => r matches Err(Error::Io(e)) && e.kind == ErrorKind::InvalidData
            && e.message@ == never_terminated(),
        Gathered::Broken(e) => r matches Err(Error::Io(x)) && x == e,
    }
}

/// One enumeration: either the request never went out and the send's error is
/// returned, or it went out, reading went on exactly until the reply was
/// finished, and `r` is what that reply holds.
pub open spec fn enumerated<T: Transport>(
    before: Session<T>,
    after: Session<T>,
    function: u8,
    r: Result<Vec<Message>>,
) -> bool {
    ||| r matches Err(Error::Io(e)) && unsent(before, after, e)
    ||| {
        &&& after.sent_log() == before.sent_log().push(enumerate_request(function))
        &&& before.heard().is_prefix_of(after.heard())
        &&& gathered_through(before.buffered(), arrived_since(before, after), function)
        &&& after.replies() == before.replies().push(after.replied())
        &&& gathering(before.buffered(), arrived_since(before, after), function) matches Gathering::Ended(
            g,
        ) && listed_as(r, g) && after.replied() == gathered_bytes(g, after.replied())
    }
}

/// What a reply says when a function is asked to list itself.
pub open spec fn listing_in(reply: Seq<u8>, function: u8) -> ListingView {
    match decode_spec(reply) {
        Ok(fs) => listing_of(fs, function),
        Err(_) => ListingView::Silent,
    }
}

/// [`enumerated`], with the records read as a listing.
pub open spec fn enumerated_listing<T: Transport>(
    before: Session<T>,
    after: Session<T>,
    function: u8,
    r: Result<Listing>,
) -> bool {
    ||| r matches Err(Error::Io(e)) && unsent(before, after, e)
    ||| {
        &&& after.sent_log() == before.sent_log().push(enumerate_request(function))
        &&& before.heard().is_prefix_of(after.heard())
        &&& gathered_through(before.buffered(), arrived_since(before, after), function)
        &&& after.replies() == before.replies().push(after.replied())
        &&& gathering(before.buffered(), arrived_since(before, after), function) matches Gathering::Ended(
            g,
        ) && listing_as(r, g, function)
    }
}

/// `r` is what listing `function` returns when its reply ended as `g`.
pub open spec fn listing_as(r: Result<Listing>, g: Gathered, function: u8) -> bool {
    match g {
        Gathered::Complete(acc) => match decode_spec(acc) {
            Ok(fs) => r matches Ok(l) && l@ == listing_of(fs, function),
            Err(d) => r matches Err(Error::Frame(x)) && x == d,
        },
        Gathered::Overrun(_) => r matches Err(Error::Io(e)) && e.kind == ErrorKind::InvalidData
            && e.message@ == never_terminated(),
        Gathered::Broken(e) => r matches Err(Error::Io(x)) && x == e,
    }
}

/// How a record about the address asked about settles the exchange.
pub open spec fn settled_by(f: Frame) -> Settled {
    match frame_refusal(f) {
        Some(why) => Settled::Refusal(why),
        None => Settled::Answer(f.payload),
    }
}

/// The first record at `addr` in two runs of records is the first run's, or
/// else the second's.
proof fn lemma_first_at_concat(a: Seq<Frame>, b: Seq<Frame>, addr: Addr)
    ensures
        first_at(a + b, addr) == (if first_at(a, addr) is Some {
            first_at(a, addr)
        } else {
            first_at(b, addr)
        }),
    decreases a.len(),
{
    if a.len() == 0 {
        assert(a + b =~= b);
    } else {
        assert((a + b).drop_first() =~= a.drop_first() + b);
        assert((a + b)[0] == a[0]);
        lemma_first_at_concat(a.drop_first(), b, addr);
    }
}

/// Records that can be sent stay sendable in any run cut from them.
proof fn lemma_sendable_subrange(fs: Seq<Frame>, i: int, j: int)
    requires
        sendable(fs),
        0 <= i <= j <= fs.len(),
    ensures
        sendable(fs.subrange(i, j)),
{
    assert forall|k: int| 0 <= k < fs.subrange(i, j).len() implies #[trigger] fs.subrange(
        i,
        j,
    )[k].payload.len() <= 255 && operator_canonical(fs.subrange(i, j)[k].operator) by {
        assert(fs.subrange(i, j)[k] == fs[i + k]);
    }
}

/// Reading a reply that has arrived in part: either it has already settled, on
/// the first record for `addr`, or it is waiting with what follows the last
/// whole records it dropped — none of them for `addr` — and what it holds does
/// not parse.
#[verifier::rlimit(60)]
#[verifier::spinoff_prover]
proof fn lemma_reading_prefix(fs: Seq<Frame>, chunks: Seq<Seq<u8>>, addr: Addr)
    requires
        sendable(fs),
        chunks.len() < MAX_READS,
        joined(chunks).len() <= encode_frames(fs).len(),
        joined(chunks) == encode_frames(fs).subrange(0, joined(chunks).len() as int),
    ensures
        match reading(Seq::empty(), as_arrivals(chunks), addr) {
            Reading::Ended(s) => first_at(fs, addr) matches Some(f) && s == settled_by(f),
            Reading::Waiting(rest, r) => r == chunks.len() && exists|j: int|
                #![trigger fs.subrange(0, j)]
                {
                    &&& 0 <= j <= fs.len()
                    &&& encode_frames(fs.subrange(0, j)).len() <= joined(chunks).len()
                    &&& rest == encode_frames(fs).subrange(
                        encode_frames(fs.subrange(0, j)).len() as int,
                        joined(chunks).len() as int,
                    )
                    &&& first_at(fs.subrange(0, j), addr) is None
                    &&& rest.len() > 0 ==> decode_spec(rest) is Err
                },
        },
    decreases chunks.len(),
{
    let b = encode_frames(fs);
    let arr = as_arrivals(chunks);
    if chunks.len() == 0 {
        assert(arr =~= Seq::<Arrival>::empty());
        assert(fs.subrange(0, 0) =~= Seq::<Frame>::empty());
        assert(encode_frames(fs.subrange(0, 0)) =~= Seq::<u8>::empty());
        assert(b.subrange(0, 0) =~= Seq::<u8>::empty());
        assert(leftover(Seq::<u8>::empty()) =~= Seq::<u8>::empty());
    } else {
        let prev = chunks.drop_last();
        let c = chunks.last();
        assert(arr.drop_last() =~= as_arrivals(prev));
        assert(arr.last() == Arrival::Bytes(c));
        let p0 = joined(prev).len();
        let p1 = joined(chunks).len();
        assert(joined(prev) =~= b.subrange(0, p0 as int)) by {
            assert(joined(prev) =~= joined(chunks).subrange(0, p0 as int));
        }
        lemma_reading_prefix(fs, prev, addr);
        match reading(Seq::empty(), as_arrivals(prev), addr) {
            Reading::Ended(_) => {},
            Reading::Waiting(rest, r) => {
                let j = choose|j: int|
                    #![trigger fs.subrange(0, j)]
                    {
                        &&& 0 <= j <= fs.len()
                        &&& encode_frames(fs.subrange(0, j)).len() <= p0
                        &&& rest == b.subrange(encode_frames(fs.subrange(0, j)).len() as int, p0 as int)
                        &&& first_at(fs.subrange(0, j), addr) is None
                        &&& rest.len() > 0 ==> decode_spec(rest) is Err
                    };
                let head = fs.subrange(0, j);
                let d = encode_frames(head).len();
                let gs = fs.subrange(j, fs.len() as int);
                assert(fs =~= head + gs);
                lemma_encode_frames_concat(head, gs);
                let buf = rest + c;
                assert(joined(chunks) == joined(prev) + c);
                assert(c =~= b.subrange(p0 as int, p1 as int)) by {
                    assert(c =~= joined(chunks).subrange(p0 as int, p1 as int));
                }
                assert(buf =~= b.subrange(d as int, p1 as int));
                assert(b.subrange(d as int, p1 as int) =~= encode_frames(gs).subrange(0, p1 - d));
                lemma_sendable_subrange(fs, j, fs.len() as int);
                lemma_decode_prefix(gs, p1 - d);
                match boundary_index(gs, p1 - d) {
                    Some(k) => {
                        let upto = fs.subrange(0, j + k);
                        assert(upto =~= head + gs.subrange(0, k as int));
                        lemma_first_at_concat(head, gs.subrange(0, k as int), addr);
                        lemma_encode_frames_concat(head, gs.subrange(0, k as int));
                        assert(fs =~= upto + fs.subrange(j + k, fs.len() as int));
                        lemma_first_at_concat(upto, fs.subrange(j + k, fs.len() as int), addr);
                        assert(b.subrange(p1 as int, p1 as int) =~= Seq::<u8>::empty());
                        assert(leftover(buf) =~= Seq::<u8>::empty());
                    },
                    None => {},
                }
            },
        }
    }
}

/// However a reply's bytes are split across receives, the exchange settles
/// the same way: on the first record the reply holds for the address asked
/// about. A notification for another address that arrives first is never
/// served as the answer, and a record split mid-way is never parsed short.
/// This holds of replies that arrive in fewer receives than are waited on.
pub proof fn lemma_split_reply_same_answer(fs: Seq<Frame>, chunks: Seq<Seq<u8>>, addr: Addr)
    requires
        sendable(fs),
        first_at(fs, addr) is Some,
        joined(chunks) == encode_frames(fs),
        chunks.len() < MAX_READS,
    ensures
        reading(Seq::empty(), as_arrivals(chunks), addr) == Reading::Ended(
            settled_by(first_at(fs, addr)->Some_0),
        ),
{
    let b = encode_frames(fs);
    assert(b.subrange(0, b.len() as int) =~= b);
    lemma_reading_prefix(fs, chunks, addr);
    if let Reading::Waiting(rest, r) = reading(Seq::empty(), as_arrivals(chunks), addr) {
        let j = choose|j: int|
            #![trigger fs.subrange(0, j)]
            {
                &&& 0 <= j <= fs.len()
                &&& encode_frames(fs.subrange(0, j)).len() <= b.len()
                &&& rest == b.subrange(encode_frames(fs.subrange(0, j)).len() as int, b.len() as int)
                &&& first_at(fs.subrange(0, j), addr) is None
                &&& rest.len() > 0 ==> decode_spec(rest) is Err
            };
        let head = fs.subrange(0, j);
        let gs = fs.subrange(j, fs.len() as int);
        assert(fs =~= head + gs);
        lemma_encode_frames_concat(head, gs);
        assert(rest =~= encode_frames(gs));
        lemma_sendable_subrange(fs, j, fs.len() as int);
        assert forall|i: int| 0 <= i < gs.len() implies #[trigger] gs[i].payload.len() <= 255 by {}
        assert forall|i: int| 0 <= i < gs.len() implies operator_canonical(#[trigger] gs[i].operator) by {
            assert(gs[i].payload.len() <= 255);
        }
        lemma_decode_encode(gs);
        if gs.len() > 0 {
            assert(encode_frames(gs).len() >= 4);
        } else {
            assert(head =~= fs);
        }
    }
}

/// Gathering a listing from nothing, over receives that never stopped short:
/// where it stands is what looking at all their bytes together says.
proof fn lemma_gathering_joined(chunks: Seq<Seq<u8>>, function: u8)
    requires
        forall|k: int|
            0 <= k < joined(chunks).len() ==> !finished(#[trigger] joined(chunks).subrange(0, k), function),
        chunks.len() > 0 ==> joined(chunks.drop_last()).len() <= MAX_ENUMERATION,
    ensures
        gathering(Seq::empty(), as_arrivals(chunks), function) == look_list(joined(chunks), function),
    decreases chunks.len(),
{
    let arr = as_arrivals(chunks);
    if chunks.len() == 0 {
        assert(arr =~= Seq::<Arrival>::empty());
    } else {
        let prev = chunks.drop_last();
        let c = chunks.last();
        let j = joined(chunks);
        let j0 = joined(prev);
        assert(arr.drop_last() =~= as_arrivals(prev));
        assert(arr.last() == Arrival::Bytes(c));
        assert(j == j0 + c);
        assert forall|k: int| 0 <= k < j0.len() implies !finished(#[trigger] j0.subrange(0, k), function) by {
            assert(j0.subrange(0, k) =~= j.subrange(0, k));
        }
        if prev.len() > 0 {
            assert(joined(prev.drop_last()).len() <= j0.len()) by {
                assert(j0 == joined(prev.drop_last()) + prev.last());
            }
        }
        lemma_gathering_joined(prev, function);
        if j0.len() < j.len() {
            assert(j0 =~= j.subrange(0, j0.len() as int));
        } else {
            assert(c.len() == 0);
            assert(j0 + c =~= j0);
        }
    }
}

/// However an enumeration's reply is split across receives, it is gathered
/// whole: reading goes on until the reply is finished — its terminator
/// arrived, or a refusal stands at its front — and what is decoded is the whole
/// reply. This holds of a reply that fits in [`MAX_ENUMERATION`] bytes and
/// that no shorter part of already looks finished.
pub proof fn lemma_split_listing_gathered_whole(reply: Seq<u8>, chunks: Seq<Seq<u8>>, function: u8)
    requires
        joined(chunks) == reply,
        finished(reply, function),
        reply.len() <= MAX_ENUMERATION,
        forall|k: int| 0 <= k < reply.len() ==> !finished(#[trigger] reply.subrange(0, k), function),
    ensures
        gathering(Seq::empty(), as_arrivals(chunks), function) == Gathering::Ended(
            Gathered::Complete(reply),
        ),
{
    if chunks.len() > 0 {
        assert(reply == joined(chunks.drop_last()) + chunks.last());
    }
    lemma_gathering_joined(chunks, function);
}

/// An enumeration that never finishes is not read without end: once more
/// than [`MAX_ENUMERATION`] bytes have arrived without the reply finishing,
/// gathering ends there, overrun.
pub proof fn lemma_endless_listing_overruns(chunks: Seq<Seq<u8>>, function: u8)
    requires
        forall|k: int|
            0 <= k <= joined(chunks).len() ==> !finished(#[trigger] joined(chunks).subrange(0, k), function),
        joined(chunks).len() > MAX_ENUMERATION,
        chunks.len() > 0 ==> joined(chunks.drop_last()).len() <= MAX_ENUMERATION,
    ensures
        gathering(Seq::empty(), as_arrivals(chunks), function) == Gathering::Ended(
            Gathered::Overrun(joined(chunks)),
        ),
{
    lemma_gathering_joined(chunks, function);
}

impl<T: Recording> Session<T> {
    /// What has been sent, for tests that assert on the wire.
    pub fn transport_sent(&self) -> (log: &[Vec<u8>])
        ensures
            log@.len() == self.sent_log().len(),
            forall|i: int| 0 <= i < log@.len() ==> #[trigger] log@[i]@ == self.sent_log()[i],
    {
        self.transport.sent()
    }
}

} // verus!
