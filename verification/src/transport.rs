//! Getting bytes to and from a device.
//!
//! Everything above this is written against [`Transport`], so the rest of the
//! crate can be tested by replaying recorded traffic — which matters here,
//! because exercising the whole protocol needs four headphones from two
//! generations and most people have one.
//!
//! Two things live here besides the trait: the scripted transports that stand
//! in for a device, and the plain request/reply [`Session`] the capability-
//! probing client uses. The session that reads a stream until its answer
//! arrives is [`crate::session::Session`].

pub mod bluez;
pub mod mock;
pub mod probe;
pub mod rfcomm;

pub use mock::{Replay, Scripted};
pub use rfcomm::Address;

use vstd::prelude::*;

use crate::error::{ErrorKind, IoError};
use crate::framing::{self, decode, decode_spec, encode_record, error_text, records, Message};
use crate::text::{push_str, string_from_chars};
use crate::wire::push_bytes;

verus! {

/// What one receive brought: bytes, the peer closing (`Ok(0)`), or a failure.
pub enum Arrival {
    Bytes(Seq<u8>),
    Closed,
    Failed(IoError),
}

/// What a receive that returned `r` into `buf` brought.
pub open spec fn arrival(r: Result<usize, IoError>, buf: Seq<u8>) -> Arrival {
    match r {
        Ok(n) => if n == 0 {
            Arrival::Closed
        } else {
            Arrival::Bytes(buf.subrange(0, n as int))
        },
        Err(e) => Arrival::Failed(e),
    }
}

/// A byte channel to a device.
///
/// Implementations promise what a socket does: a receive fills at most the
/// buffer it was given. One that keeps a record of its traffic says so through
/// [`Transport::records`], and then promises that the record is exact: every
/// send that succeeded, and what every receive brought, in order. A socket
/// keeps no record; the scripted transports do.
pub trait Transport {
    /// Whether this transport keeps the record below.
    open spec fn records(&self) -> bool {
        false
    }

    /// Everything a send that succeeded handed over, in order.
    open spec fn sent_log(&self) -> Seq<Seq<u8>> {
        Seq::empty()
    }

    /// What each receive brought, in order.
    open spec fn heard(&self) -> Seq<Arrival> {
        Seq::empty()
    }

    /// Whether every send succeeds. A socket promises no such thing.
    open spec fn sends_always(&self) -> bool {
        false
    }

    fn send(&mut self, data: &[u8]) -> (r: Result<(), IoError>)
        ensures
            final(self).records() == old(self).records(),
            final(self).sends_always() == old(self).sends_always(),
            old(self).sends_always() ==> r is Ok,
            old(self).records() ==> final(self).sent_log() == (if r is Ok {
                old(self).sent_log().push(data@)
            } else {
                old(self).sent_log()
            }),
            old(self).records() ==> final(self).heard() == old(self).heard(),
    ;

    /// Returns however many bytes arrived. A timeout is `ErrorKind::TimedOut`,
    /// which callers must distinguish from a refusal: the device answering
    /// nothing at all is a third case, not a slow refusal.
    fn recv(&mut self, buf: &mut [u8]) -> (r: Result<usize, IoError>)
        ensures
            final(buf)@.len() == old(buf)@.len(),
            r matches Ok(n) ==> n <= old(buf)@.len(),
            final(self).records() == old(self).records(),
            final(self).sends_always() == old(self).sends_always(),
            old(self).records() ==> final(self).sent_log() == old(self).sent_log(),
            old(self).records() ==> final(self).heard() == old(self).heard().push(
                arrival(r, final(buf)@),
            ),
    ;
}

/// What a transport has recorded as sent before a session over it starts:
/// nothing, where it keeps no record.
pub open spec fn sent_before<T: Transport>(t: T) -> Seq<Seq<u8>> {
    if t.records() {
        t.sent_log()
    } else {
        Seq::empty()
    }
}

/// What a transport has recorded as received before a session over it starts.
pub open spec fn heard_before<T: Transport>(t: T) -> Seq<Arrival> {
    if t.records() {
        t.heard()
    } else {
        Seq::empty()
    }
}

/// A transport that hands over what was sent, so a test can assert on the wire.
///
/// Separate from [`Transport`] because a socket has nothing to hand over, and a
/// default returning an empty slice puts test scaffolding in the trait every
/// real implementation has to carry.
pub trait Recording: Transport {
    /// Everything handed to [`Transport::send`] so far, in order.
    fn sent(&self) -> (log: &[Vec<u8>])
        ensures
            self.records(),
            log@.len() == self.sent_log().len(),
            forall|i: int| 0 <= i < log@.len() ==> #[trigger] log@[i]@ == self.sent_log()[i],
    ;
}

/// Why an enumeration that never ends is given up on.
pub open spec fn never_terminated() -> Seq<char> {
    "enumeration never terminated"@
}

/// Bytes the device never finishes an enumeration within are not waited for
/// past this; ten mode records are 555.
pub const MAX_ENUMERATION: usize = 8192;

/// The handshake, `00 01 01 00`.
pub open spec fn handshake() -> Seq<u8> {
    seq![0x00, 0x01, 0x01, 0x00]
}

/// `true` when `a` ends with `t`.
pub fn ends_with(a: &[u8], t: &[u8]) -> (b: bool)
    ensures
        b == (t@.len() <= a@.len() && a@.subrange(a@.len() - t@.len(), a@.len() as int) == t@),
{
    if t.len() > a.len() {
        return false;
    }
    let alen = a.len();
    let off = alen - t.len();
    let mut i: usize = 0;
    while i < t.len()
        invariant
            alen == a@.len(),
            off + t@.len() == a@.len(),
            i <= t@.len(),
            forall|j: int| 0 <= j < i ==> a@[off + j] == t@[j],
        decreases t@.len() - i,
    {
        assert(off + i < a@.len());
        if a[off + i] != t[i] {
            proof {
                assert(a@.subrange(off as int, a@.len() as int)[i as int] != t@[i as int]);
            }
            return false;
        }
        i = i + 1;
    }
    proof {
        assert(a@.subrange(off as int, a@.len() as int) =~= t@);
    }
    true
}

/// A framing error, as a transport error: the device answered in a shape
/// that does not parse.
pub fn to_io(e: framing::Error) -> (r: IoError)
    ensures
        r.kind == ErrorKind::InvalidData,
        r.message@ == error_text(e),
{
    IoError { kind: ErrorKind::InvalidData, message: e.to_string() }
}

/// How an enumeration's reply ended.
pub enum Gathered {
    /// Finished, or the device went quiet or hung up: these bytes are the reply.
    Complete(Seq<u8>),
    /// More than [`MAX_ENUMERATION`] bytes and no end in sight.
    Overrun(Seq<u8>),
    /// The link failed.
    Broken(IoError),
}

/// Where gathering an enumeration's reply stands.
pub enum Gathering {
    Waiting(Seq<u8>),
    Ended(Gathered),
}

/// `acc` ends with `<fn> 01 06 00`, the terminator of `function`'s listing.
pub open spec fn terminated(acc: Seq<u8>, function: u8) -> bool {
    acc.len() >= 4 && acc.subrange(acc.len() - 4, acc.len() as int) == seq![
        function,
        0x01u8,
        0x06u8,
        0x00u8,
    ]
}

/// One receive while collecting a listing: bytes are added, and the reply is
/// finished at the terminator or given up past [`MAX_ENUMERATION`]; the peer
/// closing or a timeout ends it as it stands; a failure breaks it off.
pub open spec fn hear_listing(state: Gathering, a: Arrival, function: u8) -> Gathering {
    match state {
        Gathering::Waiting(acc) => match a {
            Arrival::Bytes(b) => if terminated(acc + b, function) {
                Gathering::Ended(Gathered::Complete(acc + b))
            } else if (acc + b).len() > MAX_ENUMERATION {
                Gathering::Ended(Gathered::Overrun(acc + b))
            } else {
                Gathering::Waiting(acc + b)
            },
            Arrival::Closed => Gathering::Ended(Gathered::Complete(acc)),
            Arrival::Failed(e) => if e.kind == ErrorKind::TimedOut {
                Gathering::Ended(Gathered::Complete(acc))
            } else {
                Gathering::Ended(Gathered::Broken(e))
            },
        },
        Gathering::Ended(g) => Gathering::Ended(g),
    }
}

/// Where collecting `function`'s listing stands after `arrivals`.
pub open spec fn collecting(arrivals: Seq<Arrival>, function: u8) -> Gathering
    decreases arrivals.len(),
{
    if arrivals.len() == 0 {
        Gathering::Waiting(Seq::empty())
    } else {
        hear_listing(collecting(arrivals.drop_last(), function), arrivals.last(), function)
    }
}

/// Collecting went on exactly as long as the listing was unfinished.
pub open spec fn collected_through(arrivals: Seq<Arrival>, function: u8) -> bool {
    &&& collecting(arrivals, function) is Ended
    &&& forall|k: int|
        0 <= k < arrivals.len() ==> #[trigger] collecting(arrivals.subrange(0, k), function) is Waiting
}

/// `r` is what an enumeration whose reply ended as `g` returns.
pub open spec fn collected_as(r: Result<Vec<Message>, IoError>, g: Gathered) -> bool {
    match g {
        Gathered::Complete(acc) => if acc.len() == 0 {
            r matches Ok(ms) && ms@.len() == 0
        } else {
            match decode_spec(acc) {
                Ok(rs) => r matches Ok(ms) && records(ms@) == rs,
                Err(_) => r matches Err(e) && garbled(acc, e),
            }
        },
        Gathered::Overrun(_) => r matches Err(e) && e.kind == ErrorKind::InvalidData
            && e.message@ == never_terminated(),
        Gathered::Broken(e) => r == Err::<Vec<Message>, IoError>(e),
    }
}

/// What one receive brought as a reply: its bytes, or nothing.
pub open spec fn reply_bytes(a: Arrival) -> Seq<u8> {
    match a {
        Arrival::Bytes(b) => b,
        _ => Seq::empty(),
    }
}

/// `r` is what a request whose one receive brought `a` returns: silence on a
/// timeout, the failure on any other error, and otherwise the records the
/// reply decodes to, or why it does not decode.
pub open spec fn answered_with(a: Arrival, r: Result<Option<Vec<Message>>, IoError>) -> bool {
    match a {
        Arrival::Failed(e) => if e.kind == ErrorKind::TimedOut {
            r matches Ok(None)
        } else {
            r == Err::<Option<Vec<Message>>, IoError>(e)
        },
        _ => match decode_spec(reply_bytes(a)) {
            Ok(rs) => r matches Ok(Some(ms)) && records(ms@) == rs,
            Err(_) => r matches Err(e) && garbled(reply_bytes(a), e),
        },
    }
}

/// Chunks of bytes, as the receives that brought them.
pub open spec fn as_arrivals(chunks: Seq<Seq<u8>>) -> Seq<Arrival> {
    chunks.map_values(|c: Seq<u8>| Arrival::Bytes(c))
}

/// Chunks of bytes laid end to end.
pub open spec fn joined(chunks: Seq<Seq<u8>>) -> Seq<u8>
    decreases chunks.len(),
{
    if chunks.len() == 0 {
        Seq::empty()
    } else {
        joined(chunks.drop_last()) + chunks.last()
    }
}

/// Collecting a listing over receives that never stopped short: where it
/// stands is what the last receive's bytes, added to all before them, say.
proof fn lemma_collecting_joined(chunks: Seq<Seq<u8>>, function: u8)
    requires
        forall|k: int|
            0 < k < joined(chunks).len() ==> !terminated(#[trigger] joined(chunks).subrange(0, k), function),
        chunks.len() > 0 ==> joined(chunks.drop_last()).len() <= MAX_ENUMERATION,
        forall|i: int| 0 <= i < chunks.len() ==> #[trigger] chunks[i].len() > 0,
    ensures
        chunks.len() > 0 ==> collecting(as_arrivals(chunks), function) == hear_listing(
            Gathering::Waiting(joined(chunks.drop_last())),
            Arrival::Bytes(chunks.last()),
            function,
        ),
        chunks.len() == 0 ==> collecting(as_arrivals(chunks), function) == Gathering::Waiting(
            Seq::<u8>::empty(),
        ),
    decreases chunks.len(),
{
    let arr = as_arrivals(chunks);
    if chunks.len() == 0 {
        assert(arr =~= Seq::<Arrival>::empty());
    } else {
        let prev = chunks.drop_last();
        let j = joined(chunks);
        let j0 = joined(prev);
        assert(arr.drop_last() =~= as_arrivals(prev));
        assert(arr.last() == Arrival::Bytes(chunks.last()));
        assert(j == j0 + chunks.last());
        assert(chunks.last().len() > 0);
        assert forall|k: int| 0 < k < j0.len() implies !terminated(#[trigger] j0.subrange(0, k), function) by {
            assert(j0.subrange(0, k) =~= j.subrange(0, k));
        }
        assert forall|i: int| 0 <= i < prev.len() implies #[trigger] prev[i].len() > 0 by {
            assert(prev[i] == chunks[i]);
        }
        if prev.len() > 0 {
            assert(j0 == joined(prev.drop_last()) + prev.last());
            assert(prev.last().len() > 0);
            assert(j0.subrange(0, joined(prev.drop_last()).len() as int) =~= joined(prev.drop_last()));
            assert(j0.subrange(0, joined(prev.drop_last()).len() as int) =~= j.subrange(
                0,
                joined(prev.drop_last()).len() as int,
            ));
        }
        lemma_collecting_joined(prev, function);
        if prev.len() > 0 {
            assert(j0.subrange(0, j0.len() as int) =~= j.subrange(0, j0.len() as int));
            assert(j0 =~= j0.subrange(0, j0.len() as int));
        }
    }
}

/// However a listing is split across receives, the earlier client gathers it
/// whole: reading goes on until its terminator arrives, and what is decoded is
/// the whole listing — for a listing that fits in [`MAX_ENUMERATION`] bytes and
/// whose terminator is not also found earlier in it.
pub proof fn lemma_split_listing_collected_whole(reply: Seq<u8>, chunks: Seq<Seq<u8>>, function: u8)
    requires
        joined(chunks) == reply,
        terminated(reply, function),
        reply.len() <= MAX_ENUMERATION,
        forall|k: int| 0 < k < reply.len() ==> !terminated(#[trigger] reply.subrange(0, k), function),
        forall|i: int| 0 <= i < chunks.len() ==> #[trigger] chunks[i].len() > 0,
    ensures
        collecting(as_arrivals(chunks), function) == Gathering::Ended(Gathered::Complete(reply)),
{
    if chunks.len() > 0 {
        assert(reply == joined(chunks.drop_last()) + chunks.last());
    } else {
        assert(reply.len() == 0);
    }
    lemma_collecting_joined(chunks, function);
}

/// A conversation with a device: one request, one read.
pub struct Session<T: Transport> {
    transport: T,
    /// What this session handed to a send that succeeded, in order.
    log: Ghost<Seq<Seq<u8>>>,
    /// What each receive this session made brought, in order.
    arrived: Ghost<Seq<Arrival>>,
    /// What the device sent back to the last request.
    reply: Ghost<Seq<u8>>,
    /// What the device sent back to each request that went out, in order.
    history: Ghost<Seq<Seq<u8>>>,
    /// Every error the link reported, in order.
    link: Ghost<Seq<IoError>>,
}

/// The link failed with `e` during a call: it is the one error the link
/// reported between `before` and `after`.
pub open spec fn link_failed<T: Transport>(before: Session<T>, after: Session<T>, e: IoError) -> bool {
    after.link_errors() == before.link_errors().push(e)
}

/// The link timed out during a call, and reported nothing else.
pub open spec fn link_timed_out<T: Transport>(before: Session<T>, after: Session<T>) -> bool {
    exists|e: IoError| e.kind == ErrorKind::TimedOut && link_failed(before, after, e)
}

/// A call that ended with `e` ended on a failed exchange: `e` is the last
/// error the link reported, reported during the call, or says why the reply to
/// a request the call sent does not parse.
pub open spec fn broke_off<T: Transport>(before: Session<T>, after: Session<T>, e: IoError) -> bool {
    ||| after.link_errors().len() > before.link_errors().len() && after.link_errors().last() == e
    ||| after.sent_log().len() > before.sent_log().len() && garbled(after.replied(), e)
}

/// What a session keeps only grows: what was sent, and what the link reported.
pub open spec fn grew<T: Transport>(before: Session<T>, after: Session<T>) -> bool {
    &&& after.sent_log().len() >= before.sent_log().len()
    &&& after.link_errors().len() >= before.link_errors().len()
}

/// `e` says that `reply` does not parse, and why.
pub open spec fn garbled(reply: Seq<u8>, e: IoError) -> bool {
    decode_spec(reply) matches Err(d) && e.kind == ErrorKind::InvalidData && e.message@
        == error_text(d)
}

/// The request never went out: the send failed with `e`, and nothing else
/// changed.
pub open spec fn unsent<T: Transport>(before: Session<T>, after: Session<T>, e: IoError) -> bool {
    &&& after.sent_log() == before.sent_log()
    &&& after.heard() == before.heard()
    &&& after.replies() == before.replies()
    &&& after.link_errors() == before.link_errors().push(e)
}

/// What was received between two states of a session.
pub open spec fn arrived_since<T: Transport>(before: Session<T>, after: Session<T>) -> Seq<Arrival> {
    after.heard().subrange(before.heard().len() as int, after.heard().len() as int)
}

/// One request: either it never went out and the send's error is returned, or
/// it went out, exactly one receive followed, and `r` is what that receive
/// brought.
pub open spec fn requested<T: Transport>(
    before: Session<T>,
    after: Session<T>,
    request: Seq<u8>,
    r: Result<Option<Vec<Message>>, IoError>,
) -> bool {
    ||| r matches Err(e) && unsent(before, after, e)
    ||| {
        &&& after.sent_log() == before.sent_log().push(request)
        &&& after.heard().len() == before.heard().len() + 1
        &&& after.heard().drop_last() == before.heard()
        &&& answered_with(after.heard().last(), r)
        &&& after.replied() == reply_bytes(after.heard().last())
        &&& after.replies() == before.replies().push(after.replied())
    }
}

/// One enumeration: either it never went out and the send's error is
/// returned, or it went out, reading went on exactly until the listing was
/// finished, and `r` is what the listing holds.
pub open spec fn enumerated<T: Transport>(
    before: Session<T>,
    after: Session<T>,
    function: u8,
    r: Result<Vec<Message>, IoError>,
) -> bool {
    ||| r matches Err(e) && unsent(before, after, e)
    ||| {
        &&& after.sent_log() == before.sent_log().push(seq![function, 0x01, 0x05, 0x00])
        &&& before.heard().is_prefix_of(after.heard())
        &&& collected_through(arrived_since(before, after), function)
        &&& after.replies() == before.replies().push(after.replied())
        &&& collecting(arrived_since(before, after), function) matches Gathering::Ended(g)
            && collected_as(r, g) && (g is Broken || after.replied() == (match g {
            Gathered::Complete(acc) => acc,
            Gathered::Overrun(acc) => acc,
            Gathered::Broken(_) => after.replied(),
        }))
    }
}

impl<T: Transport> Session<T> {
    /// What has been sent, in order: the transport's own record where it keeps
    /// one, what this session sent where it does not.
    pub closed spec fn sent_log(&self) -> Seq<Seq<u8>> {
        if self.transport.records() {
            self.transport.sent_log()
        } else {
            self.log@
        }
    }

    /// What each receive brought, in order, recorded the same way.
    pub closed spec fn heard(&self) -> Seq<Arrival> {
        if self.transport.records() {
            self.transport.heard()
        } else {
            self.arrived@
        }
    }

    /// The bytes the device sent back to the last request; nothing, when it
    /// stayed silent.
    pub closed spec fn replied(&self) -> Seq<u8> {
        self.reply@
    }

    /// What [`Session::replied`] was after each request that went out, oldest
    /// first.
    pub closed spec fn replies(&self) -> Seq<Seq<u8>> {
        self.history@
    }

    /// Every error the link reported, in order.
    pub closed spec fn link_errors(&self) -> Seq<IoError> {
        self.link@
    }

    /// Hand `data` to the transport, keeping this session's record of it.
    fn send_bytes(&mut self, data: &[u8]) -> (r: Result<(), IoError>)
        ensures
            final(self).sent_log() == (if r is Ok {
                old(self).sent_log().push(data@)
            } else {
                old(self).sent_log()
            }),
            final(self).heard() == old(self).heard(),
            final(self).replied() == old(self).replied(),
            final(self).replies() == old(self).replies(),
            final(self).link_errors() == (match r {
                Ok(_) => old(self).link_errors(),
                Err(e) => old(self).link_errors().push(e),
            }),
            old(self).transport.sends_always() ==> r is Ok,
            final(self).transport.sends_always() == old(self).transport.sends_always(),
    {
        let r = self.transport.send(data);
        match &r {
            Ok(()) => {
                self.log = Ghost(self.log@.push(data@));
            },
            Err(e) => {
                self.link = Ghost(self.link@.push(*e));
            },
        }
        r
    }

    /// Take what the transport has into `buf`, keeping this session's record
    /// of what arrived.
    fn recv_bytes(&mut self, buf: &mut [u8]) -> (r: Result<usize, IoError>)
        ensures
            final(buf)@.len() == old(buf)@.len(),
            r matches Ok(n) ==> n <= old(buf)@.len(),
            final(self).heard() == old(self).heard().push(arrival(r, final(buf)@)),
            final(self).sent_log() == old(self).sent_log(),
            final(self).replied() == old(self).replied(),
            final(self).replies() == old(self).replies(),
            final(self).link_errors() == old(self).link_errors(),
    {
        let r = self.transport.recv(buf);
        self.arrived = Ghost(self.arrived@.push(arrival(r, buf@)));
        r
    }

    /// Open a session, sending the handshake first.
    ///
    /// Some devices answer nothing at all until `00 01 01 00` has been sent, so
    /// this is not optional politeness.
    pub fn open(transport: T) -> (r: Result<Self, IoError>)
        ensures
            r matches Ok(s) ==> s.sent_log() == sent_before(transport).push(handshake())
                && s.heard().len() == heard_before(transport).len() + 1 && s.heard().drop_last()
                == heard_before(transport) && s.replies().len() == 0,
            transport.sends_always() ==> r is Ok,
    {
        let mut s = Session {
            transport,
            log: Ghost(Seq::empty()),
            arrived: Ghost(Seq::empty()),
            reply: Ghost(Seq::empty()),
            history: Ghost(Seq::empty()),
            link: Ghost(Seq::empty()),
        };
        match s.greet() {
            Ok(()) => Ok(s),
            Err(e) => Err(e),
        }
    }

    /// Whether every send over this session's transport succeeds.
    pub closed spec fn sends_always(&self) -> bool {
        self.transport.sends_always()
    }

    /// Send the handshake and read, and drop, whatever comes back to it. Only
    /// the send can fail: a device that stays quiet here may still answer
    /// everything afterwards.
    pub fn greet(&mut self) -> (r: Result<(), IoError>)
        ensures
            r matches Err(e) ==> unsent(*old(self), *final(self), e),
            r is Ok ==> {
                &&& final(self).sent_log() == old(self).sent_log().push(handshake())
                &&& final(self).heard().len() == old(self).heard().len() + 1
                &&& final(self).heard().drop_last() == old(self).heard()
                &&& final(self).replied() == old(self).replied()
                &&& final(self).replies() == old(self).replies()
                &&& final(self).link_errors() == old(self).link_errors()
            },
            old(self).sends_always() ==> r is Ok,
    {
        let hello = Message::get(0x00, 0x01);
        let bytes = match hello.encode() {
            Ok(b) => b,
            Err(e) => {
                return Err(to_io(e));
            },
        };
        proof {
            assert(bytes@ =~= handshake());
        }
        match self.send_bytes(bytes.as_slice()) {
            Ok(()) => {},
            Err(e) => {
                return Err(e);
            },
        }
        let mut buf: Vec<u8> = vec![0u8; 512];
        let _ = self.recv_bytes(buf.as_mut_slice());
        Ok(())
    }

    /// Send one message and decode whatever comes back.
    ///
    /// Returns `Ok(None)` on silence, which is a real answer and not an error:
    /// some opcodes neither reply nor refuse.
    pub fn request(&mut self, m: &Message) -> (r: Result<Option<Vec<Message>>, IoError>)
        ensures
            m.payload@.len() > 255 ==> (r matches Err(e) && e.kind == ErrorKind::InvalidData)
                && *final(self) == *old(self),
            m.payload@.len() <= 255 ==> requested(*old(self), *final(self), encode_record(m@), r),
            r is Ok ==> final(self).sent_log() == old(self).sent_log().push(encode_record(m@)),
            grew(*old(self), *final(self)),
            m.payload@.len() <= 255 ==> match r {
                Err(e) => link_failed(*old(self), *final(self), e) || (final(self).sent_log()
                    == old(self).sent_log().push(encode_record(m@)) && garbled(
                    final(self).replied(),
                    e,
                ) && final(self).link_errors() == old(self).link_errors()),
                Ok(None) => link_timed_out(*old(self), *final(self)),
                Ok(Some(_)) => final(self).link_errors() == old(self).link_errors(),
            },
            r matches Ok(Some(ms)) ==> decode_spec(final(self).replied()) == Ok::<
                Seq<framing::Record>,
                framing::Error,
            >(records(ms@)),
            r matches Ok(None) ==> final(self).replied().len() == 0,
    {
        let bytes = match m.encode() {
            Ok(b) => b,
            Err(e) => {
                return Err(to_io(e));
            },
        };
        self.send_bytes(bytes.as_slice())?;
        let mut buf: Vec<u8> = vec![0u8; 2048];
        let ghost h = self.heard();
        let got = self.recv_bytes(buf.as_mut_slice());
        proof {
            assert(self.heard().drop_last() =~= h);
        }
        let ghost mut waited: Option<IoError> = None;
        let r = match got {
            Ok(n) => {
                let reply = vstd::slice::slice_subrange(buf.as_slice(), 0, n);
                self.reply = Ghost(reply@);
                proof {
                    if n == 0 {
                        assert(reply@ =~= Seq::<u8>::empty());
                    }
                }
                match decode(reply) {
                    Ok(ms) => Ok(Some(ms)),
                    Err(e) => Err(to_io(e)),
                }
            },
            Err(e) => {
                self.link = Ghost(self.link@.push(e));
                self.reply = Ghost(Seq::empty());
                if e.is_timeout() {
                    proof {
                        waited = Some(e);
                    }
                    Ok(None)
                } else {
                    Err(e)
                }
            },
        };
        self.history = Ghost(self.history@.push(self.reply@));
        proof {
            if let Some(e) = waited {
                assert(link_failed(*old(self), *self, e));
            }
        }
        r
    }

    /// Ask a function to list itself, reading until it says it has finished.
    ///
    /// An enumeration does not fit one read: the mode table alone is 555 bytes
    /// against an RFCOMM MTU far smaller. A single `recv` returns a prefix that
    /// may well parse cleanly — ending on a record boundary — and silently omit
    /// most of the answer, which is how this first appeared: an empty list of
    /// modes on a device with five.
    ///
    /// A device that answers without ever terminating is not read until memory
    /// runs out: past [`MAX_ENUMERATION`] bytes this gives up with
    /// `InvalidData`.
    pub fn enumerate(&mut self, function: u8) -> (r: Result<Vec<Message>, IoError>)
        ensures
            enumerated(*old(self), *final(self), function, r),
            r is Ok ==> final(self).sent_log() == old(self).sent_log().push(
                seq![function, 0x01, 0x05, 0x00],
            ),
            r matches Ok(ms) ==> decode_spec(final(self).replied()) == Ok::<
                Seq<framing::Record>,
                framing::Error,
            >(records(ms@)),
            grew(*old(self), *final(self)),
            r matches Err(e) ==> link_failed(*old(self), *final(self), e) || (final(self).sent_log()
                == old(self).sent_log().push(seq![function, 0x01, 0x05, 0x00]) && (garbled(
                final(self).replied(),
                e,
            ) || (e.kind == ErrorKind::InvalidData && e.message@ == never_terminated()
                && final(self).replied().len() > MAX_ENUMERATION))),
    {
        let req = Message::enumerate(function);
        let bytes = match req.encode() {
            Ok(b) => b,
            Err(e) => {
                return Err(to_io(e));
            },
        };
        proof {
            assert(bytes@ =~= seq![function, 0x01, 0x05, 0x00]);
        }
        self.send_bytes(bytes.as_slice())?;
        let r = self.collect(function);
        self.history = Ghost(self.history@.push(self.reply@));
        r
    }

    /// Read a listing until it is finished, then decode it.
    fn collect(&mut self, function: u8) -> (r: Result<Vec<Message>, IoError>)
        ensures
            final(self).sent_log() == old(self).sent_log(),
            final(self).replies() == old(self).replies(),
            old(self).heard().is_prefix_of(final(self).heard()),
            collected_through(arrived_since(*old(self), *final(self)), function),
            collecting(arrived_since(*old(self), *final(self)), function) matches Gathering::Ended(g)
                && collected_as(r, g) && (g is Broken || final(self).replied() == (match g {
                Gathered::Complete(acc) => acc,
                Gathered::Overrun(acc) => acc,
                Gathered::Broken(_) => final(self).replied(),
            })),
            final(self).link_errors() == (match collecting(arrived_since(*old(self), *final(self)), function) {
                Gathering::Ended(Gathered::Broken(e)) => old(self).link_errors().push(e),
                _ => old(self).link_errors(),
            }),
            r matches Ok(ms) ==> decode_spec(final(self).replied()) == Ok::<
                Seq<framing::Record>,
                framing::Error,
            >(records(ms@)),
            r matches Err(e) ==> final(self).link_errors() == old(self).link_errors().push(e) || garbled(
                final(self).replied(),
                e,
            ) || (e.kind == ErrorKind::InvalidData && e.message@ == never_terminated()
                && final(self).replied().len() > MAX_ENUMERATION),
    {
        let terminator: [u8; 4] = [function, 0x01, 0x06, 0x00];
        let mut acc: Vec<u8> = Vec::new();
        let mut chunk: Vec<u8> = vec![0u8; 1024];
        let ghost h0 = self.heard();
        proof {
            assert(h0.subrange(h0.len() as int, h0.len() as int) =~= Seq::<Arrival>::empty());
            assert(h0.is_prefix_of(h0));
            assert(terminator@ =~= seq![function, 0x01, 0x06, 0x00]);
        }
        loop
            invariant
                chunk@.len() == 1024,
                terminator@ == seq![function, 0x01, 0x06, 0x00],
                self.sent_log() == old(self).sent_log(),
                self.replies() == old(self).replies(),
                self.link_errors() == old(self).link_errors(),
                h0 == old(self).heard(),
                h0.is_prefix_of(self.heard()),
                acc@.len() <= MAX_ENUMERATION + 1024,
                collecting(self.heard().subrange(h0.len() as int, self.heard().len() as int), function)
                    == (if acc@.len() > MAX_ENUMERATION {
                    Gathering::Ended(Gathered::Overrun(acc@))
                } else {
                    Gathering::Waiting(acc@)
                }),
                forall|k: int|
                    0 <= k < self.heard().len() - h0.len() ==> #[trigger] collecting(
                        self.heard().subrange(h0.len() as int, self.heard().len() as int).subrange(0, k),
                        function,
                    ) is Waiting,
            decreases MAX_ENUMERATION + 1025 - acc@.len(),
        {
            if acc.len() > MAX_ENUMERATION {
                self.reply = Ghost(acc@);
                return Err(IoError::new(ErrorKind::InvalidData, "enumeration never terminated"));
            }
            let ghost arrivals = self.heard().subrange(h0.len() as int, self.heard().len() as int);
            let got = self.recv_bytes(chunk.as_mut_slice());
            let ghost a = arrival(got, chunk@);
            proof {
                let now = self.heard().subrange(h0.len() as int, self.heard().len() as int);
                assert(now =~= arrivals.push(a));
                assert(now.drop_last() =~= arrivals);
                assert(h0.is_prefix_of(self.heard()));
                assert forall|k: int| 0 <= k < now.len() implies #[trigger] collecting(now.subrange(0, k), function) is Waiting by {
                    if k < arrivals.len() {
                        assert(now.subrange(0, k) =~= arrivals.subrange(0, k));
                    } else {
                        assert(now.subrange(0, k) =~= arrivals);
                    }
                }
            }
            match got {
                Ok(n) => {
                    if n == 0 {
                        return self.settle_listing(acc);
                    }
                    push_bytes(&mut acc, vstd::slice::slice_subrange(chunk.as_slice(), 0, n));
                    if ends_with(acc.as_slice(), &terminator) {
                        return self.settle_listing(acc);
                    }
                },
                Err(e) => {
                    // Silence after something arrived means the device has
                    // said all it intends to, terminator or not.
                    if e.is_timeout() {
                        return self.settle_listing(acc);
                    }
                    self.link = Ghost(self.link@.push(e));
                    return Err(e);
                },
            }
        }
    }

    /// Decode a finished listing, keeping its bytes as the reply.
    fn settle_listing(&mut self, acc: Vec<u8>) -> (r: Result<Vec<Message>, IoError>)
        ensures
            final(self).sent_log() == old(self).sent_log(),
            final(self).heard() == old(self).heard(),
            final(self).replies() == old(self).replies(),
            final(self).link_errors() == old(self).link_errors(),
            final(self).replied() == acc@,
            collected_as(r, Gathered::Complete(acc@)),
            r matches Ok(ms) ==> decode_spec(acc@) == Ok::<Seq<framing::Record>, framing::Error>(
                records(ms@),
            ),
            r matches Err(e) ==> garbled(acc@, e),
    {
        self.reply = Ghost(acc@);
        if acc.len() == 0 {
            let none: Vec<Message> = Vec::new();
            proof {
                assert(records(none@) =~= Seq::<framing::Record>::empty());
                assert(acc@ =~= Seq::<u8>::empty());
            }
            return Ok(none);
        }
        match decode(acc.as_slice()) {
            Ok(ms) => Ok(ms),
            Err(e) => Err(to_io(e)),
        }
    }

    /// A session over a transport that is already past the handshake.
    pub fn resume(transport: T) -> (s: Self)
        ensures
            s.sent_log() == sent_before(transport),
            s.heard() == heard_before(transport),
            s.replies().len() == 0,
    {
        Session {
            transport,
            log: Ghost(Seq::empty()),
            arrived: Ghost(Seq::empty()),
            reply: Ghost(Seq::empty()),
            history: Ghost(Seq::empty()),
            link: Ghost(Seq::empty()),
        }
    }
}

impl<T: Recording> Session<T> {
    /// What has been sent, for tests that assert on the wire.
    pub fn transport_sent(&self) -> (log: &[Vec<u8>])
        ensures
            log@.len() == self.sent_log().len(),
            forall|i: int| 0 <= i < log@.len() ==> #[trigger] log@[i]@ == self.sent_log()[i],
    {
        self.transport.sent()
    }
}

} // verus!
