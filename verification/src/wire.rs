//! Message framing.
//!
//! Every exchange is `<function> <opcode> <operator> <length> <payload…>`, and a
//! reply may pack several records back to back. Length is a single octet, so a
//! record never exceeds 259 bytes.
//!
//! Nothing here talks to a device. Framing is pure, which is what makes it
//! testable against recorded traffic rather than against hardware nobody has.

use vstd::prelude::*;
use vstd::slice::slice_to_vec;

use crate::text::{
    decimal, hex2, push_decimal, push_hex2, push_str, string_from_chars,
};

verus! {

/// Where a value lives: a function and an opcode.
///
/// The pair is the protocol's only address, and it is what errors, the catalog
/// and the device surface are all keyed by.
#[derive(Debug, Clone, Copy, PartialEq, Eq, Structural, PartialOrd, Ord, Hash)]
pub struct Addr {
    pub function: u8,
    pub opcode: u8,
}

impl Addr {
    pub fn at(function: u8, opcode: u8) -> (a: Addr)
        ensures
            a.function == function,
            a.opcode == opcode,
    {
        Addr { function, opcode }
    }

    /// `01 07`: two lowercase hex octets, the way captures write them.
    pub fn to_string(&self) -> (s: String)
        ensures
            s@ == addr_text(*self),
    {
        let mut out: Vec<char> = Vec::new();
        self.push_text(&mut out);
        string_from_chars(&out)
    }

    pub fn push_text(&self, out: &mut Vec<char>)
        ensures
            final(out)@ == old(out)@ + addr_text(*self),
    {
        push_hex2(out, self.function, false);
        out.push(' ');
        push_hex2(out, self.opcode, false);
        proof {
            assert(final(out)@ =~= old(out)@ + addr_text(*self));
        }
    }
}

pub open spec fn addr_text(a: Addr) -> Seq<char> {
    hex2(a.function, false) + seq![' '] + hex2(a.opcode, false)
}

/// What a message is asking for, or answering with.
///
/// A refusal is a well-formed record — it parses like any other — so a caller
/// that tests only for "did I get bytes back" treats errors as data. That
/// mistake is easy enough to make that [`Record::refusal`] exists to name it.
#[derive(Debug, Clone, Copy, PartialEq, Eq, Structural)]
pub enum Operator {
    /// Wire name `Set`: a write with no reply. This client never sends one — it
    /// writes with [`Operator::SetGet`] to have the change confirmed — so every
    /// `0x00` it sees arrives *from* the device, unsolicited, which is a
    /// notification. Named for that inbound use.
    Notify,
    Get,
    /// Wire name `SetGet`: write, and return the new value. This is why a
    /// confirmed write echoes back the record it set.
    SetGet,
    /// A reply carrying state.
    Status,
    /// Refused. The payload says why; see [`Refusal`].
    Error,
    /// Begins an enumeration, and starts some operations.
    Start,
    /// `Result`: the record that closes an enumeration, and the reply to an
    /// operation. Zero length at the end of a listing.
    Result,
    /// `Processing`: accepted, working. Acknowledges an enumeration before its
    /// records arrive, and a long operation before its outcome.
    Processing,
    Unknown(u8),
}

/// The operator a wire byte names.
pub open spec fn operator_of(b: u8) -> Operator {
    if b == 0 {
        Operator::Notify
    } else if b == 1 {
        Operator::Get
    } else if b == 2 {
        Operator::SetGet
    } else if b == 3 {
        Operator::Status
    } else if b == 4 {
        Operator::Error
    } else if b == 5 {
        Operator::Start
    } else if b == 6 {
        Operator::Result
    } else if b == 7 {
        Operator::Processing
    } else {
        Operator::Unknown(b)
    }
}

/// The wire byte for an operator.
pub open spec fn operator_byte(o: Operator) -> u8 {
    match o {
        Operator::Notify => 0,
        Operator::Get => 1,
        Operator::SetGet => 2,
        Operator::Status => 3,
        Operator::Error => 4,
        Operator::Start => 5,
        Operator::Result => 6,
        Operator::Processing => 7,
        Operator::Unknown(b) => b,
    }
}

/// An operator that a wire byte can carry: `Unknown` only for bytes no named
/// operator owns.
pub open spec fn operator_canonical(o: Operator) -> bool {
    match o {
        Operator::Unknown(b) => b > 7,
        _ => true,
    }
}

impl Operator {
    pub fn from_byte(b: u8) -> (o: Operator)
        ensures
            o == operator_of(b),
    {
        if b == 0 {
            Operator::Notify
        } else if b == 1 {
            Operator::Get
        } else if b == 2 {
            Operator::SetGet
        } else if b == 3 {
            Operator::Status
        } else if b == 4 {
            Operator::Error
        } else if b == 5 {
            Operator::Start
        } else if b == 6 {
            Operator::Result
        } else if b == 7 {
            Operator::Processing
        } else {
            Operator::Unknown(b)
        }
    }

    pub fn to_byte(self) -> (b: u8)
        ensures
            b == operator_byte(self),
    {
        match self {
            Operator::Notify => 0,
            Operator::Get => 1,
            Operator::SetGet => 2,
            Operator::Status => 3,
            Operator::Error => 4,
            Operator::Start => 5,
            Operator::Result => 6,
            Operator::Processing => 7,
            Operator::Unknown(b) => b,
        }
    }

    /// The operator's name as `{:?}` prints it.
    pub fn push_name(&self, out: &mut Vec<char>)
        ensures
            final(out)@ == old(out)@ + operator_name(*self),
    {
        match self {
            Operator::Notify => push_str(out, "Notify"),
            Operator::Get => push_str(out, "Get"),
            Operator::SetGet => push_str(out, "SetGet"),
            Operator::Status => push_str(out, "Status"),
            Operator::Error => push_str(out, "Error"),
            Operator::Start => push_str(out, "Start"),
            Operator::Result => push_str(out, "Result"),
            Operator::Processing => push_str(out, "Processing"),
            Operator::Unknown(b) => {
                push_str(out, "Unknown(");
                push_decimal(out, *b as u64);
                out.push(')');
                proof {
                    assert(final(out)@ =~= old(out)@ + operator_name(*self));
                }
            },
        }
    }
}

pub open spec fn operator_name(o: Operator) -> Seq<char> {
    match o {
        Operator::Notify => "Notify"@,
        Operator::Get => "Get"@,
        Operator::SetGet => "SetGet"@,
        Operator::Status => "Status"@,
        Operator::Error => "Error"@,
        Operator::Start => "Start"@,
        Operator::Result => "Result"@,
        Operator::Processing => "Processing"@,
        Operator::Unknown(b) => "Unknown("@ + decimal(b as nat) + seq![')'],
    }
}

impl From<u8> for Operator {
    fn from(b: u8) -> (o: Operator) {
        Operator::from_byte(b)
    }
}

impl vstd::std_specs::convert::FromSpecImpl<u8> for Operator {
    open spec fn obeys_from_spec() -> bool {
        true
    }

    open spec fn from_spec(v: u8) -> Operator {
        operator_of(v)
    }
}

impl From<Operator> for u8 {
    fn from(o: Operator) -> (b: u8) {
        o.to_byte()
    }
}

impl vstd::std_specs::convert::FromSpecImpl<Operator> for u8 {
    open spec fn obeys_from_spec() -> bool {
        true
    }

    open spec fn from_spec(v: Operator) -> u8 {
        operator_byte(v)
    }
}

/// Every byte names an operator and comes back from it unchanged.
pub proof fn lemma_operator_byte_round_trip(b: u8)
    ensures
        operator_byte(operator_of(b)) == b,
        operator_canonical(operator_of(b)),
{
}

/// An operator that a byte can carry survives the trip to the wire and back.
/// `Unknown(3)` does not: byte 3 is `Status`.
pub proof fn lemma_operator_value_round_trip(o: Operator)
    requires
        operator_canonical(o),
    ensures
        operator_of(operator_byte(o)) == o,
{
}

/// Why a request was refused.
///
/// The distinction matters: `FunctionAbsent` means stop probing that function
/// entirely, `OpcodeAbsent` means the function is real and worth exploring
/// further.
#[derive(Debug, Clone, Copy, PartialEq, Eq, Structural)]
pub enum Refusal {
    FunctionAbsent,
    OpcodeAbsent,
    /// The operator is not valid for this opcode.
    BadOperator,
    /// The value is outside what the device accepts.
    BadArgument,
    Other(u8),
    /// A refusal with no reason byte at all.
    Unspecified,
}

pub open spec fn refusal_of(b: u8) -> Refusal {
    if b == 3 {
        Refusal::FunctionAbsent
    } else if b == 4 {
        Refusal::OpcodeAbsent
    } else if b == 5 {
        Refusal::BadOperator
    } else if b == 6 {
        Refusal::BadArgument
    } else {
        Refusal::Other(b)
    }
}

impl Refusal {
    pub fn from_byte(b: u8) -> (r: Refusal)
        ensures
            r == refusal_of(b),
    {
        if b == 3 {
            Refusal::FunctionAbsent
        } else if b == 4 {
            Refusal::OpcodeAbsent
        } else if b == 5 {
            Refusal::BadOperator
        } else if b == 6 {
            Refusal::BadArgument
        } else {
            Refusal::Other(b)
        }
    }

    /// The sentence a person is shown.
    pub fn to_string(&self) -> (s: String)
        ensures
            s@ == refusal_text(*self),
    {
        let mut out: Vec<char> = Vec::new();
        self.push_text(&mut out);
        string_from_chars(&out)
    }

    pub fn push_text(&self, out: &mut Vec<char>)
        ensures
            final(out)@ == old(out)@ + refusal_text(*self),
    {
        match self {
            Refusal::FunctionAbsent => push_str(out, "this device has no such function"),
            Refusal::OpcodeAbsent => push_str(out, "this device has no such setting"),
            Refusal::BadOperator => push_str(out, "that operation is not allowed on this setting"),
            Refusal::BadArgument => push_str(out, "this device does not accept that value"),
            Refusal::Unspecified => push_str(out, "refused, with no reason given"),
            Refusal::Other(_) => push_str(out, "refused, for an unrecognised reason"),
        }
    }
}

pub open spec fn refusal_text(r: Refusal) -> Seq<char> {
    match r {
        Refusal::FunctionAbsent => "this device has no such function"@,
        Refusal::OpcodeAbsent => "this device has no such setting"@,
        Refusal::BadOperator => "that operation is not allowed on this setting"@,
        Refusal::BadArgument => "this device does not accept that value"@,
        Refusal::Unspecified => "refused, with no reason given"@,
        Refusal::Other(_) => "refused, for an unrecognised reason"@,
    }
}

impl From<u8> for Refusal {
    fn from(b: u8) -> (r: Refusal) {
        Refusal::from_byte(b)
    }
}

impl vstd::std_specs::convert::FromSpecImpl<u8> for Refusal {
    open spec fn obeys_from_spec() -> bool {
        true
    }

    open spec fn from_spec(v: u8) -> Refusal {
        refusal_of(v)
    }
}

/// A record as the specification sees it: where, what, and the bytes.
pub struct Frame {
    pub addr: Addr,
    pub operator: Operator,
    pub payload: Seq<u8>,
}

/// The refusal a record carries, if it is one.
pub open spec fn frame_refusal(f: Frame) -> Option<Refusal> {
    if f.operator == Operator::Error {
        if f.payload.len() > 0 {
            Some(refusal_of(f.payload[0]))
        } else {
            Some(Refusal::Unspecified)
        }
    } else {
        None
    }
}

/// The terminator of a listing: a zero-length `Result`.
pub open spec fn frame_is_terminator(f: Frame) -> bool {
    f.operator == Operator::Result && f.payload.len() == 0
}

/// One record, borrowing the buffer it was read from.
///
/// Parsing borrows and building owns: a reply is scanned in place and only the
/// one record a caller wanted is copied out.
#[derive(Debug, Clone, Copy)]
pub struct Record<'a> {
    pub addr: Addr,
    pub operator: Operator,
    pub payload: &'a [u8],
}

impl<'a> View for Record<'a> {
    type V = Frame;

    open spec fn view(&self) -> Frame {
        Frame { addr: self.addr, operator: self.operator, payload: self.payload@ }
    }
}

impl<'a> Record<'a> {
    /// The refusal reason, if this is one.
    pub fn refusal(&self) -> (r: Option<Refusal>)
        ensures
            r == frame_refusal(self@),
    {
        if self.operator == Operator::Error {
            if self.payload.len() > 0 {
                Some(Refusal::from_byte(self.payload[0]))
            } else {
                Some(Refusal::Unspecified)
            }
        } else {
            None
        }
    }

    /// Whether this closes an enumeration. The terminator is a zero-length
    /// `Result`; the `Processing` that opens the listing is not it.
    pub fn is_terminator(&self) -> (b: bool)
        ensures
            b == frame_is_terminator(self@),
    {
        self.operator == Operator::Result && self.payload.len() == 0
    }

    pub fn to_message(self) -> (m: Message)
        ensures
            m@ == self@,
    {
        Message { addr: self.addr, operator: self.operator, payload: slice_to_vec(self.payload) }
    }
}

/// One record, owned. What a request is built as, and what crosses an API
/// boundary once the buffer it came from is gone.
#[derive(Debug, Clone, PartialEq, Eq)]
pub struct Message {
    pub addr: Addr,
    pub operator: Operator,
    pub payload: Vec<u8>,
}

impl View for Message {
    type V = Frame;

    open spec fn view(&self) -> Frame {
        Frame { addr: self.addr, operator: self.operator, payload: self.payload@ }
    }
}

/// The frames of a list of messages.
pub open spec fn frames(ms: Seq<Message>) -> Seq<Frame> {
    ms.map_values(|m: Message| m@)
}

/// The bytes that carry a frame. Only meaningful for payloads of at most 255
/// bytes, which is all [`Message::encode`] will encode.
pub open spec fn encode_frame(f: Frame) -> Seq<u8> {
    seq![f.addr.function, f.addr.opcode, operator_byte(f.operator), f.payload.len() as u8]
        + f.payload
}

/// Frames laid end to end.
pub open spec fn encode_frames(fs: Seq<Frame>) -> Seq<u8>
    decreases fs.len(),
{
    if fs.len() == 0 {
        seq![]
    } else {
        encode_frame(fs[0]) + encode_frames(fs.drop_first())
    }
}

impl Message {
    pub fn new(addr: Addr, operator: Operator, payload: Vec<u8>) -> (m: Message)
        ensures
            m.addr == addr,
            m.operator == operator,
            m.payload@ == payload@,
    {
        Message { addr, operator, payload }
    }

    /// A read with no arguments, which is most reads.
    pub fn get(addr: Addr) -> (m: Message)
        ensures
            m.addr == addr,
            m.operator == Operator::Get,
            m.payload@.len() == 0,
    {
        Message::new(addr, Operator::Get, Vec::new())
    }

    /// A write. Uses `SetGet`, so the device echoes the record it set — which is
    /// how a write is confirmed rather than assumed.
    pub fn set(addr: Addr, payload: Vec<u8>) -> (m: Message)
        ensures
            m.addr == addr,
            m.operator == Operator::SetGet,
            m.payload@ == payload@,
    {
        Message::new(addr, Operator::SetGet, payload)
    }

    /// Asks a function to list itself.
    pub fn enumerate(function: u8) -> (m: Message)
        ensures
            m.addr == (Addr { function, opcode: 1 }),
            m.operator == Operator::Start,
            m.payload@.len() == 0,
    {
        Message::new(Addr::at(function, 0x01), Operator::Start, Vec::new())
    }

    pub fn as_record(&self) -> (r: Record<'_>)
        ensures
            r@ == self@,
    {
        Record { addr: self.addr, operator: self.operator, payload: self.payload.as_slice() }
    }

    pub fn refusal(&self) -> (r: Option<Refusal>)
        ensures
            r == frame_refusal(self@),
    {
        self.as_record().refusal()
    }

    pub fn is_terminator(&self) -> (b: bool)
        ensures
            b == frame_is_terminator(self@),
    {
        self.as_record().is_terminator()
    }

    /// The bytes of this record, or why it has none: a payload longer than a
    /// one-octet length can state.
    pub fn encode(&self) -> (r: Result<Vec<u8>, Error>)
        ensures
            match r {
                Ok(bytes) => self.payload@.len() <= 255 && bytes@ == encode_frame(self@)
                    && bytes@.len() <= 259,
                Err(e) => self.payload@.len() > 255 && e == Error::PayloadTooLong(
                    self.payload@.len() as usize,
                ),
            },
    {
        let n = self.payload.len();
        if n > 255 {
            return Err(Error::PayloadTooLong(n));
        }
        let mut out: Vec<u8> = Vec::with_capacity(4 + n);
        out.push(self.addr.function);
        out.push(self.addr.opcode);
        out.push(self.operator.to_byte());
        out.push(n as u8);
        push_bytes(&mut out, self.payload.as_slice());
        proof {
            assert(out@ =~= encode_frame(self@));
        }
        Ok(out)
    }

    /// `01 06 Status [01 0b]`: address, operator and payload in hex.
    pub fn to_string(&self) -> (s: String)
        ensures
            s@ == addr_text(self.addr) + seq![' '] + operator_name(self.operator) + " ["@
                + hex_spaced(self.payload@) + seq![']'],
    {
        let mut out: Vec<char> = Vec::new();
        self.addr.push_text(&mut out);
        out.push(' ');
        self.operator.push_name(&mut out);
        push_str(&mut out, " [");
        push_hex_spaced(&mut out, self.payload.as_slice());
        out.push(']');
        let ghost want = addr_text(self.addr) + seq![' '] + operator_name(self.operator) + " ["@
            + hex_spaced(self.payload@) + seq![']'];
        proof {
            assert(out@ =~= want);
        }
        string_from_chars(&out)
    }
}

/// Append every byte of `src`.
pub fn push_bytes(out: &mut Vec<u8>, src: &[u8])
    ensures
        final(out)@ == old(out)@ + src@,
{
    let ghost start = out@;
    let mut i: usize = 0;
    while i < src.len()
        invariant
            i <= src@.len(),
            out@ == start + src@.subrange(0, i as int),
        decreases src@.len() - i,
    {
        out.push(src[i]);
        i = i + 1;
        proof {
            assert(src@.subrange(0, i as int) =~= src@.subrange(0, (i - 1) as int).push(
                src@[i - 1],
            ));
        }
    }
    proof {
        assert(src@.subrange(0, src@.len() as int) =~= src@);
    }
}

/// Space-separated lowercase hex.
pub open spec fn hex_spaced(s: Seq<u8>) -> Seq<char>
    decreases s.len(),
{
    if s.len() == 0 {
        seq![]
    } else if s.len() == 1 {
        hex2(s[0], false)
    } else {
        hex_spaced(s.drop_last()) + seq![' '] + hex2(s.last(), false)
    }
}

pub fn push_hex_spaced(out: &mut Vec<char>, bytes: &[u8])
    ensures
        final(out)@ == old(out)@ + hex_spaced(bytes@),
{
    let ghost start = out@;
    let mut i: usize = 0;
    while i < bytes.len()
        invariant
            i <= bytes@.len(),
            out@ == start + hex_spaced(bytes@.subrange(0, i as int)),
        decreases bytes@.len() - i,
    {
        if i > 0 {
            out.push(' ');
        }
        push_hex2(out, bytes[i], false);
        i = i + 1;
        proof {
            let s = bytes@.subrange(0, i as int);
            assert(s.drop_last() =~= bytes@.subrange(0, (i - 1) as int));
        }
    }
    proof {
        assert(bytes@.subrange(0, bytes@.len() as int) =~= bytes@);
    }
}

/// Space-separated hex, the way every capture is written.
pub fn hex(bytes: &[u8]) -> (s: String)
    ensures
        s@ == hex_spaced(bytes@),
{
    let mut out: Vec<char> = Vec::new();
    push_hex_spaced(&mut out, bytes);
    proof {
        assert(out@ =~= hex_spaced(bytes@));
    }
    string_from_chars(&out)
}

#[derive(Debug, Clone, PartialEq, Eq, Structural)]
pub enum Error {
    /// Fewer than four bytes remain: not even a header.
    Truncated { at: usize },
    /// A record claims more payload than the buffer holds.
    ShortPayload { at: usize, want: usize, have: usize },
    PayloadTooLong(usize),
}

pub open spec fn error_text(e: Error) -> Seq<char> {
    match e {
        Error::Truncated { at } => "truncated header at offset "@ + decimal(at as nat),
        Error::ShortPayload { at, want, have } => "record at "@ + decimal(at as nat)
            + " wants "@ + decimal(want as nat) + " payload bytes, "@ + decimal(have as nat)
            + " available"@,
        Error::PayloadTooLong(n) => "payload of "@ + decimal(n as nat) + " bytes exceeds 255"@,
    }
}

impl Error {
    /// The sentence a person is shown.
    pub fn to_string(&self) -> (s: String)
        ensures
            s@ == error_text(*self),
    {
        let mut out: Vec<char> = Vec::new();
        self.push_text(&mut out);
        string_from_chars(&out)
    }

    pub fn push_text(&self, out: &mut Vec<char>)
        ensures
            final(out)@ == old(out)@ + error_text(*self),
    {
        let ghost start = out@;
        match self {
            Error::Truncated { at } => {
                push_str(out, "truncated header at offset ");
                push_decimal(out, *at as u64);
            },
            Error::ShortPayload { at, want, have } => {
                push_str(out, "record at ");
                push_decimal(out, *at as u64);
                push_str(out, " wants ");
                push_decimal(out, *want as u64);
                push_str(out, " payload bytes, ");
                push_decimal(out, *have as u64);
                push_str(out, " available");
            },
            Error::PayloadTooLong(n) => {
                push_str(out, "payload of ");
                push_decimal(out, *n as u64);
                push_str(out, " bytes exceeds 255");
            },
        }
        proof {
            assert(out@ =~= start + error_text(*self));
        }
    }
}

/// The frame whose header starts at `at`.
pub open spec fn frame_at(buf: Seq<u8>, at: int) -> Frame {
    Frame {
        addr: Addr { function: buf[at], opcode: buf[at + 1] },
        operator: operator_of(buf[at + 2]),
        payload: buf.subrange(at + 4, at + 4 + buf[at + 3]),
    }
}

/// Where the record starting at `at` ends.
pub open spec fn frame_end(buf: Seq<u8>, at: int) -> int {
    at + 4 + buf[at + 3]
}

/// The records of `buf` from offset `at` on, or the first thing wrong with it.
pub open spec fn decode_from(buf: Seq<u8>, at: nat) -> Result<Seq<Frame>, Error>
    decreases buf.len() - at,
{
    if at >= buf.len() {
        Ok(seq![])
    } else if buf.len() - at < 4 {
        Err(Error::Truncated { at: at as usize })
    } else if buf.len() < frame_end(buf, at as int) {
        Err(
            Error::ShortPayload {
                at: at as usize,
                want: buf[at as int + 3] as usize,
                have: (buf.len() - (at + 4)) as usize,
            },
        )
    } else {
        match decode_from(buf, frame_end(buf, at as int) as nat) {
            Ok(rest) => Ok(seq![frame_at(buf, at as int)] + rest),
            Err(e) => Err(e),
        }
    }
}

/// The records of a whole buffer.
pub open spec fn decode_spec(buf: Seq<u8>) -> Result<Seq<Frame>, Error> {
    decode_from(buf, 0)
}

/// `fs` in front of whatever `r` found.
pub open spec fn prepend(fs: Seq<Frame>, r: Result<Seq<Frame>, Error>) -> Result<Seq<Frame>, Error> {
    match r {
        Ok(rest) => Ok(fs + rest),
        Err(e) => Err(e),
    }
}

/// Walk a reply record by record, without copying any of it.
pub fn records(buf: &[u8]) -> (it: Records<'_>)
    ensures
        it.buffer() == buf@,
        it.cursor() == 0,
{
    Records { buf, at: 0 }
}

pub struct Records<'a> {
    buf: &'a [u8],
    at: usize,
}

impl<'a> Records<'a> {
    /// The bytes being walked.
    pub closed spec fn buffer(&self) -> Seq<u8> {
        self.buf@
    }

    /// How far the walk has got.
    pub closed spec fn cursor(&self) -> nat {
        self.at as nat
    }

    /// The next record, the error that ends the walk, or `None` once it is over.
    ///
    /// A malformed buffer yields its error once and then ends. Leaving the
    /// cursor where it was would hand the same error out forever, and any
    /// loop over it would never return.
    pub fn next(&mut self) -> (r: Option<Result<Record<'a>, Error>>)
        ensures
            final(self).buffer() == old(self).buffer(),
            ({
                let buf = old(self).buffer();
                let at = old(self).cursor();
                if at >= buf.len() {
                    r is None && final(self).cursor() == at
                } else if buf.len() - at < 4 {
                    r == Some(Err::<Record<'a>, Error>(Error::Truncated { at: at as usize }))
                        && final(self).cursor() == buf.len()
                } else if buf.len() < frame_end(buf, at as int) {
                    r == Some(
                        Err::<Record<'a>, Error>(
                            Error::ShortPayload {
                                at: at as usize,
                                want: buf[at as int + 3] as usize,
                                have: (buf.len() - (at + 4)) as usize,
                            },
                        ),
                    ) && final(self).cursor() == buf.len()
                } else {
                    &&& r matches Some(Ok(rec)) && rec@ == frame_at(buf, at as int)
                    &&& final(self).cursor() == frame_end(buf, at as int)
                }
            }),
            final(self).cursor() <= final(self).buffer().len() || final(self).cursor() == old(
                self,
            ).cursor(),
    {
        let ghost buf = self.buf@;
        let ghost at0 = self.at as nat;
        if self.at >= self.buf.len() {
            return None;
        }
        let i = self.at;
        let len = self.buf.len();
        self.at = len;
        if len - i < 4 {
            return Some(Err(Error::Truncated { at: i }));
        }
        let want = self.buf[i + 3] as usize;
        let start = i + 4;
        if len - start < want {
            return Some(Err(Error::ShortPayload { at: i, want, have: len - start }));
        }
        self.at = start + want;
        let payload = vstd::slice::slice_subrange(self.buf, start, start + want);
        let rec = Record {
            addr: Addr::at(self.buf[i], self.buf[i + 1]),
            operator: Operator::from_byte(self.buf[i + 2]),
            payload,
        };
        proof {
            lemma_decode_step(buf, at0);
        }
        Some(Ok(rec))
    }
}

/// One step of [`decode_from`]: a well-formed record in front of the rest.
pub proof fn lemma_decode_step(buf: Seq<u8>, at: nat)
    requires
        at < buf.len(),
        buf.len() - at >= 4,
        frame_end(buf, at as int) <= buf.len(),
    ensures
        decode_from(buf, at) == prepend(
            seq![frame_at(buf, at as int)],
            decode_from(buf, frame_end(buf, at as int) as nat),
        ),
{
}

/// Split a reply into its records.
///
/// A reply that does not consume exactly is a sign the framing assumption is
/// wrong for that traffic — worth knowing immediately rather than after
/// building on a partial parse, so this errors instead of returning what it
/// managed.
pub fn decode(buf: &[u8]) -> (r: Result<Vec<Message>, Error>)
    ensures
        match r {
            Ok(ms) => decode_spec(buf@) == Ok::<Seq<Frame>, Error>(frames(ms@)),
            Err(e) => decode_spec(buf@) == Err::<Seq<Frame>, Error>(e),
        },
{
    let mut it = records(buf);
    let mut out: Vec<Message> = Vec::new();
    loop
        invariant
            it.buffer() == buf@,
            it.cursor() <= buf@.len(),
            decode_from(buf@, 0) == prepend(frames(out@), decode_from(buf@, it.cursor())),
        decreases buf@.len() - it.cursor(),
    {
        let ghost before = it.cursor();
        match it.next() {
            None => {
                proof {
                    assert(frames(out@) + seq![] =~= frames(out@));
                }
                return Ok(out);
            },
            Some(Err(e)) => {
                return Err(e);
            },
            Some(Ok(rec)) => {
                let ghost old_out = out@;
                let m = rec.to_message();
                out.push(m);
                proof {
                    assert(frames(out@) =~= frames(old_out) + seq![rec@]);
                    match decode_from(buf@, it.cursor()) {
                        Ok(rest) => {
                            assert(frames(old_out) + (seq![rec@] + rest) =~= frames(out@)
                                + rest);
                        },
                        Err(_) => {},
                    }
                }
            },
        }
    }
}

/// Decoding what was encoded gives back the frames, for payloads a length
/// octet can carry.
pub proof fn lemma_decode_encode(fs: Seq<Frame>)
    requires
        forall|i: int| 0 <= i < fs.len() ==> #[trigger] fs[i].payload.len() <= 255,
        forall|i: int| 0 <= i < fs.len() ==> operator_canonical(#[trigger] fs[i].operator),
    ensures
        decode_spec(encode_frames(fs)) == Ok::<Seq<Frame>, Error>(fs),
{
    lemma_decode_encode_at(seq![], fs);
    assert(seq![] + encode_frames(fs) =~= encode_frames(fs));
}

proof fn lemma_decode_encode_at(prefix: Seq<u8>, fs: Seq<Frame>)
    requires
        forall|i: int| 0 <= i < fs.len() ==> #[trigger] fs[i].payload.len() <= 255,
        forall|i: int| 0 <= i < fs.len() ==> operator_canonical(#[trigger] fs[i].operator),
    ensures
        decode_from(prefix + encode_frames(fs), prefix.len()) == Ok::<Seq<Frame>, Error>(fs),
    decreases fs.len(),
{
    let buf = prefix + encode_frames(fs);
    if fs.len() == 0 {
        assert(buf.len() == prefix.len());
        assert(fs =~= seq![]);
    } else {
        let f = fs[0];
        let rest = fs.drop_first();
        let enc = encode_frame(f);
        assert(f.payload.len() <= 255);
        assert(operator_canonical(f.operator));
        let prefix2 = prefix + enc;
        assert(buf =~= prefix2 + encode_frames(rest));
        assert forall|i: int| 0 <= i < rest.len() implies #[trigger] rest[i].payload.len() <= 255 by {
            assert(rest[i] == fs[i + 1]);
        }
        assert forall|i: int| 0 <= i < rest.len() implies operator_canonical(#[trigger] rest[i].operator) by {
            assert(rest[i] == fs[i + 1]);
        }
        lemma_decode_encode_at(prefix2, rest);
        let at = prefix.len() as int;
        assert(buf.len() >= prefix2.len());
        assert(prefix2.len() == at + 4 + f.payload.len());
        assert(buf[at] == f.addr.function);
        assert(buf[at + 1] == f.addr.opcode);
        assert(buf[at + 2] == operator_byte(f.operator));
        assert(buf[at + 3] == f.payload.len() as u8);
        assert(frame_end(buf, at) == prefix2.len());
        assert(buf.subrange(at + 4, at + 4 + f.payload.len()) =~= f.payload);
        lemma_operator_value_round_trip(f.operator);
        assert(frame_at(buf, at) == f);
        assert(seq![f] + rest =~= fs);
        lemma_decode_step(buf, at as nat);
        assert(decode_from(buf, prefix2.len()) == Ok::<Seq<Frame>, Error>(rest));
        assert(frame_end(buf, at) as nat == prefix2.len());
        assert(decode_from(buf, at as nat) == Ok::<Seq<Frame>, Error>(seq![f] + rest));
    }
}

/// Records a device can send: payloads that fit their length byte, and
/// operators that survive the trip through a byte.
pub open spec fn sendable(fs: Seq<Frame>) -> bool {
    forall|i: int|
        0 <= i < fs.len() ==> #[trigger] fs[i].payload.len() <= 255 && operator_canonical(
            fs[i].operator,
        )
}

/// Two runs of records laid end to end are the two encodings end to end.
pub proof fn lemma_encode_frames_concat(a: Seq<Frame>, b: Seq<Frame>)
    ensures
        encode_frames(a + b) == encode_frames(a) + encode_frames(b),
    decreases a.len(),
{
    if a.len() == 0 {
        assert(a + b =~= b);
        assert(encode_frames(a) + encode_frames(b) =~= encode_frames(b));
    } else {
        lemma_encode_frames_concat(a.drop_first(), b);
        assert((a + b).drop_first() =~= a.drop_first() + b);
        assert((a + b)[0] == a[0]);
        assert(encode_frames(a + b) =~= encode_frames(a) + encode_frames(b));
    }
}

/// Decoding on from offset `p.len() + i` of `p + q` reads what decoding `q`
/// from `i` reads: it succeeds exactly when that does, with the same records.
proof fn lemma_decode_shift(p: Seq<u8>, q: Seq<u8>, i: nat)
    ensures
        decode_from(p + q, p.len() + i) is Ok <==> decode_from(q, i) is Ok,
        decode_from(q, i) is Ok ==> decode_from(p + q, p.len() + i) == decode_from(q, i),
    decreases q.len() - i,
{
    let b = p + q;
    let at: int = (p.len() + i) as int;
    let i: int = i as int;
    if i < q.len() && q.len() - i >= 4 {
        assert(b[at + 3] == q[i + 3]);
        if q.len() >= frame_end(q, i) {
            assert(frame_end(b, at) == p.len() + frame_end(q, i));
            lemma_decode_shift(p, q, frame_end(q, i) as nat);
            assert(b.subrange(at + 4, at + 4 + b[at + 3]) =~= q.subrange(i + 4, i + 4 + q[i + 3]));
            assert(frame_at(b, at) == frame_at(q, i));
        }
    }
}

/// Where `e` bytes into records laid end to end falls: just after the first
/// `k` of them, or inside one.
pub open spec fn boundary_index(gs: Seq<Frame>, e: int) -> Option<nat>
    decreases gs.len(),
{
    if e == 0 {
        Some(0)
    } else if gs.len() == 0 || e < encode_frame(gs[0]).len() {
        None
    } else {
        match boundary_index(gs.drop_first(), e - encode_frame(gs[0]).len()) {
            Some(k) => Some(k + 1),
            None => None,
        }
    }
}

/// A prefix of records laid end to end parses whole exactly when it ends
/// between two records, and then it parses to the records before that point.
/// A prefix that ends inside a record does not parse.
pub proof fn lemma_decode_prefix(gs: Seq<Frame>, e: int)
    requires
        sendable(gs),
        0 <= e <= encode_frames(gs).len(),
    ensures
        match boundary_index(gs, e) {
            Some(k) => k <= gs.len() && decode_spec(encode_frames(gs).subrange(0, e)) == Ok::<
                Seq<Frame>,
                Error,
            >(gs.subrange(0, k as int)) && encode_frames(gs.subrange(0, k as int)).len() == e,
            None => decode_spec(encode_frames(gs).subrange(0, e)) is Err,
        },
    decreases gs.len(),
{
    let buf = encode_frames(gs).subrange(0, e);
    if e == 0 {
        assert(gs.subrange(0, 0) =~= Seq::<Frame>::empty());
        assert(buf =~= Seq::<u8>::empty());
    } else if gs.len() > 0 {
        let h = encode_frame(gs[0]);
        let rest = gs.drop_first();
        assert(h.len() == 4 + gs[0].payload.len());
        assert(gs[0].payload.len() <= 255);
        if e < h.len() {
            if e >= 4 {
                assert(encode_frames(gs) == h + encode_frames(rest));
                assert(buf[3] == h[3]);
                assert(buf[3] == gs[0].payload.len() as u8);
                assert(frame_end(buf, 0) == h.len());
            }
        } else {
            let r = encode_frames(rest).subrange(0, e - h.len());
            assert(buf =~= h + r);
            assert forall|i: int| 0 <= i < rest.len() implies #[trigger] rest[i].payload.len()
                <= 255 && operator_canonical(rest[i].operator) by {
                assert(rest[i] == gs[i + 1]);
            }
            lemma_decode_prefix(rest, e - h.len());
            lemma_decode_shift(h, r, 0);
            assert(r =~= r.subrange(0, r.len() as int));
            lemma_operator_value_round_trip(gs[0].operator);
            assert(buf[3] == gs[0].payload.len() as u8);
            assert(frame_end(buf, 0) == h.len());
            assert(buf.subrange(4, 4 + buf[3]) =~= gs[0].payload);
            assert(frame_at(buf, 0) == gs[0]);
            assert(h + r == buf);
            assert(decode_from(buf, h.len()) is Ok <==> decode_spec(r) is Ok);
            match boundary_index(rest, e - h.len()) {
                Some(k) => {
                    assert(gs.subrange(0, (k + 1) as int) =~= seq![gs[0]] + rest.subrange(0, k as int));
                    lemma_encode_frames_concat(seq![gs[0]], rest.subrange(0, k as int));
                    assert(encode_frames(seq![gs[0]]) =~= h) by {
                        let one = seq![gs[0]];
                        assert(one.drop_first() =~= Seq::<Frame>::empty());
                        assert(encode_frames(one.drop_first()) =~= Seq::<u8>::empty());
                        assert(encode_frames(one) == encode_frame(one[0]) + encode_frames(one.drop_first()));
                    }
                },
                None => {},
            }
        }
    }
}

/// What decodes re-encodes to the same bytes: a parse loses nothing.
pub proof fn lemma_encode_decode(buf: Seq<u8>)
    ensures
        decode_spec(buf) matches Ok(fs) ==> encode_frames(fs) == buf,
{
    lemma_encode_decode_from(buf, 0);
    assert(buf.subrange(0, buf.len() as int) =~= buf);
}

proof fn lemma_encode_decode_from(buf: Seq<u8>, at: nat)
    ensures
        decode_from(buf, at) matches Ok(fs) ==> at <= buf.len() ==> encode_frames(fs)
            == buf.subrange(at as int, buf.len() as int),
    decreases buf.len() - at,
{
    if at < buf.len() && buf.len() - at >= 4 && frame_end(buf, at as int) <= buf.len() {
        let end = frame_end(buf, at as int) as nat;
        lemma_encode_decode_from(buf, end);
        if let Ok(fs) = decode_from(buf, at) {
            let f = frame_at(buf, at as int);
            assert(fs[0] == f);
            assert(fs.drop_first() =~= decode_from(buf, end)->Ok_0);
            lemma_operator_byte_round_trip(buf[at as int + 2]);
            assert(f.payload.len() == buf[at as int + 3]);
            assert(encode_frame(f) =~= buf.subrange(at as int, end as int));
            assert(buf.subrange(at as int, end as int) + buf.subrange(end as int, buf.len() as int)
                =~= buf.subrange(at as int, buf.len() as int));
        }
    } else if at >= buf.len() {
        if at == buf.len() {
            assert(buf.subrange(at as int, buf.len() as int) =~= seq![]);
        }
    }
}

} // verus!
