//! Message framing, as the capability-probing client speaks it.
//!
//! Every exchange is `<function> <opcode> <operator> <length> <payload…>`, and a
//! reply may pack several records back to back. Length is a single octet, so a
//! record never exceeds 259 bytes.
//!
//! This is the client's first naming of the operators, in which `0x06` closes
//! an enumeration and `0x07` is its result; [`crate::wire`] carries the names
//! the captures settled on later. The bytes are the same.

use vstd::prelude::*;
use vstd::slice::slice_to_vec;

use crate::text::{decimal, push_decimal, push_str, string_from_chars};
use crate::wire::{hex_spaced, push_bytes, push_hex_spaced};

verus! {

/// What a message is asking for, or answering with.
///
/// A refusal is a well-formed record — it parses like any other — so a caller
/// that tests only for "did I get bytes back" treats errors as data. That
/// mistake is easy enough to make that [`Message::refusal`] exists to name it.
#[derive(Debug, Clone, Copy, PartialEq, Eq, Structural)]
pub enum Operator {
    /// Unsolicited; the device volunteered this.
    Notify,
    Get,
    SetGet,
    /// A reply carrying state.
    Status,
    /// Refused. The payload says why; see [`Refusal`].
    Error,
    /// Begins an enumeration, and starts some operations.
    Start,
    /// Ends an enumeration. Zero length.
    End,
    Result,
    Unknown(u8),
}

pub open spec fn operator_of(b: u8) -> Operator {
    if b == 0 {
        Operator::Notify
    } else if b == 1 {
        Operator::Get
    } else if b == 2 {
        Operator::SetGet
    } else if b == 3 {
        Operator::Status
    } else if b == 4 {
        Operator::Error
    } else if b == 5 {
        Operator::Start
    } else if b == 6 {
        Operator::End
    } else if b == 7 {
        Operator::Result
    } else {
        Operator::Unknown(b)
    }
}

pub open spec fn operator_byte(o: Operator) -> u8 {
    match o {
        Operator::Notify => 0,
        Operator::Get => 1,
        Operator::SetGet => 2,
        Operator::Status => 3,
        Operator::Error => 4,
        Operator::Start => 5,
        Operator::End => 6,
        Operator::Result => 7,
        Operator::Unknown(b) => b,
    }
}

/// An operator a byte can carry: `Unknown` only for bytes no named operator
/// owns.
pub open spec fn operator_canonical(o: Operator) -> bool {
    match o {
        Operator::Unknown(b) => b > 7,
        _ => true,
    }
}

impl Operator {
    pub fn from_byte(b: u8) -> (o: Operator)
        ensures
            o == operator_of(b),
    {
        if b == 0 {
            Operator::Notify
        } else if b == 1 {
            Operator::Get
        } else if b == 2 {
            Operator::SetGet
        } else if b == 3 {
            Operator::Status
        } else if b == 4 {
            Operator::Error
        } else if b == 5 {
            Operator::Start
        } else if b == 6 {
            Operator::End
        } else if b == 7 {
            Operator::Result
        } else {
            Operator::Unknown(b)
        }
    }

    pub fn to_byte(self) -> (b: u8)
        ensures
            b == operator_byte(self),
    {
        match self {
            Operator::Notify => 0,
            Operator::Get => 1,
            Operator::SetGet => 2,
            Operator::Status => 3,
            Operator::Error => 4,
            Operator::Start => 5,
            Operator::End => 6,
            Operator::Result => 7,
            Operator::Unknown(b) => b,
        }
    }
}

impl From<u8> for Operator {
    fn from(b: u8) -> (o: Operator) {
        Operator::from_byte(b)
    }
}

impl vstd::std_specs::convert::FromSpecImpl<u8> for Operator {
    open spec fn obeys_from_spec() -> bool {
        true
    }

    open spec fn from_spec(v: u8) -> Operator {
        operator_of(v)
    }
}

impl From<Operator> for u8 {
    fn from(o: Operator) -> (b: u8) {
        o.to_byte()
    }
}

impl vstd::std_specs::convert::FromSpecImpl<Operator> for u8 {
    open spec fn obeys_from_spec() -> bool {
        true
    }

    open spec fn from_spec(v: Operator) -> u8 {
        operator_byte(v)
    }
}

/// Every byte names an operator and comes back from it unchanged; an operator
/// a byte can carry survives the trip the other way.
pub proof fn lemma_operator_round_trip(b: u8, o: Operator)
    ensures
        operator_byte(operator_of(b)) == b,
        operator_canonical(o) ==> operator_of(operator_byte(o)) == o,
{
}

/// Why a request was refused.
///
/// Only two of the observed payloads are understood. The distinction matters:
/// `FunctionAbsent` means stop probing that function entirely, `OpcodeAbsent`
/// means the function is real and worth exploring further.
#[derive(Debug, Clone, Copy, PartialEq, Eq, Structural)]
pub enum Refusal {
    FunctionAbsent,
    OpcodeAbsent,
    Other(u8),
}

pub open spec fn refusal_of(b: u8) -> Refusal {
    if b == 3 {
        Refusal::FunctionAbsent
    } else if b == 4 {
        Refusal::OpcodeAbsent
    } else {
        Refusal::Other(b)
    }
}

impl Refusal {
    pub fn from_byte(b: u8) -> (r: Refusal)
        ensures
            r == refusal_of(b),
    {
        if b == 3 {
            Refusal::FunctionAbsent
        } else if b == 4 {
            Refusal::OpcodeAbsent
        } else {
            Refusal::Other(b)
        }
    }
}

impl From<u8> for Refusal {
    fn from(b: u8) -> (r: Refusal) {
        Refusal::from_byte(b)
    }
}

impl vstd::std_specs::convert::FromSpecImpl<u8> for Refusal {
    open spec fn obeys_from_spec() -> bool {
        true
    }

    open spec fn from_spec(v: u8) -> Refusal {
        refusal_of(v)
    }
}

/// A record as the specification sees it.
pub struct Record {
    pub function: u8,
    pub opcode: u8,
    pub operator: Operator,
    pub payload: Seq<u8>,
}

pub open spec fn record_refusal(r: Record) -> Option<Refusal> {
    if r.operator == Operator::Error {
        if r.payload.len() > 0 {
            Some(refusal_of(r.payload[0]))
        } else {
            Some(Refusal::Other(0))
        }
    } else {
        None
    }
}

/// One record.
#[derive(Debug, Clone, PartialEq, Eq)]
pub struct Message {
    pub function: u8,
    pub opcode: u8,
    pub operator: Operator,
    pub payload: Vec<u8>,
}

impl View for Message {
    type V = Record;

    open spec fn view(&self) -> Record {
        Record {
            function: self.function,
            opcode: self.opcode,
            operator: self.operator,
            payload: self.payload@,
        }
    }
}

pub open spec fn records(ms: Seq<Message>) -> Seq<Record> {
    ms.map_values(|m: Message| m@)
}

pub open spec fn encode_record(r: Record) -> Seq<u8> {
    seq![r.function, r.opcode, operator_byte(r.operator), r.payload.len() as u8] + r.payload
}

impl Message {
    pub fn new(function: u8, opcode: u8, operator: Operator, payload: Vec<u8>) -> (m: Message)
        ensures
            m@ == (Record { function, opcode, operator, payload: payload@ }),
    {
        Message { function, opcode, operator, payload }
    }

    /// A read with no arguments, which is most reads.
    pub fn get(function: u8, opcode: u8) -> (m: Message)
        ensures
            m@ == (Record { function, opcode, operator: Operator::Get, payload: seq![] }),
    {
        let m = Message::new(function, opcode, Operator::Get, Vec::new());
        proof {
            assert(m@.payload =~= seq![]);
        }
        m
    }

    pub fn set(function: u8, opcode: u8, payload: Vec<u8>) -> (m: Message)
        ensures
            m@ == (Record { function, opcode, operator: Operator::SetGet, payload: payload@ }),
    {
        Message::new(function, opcode, Operator::SetGet, payload)
    }

    /// Asks a function to list itself.
    pub fn enumerate(function: u8) -> (m: Message)
        ensures
            m@ == (Record { function, opcode: 1, operator: Operator::Start, payload: seq![] }),
    {
        let m = Message::new(function, 0x01, Operator::Start, Vec::new());
        proof {
            assert(m@.payload =~= seq![]);
        }
        m
    }

    /// The refusal reason, if this is one.
    pub fn refusal(&self) -> (r: Option<Refusal>)
        ensures
            r == record_refusal(self@),
    {
        if self.operator == Operator::Error {
            if self.payload.len() > 0 {
                Some(Refusal::from_byte(self.payload[0]))
            } else {
                Some(Refusal::Other(0))
            }
        } else {
            None
        }
    }

    /// Whether this closes an enumeration.
    pub fn is_terminator(&self) -> (b: bool)
        ensures
            b == (self.operator == Operator::End && self.payload@.len() == 0),
    {
        self.operator == Operator::End && self.payload.len() == 0
    }

    pub fn encode(&self) -> (r: Result<Vec<u8>, Error>)
        ensures
            match r {
                Ok(bytes) => self.payload@.len() <= 255 && bytes@ == encode_record(self@),
                Err(e) => self.payload@.len() > 255 && e == Error::PayloadTooLong(
                    self.payload@.len() as usize,
                ),
            },
    {
        let n = self.payload.len();
        if n > 255 {
            return Err(Error::PayloadTooLong(n));
        }
        let mut out: Vec<u8> = Vec::with_capacity(4 + n);
        out.push(self.function);
        out.push(self.opcode);
        out.push(self.operator.to_byte());
        out.push(n as u8);
        push_bytes(&mut out, self.payload.as_slice());
        proof {
            assert(out@ =~= encode_record(self@));
        }
        Ok(out)
    }

    /// `01 06 Status [01 0b]`.
    pub fn to_string(&self) -> (s: String)
        ensures
            s@ == hex_spaced(seq![self.function]) + seq![' '] + hex_spaced(seq![self.opcode])
                + seq![' '] + operator_name(self.operator) + " ["@ + hex_spaced(self.payload@)
                + seq![']'],
    {
        let mut out: Vec<char> = Vec::new();
        let f = [self.function];
        let o = [self.opcode];
        push_hex_spaced(&mut out, &f);
        out.push(' ');
        push_hex_spaced(&mut out, &o);
        out.push(' ');
        push_operator_name(&mut out, self.operator);
        push_str(&mut out, " [");
        push_hex_spaced(&mut out, self.payload.as_slice());
        out.push(']');
        proof {
            assert(f@ =~= seq![self.function]);
            assert(o@ =~= seq![self.opcode]);
            assert(out@ =~= hex_spaced(seq![self.function]) + seq![' '] + hex_spaced(
                seq![self.opcode],
            ) + seq![' '] + operator_name(self.operator) + " ["@ + hex_spaced(self.payload@)
                + seq![']']);
        }
        string_from_chars(&out)
    }
}

pub open spec fn operator_name(o: Operator) -> Seq<char> {
    match o {
        Operator::Notify => "Notify"@,
        Operator::Get => "Get"@,
        Operator::SetGet => "SetGet"@,
        Operator::Status => "Status"@,
        Operator::Error => "Error"@,
        Operator::Start => "Start"@,
        Operator::End => "End"@,
        Operator::Result => "Result"@,
        Operator::Unknown(b) => "Unknown("@ + decimal(b as nat) + seq![')'],
    }
}

fn push_operator_name(out: &mut Vec<char>, o: Operator)
    ensures
        final(out)@ == old(out)@ + operator_name(o),
{
    match o {
        Operator::Notify => push_str(out, "Notify"),
        Operator::Get => push_str(out, "Get"),
        Operator::SetGet => push_str(out, "SetGet"),
        Operator::Status => push_str(out, "Status"),
        Operator::Error => push_str(out, "Error"),
        Operator::Start => push_str(out, "Start"),
        Operator::End => push_str(out, "End"),
        Operator::Result => push_str(out, "Result"),
        Operator::Unknown(b) => {
            push_str(out, "Unknown(");
            push_decimal(out, b as u64);
            out.push(')');
            proof {
                assert(final(out)@ =~= old(out)@ + operator_name(o));
            }
        },
    }
}

#[derive(Debug, Clone, PartialEq, Eq, Structural)]
pub enum Error {
    /// Fewer than four bytes remain: not even a header.
    Truncated { at: usize },
    /// A record claims more payload than the buffer holds.
    ShortPayload { at: usize, want: usize, have: usize },
    PayloadTooLong(usize),
}

pub open spec fn error_text(e: Error) -> Seq<char> {
    match e {
        Error::Truncated { at } => "truncated header at offset "@ + decimal(at as nat),
        Error::ShortPayload { at, want, have } => "record at "@ + decimal(at as nat)
            + " wants "@ + decimal(want as nat) + " payload bytes, "@ + decimal(have as nat)
            + " available"@,
        Error::PayloadTooLong(n) => "payload of "@ + decimal(n as nat) + " bytes exceeds 255"@,
    }
}

impl Error {
    /// The sentence a person is shown.
    pub fn to_string(&self) -> (s: String)
        ensures
            s@ == error_text(*self),
    {
        let mut out: Vec<char> = Vec::new();
        match self {
            Error::Truncated { at } => {
                push_str(&mut out, "truncated header at offset ");
                push_decimal(&mut out, *at as u64);
            },
            Error::ShortPayload { at, want, have } => {
                push_str(&mut out, "record at ");
                push_decimal(&mut out, *at as u64);
                push_str(&mut out, " wants ");
                push_decimal(&mut out, *want as u64);
                push_str(&mut out, " payload bytes, ");
                push_decimal(&mut out, *have as u64);
                push_str(&mut out, " available");
            },
            Error::PayloadTooLong(n) => {
                push_str(&mut out, "payload of ");
                push_decimal(&mut out, *n as u64);
                push_str(&mut out, " bytes exceeds 255");
            },
        }
        proof {
            assert(out@ =~= error_text(*self));
        }
        string_from_chars(&out)
    }
}

pub open spec fn record_at(buf: Seq<u8>, at: int) -> Record {
    Record {
        function: buf[at],
        opcode: buf[at + 1],
        operator: operator_of(buf[at + 2]),
        payload: buf.subrange(at + 4, at + 4 + buf[at + 3]),
    }
}

pub open spec fn record_end(buf: Seq<u8>, at: int) -> int {
    at + 4 + buf[at + 3]
}

/// The records of `buf` from offset `at` on, or the first thing wrong with it.
pub open spec fn decode_from(buf: Seq<u8>, at: nat) -> Result<Seq<Record>, Error>
    decreases buf.len() - at,
{
    if at >= buf.len() {
        Ok(seq![])
    } else if buf.len() - at < 4 {
        Err(Error::Truncated { at: at as usize })
    } else if buf.len() < record_end(buf, at as int) {
        Err(
            Error::ShortPayload {
                at: at as usize,
                want: buf[at as int + 3] as usize,
                have: (buf.len() - (at + 4)) as usize,
            },
        )
    } else {
        match decode_from(buf, record_end(buf, at as int) as nat) {
            Ok(rest) => Ok(seq![record_at(buf, at as int)] + rest),
            Err(e) => Err(e),
        }
    }
}

pub open spec fn decode_spec(buf: Seq<u8>) -> Result<Seq<Record>, Error> {
    decode_from(buf, 0)
}

/// Split a reply into its records.
///
/// A reply that does not consume exactly is a sign the framing assumption is
/// wrong for that traffic — worth knowing immediately rather than after
/// building on a partial parse, so this errors instead of returning what it
/// managed.
pub fn decode(buf: &[u8]) -> (r: Result<Vec<Message>, Error>)
    ensures
        match r {
            Ok(ms) => decode_spec(buf@) == Ok::<Seq<Record>, Error>(records(ms@)),
            Err(e) => decode_spec(buf@) == Err::<Seq<Record>, Error>(e),
        },
{
    let mut out: Vec<Message> = Vec::new();
    let mut i: usize = 0;
    while i < buf.len()
        invariant
            i <= buf@.len(),
            decode_from(buf@, 0) == match decode_from(buf@, i as nat) {
                Ok(rest) => Ok(records(out@) + rest),
                Err(e) => Err::<Seq<Record>, Error>(e),
            },
        decreases buf@.len() - i,
    {
        if buf.len() - i < 4 {
            return Err(Error::Truncated { at: i });
        }
        let len = buf[i + 3] as usize;
        let start = i + 4;
        if buf.len() - start < len {
            return Err(Error::ShortPayload { at: i, want: len, have: buf.len() - start });
        }
        let ghost old_out = out@;
        let payload = slice_to_vec(vstd::slice::slice_subrange(buf, start, start + len));
        out.push(Message::new(buf[i], buf[i + 1], Operator::from_byte(buf[i + 2]), payload));
        proof {
            assert(records(out@) =~= records(old_out) + seq![record_at(buf@, i as int)]);
            match decode_from(buf@, (start + len) as nat) {
                Ok(rest) => {
                    assert(records(old_out) + (seq![record_at(buf@, i as int)] + rest)
                        =~= records(out@) + rest);
                },
                Err(_) => {},
            }
        }
        i = start + len;
    }
    proof {
        assert(records(out@) + seq![] =~= records(out@));
    }
    Ok(out)
}

pub open spec fn encode_records(rs: Seq<Record>) -> Seq<u8>
    decreases rs.len(),
{
    if rs.len() == 0 {
        seq![]
    } else {
        encode_record(rs[0]) + encode_records(rs.drop_first())
    }
}

/// Decoding what was encoded gives back the records, for payloads a length
/// octet can carry.
pub proof fn lemma_decode_encode(rs: Seq<Record>)
    requires
        forall|i: int| 0 <= i < rs.len() ==> #[trigger] rs[i].payload.len() <= 255,
        forall|i: int| 0 <= i < rs.len() ==> operator_canonical(#[trigger] rs[i].operator),
    ensures
        decode_spec(encode_records(rs)) == Ok::<Seq<Record>, Error>(rs),
{
    lemma_decode_encode_at(seq![], rs);
    assert(seq![] + encode_records(rs) =~= encode_records(rs));
}

proof fn lemma_decode_encode_at(prefix: Seq<u8>, rs: Seq<Record>)
    requires
        forall|i: int| 0 <= i < rs.len() ==> #[trigger] rs[i].payload.len() <= 255,
        forall|i: int| 0 <= i < rs.len() ==> operator_canonical(#[trigger] rs[i].operator),
    ensures
        decode_from(prefix + encode_records(rs), prefix.len()) == Ok::<Seq<Record>, Error>(rs),
    decreases rs.len(),
{
    let buf = prefix + encode_records(rs);
    if rs.len() == 0 {
        assert(rs =~= seq![]);
    } else {
        let r = rs[0];
        let rest = rs.drop_first();
        let prefix2 = prefix + encode_record(r);
        assert(buf =~= prefix2 + encode_records(rest));
        assert forall|i: int| 0 <= i < rest.len() implies #[trigger] rest[i].payload.len() <= 255 by {
            assert(rest[i] == rs[i + 1]);
        }
        assert forall|i: int| 0 <= i < rest.len() implies operator_canonical(#[trigger] rest[i].operator) by {
            assert(rest[i] == rs[i + 1]);
        }
        lemma_decode_encode_at(prefix2, rest);
        let at = prefix.len() as int;
        assert(r.payload.len() <= 255);
        assert(operator_canonical(r.operator));
        assert(buf.len() >= prefix2.len());
        assert(prefix2.len() == at + 4 + r.payload.len());
        assert(buf[at + 3] == r.payload.len() as u8);
        assert(buf.subrange(at + 4, at + 4 + r.payload.len()) =~= r.payload);
        lemma_operator_round_trip(0, r.operator);
        assert(record_at(buf, at) == r);
        assert(seq![r] + rest =~= rs);
        assert(record_end(buf, at) as nat == prefix2.len());
        assert(decode_from(buf, at as nat) == Ok::<Seq<Record>, Error>(seq![r] + rest));
    }
}

} // verus!
