//! Payloads to values, and back.
//!
//! Pure functions and the types they produce. Nothing here reaches a device, so
//! every one of them can be checked against a byte string copied out of a
//! capture.
//!
//! A decoder returns `None` when the payload is not the shape it knows. That is
//! not a refusal — it is this crate being wrong about a model — and it surfaces
//! as [`crate::error::Error::Malformed`] with the bytes attached, so the next
//! observation starts from what the device actually said.

use vstd::prelude::*;
use vstd::slice::slice_to_vec;
use vstd::utf8::{
    decode_utf8, encode_scalar, encode_utf8, encode_utf8_decode_utf8, encode_utf8_valid_utf8,
    valid_utf8,
};

use crate::text::{decimal, push_decimal, push_str, str_bytes, string_from_chars,
    string_from_utf8_lossy, utf8_lossy};
use crate::transport::Address;
use vstd::string::StringSliceAdditionalSpecFns;

verus! {

// ---------------------------------------------------------------------------
// Primitives
// ---------------------------------------------------------------------------

pub fn raw(p: &[u8]) -> (r: Option<Vec<u8>>)
    ensures
        r matches Some(v) && v@ == p@,
{
    Some(slice_to_vec(p))
}

/// `p` with its leading and trailing zero bytes removed.
pub open spec fn strip_zeros(p: Seq<u8>) -> Seq<u8>
    decreases p.len(),
{
    if p.len() > 0 && p[0] == 0 {
        strip_zeros(p.drop_first())
    } else if p.len() > 0 && p.last() == 0 {
        strip_zeros(p.drop_last())
    } else {
        p
    }
}

/// The bytes between the leading and trailing NULs.
fn strip_zero_bytes(p: &[u8]) -> (r: &[u8])
    ensures
        r@ == strip_zeros(p@),
{
    let mut lo: usize = 0;
    let mut hi: usize = p.len();
    proof {
        assert(p@.subrange(0, p@.len() as int) =~= p@);
    }
    while lo < hi && p[lo] == 0
        invariant
            lo <= hi == p@.len(),
            strip_zeros(p@) == strip_zeros(p@.subrange(lo as int, hi as int)),
        decreases hi - lo,
    {
        proof {
            assert(p@.subrange(lo as int, hi as int).drop_first() =~= p@.subrange(lo + 1, hi as int));
        }
        lo = lo + 1;
    }
    while lo < hi && p[hi - 1] == 0
        invariant
            lo <= hi <= p@.len(),
            strip_zeros(p@) == strip_zeros(p@.subrange(lo as int, hi as int)),
            lo < hi ==> p@[lo as int] != 0,
        decreases hi - lo,
    {
        proof {
            let s = p@.subrange(lo as int, hi as int);
            assert(s.drop_last() =~= p@.subrange(lo as int, hi - 1));
            assert(s[0] == p@[lo as int]);
        }
        hi = hi - 1;
    }
    let r = vstd::slice::slice_subrange(p, lo, hi);
    proof {
        let s = p@.subrange(lo as int, hi as int);
        if s.len() > 0 {
            assert(s[0] == p@[lo as int]);
            assert(s.last() == p@[hi - 1]);
        }
        assert(strip_zeros(s) == s);
    }
    r
}

/// Text, with any NUL padding either side dropped: the string
/// `String::from_utf8_lossy` makes of the bytes between.
pub fn ascii(p: &[u8]) -> (r: Option<String>)
    ensures
        r matches Some(s) && s@ == utf8_lossy(strip_zeros(p@)),
        valid_utf8(strip_zeros(p@)) ==> (r matches Some(s) && s@ == decode_utf8(strip_zeros(p@))),
{
    // A NUL byte is a NUL character and never part of a longer sequence, so
    // trimming the bytes trims the same characters trimming the text would.
    Some(string_from_utf8_lossy(strip_zero_bytes(p)))
}

/// The first byte, where there is one.
pub open spec fn byte_spec(p: Seq<u8>) -> Option<u8> {
    if p.len() > 0 {
        Some(p[0])
    } else {
        None
    }
}

pub fn byte(p: &[u8]) -> (r: Option<u8>)
    ensures
        r == byte_spec(p@),
{
    if p.len() > 0 {
        Some(p[0])
    } else {
        None
    }
}

/// On when the first byte is not zero, where there is one.
pub open spec fn flag_spec(p: Seq<u8>) -> Option<bool> {
    if p.len() > 0 {
        Some(p[0] != 0)
    } else {
        None
    }
}

pub fn flag(p: &[u8]) -> (r: Option<bool>)
    ensures
        r == flag_spec(p@),
{
    if p.len() > 0 {
        Some(p[0] != 0)
    } else {
        None
    }
}

pub fn set_flag(on: bool) -> (v: Vec<u8>)
    ensures
        v@ == seq![if on {
            1u8
        } else {
            0u8
        }],
{
    let mut v: Vec<u8> = Vec::new();
    v.push(if on {
        1u8
    } else {
        0u8
    });
    v
}

pub fn set_byte(b: u8) -> (v: Vec<u8>)
    ensures
        v@ == seq![b],
{
    let mut v: Vec<u8> = Vec::new();
    v.push(b);
    v
}

/// Six bytes as an address.
///
/// The order the device uses is **not established** — every address in the
/// captures is redacted, so a capture cannot settle it. Bytes are taken as
/// they arrive.
pub fn address(p: &[u8]) -> (r: Option<Address>)
    ensures
        match r {
            Some(a) => p@.len() >= 6 && a@ == p@.subrange(0, 6),
            None => p@.len() < 6,
        },
{
    if p.len() < 6 {
        return None;
    }
    let a = Address([p[0], p[1], p[2], p[3], p[4], p[5]]);
    proof {
        assert(a@ =~= p@.subrange(0, 6));
    }
    Some(a)
}

/// The addresses after a leading byte: one per whole six bytes.
pub open spec fn addresses_spec(p: Seq<u8>) -> Seq<Seq<u8>> {
    Seq::new(((p.len() - 1) / 6) as nat, |i: int| p.subrange(1 + 6 * i, 7 + 6 * i))
}

/// Each paired address is its own six bytes: after the leading byte, an
/// address followed by more reads as that address, then the addresses the
/// rest would give on its own.
pub proof fn lemma_addresses_one_then_rest(lead: u8, a: Seq<u8>, rest: Seq<u8>)
    requires
        a.len() == 6,
    ensures
        addresses_spec(seq![lead] + a + rest) == seq![a] + addresses_spec(seq![lead] + rest),
{
    let p = seq![lead] + a + rest;
    let q = seq![lead] + rest;
    assert((p.len() - 1) / 6 == 1 + (q.len() - 1) / 6) by (nonlinear_arith)
        requires
            p.len() == q.len() + 6,
            q.len() >= 1,
    ;
    assert forall|i: int| 0 <= i < (p.len() - 1) / 6 implies #[trigger] addresses_spec(p)[i] == (seq![a]
        + addresses_spec(q))[i] by {
        if i == 0 {
            assert(p.subrange(1, 7) =~= a);
        } else {
            let j = i - 1;
            assert(7 + 6 * j <= q.len()) by (nonlinear_arith)
                requires
                    0 <= j < (q.len() - 1) / 6,
            ;
            assert(p.subrange(1 + 6 * i, 7 + 6 * i) =~= q.subrange(1 + 6 * j, 7 + 6 * j));
        }
    }
    assert(addresses_spec(p) =~= seq![a] + addresses_spec(q));
}

/// `<byte> <addr…>`. The leading byte is not a count — a QC35 puts `01`
/// before three — so it is skipped, and a short tail is dropped.
pub fn addresses(p: &[u8]) -> (r: Option<Vec<Address>>)
    ensures
        match r {
            Some(v) => p@.len() >= 1 && v@.map_values(|a: Address| a@) == addresses_spec(p@),
            None => p@.len() == 0,
        },
{
    if p.len() == 0 {
        return None;
    }
    let plen = p.len();
    let n = (plen - 1) / 6;
    let mut out: Vec<Address> = Vec::new();
    let mut i: usize = 0;
    while i < n
        invariant
            plen == p@.len(),
            plen >= 1,
            n == (p@.len() - 1) / 6,
            i <= n,
            out@.len() == i,
            forall|k: int| 0 <= k < i ==> #[trigger] out@[k]@ == p@.subrange(1 + 6 * k, 7 + 6 * k),
        decreases n - i,
    {
        assert(1 + 6 * i + 6 <= plen) by (nonlinear_arith)
            requires
                i < n,
                n == (plen - 1) / 6,
                plen >= 1,
        ;
        let at = 1 + 6 * i;
        let a = Address([p[at], p[at + 1], p[at + 2], p[at + 3], p[at + 4], p[at + 5]]);
        proof {
            assert(a@ =~= p@.subrange(1 + 6 * i, 7 + 6 * i));
        }
        out.push(a);
        i = i + 1;
    }
    proof {
        assert(out@.map_values(|a: Address| a@) =~= addresses_spec(p@));
    }
    Some(out)
}

// ---------------------------------------------------------------------------
// Identity
// ---------------------------------------------------------------------------

/// `00 03`, and the same number bluez reports as the `Modalias` product id — so
/// it can also be had without connecting.
#[derive(Debug, Clone, Copy, PartialEq, Eq, Structural)]
pub struct DeviceId {
    pub id: u16,
    pub index: u8,
}

pub fn device_id(p: &[u8]) -> (r: Option<DeviceId>)
    ensures
        r == (if p@.len() >= 3 {
            Some(DeviceId { id: (p@[0] as u16 * 256 + p@[1] as u16) as u16, index: p@[2] })
        } else {
            None
        }),
{
    if p.len() >= 3 {
        Some(DeviceId { id: p[0] as u16 * 256 + p[1] as u16, index: p[2] })
    } else {
        None
    }
}

/// The bytes of the name a `01 02` read carries: past its leading zero,
/// without padding.
pub open spec fn name_bytes(p: Seq<u8>) -> Seq<u8> {
    strip_zeros(if p.len() > 0 && p[0] == 0 {
        p.drop_first()
    } else {
        p
    })
}

/// The name a `01 02` read carries.
pub open spec fn name_spec(p: Seq<u8>) -> Seq<char> {
    utf8_lossy(name_bytes(p))
}

/// `01 02`. The read carries a leading `00`; the write does not.
pub fn name(p: &[u8]) -> (r: Option<String>)
    ensures
        r matches Some(s) && s@ == name_spec(p@),
        valid_utf8(name_bytes(p@)) ==> (r matches Some(s) && s@ == decode_utf8(name_bytes(p@))),
{
    let text = if p.len() > 0 && p[0] == 0 {
        vstd::slice::slice_subrange(p, 1, p.len())
    } else {
        p
    };
    proof {
        if p@.len() > 0 && p@[0] == 0 {
            assert(text@ =~= p@.drop_first());
        }
    }
    ascii(text)
}

/// No byte of a character's UTF-8 encoding is zero, unless the character is
/// NUL.
proof fn lemma_scalar_bytes_nonzero(c: char)
    requires
        c != '\0',
    ensures
        forall|i: int|
            0 <= i < encode_scalar(c as u32).len() ==> #[trigger] encode_scalar(c as u32)[i] != 0,
{
    let s = c as u32;
    assert(s != 0);
    assert(s != 0 && s <= 0x7F ==> (s & 0x7F) as u8 != 0) by (bit_vector);
    assert(0xC0u8 | ((s >> 6) & 0x1F) as u8 != 0) by (bit_vector);
    assert(0xE0u8 | ((s >> 12) & 0x0F) as u8 != 0) by (bit_vector);
    assert(0xF0u8 | ((s >> 18) & 0x07) as u8 != 0) by (bit_vector);
    assert(0x80u8 | (s & 0x3F) as u8 != 0) by (bit_vector);
    assert(0x80u8 | ((s >> 6) & 0x3F) as u8 != 0) by (bit_vector);
    assert(0x80u8 | ((s >> 12) & 0x3F) as u8 != 0) by (bit_vector);
}

/// No byte of the encoding of text without a NUL character is zero.
proof fn lemma_encoding_nonzero(n: Seq<char>)
    requires
        forall|i: int| 0 <= i < n.len() ==> n[i] != '\0',
    ensures
        forall|i: int| 0 <= i < encode_utf8(n).len() ==> #[trigger] encode_utf8(n)[i] != 0,
    decreases n.len(),
{
    if n.len() > 0 {
        lemma_scalar_bytes_nonzero(n[0]);
        lemma_encoding_nonzero(n.drop_first());
        let head = encode_scalar(n[0] as u32);
        let rest = encode_utf8(n.drop_first());
        assert forall|i: int| 0 <= i < encode_utf8(n).len() implies #[trigger] encode_utf8(n)[i] != 0 by {
            if i < head.len() {
                assert(encode_utf8(n)[i] == head[i]);
            } else {
                assert(encode_utf8(n)[i] == rest[i - head.len()]);
            }
        }
    }
}

/// A name written by [`set_name`] reads back as itself: the read carries the
/// written bytes behind its leading `00`, and they decode, exactly, to the
/// name — for a name that holds no NUL character, which padding would eat.
pub proof fn lemma_name_round_trip(n: Seq<char>)
    requires
        forall|i: int| 0 <= i < n.len() ==> n[i] != '\0',
    ensures
        name_bytes(seq![0u8] + encode_utf8(n)) == encode_utf8(n),
        valid_utf8(name_bytes(seq![0u8] + encode_utf8(n))),
        decode_utf8(name_bytes(seq![0u8] + encode_utf8(n))) == n,
{
    let b = encode_utf8(n);
    lemma_encoding_nonzero(n);
    assert((seq![0u8] + b).drop_first() =~= b);
    if b.len() > 0 {
        assert(b[0] != 0);
        assert(b[b.len() - 1] != 0);
    }
    assert(strip_zeros(b) == b);
    encode_utf8_valid_utf8(n);
    encode_utf8_decode_utf8(n);
}

/// The name as written: its UTF-8 bytes, with no leading `00`.
pub fn set_name(n: String) -> (v: Vec<u8>)
    ensures
        v@ == vstd::utf8::encode_utf8(n@),
{
    str_bytes(n.as_str())
}

// ---------------------------------------------------------------------------
// Noise cancelling
// ---------------------------------------------------------------------------

/// A named noise-cancelling level, on models that offer a fixed set.
#[derive(Debug, Clone, Copy, PartialEq, Eq, Structural)]
pub enum Level {
    Off,
    High,
    Low,
}

pub open spec fn level_wire(l: Level) -> u8 {
    match l {
        Level::Off => 0,
        Level::High => 1,
        Level::Low => 3,
    }
}

pub open spec fn level_of(b: u8) -> Option<Level> {
    if b == 0 {
        Some(Level::Off)
    } else if b == 1 {
        Some(Level::High)
    } else if b == 3 {
        Some(Level::Low)
    } else {
        None
    }
}

impl Level {
    pub fn wire(self) -> (b: u8)
        ensures
            b == level_wire(self),
    {
        match self {
            Level::Off => 0x00,
            Level::High => 0x01,
            Level::Low => 0x03,
        }
    }

    pub fn from_wire(b: u8) -> (l: Option<Level>)
        ensures
            l == level_of(b),
    {
        if b == 0x00 {
            Some(Level::Off)
        } else if b == 0x01 {
            Some(Level::High)
        } else if b == 0x03 {
            Some(Level::Low)
        } else {
            None
        }
    }

    /// Every level, in wire order.
    pub fn all() -> (v: Vec<Level>)
        ensures
            v@ == seq![Level::Off, Level::High, Level::Low],
    {
        let v = vec![Level::Off, Level::High, Level::Low];
        proof {
            assert(v@ =~= seq![Level::Off, Level::High, Level::Low]);
        }
        v
    }
}

/// A level survives the trip to the wire and back; a byte that names a level
/// is that level's byte.
pub proof fn lemma_level_round_trip(l: Level, b: u8)
    ensures
        level_of(level_wire(l)) == Some(l),
        level_of(b) matches Some(x) ==> level_wire(x) == b,
{
}

/// `01 06`, QuietComfort 35. `<level> <mask>`.
///
/// Three named levels and a bitmask saying which the model accepts — bit *n*
/// set means level *n* is allowed. Confirmed by writing every value `0x00`–`0x0b`
/// and having eight of the twelve refused with payload `06`.
#[derive(Debug, Clone, Copy, PartialEq, Eq, Structural)]
pub struct Named {
    pub level: Option<Level>,
    pub accepted: u8,
}

/// Bit `n` of `mask`.
pub open spec fn bit_set(mask: u8, n: u8) -> bool {
    (mask >> n) & 1 == 1
}

impl Named {
    pub fn accepts(&self, level: Level) -> (b: bool)
        ensures
            b == bit_set(self.accepted, level_wire(level)),
    {
        let w = level.wire();
        let m = self.accepted;
        let b = (m >> w) & 1 == 1;
        b
    }

    /// The levels the mask allows, in wire order.
    pub fn levels(&self) -> (v: Vec<Level>)
        ensures
            v@ == seq![Level::Off, Level::High, Level::Low].filter(
                |l: Level| bit_set(self.accepted, level_wire(l)),
            ),
    {
        let mut v: Vec<Level> = Vec::new();
        let ghost all = seq![Level::Off, Level::High, Level::Low];
        let ghost pred = |l: Level| bit_set(self.accepted, level_wire(l));
        proof {
            reveal_with_fuel(Seq::<Level>::filter, 4);
            assert(all.drop_last().drop_last().drop_last() =~= Seq::<Level>::empty());
            assert(all.drop_last().drop_last() =~= seq![Level::Off]);
            assert(all.drop_last() =~= seq![Level::Off, Level::High]);
        }
        if self.accepts(Level::Off) {
            v.push(Level::Off);
        }
        if self.accepts(Level::High) {
            v.push(Level::High);
        }
        if self.accepts(Level::Low) {
            v.push(Level::Low);
        }
        proof {
            assert(v@ =~= all.filter(pred));
        }
        v
    }
}

/// `<level> <mask>`.
pub open spec fn named_spec(p: Seq<u8>) -> Option<Named> {
    if p.len() >= 2 {
        Some(Named { level: level_of(p[0]), accepted: p[1] })
    } else {
        None
    }
}

pub fn named(p: &[u8]) -> (r: Option<Named>)
    ensures
        r == named_spec(p@),
{
    if p.len() >= 2 {
        Some(Named { level: Level::from_wire(p[0]), accepted: p[1] })
    } else {
        None
    }
}

pub fn set_named(l: Level) -> (v: Vec<u8>)
    ensures
        v@ == seq![level_wire(l)],
{
    set_byte(l.wire())
}

/// `01 05`, Ultra family. `<values> <awareness> <unknown>`.
///
/// The field counts **awareness**, not cancellation: `0` is maximum cancelling
/// and `values - 1` lets everything through. Eleven wire values `0x00`–`0x0a`,
/// of which the app's live slider shows ten; the eleventh is Aware.
#[derive(Debug, Clone, Copy, PartialEq, Eq, Structural)]
pub struct Graded {
    pub awareness: u8,
    pub values: u8,
}

/// `a - b`, or zero when `b` is larger.
pub open spec fn sat_sub(a: int, b: int) -> int {
    if a > b {
        a - b
    } else {
        0
    }
}

impl Graded {
    /// Cancellation the way a person pictures it: `0` none, higher is more.
    pub fn cancelling(&self) -> (c: u8)
        ensures
            c == sat_sub(sat_sub(self.values as int, 1), self.awareness as int),
    {
        let top = self.top();
        if top > self.awareness {
            top - self.awareness
        } else {
            0
        }
    }

    /// The highest cancellation this device offers.
    pub fn top(&self) -> (t: u8)
        ensures
            t == sat_sub(self.values as int, 1),
    {
        if self.values > 0 {
            self.values - 1
        } else {
            0
        }
    }
}

/// Awareness and cancellation are the same scale read from opposite ends: on a
/// device's own scale, one is the top minus the other.
pub proof fn lemma_cancelling_inverts_awareness(g: Graded)
    requires
        g.awareness < g.values,
    ensures
        sat_sub(sat_sub(g.values as int, 1), g.awareness as int) + g.awareness == g.values - 1,
{
}

/// `<values> <awareness> ...`.
pub open spec fn graded_spec(p: Seq<u8>) -> Option<Graded> {
    if p.len() >= 2 {
        Some(Graded { awareness: p[1], values: p[0] })
    } else {
        None
    }
}

pub fn graded(p: &[u8]) -> (r: Option<Graded>)
    ensures
        r == graded_spec(p@),
{
    if p.len() >= 2 {
        Some(Graded { awareness: p[1], values: p[0] })
    } else {
        None
    }
}

// ---------------------------------------------------------------------------
// The rest of function 01
// ---------------------------------------------------------------------------

/// Voice-prompt language.
///
/// The read and the write do not carry the same byte. What comes back is a
/// flags byte whose low five bits select the language; the write sends
/// `0x20 | language`, which is where `21` and `26` come from. Comparing the
/// whole byte against `21` therefore never matches a real device.
#[derive(Debug, Clone, Copy, PartialEq, Eq, Structural)]
pub enum Language {
    English,
    Spanish,
    Other(u8),
}

pub open spec fn language_code(l: Language) -> u8 {
    match l {
        Language::English => 1,
        Language::Spanish => 6,
        Language::Other(c) => c & 0x1f,
    }
}

pub open spec fn language_of(b: u8) -> Language {
    let c = b & 0x1f;
    if c == 1 {
        Language::English
    } else if c == 6 {
        Language::Spanish
    } else {
        Language::Other(c)
    }
}

impl Language {
    pub fn code(self) -> (c: u8)
        ensures
            c == language_code(self),
    {
        match self {
            Language::English => 0x01,
            Language::Spanish => 0x06,
            Language::Other(c) => c & 0x1f,
        }
    }

    pub fn wire(self) -> (b: u8)
        ensures
            b == (0x20 | language_code(self)),
    {
        0x20 | self.code()
    }

    pub fn from_flags(b: u8) -> (l: Language)
        ensures
            l == language_of(b),
    {
        let c = b & 0x1f;
        if c == 0x01 {
            Language::English
        } else if c == 0x06 {
            Language::Spanish
        } else {
            Language::Other(c)
        }
    }
}

/// What is written reads back as the same language; what is read, written
/// back, reads the same.
pub proof fn lemma_language_round_trip(l: Language, b: u8)
    ensures
        language_of(0x20 | language_code(l)) == (match l {
            Language::Other(c) => language_of(c),
            _ => l,
        }),
        language_of(0x20 | language_code(language_of(b))) == language_of(b),
{
    assert(((0x20u8 | 1u8) & 0x1f) == 1) by (bit_vector);
    assert(((0x20u8 | 6u8) & 0x1f) == 6) by (bit_vector);
    assert(forall|c: u8| ((0x20u8 | (c & 0x1f)) & 0x1f) == (c & 0x1f)) by (bit_vector);
    assert(forall|c: u8| ((c & 0x1f) & 0x1f) == (c & 0x1f)) by (bit_vector);
}

/// `01 03`, read.
#[derive(Debug, Clone, PartialEq, Eq)]
pub struct Prompts {
    pub language: Language,
    /// Bit `0x20`.
    pub voice_prompts: bool,
    /// The whole first byte. Bit `0x40` is unexplained: the same Ultra shows it
    /// set in English and clear in Spanish, and a QC35 in English has it clear,
    /// so it is neither generation nor language on its own.
    pub flags: u8,
    /// Where its position is known.
    ///
    /// The write is `<language> <battery announcement>`, but the second field
    /// does not read back second — on the seven-byte record it lands last, and
    /// byte 1 is a constant `00`. Confirmed by writing both values and watching
    /// byte 6 follow. The QC35's five-byte record is not mapped.
    pub battery_announcement: Option<bool>,
    /// The whole record. Most of it is still unidentified.
    pub raw: Vec<u8>,
}

/// Where the battery announcement reads back: byte 6 of the seven-byte
/// record, the only layout where that has been established by writing both
/// values and watching which byte followed.
pub open spec fn announcement_at_spec(len: nat) -> Option<nat> {
    if len == 7 {
        Some(6)
    } else {
        None
    }
}

pub fn announcement_at(record: &[u8]) -> (r: Option<usize>)
    ensures
        match announcement_at_spec(record@.len()) {
            Some(i) => r == Some(i as usize),
            None => r is None,
        },
{
    if record.len() == 7 {
        Some(6)
    } else {
        None
    }
}

/// `v` is what the record `p` says.
pub open spec fn prompts_of(v: Prompts, p: Seq<u8>) -> bool {
    &&& p.len() > 0
    &&& v.flags == p[0]
    &&& v.language == language_of(p[0])
    &&& v.voice_prompts == (p[0] & 0x20 != 0)
    &&& v.raw@ == p
    &&& v.battery_announcement == match announcement_at_spec(p.len()) {
        Some(i) => Some(p[i as int] != 0),
        None => None,
    }
}

pub fn prompts(p: &[u8]) -> (r: Option<Prompts>)
    ensures
        match r {
            None => p@.len() == 0,
            Some(v) => prompts_of(v, p@),
        },
{
    if p.len() == 0 {
        return None;
    }
    let flags = p[0];
    let battery_announcement = match announcement_at(p) {
        Some(i) => Some(p[i] != 0),
        None => None,
    };
    Some(
        Prompts {
            language: Language::from_flags(flags),
            voice_prompts: flags & 0x20 != 0,
            flags,
            battery_announcement,
            raw: slice_to_vec(p),
        },
    )
}

/// Voice prompts are bit `0x20` of the first byte and nothing else: flipping
/// that bit flips them and keeps the language, while flipping any other bits
/// leaves them as they were.
pub proof fn lemma_voice_prompts_bit(v: Prompts, p: Seq<u8>, w: Prompts, q: Seq<u8>, m: u8)
    requires
        prompts_of(v, p),
        prompts_of(w, q),
        q[0] == p[0] ^ m,
    ensures
        m == 0x20 ==> w.voice_prompts != v.voice_prompts && w.language == v.language,
        m & 0x20 == 0 ==> w.voice_prompts == v.voice_prompts,
{
    let a = p[0];
    let b = q[0];
    assert(b == a ^ m ==> (m == 0x20 ==> ((b & 0x20 != 0) != (a & 0x20 != 0) && b & 0x1f == a
        & 0x1f))) by (bit_vector);
    assert(b == a ^ m ==> (m & 0x20 == 0 ==> ((b & 0x20 != 0) == (a & 0x20 != 0)))) by (bit_vector);
}

/// A record that starts with the byte a language change writes reads back
/// with that language and with voice prompts on.
pub proof fn lemma_written_language_reads_back(l: Language, v: Prompts, p: Seq<u8>)
    requires
        prompts_of(v, p),
        p[0] == 0x20 | language_code(l),
    ensures
        v.voice_prompts,
        v.language == (match l {
            Language::Other(c) => language_of(c),
            _ => l,
        }),
{
    let c = language_code(l);
    assert((0x20u8 | c) & 0x20 != 0) by (bit_vector);
    lemma_language_round_trip(l, 0);
}

/// The record is written whole, so the announcement travels with the language
/// whether or not the caller meant to touch it.
pub fn set_prompts(v: (Language, bool)) -> (w: Vec<u8>)
    ensures
        w@ == seq![0x20 | language_code(v.0), if v.1 {
            1u8
        } else {
            0u8
        }],
{
    let (language, announcement) = v;
    let mut w: Vec<u8> = Vec::new();
    w.push(language.wire());
    w.push(if announcement {
        1u8
    } else {
        0u8
    });
    w
}

/// How long the headphones wait, idle, before powering themselves off.
///
/// Zero minutes on the wire means never, not immediately.
#[derive(Debug, Clone, Copy, PartialEq, Eq, Structural)]
pub enum AutoOff {
    Never,
    After(u8),
}

pub open spec fn auto_off_of(m: u8) -> AutoOff {
    if m == 0 {
        AutoOff::Never
    } else {
        AutoOff::After(m)
    }
}

pub open spec fn auto_off_minutes(a: AutoOff) -> u8 {
    match a {
        AutoOff::Never => 0,
        AutoOff::After(m) => m,
    }
}

pub open spec fn auto_off_text(a: AutoOff) -> Seq<char> {
    match a {
        AutoOff::Never => "never"@,
        AutoOff::After(m) => decimal(m as nat) + " min"@,
    }
}

impl AutoOff {
    pub fn from_minutes(m: u8) -> (a: AutoOff)
        ensures
            a == auto_off_of(m),
    {
        if m == 0 {
            AutoOff::Never
        } else {
            AutoOff::After(m)
        }
    }

    pub fn minutes(self) -> (m: u8)
        ensures
            m == auto_off_minutes(self),
    {
        match self {
            AutoOff::Never => 0,
            AutoOff::After(m) => m,
        }
    }

    /// `never`, or `60 min`.
    pub fn to_string(&self) -> (s: String)
        ensures
            s@ == auto_off_text(*self),
    {
        let mut out: Vec<char> = Vec::new();
        match self {
            AutoOff::Never => push_str(&mut out, "never"),
            AutoOff::After(m) => {
                push_decimal(&mut out, *m as u64);
                push_str(&mut out, " min");
            },
        }
        proof {
            assert(out@ =~= auto_off_text(*self));
        }
        string_from_chars(&out)
    }
}

/// Minutes read are minutes written: `After(0)` is the one value that does not
/// survive, because zero on the wire is never.
pub proof fn lemma_auto_off_round_trip(m: u8, a: AutoOff)
    ensures
        auto_off_minutes(auto_off_of(m)) == m,
        a != AutoOff::After(0) ==> auto_off_of(auto_off_minutes(a)) == a,
{
}

/// Only the one-byte form is understood. The Ultra generation answers with
/// three — `05 00 00` — and a bare minute count no longer fits, so that shape is
/// rejected rather than read as five minutes.
/// A one-byte minute count; any other length is a layout not known here.
pub open spec fn auto_off_spec(p: Seq<u8>) -> Option<AutoOff> {
    if p.len() == 1 {
        Some(auto_off_of(p[0]))
    } else {
        None
    }
}

pub fn auto_off(p: &[u8]) -> (r: Option<AutoOff>)
    ensures
        r == auto_off_spec(p@),
{
    if p.len() == 1 {
        Some(AutoOff::from_minutes(p[0]))
    } else {
        None
    }
}

pub fn set_auto_off(a: AutoOff) -> (v: Vec<u8>)
    ensures
        v@ == seq![auto_off_minutes(a)],
{
    set_byte(a.minutes())
}

/// One equaliser band, carrying its own limits.
#[derive(Debug, Clone, Copy, PartialEq, Eq, Structural)]
pub struct Band {
    pub index: u8,
    pub min: i8,
    pub max: i8,
    pub value: i8,
}

/// Four-byte groups, `<min> <max> <value> <band>`; a short tail is dropped.
pub open spec fn bands_spec(p: Seq<u8>) -> Seq<Band> {
    Seq::new(
        p.len() / 4,
        |i: int|
            Band {
                min: p[4 * i] as i8,
                max: p[4 * i + 1] as i8,
                value: p[4 * i + 2] as i8,
                index: p[4 * i + 3],
            },
    )
}

/// Three four-byte groups, `<min> <max> <value> <band>`. A client can draw the
/// control without hardcoding limits.
pub fn equaliser(p: &[u8]) -> (r: Option<Vec<Band>>)
    ensures
        r matches Some(v) && v@ == bands_spec(p@),
{
    let plen = p.len();
    let n = plen / 4;
    let mut out: Vec<Band> = Vec::new();
    let mut i: usize = 0;
    while i < n
        invariant
            plen == p@.len(),
            n == p@.len() / 4,
            i <= n,
            out@ == bands_spec(p@).subrange(0, i as int),
        decreases n - i,
    {
        assert(4 * i + 4 <= plen) by (nonlinear_arith)
            requires
                i < n,
                n == plen / 4,
        ;
        let at = 4 * i;
        out.push(Band { min: p[at] as i8, max: p[at + 1] as i8, value: p[at + 2] as i8, index: p[at + 3] });
        i = i + 1;
        proof {
            assert(out@ =~= bands_spec(p@).subrange(0, i as int));
        }
    }
    proof {
        assert(bands_spec(p@).subrange(0, n as int) =~= bands_spec(p@));
    }
    Some(out)
}

/// One four-byte group `<min> <max> <value> <band>` is one band, each byte
/// read as signed where it is a level.
pub proof fn lemma_bands_one_group(a: u8, b: u8, c: u8, d: u8)
    ensures
        bands_spec(seq![a, b, c, d]) == seq![
            Band { min: a as i8, max: b as i8, value: c as i8, index: d },
        ],
{
    assert(bands_spec(seq![a, b, c, d]) =~= seq![
        Band { min: a as i8, max: b as i8, value: c as i8, index: d },
    ]);
}

/// Each band is read from its own group: whole groups followed by more read as
/// the bands of the first, then the bands of the rest.
pub proof fn lemma_bands_concat(p: Seq<u8>, q: Seq<u8>)
    requires
        p.len() % 4 == 0,
    ensures
        bands_spec(p + q) == bands_spec(p) + bands_spec(q),
{
    let k = p.len() / 4;
    let pq = p + q;
    assert(p.len() == 4 * k);
    assert(pq.len() / 4 == k + q.len() / 4) by (nonlinear_arith)
        requires
            pq.len() == 4 * k + q.len(),
    ;
    assert forall|i: int| 0 <= i < pq.len() / 4 implies #[trigger] bands_spec(pq)[i] == (bands_spec(p)
        + bands_spec(q))[i] by {
        if i < k {
            assert(4 * i + 3 < p.len()) by (nonlinear_arith)
                requires
                    i < k,
                    p.len() == 4 * k,
            ;
        } else {
            let j = i - k;
            assert(4 * i == p.len() + 4 * j);
            assert(4 * j + 3 < q.len()) by (nonlinear_arith)
                requires
                    0 <= j < q.len() / 4,
            ;
        }
    }
    assert(bands_spec(pq) =~= bands_spec(p) + bands_spec(q));
}

/// `<value> <band>`, signed.
pub fn set_band(v: (u8, i8)) -> (w: Vec<u8>)
    ensures
        w@ == seq![v.1 as u8, v.0],
{
    let (index, value) = v;
    let mut w: Vec<u8> = Vec::new();
    w.push(value as u8);
    w.push(index);
    w
}

/// `80 09 <action>`. Four action values were captured — `0e`, `03`, `13`, `01` —
/// but which is which was never established: the capture changed the enabled
/// state and the selection together.
pub fn set_shortcut(action: u8) -> (w: Vec<u8>)
    ensures
        w@ == seq![0x80u8, 0x09u8, action],
{
    let mut w: Vec<u8> = Vec::new();
    w.push(0x80);
    w.push(0x09);
    w.push(action);
    w
}

/// `01 <level>`. Levels `00`, `01` and `03` seen.
pub fn set_self_voice(level: u8) -> (w: Vec<u8>)
    ensures
        w@ == seq![0x01u8, level],
{
    let mut w: Vec<u8> = Vec::new();
    w.push(0x01);
    w.push(level);
    w
}

// ---------------------------------------------------------------------------
// Status, media, modes
// ---------------------------------------------------------------------------

/// One battery cell.
#[derive(Debug, Clone, Copy, PartialEq, Eq, Structural)]
pub struct Cell {
    pub index: u8,
    pub percent: u8,
}

/// A lone byte is a percentage; otherwise one cell per four bytes,
/// `<pct> ff ff <index>`.
pub open spec fn cells_spec(p: Seq<u8>) -> Seq<Cell> {
    if p.len() == 1 {
        seq![Cell { index: 0, percent: p[0] }]
    } else {
        Seq::new(p.len() / 4, |i: int| Cell { percent: p[4 * i], index: p[4 * i + 3] })
    }
}

/// A QuietComfort 35 reports a bare percentage; the Ultra family reports a
/// four-byte record per cell, so earbuds give two and a headband gives one.
/// Branch on the length, never on the model.
pub fn battery(p: &[u8]) -> (r: Option<Vec<Cell>>)
    ensures
        r matches Some(v) && v@ == cells_spec(p@),
{
    let mut out: Vec<Cell> = Vec::new();
    if p.len() == 1 {
        out.push(Cell { index: 0, percent: p[0] });
        proof {
            assert(out@ =~= cells_spec(p@));
        }
        return Some(out);
    }
    let plen = p.len();
    let n = plen / 4;
    let mut i: usize = 0;
    while i < n
        invariant
            plen == p@.len(),
            p@.len() != 1,
            n == p@.len() / 4,
            i <= n,
            out@ == cells_spec(p@).subrange(0, i as int),
        decreases n - i,
    {
        assert(4 * i + 4 <= plen) by (nonlinear_arith)
            requires
                i < n,
                n == plen / 4,
        ;
        out.push(Cell { percent: p[4 * i], index: p[4 * i + 3] });
        i = i + 1;
        proof {
            assert(out@ =~= cells_spec(p@).subrange(0, i as int));
        }
    }
    proof {
        assert(cells_spec(p@).subrange(0, n as int) =~= cells_spec(p@));
    }
    Some(out)
}

/// A lone byte is the one cell's charge.
pub proof fn lemma_cells_lone_byte(b: u8)
    ensures
        cells_spec(seq![b]) == seq![Cell { index: 0, percent: b }],
{
    assert(cells_spec(seq![b]) =~= seq![Cell { index: 0, percent: b }]);
}

/// One four-byte record `<pct> ff ff <index>` is one cell: its charge is the
/// record's first byte and its index the record's last.
pub proof fn lemma_cells_one_record(a: u8, b: u8, c: u8, d: u8)
    ensures
        cells_spec(seq![a, b, c, d]) == seq![Cell { index: d, percent: a }],
{
    assert(cells_spec(seq![a, b, c, d]) =~= seq![Cell { index: d, percent: a }]);
}

/// Each cell is read from its own record: whole records followed by more
/// records read as the cells of the first, then the cells of the rest.
pub proof fn lemma_cells_concat(p: Seq<u8>, q: Seq<u8>)
    requires
        p.len() % 4 == 0,
        q.len() != 1,
    ensures
        cells_spec(p + q) == cells_spec(p) + cells_spec(q),
{
    let k = p.len() / 4;
    let pq = p + q;
    assert(p.len() == 4 * k);
    assert(pq.len() / 4 == k + q.len() / 4) by (nonlinear_arith)
        requires
            pq.len() == 4 * k + q.len(),
    ;
    assert forall|i: int| 0 <= i < pq.len() / 4 implies #[trigger] cells_spec(pq)[i] == (cells_spec(p)
        + cells_spec(q))[i] by {
        if i < k {
            assert(4 * i + 3 < p.len()) by (nonlinear_arith)
                requires
                    i < k,
                    p.len() == 4 * k,
            ;
        } else {
            let j = i - k;
            assert(4 * i == p.len() + 4 * j);
            assert(4 * j + 3 < q.len()) by (nonlinear_arith)
                requires
                    0 <= j < q.len() / 4,
            ;
        }
    }
    assert(cells_spec(pq) =~= cells_spec(p) + cells_spec(q));
}

/// `05 05`. The device states the size of its own scale.
#[derive(Debug, Clone, Copy, PartialEq, Eq, Structural)]
pub struct Volume {
    pub current: u8,
    /// Positions on the scale; `0x19` on every model seen, a range of `0`–`0x18`.
    pub steps: u8,
}

impl Volume {
    /// The highest level on the device's own scale.
    pub fn max(&self) -> (m: u8)
        ensures
            m == sat_sub(self.steps as int, 1),
    {
        if self.steps > 0 {
            self.steps - 1
        } else {
            0
        }
    }
}

/// `<steps> <current>`.
pub open spec fn volume_spec(p: Seq<u8>) -> Option<Volume> {
    if p.len() >= 2 {
        Some(Volume { current: p[1], steps: p[0] })
    } else {
        None
    }
}

pub fn volume(p: &[u8]) -> (r: Option<Volume>)
    ensures
        r == volume_spec(p@),
{
    if p.len() >= 2 {
        Some(Volume { current: p[1], steps: p[0] })
    } else {
        None
    }
}

pub fn set_volume(level: u8) -> (w: Vec<u8>)
    ensures
        w@ == seq![level],
{
    set_byte(level)
}

/// Immersive audio, on the Ultra generation.
#[derive(Debug, Clone, Copy, PartialEq, Eq, Structural)]
pub enum Immersive {
    Off,
    Still,
    Motion,
}

pub open spec fn immersive_of(b: u8) -> Option<Immersive> {
    if b == 0 {
        Some(Immersive::Off)
    } else if b == 1 {
        Some(Immersive::Still)
    } else if b == 2 {
        Some(Immersive::Motion)
    } else {
        None
    }
}

/// The first byte, as a known immersive-audio setting.
pub open spec fn immersive_spec(p: Seq<u8>) -> Option<Immersive> {
    if p.len() > 0 {
        immersive_of(p[0])
    } else {
        None
    }
}

pub fn immersive(p: &[u8]) -> (r: Option<Immersive>)
    ensures
        r == immersive_spec(p@),
{
    if p.len() == 0 {
        return None;
    }
    if p[0] == 0x00 {
        Some(Immersive::Off)
    } else if p[0] == 0x01 {
        Some(Immersive::Still)
    } else if p[0] == 0x02 {
        Some(Immersive::Motion)
    } else {
        None
    }
}

/// The byte each immersive-audio setting is on the wire, as the catalog
/// records it: `00` off, `01` still, `02` motion.
pub open spec fn immersive_wire(i: Immersive) -> u8 {
    match i {
        Immersive::Off => 0x00,
        Immersive::Still => 0x01,
        Immersive::Motion => 0x02,
    }
}

/// A record reads as a setting exactly when its first byte is that setting's
/// byte; any other first byte, or none, is no setting.
pub proof fn lemma_immersive_by_first_byte(p: Seq<u8>, i: Immersive)
    ensures
        immersive_spec(p) == Some(i) <==> (p.len() > 0 && p[0] == immersive_wire(i)),
        immersive_spec(p) is None <==> (p.len() == 0 || p[0] > 0x02),
{
}

/// One stored mode, from a 47-byte `1f 06` record.
///
/// `awareness` is the same inverted scale as [`Graded`]. `wind_block` forces
/// cancellation to its maximum while on, so the level is not independently
/// settable in that state.
///
/// Most of the record is still unidentified, so `raw` carries all 47 bytes.
#[derive(Debug, Clone, PartialEq, Eq)]
pub struct Mode {
    pub index: u8,
    pub name: String,
    pub awareness: u8,
    pub wind_block: bool,
    pub raw: Vec<u8>,
}

/// The bytes before the first NUL.
pub open spec fn until_zero(s: Seq<u8>) -> Seq<u8>
    decreases s.len(),
{
    if s.len() == 0 {
        s
    } else if s[0] == 0 {
        seq![]
    } else {
        seq![s[0]] + until_zero(s.drop_first())
    }
}

/// The name field: from byte 6 up to the first NUL, and never into the
/// settings tail at byte 41.
pub open spec fn mode_name_bytes(p: Seq<u8>) -> Seq<u8> {
    until_zero(p.subrange(6, 41))
}

pub(crate) fn until_zero_len(s: &[u8]) -> (n: usize)
    ensures
        n <= s@.len(),
        s@.subrange(0, n as int) == until_zero(s@),
{
    let mut i: usize = 0;
    while i < s.len() && s[i] != 0
        invariant
            i <= s@.len(),
            forall|k: int| 0 <= k < i ==> s@[k] != 0,
        decreases s@.len() - i,
    {
        i = i + 1;
    }
    proof {
        lemma_until_zero(s@, i as int);
    }
    i
}

proof fn lemma_until_zero(s: Seq<u8>, i: int)
    requires
        0 <= i <= s.len(),
        forall|k: int| 0 <= k < i ==> s[k] != 0,
        i == s.len() || s[i] == 0,
    ensures
        s.subrange(0, i) == until_zero(s),
    decreases s.len(),
{
    if s.len() == 0 {
        assert(s.subrange(0, i) =~= s);
    } else if s[0] == 0 {
        assert(s.subrange(0, i) =~= seq![]);
    } else {
        lemma_until_zero(s.drop_first(), i - 1);
        assert(s.subrange(0, i) =~= seq![s[0]] + s.drop_first().subrange(0, i - 1));
    }
}

/// Whether a slot holds a mode: a stored mode always names its prompt
/// (byte 2), and only a stored mode can be a favourite (byte 5).
pub open spec fn slot_occupied(p: Seq<u8>) -> bool {
    p[2] != 0 || p[5] == 1
}

/// An empty slot decodes to `None`.
///
/// Byte 46 is wind block and is `00` on any mode that does not use it, so
/// reading *that* as occupancy silently drops real modes.
/// `m` is what the stored slot `p` says.
pub open spec fn mode_of(m: Mode, p: Seq<u8>) -> bool {
    &&& p.len() >= 47
    &&& m.index == p[0]
    &&& m.awareness == p[42]
    &&& m.wind_block == (p[46] != 0)
    &&& m.raw@ == p
    &&& m.name@ == utf8_lossy(mode_name_bytes(p))
    &&& valid_utf8(mode_name_bytes(p)) ==> m.name@ == decode_utf8(mode_name_bytes(p))
}

pub fn mode(p: &[u8]) -> (r: Option<Option<Mode>>)
    ensures
        p@.len() < 47 ==> r is None,
        p@.len() >= 47 && !slot_occupied(p@) ==> r == Some(None::<Mode>),
        p@.len() >= 47 && slot_occupied(p@) ==> (r matches Some(Some(m)) && mode_of(m, p@)),
{
    if p.len() < 47 {
        return None;
    }
    if p[2] == 0 && p[5] != 0x01 {
        return Some(None);
    }
    let field = vstd::slice::slice_subrange(p, 6, 41);
    let n = until_zero_len(field);
    let name_bytes = vstd::slice::slice_subrange(field, 0, n);
    let name = string_from_utf8_lossy(name_bytes);
    Some(
        Some(
            Mode {
                index: p[0],
                name,
                awareness: p[42],
                wind_block: p[46] != 0,
                raw: slice_to_vec(p),
            },
        ),
    )
}

} // verus!
