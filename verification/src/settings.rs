//! Reading and writing the settings a device actually has.
//!
//! Every method here branches on [`Capabilities`](crate::device::Capabilities),
//! because the same setting lives in different places across generations and a
//! caller should not have to know which.

use vstd::prelude::*;

use crate::codec::{bit_set, sat_sub, until_zero, until_zero_len};
use crate::device::{bytes_of, get_request, Anc, Device};
use crate::error::{ErrorKind, IoError};
use crate::fields::{first_reply, read_once, set_request};
use crate::framing::{decode_spec, encode_record, record_refusal, records, Message, Record};
use crate::text::{push_str, string_from_chars, string_from_utf8_lossy, utf8_lossy};
use crate::transport::{broke_off, enumerated, grew, Transport};

verus! {

/// A named noise-cancelling level, on models that offer a fixed set.
#[derive(Debug, Clone, Copy, PartialEq, Eq, Structural)]
pub enum Level {
    Off,
    High,
    Low,
}

pub open spec fn level_wire(l: Level) -> u8 {
    match l {
        Level::Off => 0x00,
        Level::High => 0x01,
        Level::Low => 0x03,
    }
}

pub open spec fn level_from_wire(b: u8) -> Option<Level> {
    if b == 0x00 {
        Some(Level::Off)
    } else if b == 0x01 {
        Some(Level::High)
    } else if b == 0x03 {
        Some(Level::Low)
    } else {
        None
    }
}

impl Level {
    fn wire(self) -> (b: u8)
        ensures
            b == level_wire(self),
    {
        match self {
            Level::Off => 0x00,
            Level::High => 0x01,
            Level::Low => 0x03,
        }
    }

    fn from_wire(b: u8) -> (l: Option<Level>)
        ensures
            l == level_from_wire(b),
    {
        if b == 0x00 {
            Some(Level::Off)
        } else if b == 0x01 {
            Some(Level::High)
        } else if b == 0x03 {
            Some(Level::Low)
        } else {
            None
        }
    }
}

/// The state of the noise-cancelling control.
///
/// The two generations do not share this field, so neither does this type.
#[derive(Debug, Clone, Copy, PartialEq, Eq, Structural)]
pub enum AncState {
    /// QuietComfort 35. Three named levels, and a bitmask saying which the
    /// model accepts — bit *n* set means level *n* is allowed. Writing anything
    /// else is refused with payload `06`, argument not accepted.
    Named { level: Option<Level>, accepted: u8 },
    /// Ultra family. `awareness` counts transparency, not cancellation: `0` is
    /// maximum cancelling and `values - 1` lets everything through.
    ///
    /// `values` is eleven on every model seen, `0x00`–`0x0a`. The app's live
    /// slider exposes ten of them; the eleventh, `0x0a`, is Aware mode and is
    /// also what a stored mode with cancellation `0` holds.
    Graded { awareness: u8, values: u8 },
}

pub open spec fn cancelling_of(s: AncState) -> Option<u8> {
    match s {
        AncState::Graded { awareness, values } => Some(
            sat_sub(sat_sub(values as int, 1), awareness as int) as u8,
        ),
        AncState::Named { .. } => None,
    }
}

pub open spec fn accepts_of(s: AncState, level: Level) -> bool {
    match s {
        AncState::Named { accepted, .. } => bit_set(accepted, level_wire(level)),
        AncState::Graded { .. } => false,
    }
}

impl AncState {
    /// Cancellation the way a person pictures it: `0` none, higher is more.
    /// `None` on models whose levels are named rather than graded.
    pub fn cancelling(&self) -> (c: Option<u8>)
        ensures
            c == cancelling_of(*self),
    {
        match self {
            AncState::Graded { awareness, values } => {
                let top = if *values > 0 {
                    *values - 1
                } else {
                    0
                };
                Some(
                    if top > *awareness {
                        top - *awareness
                    } else {
                        0
                    },
                )
            },
            AncState::Named { .. } => None,
        }
    }

    /// Whether a named level is offered, read from the device's own mask.
    pub fn accepts(&self, level: Level) -> (b: bool)
        ensures
            b == accepts_of(*self, level),
    {
        match self {
            AncState::Named { accepted, .. } => {
                let n = level.wire();
                (*accepted >> n) & 1 == 1
            },
            AncState::Graded { .. } => false,
        }
    }
}

/// One equaliser band, carrying its own limits.
#[derive(Debug, Clone, Copy, PartialEq, Eq, Structural)]
pub struct Band {
    pub index: u8,
    pub min: i8,
    pub max: i8,
    pub value: i8,
}

/// Immersive audio, on the Ultra generation.
#[derive(Debug, Clone, Copy, PartialEq, Eq, Structural)]
pub enum Immersive {
    Off,
    Still,
    Motion,
}

pub open spec fn immersive_from(b: u8) -> Option<Immersive> {
    if b == 0x00 {
        Some(Immersive::Off)
    } else if b == 0x01 {
        Some(Immersive::Still)
    } else if b == 0x02 {
        Some(Immersive::Motion)
    } else {
        None
    }
}

fn immersive_from_byte(b: u8) -> (r: Option<Immersive>)
    ensures
        r == immersive_from(b),
{
    if b == 0x00 {
        Some(Immersive::Off)
    } else if b == 0x01 {
        Some(Immersive::Still)
    } else if b == 0x02 {
        Some(Immersive::Motion)
    } else {
        None
    }
}

impl TryFrom<u8> for Immersive {
    type Error = u8;

    fn try_from(b: u8) -> (r: core::result::Result<Immersive, u8>) {
        match immersive_from_byte(b) {
            Some(i) => Ok(i),
            None => Err(b),
        }
    }
}

impl vstd::std_specs::convert::TryFromSpecImpl<u8> for Immersive {
    open spec fn obeys_try_from_spec() -> bool {
        true
    }

    open spec fn try_from_spec(v: u8) -> core::result::Result<Immersive, u8> {
        match immersive_from(v) {
            Some(i) => Ok(i),
            None => Err(v),
        }
    }
}

/// Raised when a caller asks for something this model does not have.
///
/// The message is written where it is raised, so each one can be a sentence
/// that fits its case rather than a noun bolted onto a stem.
#[derive(Debug, Clone, Copy, PartialEq, Eq)]
pub struct Unsupported(pub &'static str);

impl Unsupported {
    /// The sentence, as written where it was raised.
    pub fn to_string(&self) -> (s: String)
        ensures
            s@ == self.0@,
    {
        let mut chars: Vec<char> = Vec::new();
        push_str(&mut chars, self.0);
        string_from_chars(&chars)
    }
}

/// An error for something this model does not have.
pub(crate) fn unsupported(what: &'static str) -> (e: IoError)
    ensures
        e.kind == ErrorKind::Unsupported,
        e.message@ == what@,
{
    IoError::new(ErrorKind::Unsupported, Unsupported(what).0)
}

/// The payload of the first record that is not a refusal.
pub open spec fn unrefused(rs: Seq<Record>) -> Option<Seq<u8>>
    decreases rs.len(),
{
    if rs.len() == 0 {
        None
    } else if record_refusal(rs[0]) is None {
        Some(rs[0].payload)
    } else {
        unrefused(rs.drop_first())
    }
}

/// What the device's last reply opens with, after any refusals.
pub open spec fn last_unrefused<T: Transport>(d: Device<T>) -> Option<Seq<u8>> {
    match decode_spec(d.session.replied()) {
        Ok(rs) => unrefused(rs),
        Err(_) => None,
    }
}

/// What a reply opens with after any refusals, if it parses whole.
pub open spec fn unrefused_in(reply: Seq<u8>) -> Option<Seq<u8>> {
    match decode_spec(reply) {
        Ok(rs) => unrefused(rs),
        Err(_) => None,
    }
}

/// The state a `01 06` (named) or `01 05` (graded) payload reports.
pub open spec fn anc_state_of(anc: Anc, p: Seq<u8>) -> AncState {
    if anc is Legacy {
        AncState::Named { level: level_from_wire(p[0]), accepted: p[1] }
    } else {
        AncState::Graded { awareness: p[1], values: p[0] }
    }
}

/// Four-byte groups, `<min> <max> <value> <band>`.
pub open spec fn bands_of(p: Seq<u8>) -> Seq<Band> {
    Seq::new(
        p.len() / 4,
        |i: int|
            Band {
                min: p[4 * i] as i8,
                max: p[4 * i + 1] as i8,
                value: p[4 * i + 2] as i8,
                index: p[4 * i + 3],
            },
    )
}

/// The first band with this index.
pub open spec fn band_at(bands: Seq<Band>, index: u8) -> Option<Band>
    decreases bands.len(),
{
    if bands.len() == 0 {
        None
    } else if bands[0].index == index {
        Some(bands[0])
    } else {
        band_at(bands.drop_first(), index)
    }
}

/// `v` held to `lo..=hi`.
pub open spec fn clamped(v: i8, lo: i8, hi: i8) -> i8 {
    if v < lo {
        lo
    } else if v > hi {
        hi
    } else {
        v
    }
}

/// The stored slots among the records of a `1f` enumeration: opcode `06`, long
/// enough, and byte 5 set.
pub open spec fn is_stored(r: Record) -> bool {
    r.opcode == 0x06 && r.payload.len() >= 47 && r.payload[5] == 0x01
}

/// Each pair is a slot's index and the name it holds.
pub open spec fn slots_named(v: Seq<(u8, String)>, slots: Seq<Record>) -> bool {
    &&& v.len() == slots.len()
    &&& forall|i: int|
        0 <= i < v.len() ==> (#[trigger] v[i]).0 == slots[i].payload[0] && v[i].1@ == utf8_lossy(
            until_zero(slots[i].payload.subrange(6, slots[i].payload.len() as int)),
        )
}

/// The first record's payload that is not a refusal.
fn first_unrefused(msgs: &Vec<Message>) -> (r: Option<Vec<u8>>)
    ensures
        match unrefused(records(msgs@)) {
            Some(p) => r matches Some(v) && v@ == p,
            None => r is None,
        },
{
    let ghost rs = records(msgs@);
    let mut i: usize = 0;
    proof {
        assert(rs.subrange(0, rs.len() as int) =~= rs);
    }
    while i < msgs.len()
        invariant
            rs == records(msgs@),
            i <= msgs@.len(),
            unrefused(rs) == unrefused(rs.subrange(i as int, rs.len() as int)),
        decreases msgs@.len() - i,
    {
        proof {
            let s = rs.subrange(i as int, rs.len() as int);
            assert(s.drop_first() =~= rs.subrange(i + 1, rs.len() as int));
            assert(s[0] == msgs@[i as int]@);
        }
        if msgs[i].refusal().is_none() {
            return Some(msgs[i].payload.clone());
        }
        i = i + 1;
    }
    None
}

fn band_index(bands: &Vec<Band>, index: u8) -> (r: Option<Band>)
    ensures
        r == band_at(bands@, index),
{
    let mut i: usize = 0;
    proof {
        assert(bands@.subrange(0, bands@.len() as int) =~= bands@);
    }
    while i < bands.len()
        invariant
            i <= bands@.len(),
            band_at(bands@, index) == band_at(bands@.subrange(i as int, bands@.len() as int), index),
        decreases bands@.len() - i,
    {
        proof {
            let s = bands@.subrange(i as int, bands@.len() as int);
            assert(s.drop_first() =~= bands@.subrange(i + 1, bands@.len() as int));
        }
        if bands[i].index == index {
            return Some(bands[i]);
        }
        i = i + 1;
    }
    None
}

fn clamp(v: i8, lo: i8, hi: i8) -> (r: i8)
    ensures
        r == clamped(v, lo, hi),
{
    if v < lo {
        lo
    } else if v > hi {
        hi
    } else {
        v
    }
}

pub open spec fn no_anc_text() -> Seq<char> {
    "this device has no noise cancelling"@
}

pub open spec fn no_modes_text() -> Seq<char> {
    "this device has no modes"@
}

pub open spec fn not_accepted_text() -> Seq<char> {
    "this model does not accept that level"@
}

/// Why a level the device's mask leaves out is not sent.
fn not_accepted() -> (s: &'static str)
    ensures
        s@ == not_accepted_text(),
{
    let s = "this model does not accept that level";
    proof {
        reveal_strlit("this model does not accept that level");
    }
    s
}

pub open spec fn no_band_text() -> Seq<char> {
    "no such equaliser band"@
}

/// Why a band the device did not report is not written.
fn no_band() -> (s: &'static str)
    ensures
        s@ == no_band_text(),
{
    let s = "no such equaliser band";
    proof {
        reveal_strlit("no such equaliser band");
    }
    s
}

impl<T: Transport> Device<T> {
    /// Ask `f o` and keep the first answer that is not a refusal.
    fn ask(&mut self, f: u8, o: u8) -> (r: Result<Option<Vec<u8>>, IoError>)
        ensures
            read_once(*old(self), *final(self), f, o, r is Ok),
            r matches Ok(v) ==> bytes_of(v) == last_unrefused(*final(self)),
            grew(old(self).session, final(self).session),
            r matches Err(e) ==> broke_off(old(self).session, final(self).session, e),
    {
        let m = Message::get(f, o);
        proof {
            assert(encode_record(m@) =~= get_request(f, o));
        }
        match self.session.request(&m) {
            Ok(None) => Ok(None),
            Ok(Some(msgs)) => {
                let v = first_unrefused(&msgs);
                Ok(v)
            },
            Err(e) => Err(e),
        }
    }

    pub fn noise_cancelling(&mut self) -> (r: Result<Option<AncState>, IoError>)
        ensures
            final(self).identity == old(self).identity,
            final(self).capabilities == old(self).capabilities,
            old(self).capabilities.anc is Absent ==> (r matches Err(e) && e.kind
                == ErrorKind::Unsupported && e.message@ == no_anc_text()) && final(self).sent_log()
                == old(self).sent_log(),
            old(self).capabilities.anc is Legacy ==> read_once(*old(self), *final(self), 0x01, 0x06, r is Ok),
            old(self).capabilities.anc is Modern ==> read_once(*old(self), *final(self), 0x01, 0x05, r is Ok),
            grew(old(self).session, final(self).session),
            !(old(self).capabilities.anc is Absent) ==> (r matches Err(e) ==> broke_off(
                old(self).session,
                final(self).session,
                e,
            )),
            r matches Ok(x) ==> x == match last_unrefused(*final(self)) {
                Some(p) => if p.len() >= 2 {
                    Some(anc_state_of(old(self).capabilities.anc, p))
                } else {
                    None
                },
                None => None,
            },
    {
        let flavour = self.capabilities.anc;
        let opcode: u8 = match flavour {
            Anc::Legacy => 0x06,
            Anc::Modern => 0x05,
            Anc::Absent => {
                return Err(unsupported("this device has no noise cancelling"));
            },
        };
        let p = match self.ask(0x01, opcode)? {
            Some(p) => p,
            None => {
                return Ok(None);
            },
        };
        if p.len() < 2 {
            return Ok(None);
        }
        Ok(
            Some(
                match flavour {
                    // `<level> <mask>`
                    Anc::Legacy => AncState::Named { level: Level::from_wire(p[0]), accepted: p[1] },
                    // `<values> <awareness> <unknown>`
                    _ => AncState::Graded { awareness: p[1], values: p[0] },
                },
            ),
        )
    }

    /// Select a named level, on a model that offers them.
    ///
    /// The device's own mask decides what is allowed. Sending a value outside it
    /// is refused with payload `06` — writing every value `0x00`-`0x0b` to a
    /// QuietComfort 35 had eight of the twelve rejected — so this checks first
    /// and reports the model's answer rather than the wire's.
    pub fn set_level(&mut self, level: Level) -> (r: Result<(), IoError>)
        ensures
            final(self).identity == old(self).identity,
            final(self).capabilities == old(self).capabilities,
            old(self).capabilities.anc is Modern ==> (r matches Err(e) && e.kind
                == ErrorKind::Unsupported && e.message@
                == "this model has a graded scale, not named levels"@) && final(self).sent_log()
                == old(self).sent_log(),
            old(self).capabilities.anc is Absent ==> (r matches Err(e) && e.kind
                == ErrorKind::Unsupported && e.message@ == no_anc_text()) && final(self).sent_log()
                == old(self).sent_log(),
            r is Ok ==> old(self).capabilities.anc is Legacy && final(self).sent_log() == old(
                self,
            ).sent_log().push(get_request(0x01, 0x06)).push(
                set_request(0x01, 0x06, seq![level_wire(level)]),
            ),
            grew(old(self).session, final(self).session),
            old(self).capabilities.anc is Legacy ==> (r matches Err(e) ==> broke_off(
                old(self).session,
                final(self).session,
                e,
            ) || (e.kind == ErrorKind::Unsupported && e.message@ == not_accepted_text()
                && final(self).sent_log() == old(self).sent_log().push(get_request(0x01, 0x06))
                && match last_unrefused(*final(self)) {
                Some(p) => p.len() >= 2 && !accepts_of(anc_state_of(Anc::Legacy, p), level),
                None => false,
            })),
    {
        match self.capabilities.anc {
            Anc::Legacy => {
                match self.noise_cancelling()? {
                    Some(state) => {
                        if !state.accepts(level) {
                            return Err(unsupported(not_accepted()));
                        }
                    },
                    None => {},
                }
                let m = Message::set(0x01, 0x06, vec![level.wire()]);
                proof {
                    assert(m@.payload =~= seq![level_wire(level)]);
                }
                match self.session.request(&m) {
                    Ok(_) => Ok(()),
                    Err(e) => Err(e),
                }
            },
            Anc::Modern => Err(unsupported("this model has a graded scale, not named levels")),
            Anc::Absent => Err(unsupported("this device has no noise cancelling")),
        }
    }

    /// Set cancellation on a graded model.
    ///
    /// Refused, deliberately. No capture of the official app writing `01 05`
    /// exists, so the format would be a guess, and a blind write to an
    /// unidentified opcode is the one move this protocol does not forgive.
    /// Select a mode instead: those carry a cancellation level and their write
    /// format is confirmed.
    pub fn set_cancelling(&mut self, level: u8) -> (r: Result<(), IoError>)
        ensures
            *final(self) == *old(self),
            r matches Err(e) && e.kind == ErrorKind::Unsupported && e.message@ == match old(
                self,
            ).capabilities.anc {
                Anc::Modern => "no confirmed write format for 01 05 — select a mode instead"@,
                Anc::Legacy => "this model has named levels, not a graded scale"@,
                Anc::Absent => no_anc_text(),
            },
    {
        match self.capabilities.anc {
            Anc::Modern => Err(
                unsupported("no confirmed write format for 01 05 — select a mode instead"),
            ),
            Anc::Legacy => Err(unsupported("this model has named levels, not a graded scale")),
            Anc::Absent => Err(unsupported("this device has no noise cancelling")),
        }
    }

    /// The equaliser, each band carrying the range the device reports.
    pub fn equaliser(&mut self) -> (r: Result<Vec<Band>, IoError>)
        ensures
            final(self).identity == old(self).identity,
            final(self).capabilities == old(self).capabilities,
            !old(self).capabilities.equaliser ==> (r matches Err(e) && e.kind
                == ErrorKind::Unsupported && e.message@ == "this device has no equaliser"@)
                && final(self).sent_log() == old(self).sent_log(),
            old(self).capabilities.equaliser ==> read_once(*old(self), *final(self), 0x01, 0x07, r is Ok),
            grew(old(self).session, final(self).session),
            old(self).capabilities.equaliser ==> (r matches Err(e) ==> broke_off(
                old(self).session,
                final(self).session,
                e,
            )),
            r matches Ok(v) ==> v@ == match last_unrefused(*final(self)) {
                Some(p) => bands_of(p),
                None => Seq::<Band>::empty(),
            },
    {
        if !self.capabilities.equaliser {
            return Err(unsupported("this device has no equaliser"));
        }
        let p = match self.ask(0x01, 0x07)? {
            Some(p) => p,
            None => {
                return Ok(Vec::new());
            },
        };
        let mut v: Vec<Band> = Vec::new();
        let n = p.len() / 4;
        let mut i: usize = 0;
        while i < n
            invariant
                n == p@.len() / 4,
                i <= n,
                v@ =~= bands_of(p@).subrange(0, i as int),
            decreases n - i,
        {
            let plen = p.len();
            assert(4 * i + 4 <= plen) by (nonlinear_arith)
                requires
                    i < n,
                    n == plen / 4,
            ;
            v.push(
                Band {
                    min: p[4 * i] as i8,
                    max: p[4 * i + 1] as i8,
                    value: p[4 * i + 2] as i8,
                    index: p[4 * i + 3],
                },
            );
            i = i + 1;
        }
        proof {
            assert(bands_of(p@).subrange(0, n as int) =~= bands_of(p@));
        }
        Ok(v)
    }

    /// Set one band. The value is clamped to the range the device reported.
    pub fn set_band(&mut self, index: u8, value: i8) -> (r: Result<(), IoError>)
        ensures
            final(self).identity == old(self).identity,
            final(self).capabilities == old(self).capabilities,
            !old(self).capabilities.equaliser ==> (r matches Err(e) && e.kind
                == ErrorKind::Unsupported) && final(self).sent_log() == old(self).sent_log(),
            r is Ok ==> (match unrefused_in(first_reply(*old(self), *final(self))) {
                Some(p) => match band_at(bands_of(p), index) {
                    Some(b) => final(self).sent_log() == old(self).sent_log().push(
                        get_request(0x01, 0x07),
                    ).push(set_request(0x01, 0x07, seq![clamped(value, b.min, b.max) as u8, index])),
                    None => false,
                },
                None => false,
            }),
            grew(old(self).session, final(self).session),
            old(self).capabilities.equaliser ==> (r matches Err(e) ==> broke_off(
                old(self).session,
                final(self).session,
                e,
            ) || (e.kind == ErrorKind::Unsupported && e.message@ == no_band_text()
                && final(self).sent_log() == old(self).sent_log().push(get_request(0x01, 0x07))
                && match last_unrefused(*final(self)) {
                Some(p) => band_at(bands_of(p), index) is None,
                None => true,
            })),
    {
        let bands = self.equaliser()?;
        let ghost mid = *self;
        let band = match band_index(&bands, index) {
            Some(b) => b,
            None => {
                return Err(unsupported(no_band()));
            },
        };
        let v = clamp(value, band.min, band.max);
        let m = Message::set(0x01, 0x07, vec![v as u8, index]);
        proof {
            assert(m@.payload =~= seq![clamped(value, band.min, band.max) as u8, index]);
        }
        match self.session.request(&m) {
            Ok(_) => {
                proof {
                    assert(first_reply(*old(self), *self) == mid.session.replied());
                }
                Ok(())
            },
            Err(e) => Err(e),
        }
    }

    pub fn immersive(&mut self) -> (r: Result<Option<Immersive>, IoError>)
        ensures
            final(self).identity == old(self).identity,
            final(self).capabilities == old(self).capabilities,
            !old(self).capabilities.immersive ==> (r matches Err(e) && e.kind
                == ErrorKind::Unsupported && e.message@ == "this device has no immersive audio"@)
                && final(self).sent_log() == old(self).sent_log(),
            old(self).capabilities.immersive ==> read_once(*old(self), *final(self), 0x05, 0x0f, r is Ok),
            grew(old(self).session, final(self).session),
            old(self).capabilities.immersive ==> (r matches Err(e) ==> broke_off(
                old(self).session,
                final(self).session,
                e,
            )),
            r matches Ok(x) ==> x == match last_unrefused(*final(self)) {
                Some(p) => if p.len() > 0 {
                    immersive_from(p[0])
                } else {
                    None
                },
                None => None,
            },
    {
        if !self.capabilities.immersive {
            return Err(unsupported("this device has no immersive audio"));
        }
        match self.ask(0x05, 0x0f)? {
            Some(p) => {
                if p.len() == 0 {
                    return Ok(None);
                }
                Ok(immersive_from_byte(p[0]))
            },
            None => Ok(None),
        }
    }

    /// Select a stored mode by index.
    ///
    /// Refused. The form the official app sends — `1f 03 05 02 00 <index>` — is
    /// accepted by the device and **changes nothing**: reading `1f 03` back
    /// returns the previous mode, for every index. Operator `02` is refused
    /// outright.
    ///
    /// The capture established the syntax and was taken as establishing the
    /// semantics, which it does not. A field counts as writable when a write
    /// changes what a read returns, and this one does not.
    pub fn select_mode(&mut self, index: u8) -> (r: Result<(), IoError>)
        ensures
            *final(self) == *old(self),
            r matches Err(e) && e.kind == ErrorKind::Unsupported && e.message@ == if old(
                self,
            ).capabilities.modes {
                "selecting a mode over this protocol is not understood; use the earcup button"@
            } else {
                no_modes_text()
            },
    {
        if !self.capabilities.modes {
            return Err(unsupported("this device has no modes"));
        }
        Err(unsupported("selecting a mode over this protocol is not understood; use the earcup button"))
    }

    /// The index of the mode currently active. Reading works.
    pub fn current_mode(&mut self) -> (r: Result<Option<u8>, IoError>)
        ensures
            final(self).identity == old(self).identity,
            final(self).capabilities == old(self).capabilities,
            !old(self).capabilities.modes ==> (r matches Err(e) && e.kind == ErrorKind::Unsupported
                && e.message@ == no_modes_text()) && final(self).sent_log() == old(self).sent_log(),
            old(self).capabilities.modes ==> read_once(*old(self), *final(self), 0x1f, 0x03, r is Ok),
            grew(old(self).session, final(self).session),
            old(self).capabilities.modes ==> (r matches Err(e) ==> broke_off(
                old(self).session,
                final(self).session,
                e,
            )),
            r matches Ok(x) ==> x == match last_unrefused(*final(self)) {
                Some(p) => if p.len() > 0 {
                    Some(p[0])
                } else {
                    None
                },
                None => None,
            },
    {
        if !self.capabilities.modes {
            return Err(unsupported("this device has no modes"));
        }
        match self.ask(0x1f, 0x03)? {
            Some(p) => {
                if p.len() == 0 {
                    return Ok(None);
                }
                Ok(Some(p[0]))
            },
            None => Ok(None),
        }
    }

    /// The stored modes, as `(index, name)`. Empty slots are skipped.
    pub fn modes(&mut self) -> (r: Result<Vec<(u8, String)>, IoError>)
        ensures
            final(self).identity == old(self).identity,
            final(self).capabilities == old(self).capabilities,
            !old(self).capabilities.modes ==> (r matches Err(e) && e.kind == ErrorKind::Unsupported
                && e.message@ == no_modes_text()) && final(self).sent_log() == old(self).sent_log(),
            r is Ok ==> final(self).sent_log() == old(self).sent_log().push(
                seq![0x1fu8, 0x01u8, 0x05u8, 0x00u8],
            ),
            r matches Ok(v) ==> decode_spec(final(self).session.replied()) matches Ok(rs)
                && slots_named(v@, rs.filter(|x: Record| is_stored(x))),
            old(self).capabilities.modes ==> exists|listed: Result<Vec<Message>, IoError>|
                #![trigger enumerated(old(self).session, final(self).session, 0x1f, listed)]
                enumerated(old(self).session, final(self).session, 0x1f, listed) && (listed is Ok
                    <==> r is Ok) && (listed matches Err(x) ==> r == Err::<Vec<(u8, String)>, IoError>(x)),
    {
        if !self.capabilities.modes {
            return Err(unsupported("this device has no modes"));
        }
        let msgs = self.session.enumerate(0x1f)?;
        let ghost rs = records(msgs@);
        let ghost pred = |x: Record| is_stored(x);
        let mut out: Vec<(u8, String)> = Vec::new();
        let mut i: usize = 0;
        while i < msgs.len()
            invariant
                rs == records(msgs@),
                i <= msgs@.len(),
                pred == (|x: Record| is_stored(x)),
                slots_named(out@, rs.subrange(0, i as int).filter(pred)),
            decreases msgs@.len() - i,
        {
            proof {
                assert(rs.subrange(0, i + 1) =~= rs.subrange(0, i as int).push(msgs@[i as int]@));
                rs.subrange(0, i as int).lemma_filter_push(msgs@[i as int]@, pred);
            }
            let m = &msgs[i];
            // Byte 5 says whether the slot holds a mode. Byte 46 is wind
            // block, which is 0 on any mode that does not use it — reading
            // that as occupancy silently drops real modes.
            if m.opcode == 0x06 && m.payload.len() >= 47 && m.payload[5] == 0x01 {
                let tail = vstd::slice::slice_subrange(m.payload.as_slice(), 6, m.payload.len());
                let n = until_zero_len(tail);
                let name = string_from_utf8_lossy(vstd::slice::slice_subrange(tail, 0, n));
                out.push((m.payload[0], name));
            }
            i = i + 1;
        }
        proof {
            assert(rs.subrange(0, msgs@.len() as int) =~= rs);
        }
        Ok(out)
    }
}

} // verus!
