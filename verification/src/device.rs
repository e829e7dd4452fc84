//! Identity, and what a given device can actually do.
//!
//! The protocol is shared across generations; the vocabulary is not. Noise
//! cancelling lives at `01 06` on a QuietComfort 35 and at `01 05` on the Ultra
//! family, which refuses the older opcode. Four of nine fields found on an Ultra
//! do not exist on a 2016 device at all.
//!
//! Every implementation of this protocol so far has answered that with a table
//! of device ids maintained by hand, and been wrong about every model its author
//! did not own. This module asks the device instead.

use std::collections::BTreeSet;

use vstd::prelude::*;

use crate::codec::{self, strip_zeros};
use crate::error::IoError;
use crate::framing::{self, encode_record, record_refusal, records, Message, Record, Refusal};
use crate::surface::{keys_ordered, lemma_keys_ordered};
use crate::text::utf8_lossy;
use crate::transport::{broke_off, grew, reply_bytes, Arrival, Session, Transport};

verus! {

/// Where a model keeps its noise-cancelling control.
#[derive(Debug, Clone, Copy, PartialEq, Eq, Structural)]
pub enum Anc {
    /// `01 06`, payload `<level> <positions>`. QuietComfort 35.
    Legacy,
    /// `01 05`, payload `<positions> <awareness> <unknown>`. Ultra family.
    ///
    /// The value counts **awareness**, not cancellation: `0` is maximum
    /// cancelling and `10` lets everything through.
    Modern,
    /// The Sport Earbuds have none, and say so.
    Absent,
}

#[derive(Debug, Clone, PartialEq, Eq)]
pub struct Capabilities {
    /// Functions that exist, whether or not they enumerate; ascending, each once.
    pub functions: BTreeSet<u8>,
    pub anc: Anc,
    pub equaliser: bool,
    pub immersive: bool,
    pub modes: bool,
}

#[derive(Debug, Clone, PartialEq, Eq)]
pub struct Identity {
    /// `0x400c`, `0x402D`, `0x4064`, `0x4066` so far. Equal to the product id
    /// in bluez's `Modalias`, so it can also be read without connecting.
    pub id: u16,
    pub index: u8,
    /// `00 05`. **Not always the firmware version**: a QuietComfort 35 returns
    /// `3.0.3`, which is its firmware, while an Ultra returns a build string
    /// like `1.6.7+g6ebabd2`, which is not. Present it as a version string and
    /// let the user decide what it means.
    pub version: Option<String>,
    pub serial: Option<String>,
    /// `00 0f`. Only the Ultra generation answers; older models refuse, so a
    /// name table is still needed for them.
    pub model: Option<String>,
}


/// The payload of the first record at `f o` that is not a refusal.
pub open spec fn value_in(rs: Seq<Record>, f: u8, o: u8) -> Option<Seq<u8>>
    decreases rs.len(),
{
    if rs.len() == 0 {
        None
    } else if rs[0].function == f && rs[0].opcode == o && record_refusal(rs[0]) is None {
        Some(rs[0].payload)
    } else {
        value_in(rs.drop_first(), f, o)
    }
}

/// `<f> <o> 01 00`: a read with no arguments.
pub open spec fn get_request(f: u8, o: u8) -> Seq<u8> {
    seq![f, o, 0x01, 0x00]
}

/// No record says the function is missing.
pub open spec fn none_absent(rs: Seq<Record>) -> bool {
    forall|i: int| 0 <= i < rs.len() ==> record_refusal(#[trigger] rs[i]) != Some(Refusal::FunctionAbsent)
}

/// What one read's receive carries for `f o`: nothing on a timeout, and
/// otherwise what the bytes that came back carry.
pub open spec fn arrival_value(a: Arrival, f: u8, o: u8) -> Option<Seq<u8>> {
    match a {
        Arrival::Failed(_) => None,
        _ => reply_value(reply_bytes(a), f, o),
    }
}

/// Whether a version read's receive says the function is there: what came
/// back parses whole, and no record of it calls the function absent.
pub open spec fn arrival_present(a: Arrival) -> bool {
    match a {
        Arrival::Failed(_) => false,
        _ => match framing::decode_spec(reply_bytes(a)) {
            Ok(rs) => none_absent(rs),
            Err(_) => false,
        },
    }
}

/// Text as characters.
pub open spec fn text_view(t: Option<String>) -> Option<Seq<char>> {
    match t {
        Some(s) => Some(s@),
        None => None,
    }
}

/// The text a value holds once its padding is removed.
pub open spec fn text_from(v: Option<Seq<u8>>) -> Option<Seq<char>> {
    match v {
        Some(p) => Some(utf8_lossy(strip_zeros(p))),
        None => None,
    }
}

/// The identity what came back to the four identity reads gives, in order:
/// the id from `00 03`, or zero where it held no three bytes, and the strings
/// from the other three.
pub open spec fn identity_heard(hs: Seq<Arrival>, id: Identity) -> bool {
    &&& match arrival_value(hs[0], 0x00, 0x03) {
        Some(p) => if p.len() >= 3 {
            id.id == (p[0] as u16 * 256 + p[1] as u16) as u16 && id.index == p[2]
        } else {
            id.id == 0 && id.index == 0
        },
        None => id.id == 0 && id.index == 0,
    }
    &&& text_view(id.version) == text_from(arrival_value(hs[1], 0x00, 0x05))
    &&& text_view(id.serial) == text_from(arrival_value(hs[2], 0x00, 0x07))
    &&& text_view(id.model) == text_from(arrival_value(hs[3], 0x00, 0x0f))
}

/// The functions whose version reads came back present, among reads of
/// functions `0`, `1`, … in order.
pub open spec fn present_among(hs: Seq<Arrival>) -> Seq<u8>
    decreases hs.len(),
{
    if hs.len() == 0 {
        Seq::empty()
    } else if arrival_present(hs.last()) {
        present_among(hs.drop_last()).push((hs.len() - 1) as u8)
    } else {
        present_among(hs.drop_last())
    }
}

/// Where noise cancelling lives, from what came back to reading `01 06` and,
/// unless it held a value, `01 05`.
pub open spec fn anc_heard(old_op: Arrival, new_op: Arrival) -> Anc {
    if arrival_value(old_op, 0x01, 0x06) is Some {
        Anc::Legacy
    } else if arrival_value(new_op, 0x01, 0x05) is Some {
        Anc::Modern
    } else {
        Anc::Absent
    }
}

/// The capabilities what came back to the capability probes gives, in the
/// order [`capability_requests`] sends them.
pub open spec fn capabilities_heard(hs: Seq<Arrival>, c: Capabilities) -> bool {
    let k = 0x40 + anc_requests(c.anc).len();
    &&& c.functions@ == present_among(hs.subrange(0, 0x40)).to_set()
    &&& c.anc == anc_heard(hs[0x40], hs[0x41])
    &&& c.equaliser == arrival_value(hs[k as int], 0x01, 0x07) is Some
    &&& c.immersive == arrival_value(hs[(k + 1) as int], 0x05, 0x0f) is Some
    &&& c.modes == c.functions@.contains(0x1f)
}

/// The reads that identify a device, in order.
pub open spec fn identity_requests() -> Seq<Seq<u8>> {
    seq![get_request(0x00, 0x03), get_request(0x00, 0x05), get_request(0x00, 0x07), get_request(0x00, 0x0f)]
}

/// A version read of every function below `n`, in order.
pub open spec fn function_probes(n: nat) -> Seq<Seq<u8>> {
    Seq::new(n, |i: int| get_request(i as u8, 0x00))
}

/// The reads that decide noise cancelling: the old opcode, then, unless it
/// answered, the new one.
pub open spec fn anc_requests(anc: Anc) -> Seq<Seq<u8>> {
    if anc is Legacy {
        seq![get_request(0x01, 0x06)]
    } else {
        seq![get_request(0x01, 0x06), get_request(0x01, 0x05)]
    }
}

/// The reads that discover what a device can do, in order.
pub open spec fn capability_requests(anc: Anc) -> Seq<Seq<u8>> {
    function_probes(0x40) + anc_requests(anc) + seq![get_request(0x01, 0x07), get_request(0x05, 0x0f)]
}

/// The value at `f o` among decoded records.
pub fn first_value(msgs: &Vec<Message>, f: u8, o: u8) -> (r: Option<Vec<u8>>)
    ensures
        match value_in(records(msgs@), f, o) {
            Some(p) => r matches Some(v) && v@ == p,
            None => r is None,
        },
{
    let ghost rs = records(msgs@);
    let mut i: usize = 0;
    proof {
        assert(rs.subrange(0, rs.len() as int) =~= rs);
    }
    while i < msgs.len()
        invariant
            rs == records(msgs@),
            i <= msgs@.len(),
            value_in(rs, f, o) == value_in(rs.subrange(i as int, rs.len() as int), f, o),
        decreases msgs@.len() - i,
    {
        proof {
            let s = rs.subrange(i as int, rs.len() as int);
            assert(s.drop_first() =~= rs.subrange(i + 1, rs.len() as int));
            assert(s[0] == msgs@[i as int]@);
        }
        let m = &msgs[i];
        if m.function == f && m.opcode == o && m.refusal().is_none() {
            return Some(m.payload.clone());
        }
        i = i + 1;
    }
    None
}

/// Whether any record says its function is missing.
pub fn says_absent(msgs: &Vec<Message>) -> (b: bool)
    ensures
        b == !none_absent(records(msgs@)),
{
    let mut i: usize = 0;
    while i < msgs.len()
        invariant
            i <= msgs@.len(),
            none_absent(records(msgs@).subrange(0, i as int)),
        decreases msgs@.len() - i,
    {
        match msgs[i].refusal() {
            Some(Refusal::FunctionAbsent) => {
                proof {
                    assert(records(msgs@)[i as int] == msgs@[i as int]@);
                }
                return true;
            },
            _ => {},
        }
        proof {
            assert(records(msgs@).subrange(0, i + 1) =~= records(msgs@).subrange(0, i as int).push(
                msgs@[i as int]@,
            ));
        }
        i = i + 1;
    }
    proof {
        assert(records(msgs@).subrange(0, msgs@.len() as int) =~= records(msgs@));
    }
    false
}

/// The value a reply carries for `f o`: the payload of its first record there
/// that is not a refusal, if the reply parses whole.
pub open spec fn reply_value(reply: Seq<u8>, f: u8, o: u8) -> Option<Seq<u8>> {
    match framing::decode_spec(reply) {
        Ok(rs) => value_in(rs, f, o),
        Err(_) => None,
    }
}

/// Bytes, as a specification sees them, where there are any.
pub open spec fn bytes_of(v: Option<Vec<u8>>) -> Option<Seq<u8>> {
    match v {
        Some(p) => Some(p@),
        None => None,
    }
}

/// The payload of a successful read, or `None` for a refusal or silence:
/// exactly what the bytes the device sent back carry for `f o`.
pub fn read_value<T: Transport>(session: &mut Session<T>, f: u8, o: u8) -> (r: Result<Option<Vec<u8>>, IoError>)
    ensures
        r is Ok ==> final(session).sent_log() == old(session).sent_log().push(get_request(f, o)),
        r is Ok ==> final(session).replies() == old(session).replies().push(final(session).replied()),
        r matches Ok(v) ==> bytes_of(v) == reply_value(final(session).replied(), f, o),
        r matches Ok(v) ==> final(session).heard() == old(session).heard().push(
            final(session).heard().last(),
        ) && bytes_of(v) == arrival_value(final(session).heard().last(), f, o),
        grew(*old(session), *final(session)),
        r matches Err(e) ==> broke_off(*old(session), *final(session), e),
{
    let m = Message::get(f, o);
    proof {
        assert(encode_record(m@) =~= get_request(f, o));
    }
    match session.request(&m) {
        Ok(None) => Ok(None),
        Ok(Some(msgs)) => {
            let v = first_value(&msgs, f, o);
            proof {
                if v is Some {
                    assert(value_in(records(msgs@), f, o) == Some(v->Some_0@));
                }
            }
            Ok(v)
        },
        Err(e) => Err(e),
    }
}

/// A text record: the value, stripped of its NUL padding.
fn read_text<T: Transport>(session: &mut Session<T>, f: u8, o: u8) -> (r: Result<Option<String>, IoError>)
    ensures
        r is Ok ==> final(session).sent_log() == old(session).sent_log().push(get_request(f, o)),
        r matches Ok(t) ==> final(session).heard() == old(session).heard().push(
            final(session).heard().last(),
        ) && text_view(t) == text_from(arrival_value(final(session).heard().last(), f, o)),
        grew(*old(session), *final(session)),
        r matches Err(e) ==> broke_off(*old(session), *final(session), e),
{
    match read_value(session, f, o) {
        Ok(Some(p)) => match codec::ascii(p.as_slice()) {
            Some(s) => Ok(Some(s)),
            None => Ok(None),
        },
        Ok(None) => Ok(None),
        Err(e) => Err(e),
    }
}

fn read_identity<T: Transport>(session: &mut Session<T>) -> (r: Result<Identity, IoError>)
    ensures
        r matches Ok(id) ==> {
            let n = old(session).heard().len();
            &&& final(session).sent_log() == old(session).sent_log() + identity_requests()
            &&& final(session).heard().len() == n + 4
            &&& final(session).heard().subrange(0, n as int) == old(session).heard()
            &&& identity_heard(final(session).heard().subrange(n as int, (n + 4) as int), id)
        },
        grew(*old(session), *final(session)),
        r matches Err(e) ==> broke_off(*old(session), *final(session), e),
{
    let ghost start = session.sent_log();
    let ghost s0 = *session;
    let (id, index) = match read_value(session, 0x00, 0x03) {
        Ok(Some(p)) => {
            if p.len() >= 3 {
                (p[0] as u16 * 256 + p[1] as u16, p[2])
            } else {
                (0u16, 0u8)
            }
        },
        Ok(None) => (0u16, 0u8),
        Err(e) => {
            return Err(e);
        },
    };
    let ghost s1 = *session;
    let version = read_text(session, 0x00, 0x05)?;
    let ghost s2 = *session;
    let serial = read_text(session, 0x00, 0x07)?;
    let ghost s3 = *session;
    let model = read_text(session, 0x00, 0x0f)?;
    proof {
        assert(session.sent_log() =~= start + identity_requests());
        let n = s0.heard().len();
        let hs = session.heard().subrange(n as int, (n + 4) as int);
        assert(hs[0] == s1.heard().last());
        assert(hs[1] == s2.heard().last());
        assert(hs[2] == s3.heard().last());
        assert(hs[3] == session.heard().last());
        assert(session.heard().subrange(0, n as int) =~= s0.heard());
    }
    Ok(Identity { id, index, version, serial, model })
}

/// Whether the function answers its version without calling itself absent.
///
/// Silence is not absence. It is its own case, seen on a QuietComfort 35 for
/// a contiguous block of opcodes, and treating it as "missing" throws away the
/// only signal that says whether to keep looking.
fn function_exists<T: Transport>(session: &mut Session<T>, f: u8) -> (r: Result<bool, IoError>)
    ensures
        r is Ok ==> final(session).sent_log() == old(session).sent_log().push(get_request(f, 0x00)),
        r matches Ok(b) ==> final(session).heard() == old(session).heard().push(
            final(session).heard().last(),
        ) && b == arrival_present(final(session).heard().last()),
        grew(*old(session), *final(session)),
        r matches Err(e) ==> broke_off(*old(session), *final(session), e),
{
    let m = Message::get(f, 0x00);
    proof {
        assert(encode_record(m@) =~= get_request(f, 0x00));
    }
    match session.request(&m) {
        Ok(None) => Ok(false),
        Ok(Some(msgs)) => {
            let absent = says_absent(&msgs);
            Ok(!absent)
        },
        Err(e) => Err(e),
    }
}

/// Whether `f o` holds a value.
fn answers<T: Transport>(session: &mut Session<T>, f: u8, o: u8) -> (r: Result<bool, IoError>)
    ensures
        r is Ok ==> final(session).sent_log() == old(session).sent_log().push(get_request(f, o)),
        r matches Ok(b) ==> b == reply_value(final(session).replied(), f, o) is Some,
        r matches Ok(b) ==> final(session).heard() == old(session).heard().push(
            final(session).heard().last(),
        ) && b == arrival_value(final(session).heard().last(), f, o) is Some,
        grew(*old(session), *final(session)),
        r matches Err(e) ==> broke_off(*old(session), *final(session), e),
{
    match read_value(session, f, o) {
        Ok(Some(_)) => Ok(true),
        Ok(None) => Ok(false),
        Err(e) => Err(e),
    }
}

/// Ask which functions exist, then which of the interesting opcodes answer.
///
/// Opcode `00` is every function's version and is never listed by an
/// enumeration, but it always answers — which makes it the cheapest probe for
/// whether a function is there at all.
fn probe_capabilities<T: Transport>(session: &mut Session<T>) -> (r: Result<Capabilities, IoError>)
    ensures
        r matches Ok(c) ==> {
            let n = old(session).heard().len();
            let m = capability_requests(c.anc).len();
            &&& final(session).sent_log() == old(session).sent_log() + capability_requests(c.anc)
            &&& final(session).heard().len() == n + m
            &&& final(session).heard().subrange(0, n as int) == old(session).heard()
            &&& capabilities_heard(final(session).heard().subrange(n as int, (n + m) as int), c)
        },
        grew(*old(session), *final(session)),
        r matches Err(e) ==> broke_off(*old(session), *final(session), e),
{
    let ghost start = session.sent_log();
    let ghost s0 = *session;
    let ghost n = session.heard().len();
    proof {
        lemma_keys_ordered();
    }
    let mut functions: BTreeSet<u8> = BTreeSet::new();
    let mut f: u8 = 0;
    proof {
        assert(session.heard().subrange(n as int, n as int) =~= Seq::<Arrival>::empty());
        assert(session.heard().subrange(0, n as int) =~= s0.heard());
    }
    while f < 0x40
        invariant
            f <= 0x40,
            session.sent_log() == start + function_probes(f as nat),
            start == s0.sent_log(),
            s0 == *old(session),
            n == s0.heard().len(),
            grew(s0, *session),
            session.heard().len() == n + f,
            session.heard().subrange(0, n as int) == s0.heard(),
            functions@ == present_among(session.heard().subrange(n as int, (n + f) as int)).to_set(),
            keys_ordered(),
        decreases 0x40 - f,
    {
        let ghost before = *session;
        let found = function_exists(session, f)?;
        proof {
            assert(function_probes((f + 1) as nat) =~= function_probes(f as nat).push(
                get_request(f, 0x00),
            ));
            let seg = session.heard().subrange(n as int, (n + f + 1) as int);
            assert(seg.drop_last() =~= before.heard().subrange(n as int, (n + f) as int));
            assert(seg.last() == session.heard().last());
            assert(session.heard().subrange(0, n as int) =~= before.heard().subrange(0, n as int));
        }
        if found {
            functions.insert(f);
        }
        proof {
            let seg = session.heard().subrange(n as int, (n + f + 1) as int);
            let prev = present_among(before.heard().subrange(n as int, (n + f) as int));
            if found {
                assert(prev.push(f).to_set() =~= prev.to_set().insert(f)) by {
                    assert forall|x: u8| prev.push(f).contains(x) <==> prev.to_set().insert(f).contains(x) by {
                        if prev.push(f).contains(x) {
                            let k = choose|k: int| 0 <= k < prev.push(f).len() && prev.push(f)[k] == x;
                            if k < prev.len() {
                                assert(prev[k] == x);
                            }
                        }
                        if prev.contains(x) {
                            let k = choose|k: int| 0 <= k < prev.len() && prev[k] == x;
                            assert(prev.push(f)[k] == x);
                        }
                        if x == f {
                            assert(prev.push(f)[prev.len() as int] == x);
                        }
                    }
                }
            }
        }
        f = f + 1;
    }
    let ghost probed = session.sent_log();
    let ghost s64 = *session;
    let anc = if answers(session, 0x01, 0x06)? {
        Anc::Legacy
    } else {
        let ghost s65 = *session;
        let modern = answers(session, 0x01, 0x05)?;
        proof {
            assert(session.heard()[(n + 0x41) as int] == session.heard().last());
            assert(session.heard()[(n + 0x40) as int] == s65.heard().last());
        }
        if modern {
            Anc::Modern
        } else {
            Anc::Absent
        }
    };
    assert(session.sent_log() == probed + anc_requests(anc));
    let ghost sa = *session;
    let equaliser = answers(session, 0x01, 0x07)?;
    let ghost se = *session;
    let immersive = answers(session, 0x05, 0x0f)?;
    let modes = functions.contains(&0x1f);
    let c = Capabilities { functions, anc, equaliser, immersive, modes };
    proof {
        assert(session.sent_log() =~= start + capability_requests(anc));
        let m = capability_requests(anc).len();
        let k = 0x40 + anc_requests(anc).len();
        let hs = session.heard().subrange(n as int, (n + m) as int);
        assert(hs.subrange(0, 0x40) =~= s64.heard().subrange(n as int, (n + 0x40) as int));
        assert(hs[0x40] == session.heard()[(n + 0x40) as int]);
        assert(hs[k as int] == se.heard().last());
        assert(hs[(k + 1) as int] == session.heard().last());
        assert(session.heard().subrange(0, n as int) =~= s0.heard());
        assert(capabilities_heard(hs, c));
    }
    Ok(c)
}

pub struct Device<T: Transport> {
    /// The conversation underneath.
    pub session: Session<T>,
    pub identity: Identity,
    pub capabilities: Capabilities,
}

/// What the device's last reply carries for `f o`.
pub open spec fn last_value<T: Transport>(d: Device<T>, f: u8, o: u8) -> Option<Seq<u8>> {
    reply_value(d.session.replied(), f, o)
}

impl<T: Transport> Device<T> {
    /// What has gone out to the device.
    pub open spec fn sent_log(&self) -> Seq<Seq<u8>> {
        self.session.sent_log()
    }

    /// Interrogate a device over an already-open session.
    pub fn open(session: Session<T>) -> (r: Result<Self, IoError>)
        ensures
            r matches Ok(d) ==> {
                let n = session.heard().len();
                let m = capability_requests(d.capabilities.anc).len();
                &&& d.sent_log() == session.sent_log() + identity_requests() + capability_requests(
                    d.capabilities.anc,
                )
                &&& d.session.heard().len() == n + 4 + m
                &&& d.session.heard().subrange(0, n as int) == session.heard()
                &&& identity_heard(d.session.heard().subrange(n as int, (n + 4) as int), d.identity)
                &&& capabilities_heard(d.session.heard().subrange((n + 4) as int, (n + 4 + m) as int), d.capabilities)
            },
    {
        let mut session = session;
        let ghost s0 = session;
        let identity = read_identity(&mut session)?;
        let ghost s1 = session;
        let capabilities = probe_capabilities(&mut session)?;
        proof {
            let n = s0.heard().len();
            let m = capability_requests(capabilities.anc).len();
            assert(session.heard().subrange(n as int, (n + 4) as int) =~= s1.heard().subrange(n as int, (n + 4) as int));
            assert(session.heard().subrange((n + 4) as int, (n + 4 + m) as int) =~= session.heard().subrange(
                s1.heard().len() as int,
                (s1.heard().len() + m) as int,
            ));
            assert(session.heard().subrange(0, n as int) =~= s1.heard().subrange(0, n as int));
        }
        Ok(Device { session, identity, capabilities })
    }

    pub fn session(&mut self) -> (s: &mut Session<T>)
        ensures
            s.sent_log() == old(self).sent_log(),
            final(self).sent_log() == final(s).sent_log(),
            final(self).identity == old(self).identity,
            final(self).capabilities == old(self).capabilities,
    {
        &mut self.session
    }
}

} // verus!
