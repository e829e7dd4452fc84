//! A device, and names for its verbs.
//!
//! [`Device::get`] and [`Device::set`] are the single code path: the surface
//! decides whether an address is worth asking about, the catalog whether a
//! write is understood well enough to send. The verbs are short, one each over
//! those two, so a caller writes `dev.battery()` and the crate keeps one path.
//!
//! The few verbs with a body are the ones where the protocol imposes something
//! a caller should not have to know: a scale to clamp to, a field that travels
//! with another, an opcode that moved between generations.

use vstd::prelude::*;

use crate::catalog::{self, evidence_why, writable, Field};
use crate::codec::{
    self, addresses_spec, auto_off_minutes, auto_off_spec, bands_spec, bit_set, byte_spec,
    cells_spec, flag_spec, graded_spec, immersive_spec, language_code, level_wire, mode_of,
    name_spec, named_spec, prompts_of, sat_sub, slot_occupied, strip_zeros, volume_spec, AutoOff,
    Band, Cell, Graded, Immersive, Language, Level, Mode, Named, Prompts, Volume,
};
use crate::device::Identity;
use crate::error::{Error, Result};
use crate::session::{
    answer, enumerate_request, read_reports, read_request, unsent, went_out, write_request,
    written, Reading, Session, Settled,
};
use crate::surface::{answering_from, listed_from, state_of, Known, Surface};
use crate::text::utf8_lossy;
use crate::transport::{Address, Recording, Transport};
use crate::wire::{decode_spec, frames, Addr, Frame, Message, Operator, Refusal};

verus! {

/// A refusal that says the address is not there: the function, or the opcode.
pub open spec fn structural(why: Refusal) -> bool {
    why is FunctionAbsent || why is OpcodeAbsent
}

/// What a write is refused with when the catalog does not allow sending it.
pub open spec fn write_refusal(f: Field) -> &'static str {
    if f.meta.write is Confirmed {
        "no encoder for this write"
    } else {
        evidence_why(f.meta.write)
    }
}

/// What the surface remembers after a read of `addr` came back as `r`: a value
/// proves the address live, a refusal that names it missing proves it absent,
/// and anything else proves nothing.
pub open spec fn settled<V>(probed: Map<Addr, bool>, addr: Addr, r: Result<V>) -> Map<Addr, bool> {
    match r {
        Ok(_) => probed.insert(addr, true),
        Err(Error::Malformed { .. }) => probed.insert(addr, true),
        Err(Error::Refused { why, .. }) => if structural(why) {
            probed.insert(addr, false)
        } else {
            probed
        },
        _ => probed,
    }
}

/// A setting that is simply on or off.
#[derive(Debug, Clone, Copy, PartialEq, Eq, Structural)]
pub enum Toggle {
    Multipoint,
    HeadDetection,
    AutoAnswer,
    /// Lives with the modes rather than with the other toggles, which is where
    /// it belongs: it is a property of the mode system.
    RememberMode,
}

/// The record a toggle lives in.
pub open spec fn toggle_field(t: Toggle) -> Field {
    match t {
        Toggle::Multipoint => catalog::multipoint(),
        Toggle::HeadDetection => catalog::head_detection(),
        Toggle::AutoAnswer => catalog::auto_answer(),
        Toggle::RememberMode => catalog::remember_mode(),
    }
}

/// The word a person types for a toggle.
pub open spec fn toggle_name(t: Toggle) -> Seq<char> {
    match t {
        Toggle::Multipoint => "multipoint"@,
        Toggle::HeadDetection => "head-detection"@,
        Toggle::AutoAnswer => "auto-answer"@,
        Toggle::RememberMode => "remember-mode"@,
    }
}

impl Toggle {
    pub fn field(self) -> (f: Field)
        ensures
            f == toggle_field(self),
    {
        match self {
            Toggle::Multipoint => catalog::multipoint(),
            Toggle::HeadDetection => catalog::head_detection(),
            Toggle::AutoAnswer => catalog::auto_answer(),
            Toggle::RememberMode => catalog::remember_mode(),
        }
    }

    /// Every toggle, in the order they are offered.
    pub fn all() -> (v: [Toggle; 4])
        ensures
            v@ == seq![Toggle::Multipoint, Toggle::HeadDetection, Toggle::AutoAnswer, Toggle::RememberMode],
    {
        let v = [Toggle::Multipoint, Toggle::HeadDetection, Toggle::AutoAnswer, Toggle::RememberMode];
        proof {
            assert(v@ =~= seq![Toggle::Multipoint, Toggle::HeadDetection, Toggle::AutoAnswer, Toggle::RememberMode]);
        }
        v
    }

    pub fn name(self) -> (n: &'static str)
        ensures
            n@ == toggle_name(self),
    {
        match self {
            Toggle::Multipoint => "multipoint",
            Toggle::HeadDetection => "head-detection",
            Toggle::AutoAnswer => "auto-answer",
            Toggle::RememberMode => "remember-mode",
        }
    }
}

/// The noise-cancelling control, whichever kind this model has.
///
/// The two generations do not share the field, so neither does this type. A
/// QuietComfort 35 offers three named levels and a mask saying which; the Ultra
/// family offers a scale that counts awareness rather than cancellation.
#[derive(Debug, Clone, Copy, PartialEq, Eq, Structural)]
pub enum Anc {
    Named(Named),
    Graded(Graded),
}

/// What a model has, from its surface rather than from a table of device ids.
#[derive(Debug, Clone, Copy, PartialEq, Eq, Structural)]
pub struct Supports {
    pub anc: Option<AncKind>,
    pub equaliser: bool,
    pub immersive: bool,
    pub modes: bool,
}

#[derive(Debug, Clone, Copy, PartialEq, Eq, Structural)]
pub enum AncKind {
    Named,
    Graded,
}

pub open spec fn anc_kind_text(k: AncKind) -> Seq<char> {
    match k {
        AncKind::Named => "named"@,
        AncKind::Graded => "graded"@,
    }
}

impl AncKind {
    pub fn as_str(self) -> (s: &'static str)
        ensures
            s@ == anc_kind_text(self),
    {
        match self {
            AncKind::Named => "named",
            AncKind::Graded => "graded",
        }
    }
}

/// What the surface says a model supports.
pub open spec fn supports_of<T: Transport>(d: Device<T>) -> Supports {
    Supports {
        anc: if d.known(catalog::anc_named().meta.addr) == Known::Live {
            Some(AncKind::Named)
        } else if d.known(catalog::anc_graded().meta.addr) == Known::Live {
            Some(AncKind::Graded)
        } else {
            None
        },
        equaliser: d.known(catalog::equaliser().meta.addr) == Known::Live,
        immersive: d.known(catalog::immersive().meta.addr) == Known::Live,
        modes: d.known(catalog::mode_slot().meta.addr) == Known::Live || d.known(
            catalog::current_mode().meta.addr,
        ) == Known::Live,
    }
}

/// A device: a session, who it says it is, and what it says it has.
pub struct Device<T: Transport> {
    /// The conversation underneath; the verbs are the way to use it.
    pub session: Session<T>,
    pub identity: Identity,
    pub surface: Surface,
}

/// One read of `addr` asked of the device, as its answer `r` leaves it: the
/// request went out unless the link failed, and `r` is what the bytes the
/// device sent say about `addr` — a refusal is that refusal, a payload that
/// does not decode is reported with those bytes, and silence is nothing there.
pub open spec fn asked<T: Transport, V>(
    before: Device<T>,
    after: Device<T>,
    addr: Addr,
    r: Result<V>,
) -> bool {
    &&& {
        ||| r matches Err(Error::Io(e)) && unsent(before.session, after.session, e)
        ||| went_out(before.session, after.session, read_request(addr), addr) && (
        crate::session::settled(before.session, after.session, addr) matches Reading::Ended(s)
            && read_reports(r, s, addr))
    }
    &&& r is Ok ==> (crate::session::settled(before.session, after.session, addr) matches Reading::Ended(
        Settled::Answer(q),
    ) && last_answer(after, addr) == Some(Ok::<Seq<u8>, Refusal>(q)))
    &&& !(r matches Err(Error::Io(_))) ==> after.sent_log() == before.sent_log().push(
        read_request(addr),
    )
    &&& r matches Err(Error::Refused { addr: a, .. }) ==> a == addr
    &&& r matches Err(Error::Silent(a)) ==> a == addr
    &&& r matches Err(Error::Malformed { addr: a, .. }) ==> a == addr
    &&& !(r matches Err(Error::Absent(_)) || r matches Err(Error::NotUnderstood { .. }))
    &&& r matches Err(Error::Malformed { got, .. }) ==> last_answer(after, addr) == Some(
        Ok::<Seq<u8>, Refusal>(got@),
    )
    &&& r matches Err(Error::Refused { why, .. }) ==> last_answer(after, addr) == Some(
        Err::<Seq<u8>, Refusal>(why),
    )
    &&& r matches Err(Error::Silent(_)) ==> last_answer(after, addr) is None
    &&& after.session.replies() == before.session.replies().push(after.session.replied()) || (r matches Err(
        Error::Io(_),
    ) && after.session.replies() == before.session.replies())
}

/// What the bytes the device sent in answer to the last exchange say about
/// `addr`: a payload, a refusal, or nothing.
pub open spec fn last_answer<T: Transport>(d: Device<T>, addr: Addr) -> Option<
    core::result::Result<Seq<u8>, Refusal>,
> {
    answer(d.session.replied(), addr)
}


/// The read of `addr` a verb starts with went out from `before` and settled,
/// in `mid`, as `s`.
pub open spec fn read_went<T: Transport>(before: Session<T>, mid: Session<T>, addr: Addr, s: Settled) -> bool {
    &&& went_out(before, mid, read_request(addr), addr)
    &&& crate::session::settled(before, mid, addr) == Reading::Ended(s)
}

/// A verb stopped at its read, which settled as `s` in `mid`: nothing more went
/// out, and `r` reports the read — a payload is there only because it did not
/// decode, and is reported as malformed.
pub open spec fn stopped_at<T: Transport, V>(
    mid: Session<T>,
    after: Session<T>,
    s: Settled,
    addr: Addr,
    r: Result<V>,
) -> bool {
    &&& after == mid
    &&& match s {
        Settled::Answer(p) => r matches Err(Error::Malformed { addr: a, got }) && a == addr && got@
            == p,
        _ => read_reports(r, s, addr),
    }
}

/// A verb that reads `addr` and then acts on what it read: an address known to
/// be absent is answered without asking; otherwise the read goes out, and a
/// payload that `decodes` is acted on as `then` says — with the session the read
/// left — while any other outcome of the read is what the verb reports, and
/// nothing more is sent.
pub open spec fn read_then<T: Transport, V>(
    before: Device<T>,
    after: Device<T>,
    addr: Addr,
    r: Result<V>,
    decodes: spec_fn(Seq<u8>) -> bool,
    then: spec_fn(Seq<u8>, Session<T>) -> bool,
) -> bool {
    &&& after.wf()
    &&& after.identity == before.identity
    &&& before.known(addr) == Known::Absent ==> (r matches Err(Error::Absent(a)) && a == addr
        && after.session == before.session)
    &&& r matches Err(Error::Absent(_)) ==> before.known(addr) == Known::Absent
    &&& before.known(addr) != Known::Absent ==> {
        ||| r matches Err(Error::Io(e)) && unsent(before.session, after.session, e)
        ||| exists|mid: Session<T>, s: Settled|
            #![trigger read_went(before.session, mid, addr, s)]
            {
                &&& read_went(before.session, mid, addr, s)
                &&& match s {
                    Settled::Answer(p) => if decodes(p) {
                        then(p, mid)
                    } else {
                        stopped_at(mid, after.session, s, addr, r)
                    },
                    _ => stopped_at(mid, after.session, s, addr, r),
                }
            }
    }
}

/// What [`Device::set_level`] does.
pub open spec fn level_set<T: Transport>(before: Device<T>, after: Device<T>, level: Level, r: Result<()>) -> bool {
    let addr = catalog::anc_named().meta.addr;
    read_then(
        before,
        after,
        addr,
        r,
        |p: Seq<u8>| named_spec(p) is Some,
        |p: Seq<u8>, mid: Session<T>|
            if bit_set(named_spec(p)->Some_0.accepted, level_wire(level)) {
                written(mid, after.session, write_request(addr, seq![level_wire(level)]), addr, r)
            } else {
                r == Err::<(), Error>(Error::NotUnderstood { addr, why: level_not_offered() })
                    && after.session == mid
            },
    )
}

/// What [`Device::set_band`] does.
pub open spec fn band_set<T: Transport>(before: Device<T>, after: Device<T>, index: u8, value: i8, r: Result<()>) -> bool {
    let addr = catalog::equaliser().meta.addr;
    read_then(
        before,
        after,
        addr,
        r,
        |p: Seq<u8>| true,
        |p: Seq<u8>, mid: Session<T>|
            match first_band(bands_spec(p), index) {
                Some(b) => written(
                    mid,
                    after.session,
                    write_request(addr, seq![clamp_spec(value, b.min, b.max) as u8, index]),
                    addr,
                    r,
                ),
                None => r == Err::<(), Error>(Error::NotUnderstood { addr, why: no_such_band() })
                    && after.session == mid,
            },
    )
}

/// What [`Device::set_volume`] does.
pub open spec fn volume_set<T: Transport>(before: Device<T>, after: Device<T>, level: u8, r: Result<()>) -> bool {
    let addr = catalog::volume().meta.addr;
    read_then(
        before,
        after,
        addr,
        r,
        |p: Seq<u8>| volume_spec(p) is Some,
        |p: Seq<u8>, mid: Session<T>|
            {
                let v = volume_spec(p)->Some_0;
                let top = sat_sub(v.steps as int, 1);
                written(
                    mid,
                    after.session,
                    write_request(addr, seq![if level <= top { level } else { top as u8 }]),
                    addr,
                    r,
                )
            },
    )
}

/// What [`Device::set_language`] does.
pub open spec fn language_set<T: Transport>(before: Device<T>, after: Device<T>, language: Language, r: Result<()>) -> bool {
    let addr = catalog::prompts().meta.addr;
    read_then(
        before,
        after,
        addr,
        r,
        |p: Seq<u8>| p.len() > 0,
        |p: Seq<u8>, mid: Session<T>|
            match codec::announcement_at_spec(p.len()) {
                Some(i) => written(
                    mid,
                    after.session,
                    write_request(
                        addr,
                        seq![0x20 | language_code(language), if p[i as int] != 0 { 1u8 } else { 0u8 }],
                    ),
                    addr,
                    r,
                ),
                None => r == Err::<(), Error>(Error::NotUnderstood { addr, why: unmapped_prompts() })
                    && after.session == mid,
            },
    )
}

/// What [`Device::set_auto_off`] does.
pub open spec fn auto_off_set<T: Transport>(before: Device<T>, after: Device<T>, minutes: AutoOff, r: Result<()>) -> bool {
    let addr = catalog::auto_off().meta.addr;
    read_then(
        before,
        after,
        addr,
        r,
        |p: Seq<u8>| auto_off_spec(p) is Some,
        |p: Seq<u8>, mid: Session<T>|
            written(mid, after.session, write_request(addr, seq![auto_off_minutes(minutes)]), addr, r),
    )
}

/// What reading the named level gives: the read of `01 06`, with a value
/// that decodes as the named level and one that does not reported malformed.
pub open spec fn named_read<T: Transport>(before: Device<T>, after: Device<T>, r: Result<Anc>) -> bool {
    &&& fetched(before, after, catalog::anc_named().meta.addr, r)
    &&& r is Ok ==> r->Ok_0 is Named
    &&& r matches Err(Error::Malformed { got, .. }) ==> named_spec(got@) is None
}

/// What reading the graded scale gives, likewise for `01 05`.
pub open spec fn graded_read<T: Transport>(before: Device<T>, after: Device<T>, r: Result<Anc>) -> bool {
    &&& fetched(before, after, catalog::anc_graded().meta.addr, r)
    &&& r is Ok ==> r->Ok_0 is Graded
    &&& r matches Err(Error::Malformed { got, .. }) ==> graded_spec(got@) is None
}

/// What [`Device::noise_cancelling`] does: the opcode the surface names
/// live is read; where it names neither, the named level is read and, if that
/// read fails, the graded scale after it.
pub open spec fn anc_read<T: Transport>(before: Device<T>, after: Device<T>, r: Result<Anc>) -> bool {
    let named = catalog::anc_named().meta.addr;
    let graded = catalog::anc_graded().meta.addr;
    &&& after.wf()
    &&& after.identity == before.identity
    &&& r matches Ok(Anc::Named(v)) ==> last_answer(after, named) matches Some(Ok(p)) && named_spec(p)
        == Some(v)
    &&& r matches Ok(Anc::Graded(v)) ==> last_answer(after, graded) matches Some(Ok(p)) && graded_spec(p)
        == Some(v)
    &&& before.known(named) == Known::Live ==> named_read(before, after, r)
    &&& before.known(named) != Known::Live && before.known(graded) == Known::Live ==> graded_read(
        before,
        after,
        r,
    )
    &&& before.known(named) != Known::Live && before.known(graded) != Known::Live ==> {
        ||| named_read(before, after, r) && r is Ok
        ||| exists|mid: Device<T>, e: Error|
            #![trigger fetched(before, mid, named, Err::<Named, Error>(e))]
            {
                &&& named_read(before, mid, Err::<Anc, Error>(e))
                &&& fetched(before, mid, named, Err::<Named, Error>(e))
                &&& graded_read(mid, after, r)
            }
    }
    &&& before.known(named) == Known::Absent && before.known(graded) == Known::Absent ==> (r matches Err(
        Error::Absent(a),
    ) && a == graded && after.sent_log() == before.sent_log())
}

/// What [`Device::modes`] does: nothing is asked where the surface shows no
/// mode record; otherwise the slots are enumerated, and the verb succeeds
/// exactly when the enumeration does.
pub open spec fn modes_read<T: Transport, V>(before: Device<T>, after: Device<T>, r: Result<V>) -> bool {
    let addr = catalog::mode_slot().meta.addr;
    let current = catalog::current_mode().meta.addr;
    &&& after.wf()
    &&& after.identity == before.identity
    &&& after.surface == before.surface
    &&& before.known(addr) != Known::Live && before.known(current) != Known::Live ==> (r matches Err(
        Error::Absent(a),
    ) && a == addr && after.session == before.session)
    &&& (before.known(addr) == Known::Live || before.known(current) == Known::Live) ==> exists|
        listed: Result<Vec<Message>>,
    |
        #![trigger crate::session::enumerated(before.session, after.session, addr.function, listed)]
        crate::session::enumerated(before.session, after.session, addr.function, listed) && outcome(
            listed,
        ) == outcome(r)
}

/// What [`Device::scan`] does: every function in `first..=last` is asked its
/// version, in order, and the answering ones are kept; an error of the link, or
/// a reply that does not parse, ends it.
pub open spec fn scanned<T: Transport>(
    before: Device<T>,
    after: Device<T>,
    first: u8,
    last: u8,
    r: Result<Vec<u8>>,
) -> bool {
    &&& after.wf()
    &&& after.identity == before.identity
    &&& after.surface == before.surface
    &&& r matches Ok(v) ==> {
        let count: nat = if first <= last {
            (last - first + 1) as nat
        } else {
            0
        };
        &&& after.sent_log() == before.sent_log() + version_probes(first as int, count)
        &&& after.session.replies().len() == before.session.replies().len() + count
        &&& after.session.replies().subrange(0, before.session.replies().len() as int)
            == before.session.replies()
        &&& v@ == answering_among(first as int, replies_since(before, after))
    }
    &&& crate::session::grew(before.session, after.session)
    &&& r matches Err(e) ==> crate::session::broke_off(before.session, after.session, e)
}

/// A verb whose read failed, or did not decode, reports that and does
/// nothing more: what [`read_then`] says of it, whatever it would have done
/// with a payload that decodes.
proof fn lemma_read_stopped<T: Transport, V, W>(
    before: Device<T>,
    after: Device<T>,
    addr: Addr,
    r0: Result<V>,
    r: Result<W>,
)
    requires
        fetched(before, after, addr, r0),
        r0 is Err,
        r == Err::<W, Error>(r0->Err_0),
    ensures
        forall|decodes: spec_fn(Seq<u8>) -> bool, then: spec_fn(Seq<u8>, Session<T>) -> bool|
            (r0 matches Err(Error::Malformed { got, .. }) ==> !decodes(got@)) ==> #[trigger] read_then(
                before,
                after,
                addr,
                r,
                decodes,
                then,
            ),
{
    assert forall|decodes: spec_fn(Seq<u8>) -> bool, then: spec_fn(Seq<u8>, Session<T>) -> bool|
        (r0 matches Err(Error::Malformed { got, .. }) ==> !decodes(got@)) implies #[trigger] read_then(
            before,
            after,
            addr,
            r,
            decodes,
            then,
        ) by {
        if before.known(addr) != Known::Absent {
            if !(r0 matches Err(Error::Io(e)) && unsent(before.session, after.session, e)) {
                let s = crate::session::settled(before.session, after.session, addr)->Ended_0;
                assert(read_went(before.session, after.session, addr, s));
            }
        }
    }
}

/// A read that gave a value went out and settled on a payload — the one the
/// verb then read.
proof fn lemma_read_answered<T: Transport, V>(before: Device<T>, after: Device<T>, addr: Addr, r0: Result<V>) -> (q: Seq<u8>)
    requires
        fetched(before, after, addr, r0),
        r0 is Ok,
    ensures
        before.known(addr) != Known::Absent,
        read_went(before.session, after.session, addr, Settled::Answer(q)),
        last_answer(after, addr) == Some(Ok::<Seq<u8>, Refusal>(q)),
        after.known(addr) == Known::Live,
{
    crate::session::settled(before.session, after.session, addr)->Ended_0->Answer_0
}

/// A read of `addr` through the surface: an address known to be absent is
/// answered without asking; any other is asked, and the answer settles it.
pub open spec fn fetched<T: Transport, V>(
    before: Device<T>,
    after: Device<T>,
    addr: Addr,
    r: Result<V>,
) -> bool {
    &&& after.wf()
    &&& after.identity == before.identity
    &&& after.surface.listed() == before.surface.listed()
    &&& after.surface.answering() == before.surface.answering()
    &&& before.known(addr) == Known::Absent ==> {
        &&& r matches Err(Error::Absent(a)) && a == addr
        &&& after.session == before.session
        &&& after.surface.probed() == before.surface.probed()
    }
    &&& before.known(addr) != Known::Absent ==> {
        &&& asked(before, after, addr, r)
        &&& after.surface.probed() == settled(before.surface.probed(), addr, r)
    }
}

/// Whether a result is a success, and if not which error, whatever value it
/// carries.
pub open spec fn outcome<V>(r: Result<V>) -> Result<()> {
    match r {
        Ok(_) => Ok(()),
        Err(e) => Err(e),
    }
}

/// A read of `addr` that a verb decodes: [`fetched`], with a payload that
/// `decodes` given as the value and one that does not reported malformed.
pub open spec fn read_as<T: Transport, V>(
    before: Device<T>,
    after: Device<T>,
    addr: Addr,
    r: Result<V>,
    decodes: spec_fn(Seq<u8>) -> bool,
) -> bool {
    &&& fetched(before, after, addr, r)
    &&& r matches Err(Error::Malformed { got, .. }) ==> !decodes(got@)
}

/// What [`asked`] says of a result it says through its outcome alone.
pub proof fn lemma_asked_outcome<T: Transport, V, W>(
    before: Device<T>,
    after: Device<T>,
    addr: Addr,
    r: Result<V>,
    w: Result<W>,
)
    requires
        asked(before, after, addr, r),
        outcome(r) == outcome(w),
    ensures
        asked(before, after, addr, w),
{
    if r is Ok {
        assert(w is Ok);
    } else {
        assert(w is Err && w->Err_0 == r->Err_0);
    }
}

/// What [`fetched`] says of a result it says through its outcome alone.
pub proof fn lemma_fetched_outcome<T: Transport, V, W>(
    before: Device<T>,
    after: Device<T>,
    addr: Addr,
    r: Result<V>,
    w: Result<W>,
)
    requires
        fetched(before, after, addr, r),
        outcome(r) == outcome(w),
    ensures
        fetched(before, after, addr, w),
{
    if r is Ok {
        assert(w is Ok);
    } else {
        assert(w is Err && w->Err_0 == r->Err_0);
    }
    if before.known(addr) != Known::Absent {
        lemma_asked_outcome(before, after, addr, r, w);
        assert(settled(before.surface.probed(), addr, r) == settled(before.surface.probed(), addr, w));
    }
}

/// A write of `payload` to `field` through the surface and the catalog: absent
/// or not understood is answered without sending anything; otherwise the write
/// goes out, and a refusal in what the device sent back is what comes back —
/// never taken for success.
pub open spec fn stored<T: Transport>(
    before: Device<T>,
    after: Device<T>,
    field: Field,
    payload: Seq<u8>,
    r: Result<()>,
) -> bool {
    let addr = field.meta.addr;
    &&& after.wf()
    &&& after.identity == before.identity
    &&& after.surface == before.surface
    &&& before.known(addr) == Known::Absent ==> {
        &&& r matches Err(Error::Absent(a)) && a == addr
        &&& after.session == before.session
    }
    &&& before.known(addr) != Known::Absent && !writable(field) ==> {
        &&& r matches Err(Error::NotUnderstood { addr: a, why }) && a == addr && why
            == write_refusal(field)
        &&& after.session == before.session
    }
    &&& before.known(addr) != Known::Absent && writable(field) ==> {
        &&& payload.len() > 255 ==> (r matches Err(Error::Frame(_))) && after.session
            == before.session
        &&& payload.len() <= 255 ==> written(
            before.session,
            after.session,
            write_request(addr, payload),
            addr,
            r,
        )
    }
}

/// The text a reply holds at `addr`: what the device answered there with its
/// padding removed, or nothing where it refused or stayed silent.
pub open spec fn text_in(reply: Seq<u8>, addr: Addr) -> Option<Seq<char>> {
    match answer(reply, addr) {
        Some(Ok(p)) => Some(utf8_lossy(strip_zeros(p))),
        _ => None,
    }
}

/// Text as characters.
pub open spec fn text_view(t: Option<String>) -> Option<Seq<char>> {
    match t {
        Some(s) => Some(s@),
        None => None,
    }
}

/// The four reads that ask who a device is: `00 03`, `00 05`, `00 07`, `00 0f`.
pub open spec fn identity_requests() -> Seq<Seq<u8>> {
    seq![
        read_request(Addr { function: 0x00, opcode: 0x03 }),
        read_request(Addr { function: 0x00, opcode: 0x05 }),
        read_request(Addr { function: 0x00, opcode: 0x07 }),
        read_request(Addr { function: 0x00, opcode: 0x0f }),
    ]
}

/// The identity the replies to those four reads give, in order: the id from
/// `00 03`, or zero where it did not answer with three bytes, and the strings
/// from the other three.
pub open spec fn identity_in(replies: Seq<Seq<u8>>, id: Identity) -> bool {
    &&& match answer(replies[0], Addr { function: 0x00, opcode: 0x03 }) {
        Some(Ok(p)) => if p.len() >= 3 {
            id.id == (p[0] as u16 * 256 + p[1] as u16) as u16 && id.index == p[2]
        } else {
            id.id == 0 && id.index == 0
        },
        _ => id.id == 0 && id.index == 0,
    }
    &&& text_view(id.version) == text_in(replies[1], Addr { function: 0x00, opcode: 0x05 })
    &&& text_view(id.serial) == text_in(replies[2], Addr { function: 0x00, opcode: 0x07 })
    &&& text_view(id.model) == text_in(replies[3], Addr { function: 0x00, opcode: 0x0f })
}

/// A text record, where the device has one: `None` for a refusal or for
/// silence, which older models answer to the newer opcodes.
fn read_text<T: Transport>(session: &mut Session<T>, addr: Addr) -> (r: Result<Option<String>>)
    ensures
        r matches Ok(t) ==> final(session).sent_log() == old(session).sent_log().push(
            read_request(addr),
        ) && final(session).replies() == old(session).replies().push(final(session).replied())
            && text_view(t) == text_in(final(session).replied(), addr),
        crate::session::grew(*old(session), *final(session)),
        r matches Err(e) ==> crate::session::broke_off(*old(session), *final(session), e),
{
    match session.read(addr) {
        Ok(p) => {
            let s = codec::ascii(p.as_slice());
            match s {
                Some(s) => Ok(Some(s)),
                None => Ok(None),
            }
        },
        Err(Error::Refused { .. }) => Ok(None),
        Err(Error::Silent(_)) => Ok(None),
        Err(e) => Err(e),
    }
}

/// Who the device says it is. Zero is no device's id: it is what is left when
/// `00 03` does not answer.
fn read_identity<T: Transport>(session: &mut Session<T>) -> (r: Result<Identity>)
    ensures
        r matches Ok(id) ==> {
            let n = old(session).replies().len();
            &&& final(session).sent_log() == old(session).sent_log() + identity_requests()
            &&& final(session).replies().len() == n + 4
            &&& final(session).replies().subrange(0, n as int) == old(session).replies()
            &&& identity_in(final(session).replies().subrange(n as int, (n + 4) as int), id)
        },
        crate::session::grew(*old(session), *final(session)),
        r matches Err(e) ==> crate::session::broke_off(*old(session), *final(session), e),
{
    let ghost s0 = *session;
    let id_addr = Addr::at(0x00, 0x03);
    let (id, index) = match session.read(id_addr) {
        Ok(p) => match codec::device_id(p.as_slice()) {
            Some(d) => (d.id, d.index),
            None => (0u16, 0u8),
        },
        Err(Error::Refused { .. }) => (0u16, 0u8),
        Err(Error::Silent(_)) => (0u16, 0u8),
        Err(e) => {
            return Err(e);
        },
    };
    let ghost s1 = *session;
    let version = read_text(session, Addr::at(0x00, 0x05))?;
    let ghost s2 = *session;
    let serial = read_text(session, Addr::at(0x00, 0x07))?;
    let ghost s3 = *session;
    let model = read_text(session, Addr::at(0x00, 0x0f))?;
    let r = Identity { id, index, version, serial, model };
    proof {
        let n = s0.replies().len();
        assert(s1.replies() == s0.replies().push(s1.replied()));
        let rs = session.replies().subrange(n as int, (n + 4) as int);
        assert(rs[0] == s1.replied());
        assert(rs[1] == s2.replied());
        assert(rs[2] == s3.replied());
        assert(rs[3] == session.replied());
        assert(session.replies().subrange(0, n as int) =~= s0.replies());
        assert(session.sent_log() =~= s0.sent_log() + identity_requests());
    }
    Ok(r)
}

impl<T: Transport> Device<T> {
    /// What has gone out to the device.
    pub open spec fn sent_log(&self) -> Seq<Seq<u8>> {
        self.session.sent_log()
    }

    pub open spec fn wf(&self) -> bool {
        self.surface.wf()
    }

    /// What the surface says about `addr`.
    pub open spec fn known(&self, addr: Addr) -> Known {
        state_of(self.surface.listed(), self.surface.answering(), self.surface.probed(), addr)
    }

    /// Ask who the device is, then what it has: one enumeration per function in
    /// the catalog.
    pub fn open(session: Session<T>) -> (r: Result<Device<T>>)
        ensures
            r matches Ok(d) ==> d.wf() && d.surface.probed() == Map::<Addr, bool>::empty(),
            r matches Err(e) ==> e is Io || e is Frame,
            r matches Ok(d) ==> {
                let fs = catalog::first_occurrences(catalog::functions_of(catalog::catalog_spec()));
                let n = session.replies().len();
                let listings = d.session.replies().subrange((n + 4) as int, (n + 4 + fs.len()) as int);
                &&& d.sent_log() == session.sent_log() + identity_requests() + fs.map_values(
                    |f: u8| enumerate_request(f),
                )
                &&& d.session.replies().len() == n + 4 + fs.len()
                &&& d.session.replies().subrange(0, n as int) == session.replies()
                &&& identity_in(d.session.replies().subrange(n as int, (n + 4) as int), d.identity)
                &&& d.surface.listed() == listed_from(fs, listings)
                &&& d.surface.answering() == answering_from(fs, listings)
            },
    {
        let mut session = session;
        let ghost s0 = session;
        let identity = read_identity(&mut session)?;
        let ghost s1 = session;
        let surface = Surface::discover(&mut session)?;
        proof {
            let n = s0.replies().len();
            let fs = catalog::first_occurrences(catalog::functions_of(catalog::catalog_spec()));
            assert(session.replies().subrange(n as int, (n + 4) as int) =~= s1.replies().subrange(n as int, (n + 4) as int));
            assert(session.replies().subrange((n + 4) as int, (n + 4 + fs.len()) as int) =~= session.replies().subrange(
                s1.replies().len() as int,
                (s1.replies().len() + fs.len()) as int,
            ));
            assert(session.replies().subrange(0, n as int) =~= s1.replies().subrange(0, n as int));
        }
        Ok(Device { session, identity, surface })
    }

    /// The conversation underneath, for what the verbs do not cover.
    pub fn session(&mut self) -> (s: &mut Session<T>)
        ensures
            s.sent_log() == old(self).sent_log(),
            final(self).sent_log() == final(s).sent_log(),
            final(self).identity == old(self).identity,
            final(self).surface == old(self).surface,
    {
        &mut self.session
    }

    /// Whether the surface says `field` holds a value, without asking.
    pub fn has(&self, field: &Field) -> (b: bool)
        requires
            self.wf(),
        ensures
            b == (self.known(field.meta.addr) == Known::Live),
    {
        self.surface.state(field.meta.addr) == Known::Live
    }

    /// Read a record's payload.
    ///
    /// An address the surface knows to be absent is answered without a round
    /// trip. Any other is asked, and the answer settles it: a value proves it
    /// live, a refusal naming the function or opcode missing proves it absent.
    /// Other refusals, and silence, prove nothing and leave it as it was.
    pub fn get(&mut self, field: &Field) -> (r: Result<Vec<u8>>)
        requires
            old(self).wf(),
        ensures
            fetched(*old(self), *final(self), field.meta.addr, r),
            r matches Ok(p) ==> last_answer(
                *final(self),
                field.meta.addr,
            ) == Some(Ok::<Seq<u8>, Refusal>(p@)),
            r matches Ok(p) ==> crate::session::settled(old(self).session, final(self).session, field.meta.addr)
                == Reading::Ended(Settled::Answer(p@)),
            !(r matches Err(Error::Malformed { .. })),
    {
        let addr = field.meta.addr;
        if self.surface.state(addr) == Known::Absent {
            return Err(Error::Absent(addr));
        }
        let r = self.session.read(addr);
        match &r {
            Ok(_) => {
                self.surface.settle(addr, true);
            },
            Err(Error::Refused { addr: _, why: Refusal::FunctionAbsent }) => {
                self.surface.settle(addr, false);
            },
            Err(Error::Refused { addr: _, why: Refusal::OpcodeAbsent }) => {
                self.surface.settle(addr, false);
            },
            _ => {},
        }
        r
    }

    /// Write a record's payload, and report what the device answered.
    ///
    /// Both the evidence and the encoder must allow it: a record marked
    /// confirmed without an encoder degrades to a refusal rather than to a
    /// blind write, and an encoder whose write was never shown to change
    /// anything is not used.
    pub fn set(&mut self, field: &Field, payload: Vec<u8>) -> (r: Result<()>)
        requires
            old(self).wf(),
        ensures
            stored(*old(self), *final(self), *field, payload@, r),
    {
        let addr = field.meta.addr;
        if self.surface.state(addr) == Known::Absent {
            return Err(Error::Absent(addr));
        }
        if !field.meta.write.usable() {
            return Err(Error::NotUnderstood { addr, why: field.meta.write.why() });
        }
        if field.encode.is_none() {
            return Err(Error::NotUnderstood { addr, why: "no encoder for this write" });
        }
        self.session.write(addr, payload)
    }

    /// One address, decoded by nobody and past the surface: an opcode holding
    /// only zeros may be missing from a listing and still answer.
    pub fn raw(&mut self, addr: Addr) -> (r: Result<Vec<u8>>)
        requires
            old(self).wf(),
        ensures
            final(self).wf(),
            final(self).identity == old(self).identity,
            final(self).surface == old(self).surface,
            asked(*old(self), *final(self), addr, r),
            r matches Ok(p) ==> last_answer(*final(self), addr) == Some(
                Ok::<Seq<u8>, Refusal>(p@),
            ),
    {
        self.session.read(addr)
    }
}


impl<T: Transport> Device<T> {
    // -- identity and shape -------------------------------------------------

    pub fn supports(&self) -> (s: Supports)
        requires
            self.wf(),
        ensures
            s == supports_of(*self),
    {
        let named = self.has(&catalog::anc_named());
        let graded = self.has(&catalog::anc_graded());
        Supports {
            anc: if named {
                Some(AncKind::Named)
            } else if graded {
                Some(AncKind::Graded)
            } else {
                None
            },
            equaliser: self.has(&catalog::equaliser()),
            immersive: self.has(&catalog::immersive()),
            modes: self.has(&catalog::mode_slot()) || self.has(&catalog::current_mode()),
        }
    }

    // -- function 01 --------------------------------------------------------

    pub fn name(&mut self) -> (r: Result<String>)
        requires
            old(self).wf(),
        ensures
            fetched(*old(self), *final(self), catalog::name().meta.addr, r),
            r matches Ok(s) ==> last_answer(*final(self), catalog::name().meta.addr) matches Some(Ok(p))
                && s@ == name_spec(p),
            !(r matches Err(Error::Malformed { .. })),
    {
        let f = catalog::name();
        let p = match self.get(&f) {
            Ok(p) => p,
            Err(e) => {
                return Err(e);
            },
        };
        match codec::name(p.as_slice()) {
            Some(s) => {
                Ok(s)
            },
            None => Err(Error::Malformed { addr: f.meta.addr, got: p }),
        }
    }

    /// The name lives in the device's firmware and shows up on every other host
    /// that pairs with it, so this is not a local alias.
    pub fn set_name(&mut self, name: &str) -> (r: Result<()>)
        requires
            old(self).wf(),
        ensures
            stored(*old(self), *final(self), catalog::name(), vstd::utf8::encode_utf8(name@), r),
    {
        let owned = name.to_string();
        assert(owned@ == name@) by {
            broadcast use vstd::string::to_string_from_display_ensures_for_str;
        }
        let payload = codec::set_name(owned);
        self.set(&catalog::name(), payload)
    }

    pub fn prompts(&mut self) -> (r: Result<Prompts>)
        requires
            old(self).wf(),
        ensures
            fetched(*old(self), *final(self), catalog::prompts().meta.addr, r),
            r matches Ok(v) ==> last_answer(*final(self), catalog::prompts().meta.addr) matches Some(Ok(p))
                && prompts_of(v, p),
            r matches Err(Error::Malformed { got, .. }) ==> got@.len() == 0,
    {
        let f = catalog::prompts();
        let p = match self.get(&f) {
            Ok(p) => p,
            Err(e) => {
                return Err(e);
            },
        };
        match codec::prompts(p.as_slice()) {
            Some(v) => {
                Ok(v)
            },
            None => Err(Error::Malformed { addr: f.meta.addr, got: p }),
        }
    }

    pub fn set_prompts(&mut self, language: Language, announcement: bool) -> (r: Result<()>)
        requires
            old(self).wf(),
        ensures
            stored(
                *old(self),
                *final(self),
                catalog::prompts(),
                seq![0x20 | language_code(language), if announcement { 1u8 } else { 0u8 }],
                r,
            ),
    {
        self.set(&catalog::prompts(), codec::set_prompts((language, announcement)))
    }

    /// Change the language, leaving the battery announcement as it was.
    ///
    /// The record is written whole, so setting the language means restating the
    /// announcement alongside it — and taking the second byte of the read is
    /// wrong: that byte is a constant `00` and the announcement reads back last.
    /// Preserving the wrong one turns the announcement off as a side effect of a
    /// language change, which is how this was found. Where the layout is not
    /// established, this refuses rather than guessing.
    pub fn set_language(&mut self, language: Language) -> (r: Result<()>)
        requires
            old(self).wf(),
        ensures
            language_set(*old(self), *final(self), language, r),
    {
        let f = catalog::prompts();
        let ghost d0 = *self;
        let read = self.prompts();
        let ghost mid = *self;
        let current = match read {
            Ok(v) => v,
            Err(e) => {
                proof {
                    lemma_read_stopped(d0, mid, f.meta.addr, read, Err::<(), Error>(e));
                }
                return Err(e);
            },
        };
        let ghost q = lemma_read_answered(d0, mid, f.meta.addr, read);
        let announcement = match current.battery_announcement {
            Some(a) => a,
            None => {
                proof {
                    assert(read_went(d0.session, mid.session, f.meta.addr, Settled::Answer(q)));
                }
                return Err(Error::NotUnderstood { addr: f.meta.addr, why: unmapped_prompts() });
            },
        };
        let r = self.set(&f, codec::set_prompts((language, announcement)));
        proof {
            assert(read_went(d0.session, mid.session, f.meta.addr, Settled::Answer(q)));
        }
        r
    }

    pub fn auto_off(&mut self) -> (r: Result<AutoOff>)
        requires
            old(self).wf(),
        ensures
            fetched(*old(self), *final(self), catalog::auto_off().meta.addr, r),
            r matches Ok(v) ==> last_answer(*final(self), catalog::auto_off().meta.addr) matches Some(Ok(p))
                && auto_off_spec(p) == Some(v),
            r matches Err(Error::Malformed { got, .. }) ==> auto_off_spec(got@) is None,
    {
        let f = catalog::auto_off();
        let p = match self.get(&f) {
            Ok(p) => p,
            Err(e) => {
                return Err(e);
            },
        };
        match codec::auto_off(p.as_slice()) {
            Some(v) => {
                Ok(v)
            },
            None => Err(Error::Malformed { addr: f.meta.addr, got: p }),
        }
    }

    /// Read first: the Ultra's three-byte field is not a minute count, and
    /// writing one byte into it would be a guess.
    pub fn set_auto_off(&mut self, after: AutoOff) -> (r: Result<()>)
        requires
            old(self).wf(),
        ensures
            auto_off_set(*old(self), *final(self), after, r),
    {
        let ghost d0 = *self;
        let read = self.auto_off();
        let ghost mid = *self;
        match read {
            Ok(_) => {},
            Err(e) => {
                proof {
                    lemma_read_stopped(d0, mid, catalog::auto_off().meta.addr, read, Err::<(), Error>(e));
                }
                return Err(e);
            },
        }
        let ghost q = lemma_read_answered(d0, mid, catalog::auto_off().meta.addr, read);
        let r = self.set(&catalog::auto_off(), codec::set_auto_off(after));
        proof {
            assert(read_went(d0.session, mid.session, catalog::auto_off().meta.addr, Settled::Answer(q)));
        }
        r
    }

    /// Named levels, on models that offer them.
    fn named_anc(&mut self) -> (r: Result<Named>)
        requires
            old(self).wf(),
        ensures
            fetched(*old(self), *final(self), catalog::anc_named().meta.addr, r),
            r matches Ok(v) ==> last_answer(*final(self), catalog::anc_named().meta.addr) matches Some(Ok(p))
                && named_spec(p) == Some(v),
            r matches Err(Error::Malformed { got, .. }) ==> named_spec(got@) is None,
    {
        let f = catalog::anc_named();
        let p = match self.get(&f) {
            Ok(p) => p,
            Err(e) => {
                return Err(e);
            },
        };
        match codec::named(p.as_slice()) {
            Some(v) => {
                Ok(v)
            },
            None => Err(Error::Malformed { addr: f.meta.addr, got: p }),
        }
    }

    /// The graded scale, on models that have one.
    fn graded_anc(&mut self) -> (r: Result<Graded>)
        requires
            old(self).wf(),
        ensures
            fetched(*old(self), *final(self), catalog::anc_graded().meta.addr, r),
            r matches Ok(v) ==> last_answer(*final(self), catalog::anc_graded().meta.addr) matches Some(Ok(p))
                && graded_spec(p) == Some(v),
            r matches Err(Error::Malformed { got, .. }) ==> graded_spec(got@) is None,
    {
        let f = catalog::anc_graded();
        let p = match self.get(&f) {
            Ok(p) => p,
            Err(e) => {
                return Err(e);
            },
        };
        match codec::graded(p.as_slice()) {
            Some(v) => {
                Ok(v)
            },
            None => Err(Error::Malformed { addr: f.meta.addr, got: p }),
        }
    }

    /// Noise cancelling, from whichever opcode this generation uses.
    ///
    /// The surface usually says which. When it does not — `01 05` answers a
    /// refusal around immersive-audio transitions and settles afterwards — both
    /// are tried rather than concluding the device has none.
    pub fn noise_cancelling(&mut self) -> (r: Result<Anc>)
        requires
            old(self).wf(),
        ensures
            anc_read(*old(self), *final(self), r),
    {
        if self.has(&catalog::anc_named()) {
            return match self.named_anc() {
                Ok(v) => Ok(Anc::Named(v)),
                Err(e) => Err(e),
            };
        }
        if self.has(&catalog::anc_graded()) {
            return match self.graded_anc() {
                Ok(v) => Ok(Anc::Graded(v)),
                Err(e) => Err(e),
            };
        }
        let first = self.named_anc();
        match first {
            Ok(v) => Ok(Anc::Named(v)),
            Err(e) => {
                let ghost mid = *self;
                let r = match self.graded_anc() {
                    Ok(v) => Ok(Anc::Graded(v)),
                    Err(e) => Err(e),
                };
                proof {
                    assert(fetched(*old(self), mid, catalog::anc_named().meta.addr, Err::<Named, Error>(e)));
                }
                r
            },
        }
    }

    /// Select a named level, on a model that offers them.
    ///
    /// The device's own mask decides what is allowed — writing every value
    /// `0x00`–`0x0b` to a QuietComfort 35 had eight of the twelve refused — so
    /// this checks the mask first and reports the model's answer rather than the
    /// wire's.
    pub fn set_level(&mut self, level: Level) -> (r: Result<()>)
        requires
            old(self).wf(),
        ensures
            level_set(*old(self), *final(self), level, r),
    {
        let f = catalog::anc_named();
        let ghost d0 = *self;
        let read = self.named_anc();
        let ghost mid = *self;
        let current = match read {
            Ok(v) => v,
            Err(e) => {
                proof {
                    lemma_read_stopped(d0, mid, f.meta.addr, read, Err::<(), Error>(e));
                }
                return Err(e);
            },
        };
        let ghost q = lemma_read_answered(d0, mid, f.meta.addr, read);
        if !current.accepts(level) {
            let r = Err(Error::NotUnderstood { addr: f.meta.addr, why: level_not_offered() });
            proof {
                assert(read_went(d0.session, mid.session, f.meta.addr, Settled::Answer(q)));
            }
            return r;
        }
        let r = self.set(&f, codec::set_named(level));
        proof {
            assert(read_went(d0.session, mid.session, f.meta.addr, Settled::Answer(q)));
        }
        r
    }

    pub fn equaliser(&mut self) -> (r: Result<Vec<Band>>)
        requires
            old(self).wf(),
        ensures
            fetched(*old(self), *final(self), catalog::equaliser().meta.addr, r),
            r matches Ok(v) ==> last_answer(*final(self), catalog::equaliser().meta.addr) matches Some(Ok(p))
                && v@ == bands_spec(p),
            !(r matches Err(Error::Malformed { .. })),
    {
        let f = catalog::equaliser();
        let p = match self.get(&f) {
            Ok(p) => p,
            Err(e) => {
                return Err(e);
            },
        };
        match codec::equaliser(p.as_slice()) {
            Some(v) => {
                Ok(v)
            },
            None => Err(Error::Malformed { addr: f.meta.addr, got: p }),
        }
    }

    /// The value is clamped to the range the device reported, not a hardcoded
    /// one — the record carries its own limits so a client can draw the control
    /// without knowing the model.
    pub fn set_band(&mut self, index: u8, value: i8) -> (r: Result<()>)
        requires
            old(self).wf(),
        ensures
            band_set(*old(self), *final(self), index, value, r),
    {
        let f = catalog::equaliser();
        let ghost d0 = *self;
        let read = self.equaliser();
        let ghost mid = *self;
        let bands = match read {
            Ok(v) => v,
            Err(e) => {
                proof {
                    lemma_read_stopped(d0, mid, f.meta.addr, read, Err::<(), Error>(e));
                }
                return Err(e);
            },
        };
        let ghost q = lemma_read_answered(d0, mid, f.meta.addr, read);
        let band = match find_band(&bands, index) {
            Some(b) => b,
            None => {
                proof {
                    assert(read_went(d0.session, mid.session, f.meta.addr, Settled::Answer(q)));
                }
                return Err(Error::NotUnderstood { addr: f.meta.addr, why: no_such_band() });
            },
        };
        let v = clamp(value, band.min, band.max);
        let r = self.set(&f, codec::set_band((index, v)));
        proof {
            assert(read_went(d0.session, mid.session, f.meta.addr, Settled::Answer(q)));
        }
        r
    }

    pub fn toggle(&mut self, t: Toggle) -> (r: Result<bool>)
        requires
            old(self).wf(),
        ensures
            fetched(*old(self), *final(self), toggle_field(t).meta.addr, r),
            r matches Ok(v) ==> last_answer(*final(self), toggle_field(t).meta.addr) matches Some(Ok(p))
                && flag_spec(p) == Some(v),
            r matches Err(Error::Malformed { got, .. }) ==> got@.len() == 0,
    {
        let f = t.field();
        let p = match self.get(&f) {
            Ok(p) => p,
            Err(e) => {
                return Err(e);
            },
        };
        match codec::flag(p.as_slice()) {
            Some(v) => {
                Ok(v)
            },
            None => Err(Error::Malformed { addr: f.meta.addr, got: p }),
        }
    }

    pub fn set_toggle(&mut self, t: Toggle, on: bool) -> (r: Result<()>)
        requires
            old(self).wf(),
        ensures
            stored(*old(self), *final(self), toggle_field(t), seq![if on { 1u8 } else { 0u8 }], r),
    {
        let f = t.field();
        self.set(&f, codec::set_flag(on))
    }

    /// `01 09`, undecoded. The read has a model-specific shape — seven bytes on
    /// the Ultra Earbuds, eleven on the Sport — and arrives once per side, so
    /// indexing it as though it matched the write returns a byte that is not an
    /// action at all.
    pub fn shortcut(&mut self) -> (r: Result<Vec<u8>>)
        requires
            old(self).wf(),
        ensures
            fetched(*old(self), *final(self), catalog::shortcut().meta.addr, r),
            r matches Ok(v) ==> last_answer(*final(self), catalog::shortcut().meta.addr) == Some(
                Ok::<Seq<u8>, Refusal>(v@),
            ),
            !(r matches Err(Error::Malformed { .. })),
    {
        self.get(&catalog::shortcut())
    }

    pub fn set_shortcut(&mut self, action: u8) -> (r: Result<()>)
        requires
            old(self).wf(),
        ensures
            stored(*old(self), *final(self), catalog::shortcut(), seq![0x80u8, 0x09u8, action], r),
    {
        self.set(&catalog::shortcut(), codec::set_shortcut(action))
    }

    pub fn set_self_voice(&mut self, level: u8) -> (r: Result<()>)
        requires
            old(self).wf(),
        ensures
            stored(*old(self), *final(self), catalog::self_voice(), seq![0x01u8, level], r),
    {
        self.set(&catalog::self_voice(), codec::set_self_voice(level))
    }

    // -- status and media ---------------------------------------------------

    pub fn battery(&mut self) -> (r: Result<Vec<Cell>>)
        requires
            old(self).wf(),
        ensures
            fetched(*old(self), *final(self), catalog::battery().meta.addr, r),
            r matches Ok(v) ==> last_answer(*final(self), catalog::battery().meta.addr) matches Some(Ok(p))
                && v@ == cells_spec(p),
            !(r matches Err(Error::Malformed { .. })),
    {
        let f = catalog::battery();
        let p = match self.get(&f) {
            Ok(p) => p,
            Err(e) => {
                return Err(e);
            },
        };
        match codec::battery(p.as_slice()) {
            Some(v) => {
                Ok(v)
            },
            None => Err(Error::Malformed { addr: f.meta.addr, got: p }),
        }
    }

    pub fn volume(&mut self) -> (r: Result<Volume>)
        requires
            old(self).wf(),
        ensures
            fetched(*old(self), *final(self), catalog::volume().meta.addr, r),
            r matches Ok(v) ==> last_answer(*final(self), catalog::volume().meta.addr) matches Some(Ok(p))
                && volume_spec(p) == Some(v),
            r matches Err(Error::Malformed { got, .. }) ==> volume_spec(got@) is None,
    {
        let f = catalog::volume();
        let p = match self.get(&f) {
            Ok(p) => p,
            Err(e) => {
                return Err(e);
            },
        };
        match codec::volume(p.as_slice()) {
            Some(v) => {
                Ok(v)
            },
            None => Err(Error::Malformed { addr: f.meta.addr, got: p }),
        }
    }

    /// Clamped to the scale the device reports.
    pub fn set_volume(&mut self, level: u8) -> (r: Result<()>)
        requires
            old(self).wf(),
        ensures
            volume_set(*old(self), *final(self), level, r),
    {
        let f = catalog::volume();
        let ghost d0 = *self;
        let read = self.volume();
        let ghost mid = *self;
        let current = match read {
            Ok(v) => v,
            Err(e) => {
                proof {
                    lemma_read_stopped(d0, mid, f.meta.addr, read, Err::<(), Error>(e));
                }
                return Err(e);
            },
        };
        let ghost q = lemma_read_answered(d0, mid, f.meta.addr, read);
        let max = current.max();
        let target = if level <= max {
            level
        } else {
            max
        };
        let r = self.set(&f, codec::set_volume(target));
        proof {
            assert(read_went(d0.session, mid.session, f.meta.addr, Settled::Answer(q)));
        }
        r
    }

    pub fn immersive(&mut self) -> (r: Result<Immersive>)
        requires
            old(self).wf(),
        ensures
            fetched(*old(self), *final(self), catalog::immersive().meta.addr, r),
            r matches Ok(v) ==> last_answer(*final(self), catalog::immersive().meta.addr) matches Some(Ok(p))
                && immersive_spec(p) == Some(v),
            r matches Err(Error::Malformed { got, .. }) ==> immersive_spec(got@) is None,
    {
        let f = catalog::immersive();
        let p = match self.get(&f) {
            Ok(p) => p,
            Err(e) => {
                return Err(e);
            },
        };
        match codec::immersive(p.as_slice()) {
            Some(v) => {
                Ok(v)
            },
            None => Err(Error::Malformed { addr: f.meta.addr, got: p }),
        }
    }

    // -- function 04 --------------------------------------------------------

    /// The addresses the device remembers.
    pub fn paired(&mut self) -> (r: Result<Vec<Address>>)
        requires
            old(self).wf(),
        ensures
            fetched(*old(self), *final(self), catalog::paired().meta.addr, r),
            r matches Ok(v) ==> last_answer(*final(self), catalog::paired().meta.addr) matches Some(Ok(p))
                && p.len() >= 1 && v@.map_values(
                    |a: Address| a@,
                ) == addresses_spec(p),
            r matches Err(Error::Malformed { got, .. }) ==> got@.len() == 0,
    {
        let f = catalog::paired();
        let p = match self.get(&f) {
            Ok(p) => p,
            Err(e) => {
                return Err(e);
            },
        };
        match codec::addresses(p.as_slice()) {
            Some(v) => {
                Ok(v)
            },
            None => Err(Error::Malformed { addr: f.meta.addr, got: p }),
        }
    }

    /// The host holding the link.
    pub fn active_device(&mut self) -> (r: Result<Address>)
        requires
            old(self).wf(),
        ensures
            fetched(*old(self), *final(self), catalog::active_device().meta.addr, r),
            r matches Ok(a) ==> last_answer(*final(self), catalog::active_device().meta.addr) matches Some(Ok(p))
                && p.len() >= 6 && a@
                    == p.subrange(0, 6),
            r matches Err(Error::Malformed { got, .. }) ==> got@.len() < 6,
    {
        let f = catalog::active_device();
        let p = match self.get(&f) {
            Ok(p) => p,
            Err(e) => {
                return Err(e);
            },
        };
        match codec::address(p.as_slice()) {
            Some(v) => {
                Ok(v)
            },
            None => Err(Error::Malformed { addr: f.meta.addr, got: p }),
        }
    }

    // -- modes --------------------------------------------------------------

    /// The index of the mode currently active. Reading works; the write does
    /// not, and [`Device::set`] says so from the catalog rather than from here.
    pub fn current_mode(&mut self) -> (r: Result<u8>)
        requires
            old(self).wf(),
        ensures
            fetched(*old(self), *final(self), catalog::current_mode().meta.addr, r),
            r matches Ok(v) ==> last_answer(*final(self), catalog::current_mode().meta.addr) matches Some(Ok(p))
                && byte_spec(p) == Some(v),
            r matches Err(Error::Malformed { got, .. }) ==> got@.len() == 0,
    {
        let f = catalog::current_mode();
        let p = match self.get(&f) {
            Ok(p) => p,
            Err(e) => {
                return Err(e);
            },
        };
        match codec::byte(p.as_slice()) {
            Some(v) => {
                Ok(v)
            },
            None => Err(Error::Malformed { addr: f.meta.addr, got: p }),
        }
    }

    pub fn select_mode(&mut self, index: u8) -> (r: Result<()>)
        requires
            old(self).wf(),
        ensures
            stored(*old(self), *final(self), catalog::current_mode(), seq![index], r),
    {
        self.set(&catalog::current_mode(), codec::set_byte(index))
    }

    /// The stored modes. Empty slots are dropped.
    ///
    /// The table is ten records under one opcode, so it arrives as an
    /// enumeration rather than as a read — but it decodes with the catalog's
    /// codec like anything else.
    pub fn modes(&mut self) -> (r: Result<Vec<Mode>>)
        requires
            old(self).wf(),
        ensures
            modes_read(*old(self), *final(self), r),
            r matches Ok(v) ==> decode_spec(final(self).session.replied()) matches Ok(fs)
                && modes_match(v@, stored_slots(fs, catalog::mode_slot().meta.addr)),
    {
        let addr = catalog::mode_slot().meta.addr;
        if !self.has(&catalog::mode_slot()) && !self.has(&catalog::current_mode()) {
            return Err(Error::Absent(addr));
        }
        let listed = self.session.enumerate(addr.function);
        let ghost got = listed;
        let reply = match listed {
            Ok(r) => r,
            Err(e) => {
                proof {
                    assert(outcome(got) == outcome(Err::<Vec<Mode>, Error>(e)));
                }
                return Err(e);
            },
        };
        let v = stored_modes(&reply, addr);
        proof {
            assert(outcome(got) == outcome(Ok::<Vec<Mode>, Error>(v)));
        }
        Ok(v)
    }

    /// Which functions answer their version, among `first..=last`.
    ///
    /// Past the surface: every function in the range is asked at opcode `00`.
    /// A value or any refusal but "function absent" counts as answering;
    /// silence does not.
    pub fn scan(&mut self, first: u8, last: u8) -> (r: Result<Vec<u8>>)
        requires
            old(self).wf(),
        ensures
            scanned(*old(self), *final(self), first, last, r),
    {
        let mut found: Vec<u8> = Vec::new();
        let ghost n = self.session.replies().len();
        proof {
            assert(self.session.replies().subrange(n as int, n as int) =~= Seq::<Seq<u8>>::empty());
            assert(self.session.replies().subrange(0, n as int) =~= self.session.replies());
        }
        if first > last {
            proof {
                assert(version_probes(first as int, 0) =~= Seq::<Seq<u8>>::empty());
                assert(self.sent_log() + version_probes(first as int, 0) =~= self.sent_log());
            }
            return Ok(found);
        }
        let ghost start = self.sent_log();
        let mut f: u16 = first as u16;
        while f <= last as u16
            invariant
                first as u16 <= f <= last as u16 + 1,
                first <= last,
                self.wf(),
                self.identity == old(self).identity,
                self.surface == old(self).surface,
                start == old(self).sent_log(),
                self.sent_log() == start + version_probes(first as int, (f - first) as nat),
                crate::session::grew(old(self).session, self.session),
                n == old(self).session.replies().len(),
                self.session.replies().len() == n + (f - first),
                self.session.replies().subrange(0, n as int) == old(self).session.replies(),
                found@ == answering_among(
                    first as int,
                    self.session.replies().subrange(n as int, n + (f - first)),
                ),
            decreases last as u16 + 1 - f,
        {
            let addr = Addr::at(f as u8, 0x00);
            let ghost before = self.sent_log();
            let ghost was = self.session;
            let answer = self.session.read(addr);
            let counts = match answer {
                Ok(_) => true,
                Err(Error::Refused { addr: _, why: Refusal::FunctionAbsent }) => false,
                Err(Error::Refused { addr: _, why: _ }) => true,
                Err(Error::Silent(_)) => false,
                Err(e) => {
                    return Err(e);
                },
            };
            proof {
                let seg = self.session.replies().subrange(n as int, n + (f + 1 - first));
                assert(seg.drop_last() =~= was.replies().subrange(n as int, n + (f - first)));
                assert(seg.last() == self.session.replied());
                assert((first + seg.len() - 1) as u8 == f as u8);
                assert(counts == answers_version_in(self.session.replied(), f as u8));
                assert(self.session.replies().subrange(0, n as int) =~= was.replies().subrange(0, n as int));
            }
            proof {
                assert(version_probes(first as int, (f + 1 - first) as nat) =~= version_probes(
                    first as int,
                    (f - first) as nat,
                ).push(read_request(addr)));
                assert(start + version_probes(first as int, (f + 1 - first) as nat) =~= before.push(
                    read_request(addr),
                ));
            }
            if counts {
                found.push(f as u8);
            }
            f = f + 1;
        }
        proof {
            assert((f - first) as nat == (last - first + 1) as nat);
            assert(replies_since(*old(self), *self) =~= self.session.replies().subrange(
                n as int,
                n + (f - first),
            ));
        }
        Ok(found)
    }
}

/// Why a language change is refused on a record whose layout is not mapped.
#[verifier::allow_in_spec]
pub fn unmapped_prompts() -> &'static str
    returns
        "this model's record is not mapped; set the announcement too",
{
    "this model's record is not mapped; set the announcement too"
}

/// Why a named level outside the device's mask is refused.
#[verifier::allow_in_spec]
pub fn level_not_offered() -> &'static str
    returns
        "this model does not offer that level",
{
    "this model does not offer that level"
}

/// Why a band the equaliser does not report is refused.
#[verifier::allow_in_spec]
pub fn no_such_band() -> &'static str
    returns
        "no such equaliser band",
{
    "no such equaliser band"
}

/// The first band with this index.
pub open spec fn first_band(bands: Seq<Band>, index: u8) -> Option<Band>
    decreases bands.len(),
{
    if bands.len() == 0 {
        None
    } else if bands[0].index == index {
        Some(bands[0])
    } else {
        first_band(bands.drop_first(), index)
    }
}

fn find_band(bands: &Vec<Band>, index: u8) -> (r: Option<Band>)
    ensures
        r == first_band(bands@, index),
{
    let mut i: usize = 0;
    proof {
        assert(bands@.subrange(0, bands@.len() as int) =~= bands@);
    }
    while i < bands.len()
        invariant
            i <= bands@.len(),
            first_band(bands@, index) == first_band(bands@.subrange(i as int, bands@.len() as int), index),
        decreases bands@.len() - i,
    {
        proof {
            let s = bands@.subrange(i as int, bands@.len() as int);
            assert(s.drop_first() =~= bands@.subrange(i + 1, bands@.len() as int));
        }
        if bands[i].index == index {
            return Some(bands[i]);
        }
        i = i + 1;
    }
    None
}

/// `v` held to `lo..=hi`: the bound it passes, or itself.
pub open spec fn clamp_spec(v: i8, lo: i8, hi: i8) -> i8 {
    if v < lo {
        lo
    } else if v > hi {
        hi
    } else {
        v
    }
}

/// Clamping keeps a value inside the band's own range, and moves it no
/// further than it must: no level in the range is nearer the value asked for.
pub proof fn lemma_clamp_nearest(v: i8, lo: i8, hi: i8)
    requires
        lo <= hi,
    ensures
        lo <= clamp_spec(v, lo, hi) <= hi,
        lo <= v <= hi ==> clamp_spec(v, lo, hi) == v,
        forall|w: i8|
            lo <= w <= hi ==> #[trigger] distance(w, v) >= distance(clamp_spec(v, lo, hi), v),
{
}

/// How far apart two levels are.
pub open spec fn distance(a: i8, b: i8) -> int {
    if a >= b {
        a - b
    } else {
        b - a
    }
}

fn clamp(v: i8, lo: i8, hi: i8) -> (r: i8)
    ensures
        r == clamp_spec(v, lo, hi),
{
    if v < lo {
        lo
    } else if v > hi {
        hi
    } else {
        v
    }
}


/// A read of each function's version, in order from `first`.
pub open spec fn version_probes(first: int, n: nat) -> Seq<Seq<u8>> {
    Seq::new(n, |i: int| read_request(Addr { function: (first + i) as u8, opcode: 0x00 }))
}

/// Whether a reply to reading `f 00` says the function is there: a value, or
/// any refusal but "function absent".
pub open spec fn answers_version_in(reply: Seq<u8>, f: u8) -> bool {
    match answer(reply, Addr { function: f, opcode: 0x00 }) {
        Some(Ok(_)) => true,
        Some(Err(why)) => why != Refusal::FunctionAbsent,
        None => false,
    }
}

/// The functions among `first`, `first + 1`, … that are there, from the
/// replies to reading each one's version in turn.
pub open spec fn answering_among(first: int, replies: Seq<Seq<u8>>) -> Seq<u8>
    decreases replies.len(),
{
    if replies.len() == 0 {
        Seq::empty()
    } else {
        let prev = answering_among(first, replies.drop_last());
        let f = (first + replies.len() - 1) as u8;
        if answers_version_in(replies.last(), f) {
            prev.push(f)
        } else {
            prev
        }
    }
}

/// The bytes each exchange between two states of a device was read from.
pub open spec fn replies_since<T: Transport>(before: Device<T>, after: Device<T>) -> Seq<Seq<u8>> {
    after.session.replies().subrange(
        before.session.replies().len() as int,
        after.session.replies().len() as int,
    )
}

/// The payloads of the stored slots among `fs`: records at `addr` that are
/// not refusals, long enough to be a slot, and occupied.
pub open spec fn stored_slots(fs: Seq<Frame>, addr: Addr) -> Seq<Seq<u8>> {
    fs.filter(|f: Frame| is_stored_slot(f, addr)).map_values(|f: Frame| f.payload)
}

pub open spec fn is_stored_slot(f: Frame, addr: Addr) -> bool {
    f.addr == addr && crate::wire::frame_refusal(f) is None && f.payload.len() >= 47
        && slot_occupied(f.payload)
}

/// Each mode is what its slot says, in order.
pub open spec fn modes_match(ms: Seq<Mode>, slots: Seq<Seq<u8>>) -> bool {
    &&& ms.len() == slots.len()
    &&& forall|i: int| 0 <= i < ms.len() ==> mode_of(#[trigger] ms[i], slots[i])
}

/// The stored modes among the records of an enumeration.
pub fn stored_modes(reply: &Vec<Message>, addr: Addr) -> (v: Vec<Mode>)
    ensures
        modes_match(v@, stored_slots(frames(reply@), addr)),
{
    let ghost fs = frames(reply@);
    let ghost pred = |f: Frame| is_stored_slot(f, addr);
    let mut out: Vec<Mode> = Vec::new();
    let mut i: usize = 0;
    while i < reply.len()
        invariant
            fs == frames(reply@),
            i <= reply@.len(),
            pred == (|f: Frame| is_stored_slot(f, addr)),
            modes_match(out@, fs.subrange(0, i as int).filter(pred).map_values(|f: Frame| f.payload)),
        decreases reply@.len() - i,
    {
        let ghost prev = fs.subrange(0, i as int).filter(pred);
        proof {
            assert(fs.subrange(0, i + 1) =~= fs.subrange(0, i as int).push(reply@[i as int]@));
            fs.subrange(0, i as int).lemma_filter_push(reply@[i as int]@, pred);
        }
        let m = &reply[i];
        if m.addr == addr && m.refusal().is_none() {
            match codec::mode(m.payload.as_slice()) {
                Some(Some(md)) => {
                    out.push(md);
                    proof {
                        assert(prev.push(m@).map_values(|f: Frame| f.payload) =~= prev.map_values(
                            |f: Frame| f.payload,
                        ).push(m.payload@));
                    }
                },
                _ => {},
            }
        }
        i = i + 1;
    }
    proof {
        assert(fs.subrange(0, reply@.len() as int) =~= fs);
    }
    out
}

} // verus!
