//! The observed devices, as data.
//!
//! Transcribed from captures so that a code path can be exercised without
//! the hardware it was found on — which matters here, because covering the
//! protocol needs headphones from two generations and most people have one.
//!
//! A new finding lands here as one line beside its catalog entry.

use vstd::prelude::*;
use vstd::slice::slice_to_vec;
use vstd::utf8::encode_utf8;
use vstd::string::StringSliceAdditionalSpecFns;

use crate::text::str_bytes;
use crate::transport::{Recording, Scripted, Transport};
use crate::wire::{
    decode_spec, encode_frame, encode_frames, lemma_decode_encode, operator_canonical, push_bytes,
    Addr, Frame, Message, Operator,
};

verus! {

/// A reply that parses into whole records, every one of them about `function`.
pub open spec fn whole_for(reply: Seq<u8>, function: u8) -> bool {
    decode_spec(reply) matches Ok(fs) && forall|j: int|
        0 <= j < fs.len() ==> #[trigger] fs[j].addr.function == function
}

/// A script entry whose reply, if it has one, is whole and about the function
/// its request names.
pub open spec fn entry_in_kind(e: (Seq<u8>, Option<Seq<u8>>)) -> bool {
    e.0.len() >= 1 && (e.1 matches Some(r) ==> whole_for(r, e.0[0]))
}

/// Every reply of a script parses into whole records, and none of them is
/// about another function than the one asked: a fixture never hands the
/// session a malformed answer or one that belongs elsewhere.
pub open spec fn answers_in_kind(script: Seq<(Seq<u8>, Option<Seq<u8>>)>) -> bool {
    forall|i: int| 0 <= i < script.len() ==> #[trigger] entry_in_kind(script[i])
}

proof fn lemma_in_kind_push(script: Seq<(Seq<u8>, Option<Seq<u8>>)>, e: (Seq<u8>, Option<Seq<u8>>))
    requires
        answers_in_kind(script),
        entry_in_kind(e),
    ensures
        answers_in_kind(script.push(e)),
{
    assert forall|i: int| 0 <= i < script.push(e).len() implies #[trigger] entry_in_kind(
        script.push(e)[i],
    ) by {
        if i < script.len() {
            assert(script.push(e)[i] == script[i]);
        }
    }
}

proof fn lemma_encode_frames_push(fs: Seq<Frame>, f: Frame)
    ensures
        encode_frames(fs.push(f)) == encode_frames(fs) + encode_frame(f),
    decreases fs.len(),
{
    if fs.len() == 0 {
        assert(fs.push(f) =~= seq![f]);
        lemma_encode_one(f);
        assert(encode_frames(fs.push(f)) =~= encode_frames(fs) + encode_frame(f));
    } else {
        assert(fs.push(f).drop_first() =~= fs.drop_first().push(f));
        lemma_encode_frames_push(fs.drop_first(), f);
        assert(encode_frames(fs.push(f)) =~= encode_frames(fs) + encode_frame(f));
    }
}

/// A frame that encodes and decodes faithfully, about `function`.
spec fn frame_for(fr: Frame, function: u8) -> bool {
    &&& fr.addr.function == function
    &&& fr.payload.len() <= 255
    &&& operator_canonical(fr.operator)
}

proof fn lemma_encode_one(f: Frame)
    ensures
        encode_frames(seq![f]) == encode_frame(f),
{
    reveal_with_fuel(encode_frames, 2);
    assert(seq![f].drop_first() =~= Seq::<Frame>::empty());
    assert(seq![f][0] == f);
    assert(encode_frames(seq![f]) =~= encode_frame(f));
}

/// Frames that encode and decode faithfully, all about `function`.
spec fn frames_for(fs: Seq<Frame>, function: u8) -> bool {
    forall|j: int| 0 <= j < fs.len() ==> frame_for(#[trigger] fs[j], function)
}

proof fn lemma_frames_whole(fs: Seq<Frame>, function: u8)
    requires
        frames_for(fs, function),
    ensures
        whole_for(encode_frames(fs), function),
{
    assert forall|i: int| 0 <= i < fs.len() implies #[trigger] fs[i].payload.len() <= 255 by {
        assert(frame_for(fs[i], function));
    }
    assert forall|i: int| 0 <= i < fs.len() implies operator_canonical(#[trigger] fs[i].operator) by {
        assert(frame_for(fs[i], function));
    }
    lemma_decode_encode(fs);
    assert forall|j: int| 0 <= j < fs.len() implies #[trigger] fs[j].addr.function == function by {
        assert(frame_for(fs[j], function));
    }
}

/// One record's bytes: nothing, for a payload too long to frame.
pub open spec fn frame_bytes(addr: Addr, operator: Operator, payload: Seq<u8>) -> Seq<u8> {
    if payload.len() <= 255 {
        encode_frame(Frame { addr, operator, payload })
    } else {
        Seq::empty()
    }
}

/// A reply carrying a value.
pub open spec fn status_bytes(f: u8, o: u8, payload: Seq<u8>) -> Seq<u8> {
    frame_bytes(Addr { function: f, opcode: o }, Operator::Status, payload)
}

/// A refusal with its reason.
pub open spec fn refusal_bytes(f: u8, o: u8, code: u8) -> Seq<u8> {
    encode_frame(Frame { addr: Addr { function: f, opcode: o }, operator: Operator::Error, payload: seq![code] })
}

/// Records as `(opcode, payload)`, the payloads as bytes.
pub open spec fn record_views(records: Seq<(u8, Vec<u8>)>) -> Seq<(u8, Seq<u8>)> {
    records.map_values(|r: (u8, Vec<u8>)| (r.0, r.1@))
}

/// The `Status` records of a listing, in order.
pub open spec fn records_bytes(f: u8, records: Seq<(u8, Seq<u8>)>) -> Seq<u8>
    decreases records.len(),
{
    if records.len() == 0 {
        Seq::empty()
    } else {
        records_bytes(f, records.drop_last()) + status_bytes(f, records.last().0, records.last().1)
    }
}

/// A function listing itself: `Processing`, the records, then an empty
/// `Result`.
pub open spec fn listing_bytes(f: u8, records: Seq<(u8, Seq<u8>)>) -> Seq<u8> {
    frame_bytes(Addr { function: f, opcode: 0x01 }, Operator::Processing, Seq::empty())
        + records_bytes(f, records) + frame_bytes(
        Addr { function: f, opcode: 0x01 },
        Operator::Result,
        Seq::empty(),
    )
}

/// A script entry: a request and what answers it.
pub type Entry = (Seq<u8>, Option<Seq<u8>>);

/// A read of `f o` answered with `payload`.
pub open spec fn read_entry(f: u8, o: u8, payload: Seq<u8>) -> Entry {
    (seq![f, o, 0x01, 0x00], Some(status_bytes(f, o, payload)))
}

/// A write of `w` to `f o`, answered with the record's value `payload`.
pub open spec fn write_entry(f: u8, o: u8, payload: Seq<u8>, w: Seq<u8>) -> Entry {
    (seq![f, o, 0x02, (w.len() % 256) as u8] + w, Some(status_bytes(f, o, payload)))
}

/// A read of `f o`, then each accepted write.
pub open spec fn writable_entries(f: u8, o: u8, payload: Seq<u8>, accepted: Seq<Seq<u8>>) -> Seq<Entry> {
    seq![read_entry(f, o, payload)] + accepted.map_values(|w: Seq<u8>| write_entry(f, o, payload, w))
}

/// The listing of `f`, then a read of each record.
pub open spec fn lists_entries(f: u8, records: Seq<(u8, Seq<u8>)>) -> Seq<Entry> {
    seq![(seq![f, 0x01, 0x05, 0x00], Some(listing_bytes(f, records)))] + records.map_values(
        |r: (u8, Seq<u8>)| read_entry(f, r.0, r.1),
    )
}

/// Selecting each of `slots` modes, quietly and then announced, answered with
/// the index settled on.
pub open spec fn selects_entries(slots: nat) -> Seq<Entry> {
    Seq::new(
        2 * slots,
        |k: int|
            (
                seq![0x1fu8, 0x03, 0x05, 0x02, (k / 2) as u8, (k % 2) as u8],
                Some(frame_bytes(Addr { function: 0x1f, opcode: 0x03 }, Operator::Result, seq![(k / 2) as u8])),
            ),
    )
}

/// Resetting each of `slots` modes, answered with an empty `Result`.
pub open spec fn resets_entries(slots: nat) -> Seq<Entry> {
    Seq::new(
        slots,
        |k: int|
            (
                seq![0x1fu8, 0x09, 0x05, 0x01, k as u8],
                Some(frame_bytes(Addr { function: 0x1f, opcode: 0x09 }, Operator::Result, Seq::empty())),
            ),
    )
}

/// A function that will not list itself but answers its version.
pub open spec fn opaque_entries(f: u8) -> Seq<Entry> {
    seq![
        (seq![f, 0x01, 0x05, 0x00], Some(refusal_bytes(f, 0x01, 0x05))),
        read_entry(f, 0x00, encode_utf8("1.1.0"@)),
    ]
}

/// The handshake, answered with the protocol version.
pub open spec fn hello_entries() -> Seq<Entry> {
    seq![read_entry(0x00, 0x01, encode_utf8("1.0.4"@))]
}

/// A read of `f o` refused with `code`.
pub open spec fn refuses_entry(f: u8, o: u8, code: u8) -> Entry {
    (seq![f, o, 0x01, 0x00], Some(refusal_bytes(f, o, code)))
}

/// A read of `f o` answered with nothing at all.
pub open spec fn silent_entry(f: u8, o: u8) -> Entry {
    (seq![f, o, 0x01, 0x00], None)
}

/// A name as a `01 02` read carries it.
pub open spec fn named_bytes(s: &str) -> Seq<u8> {
    seq![0u8] + encode_utf8(s@)
}

/// What a QuietComfort 35 answers.
pub open spec fn qc35_script() -> Seq<Entry> {
    hello_entries() + opaque_entries(0x00) + seq![
        read_entry(0x00, 0x03, seq![0x40, 0x0c, 0x02]),
        read_entry(0x00, 0x05, encode_utf8("3.0.3"@)),
        read_entry(0x00, 0x07, encode_utf8("REDACTED-SERIAL"@)),
        refuses_entry(0x00, 0x0f, 0x04),
    ] + lists_entries(
        0x01,
        seq![
            (0x02u8, named_bytes("qc35")),
            (0x03u8, seq![0xa1u8, 0x00, 0x04, 0xc3, 0xde]),
            (0x04u8, seq![0x3cu8]),
            (0x06u8, seq![0x01u8, 0x0b]),
        ],
    ) + seq![silent_entry(0x01, 0x07)] + writable_entries(
        0x01,
        0x06,
        seq![0x01, 0x0b],
        seq![seq![0x03u8], seq![0x00u8], seq![0x01u8]],
    ) + writable_entries(0x01, 0x02, named_bytes("qc35"), seq![encode_utf8("renamed"@)])
        + lists_entries(0x02, seq![(0x02u8, seq![0x46u8])]) + opaque_entries(0x04) + seq![
        read_entry(0x04, 0x09, seq![0xaa, 0xbb, 0xcc, 0x00, 0x00, 0x01]),
    ] + opaque_entries(0x05) + writable_entries(
        0x05,
        0x05,
        seq![0x19, 0x0e],
        seq![seq![0x05u8], seq![0x18u8]],
    ) + seq![refuses_entry(0x05, 0x0f, 0x04)]
}

/// What the QuietComfort Ultra Headphones list at function `01`.
pub open spec fn ultra_hp_functions() -> Seq<(u8, Seq<u8>)> {
    seq![
        (0x00u8, encode_utf8("1.1.0"@)),
        (0x02u8, named_bytes("ultra-hp")),
        (0x03u8, seq![0xe1u8, 0x00, 0x01, 0x81, 0x5e, 0x01, 0x01]),
        (0x04u8, seq![0x05u8, 0x00, 0x00]),
        (0x05u8, seq![0x0bu8, 0x0a, 0x03]),
        (0x07u8, seq![0xf6u8, 0x0a, 0x02, 0x00, 0xf6, 0x0a, 0x00, 0x01, 0xf6, 0x0a, 0x02, 0x02]),
        (0x0au8, seq![0x01u8]),
        (0x18u8, seq![0x00u8]),
        (0x1bu8, seq![0x01u8]),
    ]
}

/// What the QuietComfort Ultra Headphones answer.
pub open spec fn ultra_hp_script() -> Seq<Entry> {
    hello_entries() + opaque_entries(0x00) + seq![
        read_entry(0x00, 0x01, encode_utf8("1.2.0"@)),
        read_entry(0x00, 0x03, seq![0x40, 0x66, 0x01]),
        read_entry(0x00, 0x05, encode_utf8("1.6.7+g6ebabd2"@)),
        read_entry(0x00, 0x07, encode_utf8("REDACTED-SERIAL"@)),
        read_entry(0x00, 0x0f, encode_utf8("Bose QC Ultra Headphones"@)),
    ] + lists_entries(0x01, ultra_hp_functions()) + seq![refuses_entry(0x01, 0x06, 0x04)]
        + writable_entries(0x01, 0x0a, seq![0x01], seq![seq![0x00u8], seq![0x01u8]])
        + writable_entries(0x01, 0x18, seq![0x00], seq![seq![0x00u8], seq![0x01u8]])
        + writable_entries(
        0x01,
        0x03,
        seq![0xe1, 0x00, 0x01, 0x81, 0x5e, 0x01, 0x01],
        seq![seq![0x21u8, 0x01], seq![0x26u8, 0x00]],
    ) + writable_entries(
        0x01,
        0x07,
        seq![0xf6, 0x0a, 0x02, 0x00, 0xf6, 0x0a, 0x00, 0x01, 0xf6, 0x0a, 0x02, 0x02],
        seq![seq![0x06u8, 0x00], seq![0x0au8, 0x00]],
    ) + lists_entries(0x02, seq![(0x02u8, seq![0x5au8, 0xff, 0xff, 0x00])]) + opaque_entries(0x04)
        + opaque_entries(0x05) + seq![read_entry(0x05, 0x0f, seq![0x00])] + opaque_entries(0x07)
        + lists_entries(0x1f, mode_records()) + writable_entries(
        0x1f,
        0x05,
        seq![0x01],
        seq![seq![0x00u8], seq![0x01u8]],
    ) + selects_entries(10) + resets_entries(10)
}

/// What the Sport Earbuds answer.
pub open spec fn sport_script() -> Seq<Entry> {
    hello_entries() + opaque_entries(0x00) + seq![
        read_entry(0x00, 0x03, seq![0x40, 0x2d, 0x02]),
        refuses_entry(0x00, 0x0f, 0x04),
    ] + lists_entries(
        0x01,
        seq![
            (0x02u8, named_bytes("sport")),
            (0x03u8, seq![0xa1u8, 0x00, 0x01, 0x81, 0x5e, 0x01, 0x01]),
        ],
    ) + seq![refuses_entry(0x01, 0x05, 0x04), refuses_entry(0x01, 0x06, 0x04)] + lists_entries(
        0x02,
        seq![(0x02u8, seq![0x64u8, 0xff, 0xff, 0x01, 0x64, 0xff, 0xff, 0x02])],
    )
}

/// One record's bytes. A payload too long to frame gives nothing.
fn bytes(addr: Addr, operator: Operator, payload: &[u8]) -> (v: Vec<u8>)
    requires
        operator_canonical(operator),
    ensures
        payload@.len() <= 255 ==> v@ == encode_frame(Frame { addr, operator, payload: payload@ }),
        payload@.len() > 255 ==> v@.len() == 0,
        v@ == frame_bytes(addr, operator, payload@),
        whole_for(v@, addr.function),
{
    let m = Message::new(addr, operator, slice_to_vec(payload));
    let v = match m.encode() {
        Ok(b) => b,
        Err(_) => Vec::new(),
    };
    proof {
        let f = Frame { addr, operator, payload: payload@ };
        if payload@.len() <= 255 {
            lemma_encode_one(f);
            assert(frames_for(seq![f], addr.function)) by {
                assert forall|j: int| 0 <= j < seq![f].len() implies frame_for(
                    #[trigger] seq![f][j],
                    addr.function,
                ) by {
                    assert(seq![f][j] == f);
                }
            }
            lemma_frames_whole(seq![f], addr.function);
        } else {
            assert(v@ =~= encode_frames(Seq::<Frame>::empty()));
            lemma_frames_whole(Seq::<Frame>::empty(), addr.function);
        }
    }
    v
}

/// A reply carrying a value.
fn status(f: u8, o: u8, payload: &[u8]) -> (v: Vec<u8>)
    ensures
        payload@.len() <= 255 ==> v@ == encode_frame(
            Frame { addr: Addr { function: f, opcode: o }, operator: Operator::Status, payload: payload@ },
        ),
        payload@.len() > 255 ==> v@.len() == 0,
        v@ == status_bytes(f, o, payload@),
        whole_for(v@, f),
{
    bytes(Addr::at(f, o), Operator::Status, payload)
}

/// `04` with a reason: `03` function absent, `04` opcode absent, `05` operator
/// not valid here, `06` argument not accepted.
fn refusal(f: u8, o: u8, code: u8) -> (v: Vec<u8>)
    ensures
        v@ == encode_frame(
            Frame { addr: Addr { function: f, opcode: o }, operator: Operator::Error, payload: seq![code] },
        ),
        whole_for(v@, f),
{
    let reason = [code];
    proof {
        assert(reason@ =~= seq![code]);
    }
    bytes(Addr::at(f, o), Operator::Error, &reason)
}

/// Each record either encodes one frame or, too long to frame, nothing: which
/// frames a reply built from such records carries.
proof fn lemma_record_frames(v: Seq<u8>, f: Frame)
    requires
        v.len() == 0 || v == encode_frame(f),
        f.payload.len() <= 255,
        operator_canonical(f.operator),
    ensures
        v == encode_frames(if v.len() == 0 { Seq::<Frame>::empty() } else { seq![f] }),
{
    if v.len() != 0 {
        lemma_encode_one(f);
    } else {
        assert(v =~= encode_frames(Seq::<Frame>::empty()));
    }
}

/// A function listing itself: `Processing` acknowledges it, the records follow
/// as `Status`, then a zero-length `Result` closes it.
fn listing(f: u8, records: &Vec<(u8, Vec<u8>)>) -> (out: Vec<u8>)
    ensures
        out@ == listing_bytes(f, record_views(records@)),
        whole_for(out@, f),
{
    let empty: [u8; 0] = [];
    let mut out = bytes(Addr::at(f, 0x01), Operator::Processing, &empty);
    let ghost first = Frame {
        addr: Addr { function: f, opcode: 0x01 },
        operator: Operator::Processing,
        payload: empty@,
    };
    let ghost mut fs: Seq<Frame> = seq![first];
    let ghost head = out@;
    let ghost recs = record_views(records@);
    proof {
        assert(empty@ =~= Seq::<u8>::empty());
        lemma_record_frames(out@, first);
        assert(out@ == encode_frames(fs));
        assert(frames_for(fs, f));
    }
    let mut i: usize = 0;
    while i < records.len()
        invariant
            i <= records@.len(),
            out@ == encode_frames(fs),
            frames_for(fs, f),
            recs == record_views(records@),
            head == frame_bytes(Addr { function: f, opcode: 0x01 }, Operator::Processing, Seq::empty()),
            out@ == head + records_bytes(f, recs.subrange(0, i as int)),
        decreases records@.len() - i,
    {
        let record = status(f, records[i].0, records[i].1.as_slice());
        let ghost before = out@;
        push_bytes(&mut out, record.as_slice());
        proof {
            assert(recs.subrange(0, i + 1).drop_last() =~= recs.subrange(0, i as int));
            assert(recs[i as int] == (records@[i as int].0, records@[i as int].1@));
            assert(out@ =~= head + records_bytes(f, recs.subrange(0, i + 1)));
            if record@.len() > 0 {
                let fr = Frame {
                    addr: Addr { function: f, opcode: records@[i as int].0 },
                    operator: Operator::Status,
                    payload: records@[i as int].1@,
                };
                lemma_encode_frames_push(fs, fr);
                let old_fs = fs;
                fs = fs.push(fr);
                assert forall|j: int| 0 <= j < fs.len() implies frame_for(#[trigger] fs[j], f) by {
                    if j < old_fs.len() {
                        assert(fs[j] == old_fs[j]);
                    }
                }
            } else {
                assert(out@ =~= before);
            }
        }
        i = i + 1;
    }
    let end = bytes(Addr::at(f, 0x01), Operator::Result, &empty);
    let ghost before = out@;
    push_bytes(&mut out, end.as_slice());
    proof {
        let last = Frame { addr: Addr { function: f, opcode: 0x01 }, operator: Operator::Result, payload: empty@ };
        lemma_encode_frames_push(fs, last);
        let old_fs = fs;
        fs = fs.push(last);
        assert forall|j: int| 0 <= j < fs.len() implies frame_for(#[trigger] fs[j], f) by {
            if j < old_fs.len() {
                assert(fs[j] == old_fs[j]);
            }
        }
        lemma_frames_whole(fs, f);
        assert(recs.subrange(0, records@.len() as int) =~= recs);
        assert(out@ =~= listing_bytes(f, recs));
    }
    out
}
/// The UTF-8 bytes of a text.
fn text(s: &str) -> (v: Vec<u8>)
    ensures
        v@ == encode_utf8(s@),
{
    str_bytes(s)
}

/// A name as a `01 02` read carries it: a leading `00`, then the text.
fn named(s: &str) -> (v: Vec<u8>)
    ensures
        v@ == seq![0u8] + encode_utf8(s@),
{
    let mut v: Vec<u8> = vec![0u8];
    let t = str_bytes(s);
    push_bytes(&mut v, t.as_slice());
    proof {
        assert(v@ =~= seq![0u8] + encode_utf8(s@));
    }
    v
}

/// A device that answers what it is scripted with and refuses everything else
/// with the code a real one uses for a function it does not implement.
struct Profile(Scripted);

impl Profile {
    /// Every reply scripted so far is whole and about the function asked.
    spec fn in_kind(&self) -> bool {
        answers_in_kind(self.0.script())
    }

    /// What the device answers, entry by entry.
    spec fn script(&self) -> Seq<Entry> {
        self.0.script()
    }

    /// Script one more answer, keeping every reply whole and in kind.
    fn answer(self, request: &[u8], reply: &[u8]) -> (p: Profile)
        requires
            self.in_kind(),
            request@.len() >= 1,
            whole_for(reply@, request@[0]),
        ensures
            p.in_kind(),
            p.script() == self.script().push((request@, Some(reply@))),
            p.0.owed() == self.0.owed(),
            p.0.sent_log() == self.0.sent_log(),
    {
        let s = self.0.on(request, reply);
        proof {
            lemma_in_kind_push(self.0.script(), (request@, Some(reply@)));
        }
        Profile(s)
    }

    fn new() -> (p: Profile)
        ensures
            p.in_kind(),
            p.script() == hello_entries(),
            p.0.owed() is None,
            p.0.sent_log() == Seq::<Seq<u8>>::empty(),
    {
        // The handshake. Some devices answer nothing at all until it is sent.
        let hello = status(0x00, 0x01, text("1.0.4").as_slice());
        let request = [0x00u8, 0x01, 0x01, 0x00];
        let empty = Profile(Scripted::new());
        proof {
            assert(empty.0.script() =~= Seq::<(Seq<u8>, Option<Seq<u8>>)>::empty());
            assert(request@ =~= seq![0x00u8, 0x01, 0x01, 0x00]);
        }
        let p = empty.answer(&request, hello.as_slice());
        proof {
            assert(p.script() =~= hello_entries());
        }
        p
    }

    fn read(self, f: u8, o: u8, payload: &[u8]) -> (p: Profile)
        requires
            self.in_kind(),
        ensures
            p.in_kind(),
            p.script() == self.script().push(read_entry(f, o, payload@)),
            p.0.owed() == self.0.owed(),
            p.0.sent_log() == self.0.sent_log(),
    {
        let reply = status(f, o, payload);
        let request = [f, o, 0x01, 0x00];
        proof {
            assert(request@ =~= seq![f, o, 0x01, 0x00]);
        }
        self.answer(&request, reply.as_slice())
    }

    /// A read, plus the writes this record accepts. Anything else is refused
    /// with "function absent" by the script's default.
    fn writable(self, f: u8, o: u8, payload: &[u8], accepted: Vec<Vec<u8>>) -> (p: Profile)
        requires
            self.in_kind(),
        ensures
            p.in_kind(),
            p.script() == self.script() + writable_entries(
                f,
                o,
                payload@,
                accepted@.map_values(|w: Vec<u8>| w@),
            ),
            p.0.owed() == self.0.owed(),
            p.0.sent_log() == self.0.sent_log(),
    {
        let ghost ws = accepted@.map_values(|w: Vec<u8>| w@);
        let mut p = self.read(f, o, payload);
        let reply = status(f, o, payload);
        let mut i: usize = 0;
        while i < accepted.len()
            invariant
                i <= accepted@.len(),
                ws == accepted@.map_values(|w: Vec<u8>| w@),
                p.in_kind(),
                whole_for(reply@, f),
                reply@ == status_bytes(f, o, payload@),
                p.script() == self.script() + seq![read_entry(f, o, payload@)] + ws.subrange(
                    0,
                    i as int,
                ).map_values(|w: Seq<u8>| write_entry(f, o, payload@, w)),
                p.0.owed() == self.0.owed(),
                p.0.sent_log() == self.0.sent_log(),
            decreases accepted@.len() - i,
        {
            let w = &accepted[i];
            let mut req: Vec<u8> = vec![f, o, 0x02, (w.len() % 256) as u8];
            let ghost head = req@;
            push_bytes(&mut req, w.as_slice());
            proof {
                assert(req@[0] == head[0]);
                assert(req@ =~= seq![f, o, 0x02, (w@.len() % 256) as u8] + w@);
                assert(ws[i as int] == w@);
                assert(ws.subrange(0, i + 1).map_values(|w: Seq<u8>| write_entry(f, o, payload@, w))
                    =~= ws.subrange(0, i as int).map_values(
                    |w: Seq<u8>| write_entry(f, o, payload@, w),
                ).push(write_entry(f, o, payload@, w@)));
            }
            p = p.answer(req.as_slice(), reply.as_slice());
            i = i + 1;
        }
        proof {
            assert(ws.subrange(0, ws.len() as int) =~= ws);
            assert(p.script() =~= self.script() + writable_entries(f, o, payload@, ws));
        }
        p
    }

    fn lists(self, f: u8, records: Vec<(u8, Vec<u8>)>) -> (p: Profile)
        requires
            self.in_kind(),
        ensures
            p.in_kind(),
            p.script() == self.script() + lists_entries(f, record_views(records@)),
            p.0.owed() == self.0.owed(),
            p.0.sent_log() == self.0.sent_log(),
    {
        let ghost recs = record_views(records@);
        let all = listing(f, &records);
        let request = [f, 0x01, 0x05, 0x00];
        proof {
            assert(request@ =~= seq![f, 0x01, 0x05, 0x00]);
        }
        let mut p = self.answer(&request, all.as_slice());
        let ghost base = p.script();
        let mut i: usize = 0;
        while i < records.len()
            invariant
                i <= records@.len(),
                recs == record_views(records@),
                p.in_kind(),
                base == self.script().push((seq![f, 0x01, 0x05, 0x00], Some(listing_bytes(f, recs)))),
                p.script() == base + recs.subrange(0, i as int).map_values(
                    |r: (u8, Seq<u8>)| read_entry(f, r.0, r.1),
                ),
                p.0.owed() == self.0.owed(),
                p.0.sent_log() == self.0.sent_log(),
            decreases records@.len() - i,
        {
            let o = records[i].0;
            p = p.read(f, o, records[i].1.as_slice());
            proof {
                assert(recs[i as int] == (o, records@[i as int].1@));
                assert(recs.subrange(0, i + 1).map_values(|r: (u8, Seq<u8>)| read_entry(f, r.0, r.1))
                    =~= recs.subrange(0, i as int).map_values(
                    |r: (u8, Seq<u8>)| read_entry(f, r.0, r.1),
                ).push(read_entry(f, o, records@[i as int].1@)));
            }
            i = i + 1;
        }
        proof {
            assert(recs.subrange(0, recs.len() as int) =~= recs);
            assert(p.script() =~= self.script() + lists_entries(f, recs));
        }
        p
    }

    /// Mode selection: a `Start` of `<index> <announce>` answered by a `Result`
    /// carrying the mode the device settled on. Scripts both prompt values for
    /// every index in `0..slots`, so a caller can select any of them.
    fn selects(self, slots: u8) -> (p: Profile)
        requires
            self.in_kind(),
        ensures
            p.in_kind(),
            p.script() == self.script() + selects_entries(slots as nat),
            p.0.owed() == self.0.owed(),
            p.0.sent_log() == self.0.sent_log(),
    {
        let mut p = self;
        let mut index: u8 = 0;
        while index < slots
            invariant
                index <= slots,
                p.in_kind(),
                p.script() == self.script() + selects_entries(index as nat),
                p.0.owed() == self.0.owed(),
                p.0.sent_log() == self.0.sent_log(),
            decreases slots - index,
        {
            let settled = [index];
            let reply = bytes(Addr::at(0x1f, 0x03), Operator::Result, &settled);
            let quiet = [0x1fu8, 0x03, 0x05, 0x02, index, 0x00];
            let announced = [0x1fu8, 0x03, 0x05, 0x02, index, 0x01];
            proof {
                assert(quiet@[0] == 0x1f && announced@[0] == 0x1f);
            }
            p = p.answer(&quiet, reply.as_slice());
            p = p.answer(&announced, reply.as_slice());
            proof {
                let n = index as nat;
                assert(settled@ =~= seq![index]);
                assert(selects_entries(n + 1) =~= selects_entries(n).push(
                    (quiet@, Some(reply@)),
                ).push((announced@, Some(reply@)))) by {
                    assert(quiet@ =~= seq![0x1fu8, 0x03, 0x05, 0x02, ((2 * n) / 2) as u8, ((2 * n) % 2) as u8]);
                    assert(announced@ =~= seq![0x1fu8, 0x03, 0x05, 0x02, ((2 * n + 1) / 2) as u8, ((2 * n + 1) % 2) as u8]);
                }
                assert(p.script() =~= self.script() + selects_entries(n + 1));
            }
            index = index + 1;
        }
        p
    }

    /// Mode reset: a `Start` of `<index>` at `1f 09`, answered by an empty
    /// `Result`, for every index in `0..slots`.
    fn resets(self, slots: u8) -> (p: Profile)
        requires
            self.in_kind(),
        ensures
            p.in_kind(),
            p.script() == self.script() + resets_entries(slots as nat),
            p.0.owed() == self.0.owed(),
            p.0.sent_log() == self.0.sent_log(),
    {
        let mut p = self;
        let empty: [u8; 0] = [];
        let reply = bytes(Addr::at(0x1f, 0x09), Operator::Result, &empty);
        proof {
            assert(empty@ =~= Seq::<u8>::empty());
        }
        let mut index: u8 = 0;
        while index < slots
            invariant
                index <= slots,
                p.in_kind(),
                whole_for(reply@, 0x1f),
                reply@ == frame_bytes(Addr { function: 0x1f, opcode: 0x09 }, Operator::Result, Seq::empty()),
                p.script() == self.script() + resets_entries(index as nat),
                p.0.owed() == self.0.owed(),
                p.0.sent_log() == self.0.sent_log(),
            decreases slots - index,
        {
            let request = [0x1fu8, 0x09, 0x05, 0x01, index];
            proof {
                assert(request@[0] == 0x1f);
            }
            p = p.answer(&request, reply.as_slice());
            proof {
                assert(request@ =~= seq![0x1fu8, 0x09, 0x05, 0x01, index]);
                assert(resets_entries(index as nat + 1) =~= resets_entries(index as nat).push(
                    (request@, Some(reply@)),
                ));
                assert(p.script() =~= self.script() + resets_entries(index as nat + 1));
            }
            index = index + 1;
        }
        p
    }

    /// Exists, will not list itself. Five functions on the Ultra do this while
    /// holding data, so the surface must leave their opcodes unproven.
    fn opaque(self, f: u8) -> (p: Profile)
        requires
            self.in_kind(),
        ensures
            p.in_kind(),
            p.script() == self.script() + opaque_entries(f),
            p.0.owed() == self.0.owed(),
            p.0.sent_log() == self.0.sent_log(),
    {
        let refused = refusal(f, 0x01, 0x05);
        let version = status(f, 0x00, text("1.1.0").as_slice());
        let listing_request = [f, 0x01, 0x05, 0x00];
        let version_request = [f, 0x00, 0x01, 0x00];
        proof {
            assert(listing_request@ =~= seq![f, 0x01, 0x05, 0x00]);
            assert(version_request@ =~= seq![f, 0x00, 0x01, 0x00]);
        }
        let p = self.answer(&listing_request, refused.as_slice()).answer(&version_request, version.as_slice());
        proof {
            assert(p.script() =~= self.script() + opaque_entries(f));
        }
        p
    }

    fn refuses(self, f: u8, o: u8, code: u8) -> (p: Profile)
        requires
            self.in_kind(),
        ensures
            p.in_kind(),
            p.script() == self.script().push(refuses_entry(f, o, code)),
            p.0.owed() == self.0.owed(),
            p.0.sent_log() == self.0.sent_log(),
    {
        let refused = refusal(f, o, code);
        let request = [f, o, 0x01, 0x00];
        proof {
            assert(request@ =~= seq![f, o, 0x01, 0x00]);
        }
        self.answer(&request, refused.as_slice())
    }

    /// Neither a reply nor a refusal — the third answer.
    fn silent(self, f: u8, o: u8) -> (p: Profile)
        requires
            self.in_kind(),
        ensures
            p.in_kind(),
            p.script() == self.script().push(silent_entry(f, o)),
            p.0.owed() == self.0.owed(),
            p.0.sent_log() == self.0.sent_log(),
    {
        let request = [f, o, 0x01, 0x00];
        let s = self.0.silent(&request);
        proof {
            assert(request@ =~= seq![f, o, 0x01, 0x00]);
            lemma_in_kind_push(self.0.script(), (request@, None::<Seq<u8>>));
        }
        Profile(s)
    }

    fn done(self) -> (s: Scripted)
        ensures
            s == self.0,
    {
        self.0
    }
}

/// QuietComfort 35, `0x400c`, firmware 3.0.3, channel 8.
///
/// Eight functions. Noise cancelling at `01 06`; no equaliser, no immersive
/// audio, no modes. Battery is one byte.
pub fn qc35() -> (s: Scripted)
    ensures
        answers_in_kind(s.script()),
        s.script() == qc35_script(),
        s.owed() is None,
        s.sent_log().len() == 0,
{
    let id = [0x40u8, 0x0c, 0x02];
    let functions = vec![
        (0x02u8, named("qc35")),
        (0x03u8, vec![0xa1u8, 0x00, 0x04, 0xc3, 0xde]),
        (0x04u8, vec![0x3cu8]),
        (0x06u8, vec![0x01u8, 0x0b]),
    ];
    let anc = [0x01u8, 0x0b];
    let anc_writes = vec![vec![0x03u8], vec![0x00u8], vec![0x01u8]];
    let name = named("qc35");
    let name_writes = vec![text("renamed")];
    let battery = vec![(0x02u8, vec![0x46u8])];
    let paired = [0xaau8, 0xbb, 0xcc, 0x00, 0x00, 0x01];
    let volume = [0x19u8, 0x0e];
    let volume_writes = vec![vec![0x05u8], vec![0x18u8]];
    proof {
        assert(id@ =~= seq![0x40u8, 0x0c, 0x02]);
        assert(record_views(functions@) =~~= seq![
            (0x02u8, named_bytes("qc35")),
            (0x03u8, seq![0xa1u8, 0x00, 0x04, 0xc3, 0xde]),
            (0x04u8, seq![0x3cu8]),
            (0x06u8, seq![0x01u8, 0x0b]),
        ]);
        assert(anc@ =~= seq![0x01u8, 0x0b]);
        assert(anc_writes@.map_values(|w: Vec<u8>| w@) =~~= seq![seq![0x03u8], seq![0x00u8], seq![0x01u8]]);
        assert(name_writes@.map_values(|w: Vec<u8>| w@) =~~= seq![encode_utf8("renamed"@)]);
        assert(record_views(battery@) =~~= seq![(0x02u8, seq![0x46u8])]);
        assert(paired@ =~= seq![0xaau8, 0xbb, 0xcc, 0x00, 0x00, 0x01]);
        assert(volume@ =~= seq![0x19u8, 0x0e]);
        assert(volume_writes@.map_values(|w: Vec<u8>| w@) =~~= seq![seq![0x05u8], seq![0x18u8]]);
    }
    let p = Profile::new()
        .opaque(0x00)
        .read(0x00, 0x03, &id)
        .read(0x00, 0x05, text("3.0.3").as_slice())
        .read(0x00, 0x07, text("REDACTED-SERIAL").as_slice())
        .refuses(0x00, 0x0f, 0x04)
        .lists(0x01, functions)
        // The equaliser opcode does not refuse here — it says nothing at all.
        .silent(0x01, 0x07)
        .writable(0x01, 0x06, &anc, anc_writes)
        .writable(0x01, 0x02, name.as_slice(), name_writes)
        .lists(0x02, battery)
        .opaque(0x04)
        .read(0x04, 0x09, &paired)
        .opaque(0x05)
        .writable(0x05, 0x05, &volume, volume_writes)
        .refuses(0x05, 0x0f, 0x04);
    proof {
        assert(p.script() =~= qc35_script());
    }
    p.done()
}

/// QuietComfort Ultra Headphones, `0x4066`, channel 1.
///
/// Noise cancelling moved to `01 05` and the old opcode refuses; function `1f`
/// carries the modes; battery is four bytes per cell.
pub fn ultra_hp() -> (s: Scripted)
    ensures
        answers_in_kind(s.script()),
        s.script() == ultra_hp_script(),
        s.owed() is None,
        s.sent_log().len() == 0,
{
    let id = [0x40u8, 0x66, 0x01];
    let functions = vec![
        (0x00u8, text("1.1.0")),
        (0x02u8, named("ultra-hp")),
        (0x03u8, vec![0xe1u8, 0x00, 0x01, 0x81, 0x5e, 0x01, 0x01]),
        (0x04u8, vec![0x05u8, 0x00, 0x00]),
        (0x05u8, vec![0x0bu8, 0x0a, 0x03]),
        (0x07u8, vec![0xf6u8, 0x0a, 0x02, 0x00, 0xf6, 0x0a, 0x00, 0x01, 0xf6, 0x0a, 0x02, 0x02]),
        (0x0au8, vec![0x01u8]),
        (0x18u8, vec![0x00u8]),
        (0x1bu8, vec![0x01u8]),
    ];
    let on = [0x01u8];
    let off = [0x00u8];
    let multipoint_writes = vec![vec![0x00u8], vec![0x01u8]];
    let detection_writes = vec![vec![0x00u8], vec![0x01u8]];
    let prompts = [0xe1u8, 0x00, 0x01, 0x81, 0x5e, 0x01, 0x01];
    let prompts_writes = vec![vec![0x21u8, 0x01], vec![0x26u8, 0x00]];
    let bands = [0xf6u8, 0x0a, 0x02, 0x00, 0xf6, 0x0a, 0x00, 0x01, 0xf6, 0x0a, 0x02, 0x02];
    let bands_writes = vec![vec![0x06u8, 0x00], vec![0x0au8, 0x00]];
    let battery = vec![(0x02u8, vec![0x5au8, 0xff, 0xff, 0x00])];
    let remember_writes = vec![vec![0x00u8], vec![0x01u8]];
    proof {
        assert(id@ =~= seq![0x40u8, 0x66, 0x01]);
        assert(record_views(functions@) =~~= ultra_hp_functions());
        assert(on@ =~= seq![0x01u8]);
        assert(off@ =~= seq![0x00u8]);
        assert(multipoint_writes@.map_values(|w: Vec<u8>| w@) =~~= seq![seq![0x00u8], seq![0x01u8]]);
        assert(detection_writes@.map_values(|w: Vec<u8>| w@) =~~= seq![seq![0x00u8], seq![0x01u8]]);
        assert(prompts@ =~= seq![0xe1u8, 0x00, 0x01, 0x81, 0x5e, 0x01, 0x01]);
        assert(prompts_writes@.map_values(|w: Vec<u8>| w@) =~~= seq![seq![0x21u8, 0x01], seq![0x26u8, 0x00]]);
        assert(bands@ =~= seq![0xf6u8, 0x0a, 0x02, 0x00, 0xf6, 0x0a, 0x00, 0x01, 0xf6, 0x0a, 0x02, 0x02]);
        assert(bands_writes@.map_values(|w: Vec<u8>| w@) =~~= seq![seq![0x06u8, 0x00], seq![0x0au8, 0x00]]);
        assert(record_views(battery@) =~~= seq![(0x02u8, seq![0x5au8, 0xff, 0xff, 0x00])]);
        assert(remember_writes@.map_values(|w: Vec<u8>| w@) =~~= seq![seq![0x00u8], seq![0x01u8]]);
    }
    let p = Profile::new()
        .opaque(0x00)
        .read(0x00, 0x01, text("1.2.0").as_slice())
        .read(0x00, 0x03, &id)
        .read(0x00, 0x05, text("1.6.7+g6ebabd2").as_slice())
        .read(0x00, 0x07, text("REDACTED-SERIAL").as_slice())
        .read(0x00, 0x0f, text("Bose QC Ultra Headphones").as_slice())
        .lists(0x01, functions)
        .refuses(0x01, 0x06, 0x04)
        .writable(0x01, 0x0a, &on, multipoint_writes)
        .writable(0x01, 0x18, &off, detection_writes)
        .writable(0x01, 0x03, &prompts, prompts_writes)
        .writable(0x01, 0x07, &bands, bands_writes)
        .lists(0x02, battery)
        .opaque(0x04)
        .opaque(0x05)
        .read(0x05, 0x0f, &off)
        .opaque(0x07)
        .lists(0x1f, modes())
        .writable(0x1f, 0x05, &on, remember_writes)
        .selects(10)
        .resets(10);
    proof {
        assert(p.script() =~= ultra_hp_script());
    }
    p.done()
}

/// Sport Earbuds, `0x402D`, channel 8. **No noise cancelling at all**, and it
/// says so: both opcodes refuse. Two battery cells.
pub fn sport() -> (s: Scripted)
    ensures
        answers_in_kind(s.script()),
        s.script() == sport_script(),
        s.owed() is None,
        s.sent_log().len() == 0,
{
    let id = [0x40u8, 0x2d, 0x02];
    let functions = vec![(0x02u8, named("sport")), (0x03u8, vec![0xa1u8, 0x00, 0x01, 0x81, 0x5e, 0x01, 0x01])];
    let battery = vec![(0x02u8, vec![0x64u8, 0xff, 0xff, 0x01, 0x64, 0xff, 0xff, 0x02])];
    proof {
        assert(id@ =~= seq![0x40u8, 0x2d, 0x02]);
        assert(record_views(functions@) =~= seq![
            (0x02u8, named_bytes("sport")),
            (0x03u8, seq![0xa1u8, 0x00, 0x01, 0x81, 0x5e, 0x01, 0x01]),
        ]);
        assert(record_views(battery@) =~= seq![
            (0x02u8, seq![0x64u8, 0xff, 0xff, 0x01, 0x64, 0xff, 0xff, 0x02]),
        ]);
    }
    let p = Profile::new()
        .opaque(0x00)
        .read(0x00, 0x03, &id)
        .refuses(0x00, 0x0f, 0x04)
        .lists(0x01, functions)
        .refuses(0x01, 0x05, 0x04)
        .refuses(0x01, 0x06, 0x04)
        .lists(0x02, battery);
    proof {
        assert(p.script() =~= sport_script());
    }
    p.done()
}

/// One 47-byte slot record: the index, and for a stored mode its prompt, its
/// name from byte 6 (at most 35 bytes of it), its cancellation level at 42 and
/// wind block at 46; zero elsewhere.
pub open spec fn slot_bytes(index: u8, mode: Option<(Seq<u8>, u8)>, awareness: u8, wind: u8) -> Seq<u8> {
    Seq::new(
        47,
        |k: int|
            if k == 0 {
                index
            } else {
                match mode {
                    Some((name, prompt)) => if k == 2 {
                        prompt
                    } else if 6 <= k < 6 + name.len() && k < 41 {
                        name[k - 6]
                    } else if k == 42 {
                        awareness
                    } else if k == 46 {
                        wind
                    } else {
                        0u8
                    },
                    None => 0u8,
                }
            },
    )
}

/// A stored mode's slot.
pub open spec fn stored_slot(index: u8, name: &str, prompt: u8, awareness: u8, wind: u8) -> (u8, Seq<u8>) {
    (0x06, slot_bytes(index, Some((encode_utf8(name@), prompt)), awareness, wind))
}

/// The Ultra's mode records, in order: ten slots, five stored and five empty,
/// then the slot count, the current mode and remember-mode.
pub open spec fn mode_records() -> Seq<(u8, Seq<u8>)> {
    seq![
        stored_slot(0, "Quiet", 0x01, 0, 0),
        stored_slot(1, "Aware", 0x02, 10, 0),
        stored_slot(2, "Immersion", 0x22, 0, 0),
        stored_slot(3, "Focus", 0x0d, 5, 0),
        stored_slot(4, "Home", 0x0a, 8, 1),
    ] + Seq::new(5, |k: int| (0x06u8, slot_bytes((5 + k) as u8, None, 0, 0))) + seq![
        (0x08u8, seq![0x0au8, 0x00, 0x1f]),
        (0x03u8, seq![0x00u8]),
        (0x05u8, seq![0x01u8]),
    ]
}

/// Ten mode slots: five stored, five empty — each prompt id the one the real
/// record carries — then the slot count, the current mode and remember-mode.
fn modes() -> (out: Vec<(u8, Vec<u8>)>)
    ensures
        record_views(out@) == mode_records(),
{
    let mut out: Vec<(u8, Vec<u8>)> = Vec::new();
    out.push((0x06, slot(0, Some(("Quiet", 0x01)), 0, 0)));
    out.push((0x06, slot(1, Some(("Aware", 0x02)), 10, 0)));
    out.push((0x06, slot(2, Some(("Immersion", 0x22)), 0, 0)));
    out.push((0x06, slot(3, Some(("Focus", 0x0d)), 5, 0)));
    out.push((0x06, slot(4, Some(("Home", 0x0a)), 8, 1)));
    let ghost stored = seq![
        stored_slot(0, "Quiet", 0x01, 0, 0),
        stored_slot(1, "Aware", 0x02, 10, 0),
        stored_slot(2, "Immersion", 0x22, 0, 0),
        stored_slot(3, "Focus", 0x0d, 5, 0),
        stored_slot(4, "Home", 0x0a, 8, 1),
    ];
    proof {
        assert(record_views(out@) =~= stored);
    }
    let mut i: u8 = 5;
    while i < 10
        invariant
            5 <= i <= 10,
            record_views(out@) == stored + Seq::new(
                (i - 5) as nat,
                |k: int| (0x06u8, slot_bytes((5 + k) as u8, None, 0, 0)),
            ),
        decreases 10 - i,
    {
        let ghost was = out@;
        let empty_slot = slot(i, None, 0, 0);
        let ghost es = empty_slot@;
        out.push((0x06, empty_slot));
        proof {
            assert(record_views(out@) =~= record_views(was).push((0x06u8, es)));
            assert(record_views(out@) =~= stored + Seq::new(
                (i + 1 - 5) as nat,
                |k: int| (0x06u8, slot_bytes((5 + k) as u8, None, 0, 0)),
            ));
        }
        i = i + 1;
    }
    let count = vec![0x0a, 0x00, 0x1f];
    let current = vec![0x00];
    let remember = vec![0x01];
    proof {
        assert(count@ =~= seq![0x0au8, 0x00, 0x1f]);
        assert(current@ =~= seq![0x00u8]);
        assert(remember@ =~= seq![0x01u8]);
    }
    let ghost before = record_views(out@);
    let ghost was = out@;
    out.push((0x08, count));
    out.push((0x03, current));
    out.push((0x05, remember));
    proof {
        assert(record_views(out@) =~= record_views(was).push((0x08u8, seq![0x0au8, 0x00, 0x1f])).push(
            (0x03u8, seq![0x00u8]),
        ).push((0x05u8, seq![0x01u8])));
        assert(record_views(out@) =~= before + seq![
            (0x08u8, seq![0x0au8, 0x00, 0x1f]),
            (0x03u8, seq![0x00u8]),
            (0x05u8, seq![0x01u8]),
        ]);
        assert(record_views(out@) =~= mode_records());
    }
    out
}

/// One 47-byte record. Byte 2 is the prompt — `0` marks an empty slot, since a
/// stored mode always names one. Byte 5 is favorite, byte 42 the cancellation
/// level, byte 46 wind block; none of those three marks occupancy. The name
/// runs from byte 6 and stops short of the settings at byte 41.
fn slot(index: u8, mode: Option<(&str, u8)>, awareness: u8, wind: u8) -> (r: Vec<u8>)
    ensures
        r@.len() == 47,
        r@ == slot_bytes(
            index,
            match mode {
                Some((name, prompt)) => Some((encode_utf8(name@), prompt)),
                None => None,
            },
            awareness,
            wind,
        ),
{
    let mut r: Vec<u8> = vec![0u8; 47];
    r.set(0, index);
    match mode {
        Some((name, prompt)) => {
            r.set(2, prompt);
            let b = str_bytes(name);
            let mut i: usize = 0;
            while i < b.len() && i < 35
                invariant
                    r@.len() == 47,
                    i <= 35,
                    i <= b@.len(),
                    b@ == encode_utf8(name@),
                    forall|k: int|
                        0 <= k < 47 ==> #[trigger] r@[k] == if k == 0 {
                            index
                        } else if k == 2 {
                            prompt
                        } else if 6 <= k < 6 + i {
                            b@[k - 6]
                        } else {
                            0u8
                        },
                decreases 35 - i,
            {
                r.set(6 + i, b[i]);
                i = i + 1;
            }
            r.set(42, awareness);
            r.set(46, wind);
            proof {
                assert(r@ =~= slot_bytes(index, Some((b@, prompt)), awareness, wind));
            }
        },
        None => {
            proof {
                assert(r@ =~= slot_bytes(index, None, awareness, wind));
            }
        },
    }
    r
}

} // verus!
