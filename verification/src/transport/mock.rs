//! Transports that answer from a script instead of a device.
//!
//! This is the reason [`Transport`] is a trait. Recorded exchanges from four
//! models exercise code paths nobody could otherwise reach without owning all
//! four; see the `fixtures` module.

use vstd::prelude::*;
use vstd::slice::slice_to_vec;

use super::{arrival, Arrival, Recording, Transport};
use crate::error::{ErrorKind, IoError};

verus! {

/// `true` when the two byte strings are equal.
pub fn bytes_eq(a: &[u8], b: &[u8]) -> (r: bool)
    ensures
        r == (a@ == b@),
{
    if a.len() != b.len() {
        return false;
    }
    let mut i: usize = 0;
    while i < a.len()
        invariant
            a@.len() == b@.len(),
            i <= a@.len(),
            forall|j: int| 0 <= j < i ==> a@[j] == b@[j],
        decreases a@.len() - i,
    {
        if a[i] != b[i] {
            return false;
        }
        i = i + 1;
    }
    proof {
        assert(a@ =~= b@);
    }
    true
}

/// Hand over what fits of `reply`, the way a stream socket does: the first
/// `min(reply.len(), buf.len())` bytes, in place.
fn fill(buf: &mut [u8], reply: &[u8]) -> (n: usize)
    ensures
        n == if reply@.len() < old(buf)@.len() {
            reply@.len()
        } else {
            old(buf)@.len()
        },
        final(buf)@ == reply@.subrange(0, n as int) + old(buf)@.subrange(n as int, old(buf)@.len() as int),
{
    let n = if reply.len() < buf.len() {
        reply.len()
    } else {
        buf.len()
    };
    let ghost original = buf@;
    let mut i: usize = 0;
    while i < n
        invariant
            n <= reply@.len(),
            n <= original.len(),
            buf@.len() == original.len(),
            i <= n,
            buf@ == reply@.subrange(0, i as int) + original.subrange(i as int, original.len() as int),
        decreases n - i,
    {
        buf[i] = reply[i];
        i = i + 1;
        proof {
            assert(buf@ =~= reply@.subrange(0, i as int) + original.subrange(
                i as int,
                original.len() as int,
            ));
        }
    }
    n
}

/// What a reply left after `n` of it was handed over.
pub open spec fn remainder(reply: Seq<u8>, n: int) -> Option<Seq<u8>> {
    if n < reply.len() {
        Some(reply.subrange(n, reply.len() as int))
    } else {
        None
    }
}

/// A reply is handed over once: once a receive has taken all of it, nothing is
/// owed, and the next receive times out rather than repeating it.
pub proof fn lemma_reply_given_once(reply: Seq<u8>, n: int)
    requires
        n >= reply.len(),
    ensures
        remainder(reply, n) is None,
{
}

/// A transport that answers from a script instead of a device.
///
/// Each entry of `replies` answers the next receive, in turn; `None` is
/// silence.
pub struct Replay {
    pub replies: Vec<Option<Vec<u8>>>,
    pub sent: Vec<Vec<u8>>,
    next: usize,
    /// What each receive handed over, in order.
    arrived: Ghost<Seq<Arrival>>,
}

/// A script entry as bytes.
pub open spec fn entry_view(e: Option<Vec<u8>>) -> Option<Seq<u8>> {
    match e {
        Some(v) => Some(v@),
        None => None,
    }
}

impl Replay {
    /// Each entry is the reply to the next request; `None` means silence.
    pub fn new(replies: Vec<Option<Vec<u8>>>) -> (r: Replay)
        ensures
            r.queued() == replies@.map_values(|e: Option<Vec<u8>>| entry_view(e)),
            r.records(),
            r.sent_log().len() == 0,
            r.heard().len() == 0,
            r.turn() == 0,
    {
        Replay { replies, sent: Vec::new(), next: 0, arrived: Ghost(Seq::empty()) }
    }

    /// The replies scripted, in turn order, with the unread tail of a reply
    /// that did not fit placed right after it.
    pub closed spec fn queued(&self) -> Seq<Option<Seq<u8>>> {
        self.replies@.map_values(|e: Option<Vec<u8>>| entry_view(e))
    }

    /// How many receives have been answered.
    pub closed spec fn turn(&self) -> nat {
        self.next as nat
    }
}

/// The script entry a turn reads: silence past the end.
pub open spec fn replay_entry(replies: Seq<Option<Seq<u8>>>, turn: nat) -> Option<Seq<u8>> {
    if turn < replies.len() {
        replies[turn as int]
    } else {
        None
    }
}

impl Transport for Replay {
    open spec fn records(&self) -> bool {
        true
    }

    open spec fn sends_always(&self) -> bool {
        true
    }

    closed spec fn sent_log(&self) -> Seq<Seq<u8>> {
        self.sent@.map_values(|v: Vec<u8>| v@)
    }

    closed spec fn heard(&self) -> Seq<Arrival> {
        self.arrived@
    }

    fn send(&mut self, data: &[u8]) -> (r: Result<(), IoError>)
        ensures
            r is Ok,
            final(self).sent_log() == old(self).sent_log().push(data@),
            final(self).queued() == old(self).queued(),
            final(self).turn() == old(self).turn(),
    {
        self.sent.push(slice_to_vec(data));
        proof {
            assert(self.sent_log() =~= old(self).sent_log().push(data@));
        }
        Ok(())
    }

    /// The next entry, or as much of it as fits; what does not fit is served
    /// by the receive after, the way a stream socket does.
    fn recv(&mut self, buf: &mut [u8]) -> (r: Result<usize, IoError>)
        ensures
            final(self).sent_log() == old(self).sent_log(),
            old(self).turn() < old(self).queued().len() ==> final(self).turn() == (old(self).turn() + 1) as int,
            match replay_entry(old(self).queued(), old(self).turn()) {
                None => r matches Err(e) && e.kind == ErrorKind::TimedOut && final(self).queued()
                    == old(self).queued(),
                Some(reply) => r matches Ok(n) && final(buf)@.subrange(0, n as int)
                    == reply.subrange(0, n as int) && n == (if reply.len() < old(buf)@.len() {
                    reply.len()
                } else {
                    old(buf)@.len()
                }) && final(self).queued() == (if n < reply.len() {
                    old(self).queued().insert(
                        (old(self).turn() + 1) as int,
                        Some(reply.subrange(n as int, reply.len() as int)),
                    )
                } else {
                    old(self).queued()
                }),
            },
    {
        let reply: Option<Vec<u8>> = if self.next < self.replies.len() {
            match &self.replies[self.next] {
                Some(v) => Some(v.clone()),
                None => None,
            }
        } else {
            None
        };
        if self.next < usize::MAX {
            self.next = self.next + 1;
        }
        let r = match reply {
            Some(bytes) => {
                let n = fill(buf, bytes.as_slice());
                if n < bytes.len() && self.next <= self.replies.len() {
                    let rest = slice_to_vec(vstd::slice::slice_subrange(bytes.as_slice(), n, bytes.len()));
                    let ghost q = self.replies@;
                    self.replies.insert(self.next, Some(rest));
                    proof {
                        assert(self.replies@ == q.insert(self.next as int, Some(rest)));
                        assert(self.queued() =~= old(self).queued().insert(
                            (old(self).turn() + 1) as int,
                            Some(bytes@.subrange(n as int, bytes@.len() as int)),
                        ));
                    }
                }
                proof {
                    assert(buf@.subrange(0, n as int) =~= bytes@.subrange(0, n as int));
                }
                Ok(n)
            },
            None => Err(IoError::new(ErrorKind::TimedOut, "scripted silence")),
        };
        self.arrived = Ghost(self.arrived@.push(arrival(r, buf@)));
        r
    }
}

impl Recording for Replay {
    fn sent(&self) -> (log: &[Vec<u8>]) {
        self.sent.as_slice()
    }
}

/// A transport that answers by request rather than by turn.
///
/// [`Replay`] is sequential, which is unreadable once a test drives sixty-four
/// capability probes. Here a test scripts only the records a model actually
/// has; anything unscripted is refused with "function absent", which is exactly
/// how a device behaves for the functions it does not implement.
pub struct Scripted {
    /// Request and reply, latest last; a later entry for a request replaces an
    /// earlier one.
    table: Vec<(Vec<u8>, Option<Vec<u8>>)>,
    last: Vec<u8>,
    /// The reply owed for the last request, drained as the caller reads. A
    /// device says a thing once; a double that repeats it forever turns any
    /// read-until-terminator loop into a spin.
    owed: Option<Vec<u8>>,
    log: Vec<Vec<u8>>,
    /// What each receive handed over, in order.
    arrived: Ghost<Seq<Arrival>>,
}

/// The scripted answer to `request` in `table`: the latest entry for it.
pub open spec fn lookup(table: Seq<(Seq<u8>, Option<Seq<u8>>)>, request: Seq<u8>) -> Option<
    Option<Seq<u8>>,
>
    decreases table.len(),
{
    if table.len() == 0 {
        None
    } else if table.last().0 == request {
        Some(table.last().1)
    } else {
        lookup(table.drop_last(), request)
    }
}

/// What a device without the function answers: `<fn> <op> 04 01 03`.
pub open spec fn function_absent_reply(request: Seq<u8>) -> Seq<u8> {
    seq![request[0], request[1], 0x04, 0x01, 0x03]
}

/// What a scripted device owes after being sent `request`.
pub open spec fn scripted_reply(table: Seq<(Seq<u8>, Option<Seq<u8>>)>, request: Seq<u8>) -> Option<Seq<u8>> {
    match lookup(table, request) {
        Some(reply) => reply,
        None => if request.len() >= 2 {
            Some(function_absent_reply(request))
        } else {
            None
        },
    }
}

impl Scripted {
    pub fn new() -> (s: Scripted)
        ensures
            s.script().len() == 0,
            s.owed() is None,
            s.records(),
            s.sent_log().len() == 0,
            s.heard().len() == 0,
    {
        Scripted { table: Vec::new(), last: Vec::new(), owed: None, log: Vec::new(), arrived: Ghost(Seq::empty()) }
    }

    /// The script, oldest entry first.
    pub closed spec fn script(&self) -> Seq<(Seq<u8>, Option<Seq<u8>>)> {
        self.table@.map_values(|e: (Vec<u8>, Option<Vec<u8>>)| (e.0@, match e.1 {
            Some(v) => Some(v@),
            None => None,
        }))
    }

    /// The reply still owed to the caller.
    pub closed spec fn owed(&self) -> Option<Seq<u8>> {
        match self.owed {
            Some(v) => Some(v@),
            None => None,
        }
    }

    /// Answer `request` with `reply`. Both are raw bytes.
    pub fn on(self, request: &[u8], reply: &[u8]) -> (s: Scripted)
        ensures
            s.script() == self.script().push((request@, Some(reply@))),
            s.owed() == self.owed(),
            s.sent_log() == self.sent_log(),
    {
        let mut s = self;
        s.table.push((slice_to_vec(request), Some(slice_to_vec(reply))));
        proof {
            assert(s.script() =~= self.script().push((request@, Some(reply@))));
        }
        s
    }

    /// Answer `request` with nothing at all — the third case.
    pub fn silent(self, request: &[u8]) -> (s: Scripted)
        ensures
            s.script() == self.script().push((request@, None::<Seq<u8>>)),
            s.owed() == self.owed(),
            s.sent_log() == self.sent_log(),
    {
        let mut s = self;
        s.table.push((slice_to_vec(request), None));
        proof {
            assert(s.script() =~= self.script().push((request@, None::<Seq<u8>>)));
        }
        s
    }

    /// The latest scripted answer for `data`.
    fn find(&self, data: &[u8]) -> (r: Option<Option<Vec<u8>>>)
        ensures
            match lookup(self.script(), data@) {
                None => r is None,
                Some(None) => r == Some(None::<Vec<u8>>),
                Some(Some(reply)) => r matches Some(Some(v)) && v@ == reply,
            },
    {
        let mut i = self.table.len();
        proof {
            assert(self.script().subrange(0, i as int) =~= self.script());
        }
        while i > 0
            invariant
                i <= self.table@.len(),
                lookup(self.script(), data@) == lookup(self.script().subrange(0, i as int), data@),
            decreases i,
        {
            let ghost s = self.script().subrange(0, i as int);
            proof {
                assert(s.drop_last() =~= self.script().subrange(0, i - 1));
            }
            if bytes_eq(self.table[i - 1].0.as_slice(), data) {
                return match &self.table[i - 1].1 {
                    Some(v) => Some(Some(v.clone())),
                    None => Some(None),
                };
            }
            i = i - 1;
        }
        None
    }
}

impl Default for Scripted {
    fn default() -> (s: Scripted)
        ensures
            s.script().len() == 0,
            s.owed() is None,
            s.sent_log().len() == 0,
    {
        Scripted::new()
    }
}

impl Transport for Scripted {
    open spec fn records(&self) -> bool {
        true
    }

    open spec fn sends_always(&self) -> bool {
        true
    }

    closed spec fn sent_log(&self) -> Seq<Seq<u8>> {
        self.log@.map_values(|v: Vec<u8>| v@)
    }

    closed spec fn heard(&self) -> Seq<Arrival> {
        self.arrived@
    }

    fn send(&mut self, data: &[u8]) -> (r: Result<(), IoError>)
        ensures
            r is Ok,
            final(self).sent_log() == old(self).sent_log().push(data@),
            final(self).script() == old(self).script(),
            final(self).owed() == scripted_reply(old(self).script(), data@),
    {
        self.last = slice_to_vec(data);
        self.log.push(slice_to_vec(data));
        self.owed = match self.find(data) {
            Some(reply) => reply,
            // Unscripted: refuse as a device does for a function it lacks.
            None => if data.len() >= 2 {
                Some(vec![data[0], data[1], 0x04, 0x01, 0x03])
            } else {
                None
            },
        };
        proof {
            assert(self.sent_log() =~= old(self).sent_log().push(data@));
            if lookup(old(self).script(), data@) is None && data@.len() >= 2 {
                assert(self.owed() =~= scripted_reply(old(self).script(), data@));
            }
        }
        Ok(())
    }

    fn recv(&mut self, buf: &mut [u8]) -> (r: Result<usize, IoError>)
        ensures
            final(self).script() == old(self).script(),
            final(self).sent_log() == old(self).sent_log(),
            match old(self).owed() {
                None => r matches Err(e) && e.kind == ErrorKind::TimedOut && final(self).owed() is None,
                Some(reply) => r matches Ok(n) && n == (if reply.len() < old(buf)@.len() {
                    reply.len()
                } else {
                    old(buf)@.len()
                }) && final(buf)@.subrange(0, n as int) == reply.subrange(0, n as int)
                    && final(self).owed() == remainder(reply, n as int),
            },
    {
        let reply = match self.owed.take() {
            Some(r) => r,
            None => {
                let r = Err(IoError::new(ErrorKind::TimedOut, "scripted silence"));
                self.arrived = Ghost(self.arrived@.push(arrival(r, buf@)));
                return r;
            },
        };
        // Hand over what fits and keep the tail, the way a stream socket does.
        let n = fill(buf, reply.as_slice());
        if n < reply.len() {
            self.owed = Some(slice_to_vec(vstd::slice::slice_subrange(reply.as_slice(), n, reply.len())));
        }
        proof {
            assert(buf@.subrange(0, n as int) =~= reply@.subrange(0, n as int));
        }
        self.arrived = Ghost(self.arrived@.push(arrival(Ok(n), buf@)));
        Ok(n)
    }
}

impl Recording for Scripted {
    fn sent(&self) -> (log: &[Vec<u8>]) {
        self.log.as_slice()
    }
}

} // verus!
