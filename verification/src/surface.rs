//! What this device answers.
//!
//! Every implementation of this protocol so far has answered that with a table
//! of device ids maintained by hand, and been wrong about every model its
//! author did not own. This asks the device.
//!
//! One enumeration per function in the catalog, at open. That is the cheap half
//! — `<fn> 01 05 00` returns a function's whole populated surface in a single
//! exchange, where probing opcode by opcode costs a round trip each and a
//! silent one costs the whole receive timeout.
//!
//! The expensive half is left undone until something asks: a function that
//! refuses to list itself may still be full of data, so its addresses stay
//! unproven and the first read settles them.

use std::collections::{BTreeMap, BTreeSet};

use vstd::laws_cmp::obeys_cmp;
use vstd::prelude::*;

use crate::catalog;
use crate::error::Result;
use crate::session::{enumerate_request, listing_in, Listing, ListingView, Session};
use crate::transport::Transport;
use crate::wire::{Addr, Refusal};

verus! {

/// What is known about one address, before asking.
#[derive(Debug, Clone, Copy, PartialEq, Eq, Structural)]
pub enum Known {
    /// Listed by an enumeration, or read successfully.
    Live,
    /// Its function is missing, its enumeration did not mention it, or a probe
    /// refused it.
    Absent,
    /// Its function will not list itself. Only a read will say.
    Unproven,
}

/// Every address, in order: by function, then by opcode.
pub open spec fn all_addrs() -> Seq<Addr> {
    Seq::new(65536, |k: int| Addr { function: (k / 256) as u8, opcode: (k % 256) as u8 })
}

/// What the surface says about `addr`, from what was listed, which functions
/// answered and what reads settled.
pub open spec fn state_of(
    listed: Map<u8, Set<u8>>,
    answering: Set<u8>,
    probed: Map<Addr, bool>,
    addr: Addr,
) -> Known {
    if probed.contains_key(addr) {
        if probed[addr] {
            Known::Live
        } else {
            Known::Absent
        }
    } else if listed.contains_key(addr.function) {
        // Opcode 00 is every function's version. It is never listed and it
        // always answers, so the sweep will not hand it to you.
        if addr.opcode == 0 || listed[addr.function].contains(addr.opcode) {
            Known::Live
        } else {
            Known::Absent
        }
    } else if answering.contains(addr.function) {
        Known::Unproven
    } else {
        Known::Absent
    }
}

/// Whether a listing says its function is there: anything but silence or a
/// refusal naming the function absent.
pub open spec fn answers(l: ListingView) -> bool {
    match l {
        ListingView::Records(_) => true,
        ListingView::Refused(why) => why != Refusal::FunctionAbsent,
        ListingView::Silent => false,
    }
}

/// The functions among `fs` that answered, from the replies to listing each in
/// turn.
pub open spec fn answering_from(fs: Seq<u8>, replies: Seq<Seq<u8>>) -> Set<u8>
    decreases fs.len(),
{
    if fs.len() == 0 || replies.len() == 0 {
        Set::empty()
    } else {
        let prev = answering_from(fs.drop_last(), replies.drop_last());
        if answers(listing_in(replies.last(), fs.last())) {
            prev.insert(fs.last())
        } else {
            prev
        }
    }
}

/// The functions among `fs` that listed something, with what they listed, from
/// the replies to listing each in turn.
pub open spec fn listed_from(fs: Seq<u8>, replies: Seq<Seq<u8>>) -> Map<u8, Set<u8>>
    decreases fs.len(),
{
    if fs.len() == 0 || replies.len() == 0 {
        Map::empty()
    } else {
        let prev = listed_from(fs.drop_last(), replies.drop_last());
        match listing_in(replies.last(), fs.last()) {
            ListingView::Records(ops) => if ops.len() > 0 {
                prev.insert(fs.last(), ops.to_set())
            } else {
                prev
            },
            _ => prev,
        }
    }
}

/// The surface's keys are ordered the way the tree maps and sets holding
/// them need.
pub(crate) open spec fn keys_ordered() -> bool {
    obeys_cmp::<u8>() && obeys_cmp::<(u8, u8)>()
}

/// Bytes, and pairs of bytes, are ordered as integers are.
pub(crate) proof fn lemma_keys_ordered()
    ensures
        keys_ordered(),
{
    assert(obeys_cmp::<u8>());
    assert(obeys_cmp::<(u8, u8)>());
}

#[derive(Debug, Clone, PartialEq, Eq)]
pub struct Surface {
    /// By function: the opcodes it listed, for functions that enumerated.
    ///
    /// Treated as authoritative for that function: an address it did not
    /// mention is reported absent. The captures' caveat — that an opcode
    /// holding only zeros appears to be omitted — means this can be wrong in
    /// one direction, so `scan` and the `raw` command bypass it.
    listed: BTreeMap<u8, BTreeSet<u8>>,
    /// Functions that answered at all, including those that refuse to list.
    functions: BTreeSet<u8>,
    /// By function and opcode: what a read settled.
    probed: BTreeMap<(u8, u8), bool>,
}

impl Surface {
    /// Every function that listed something answered.
    pub closed spec fn wf(&self) -> bool {
        forall|f: u8| #[trigger] self.listed@.contains_key(f) ==> self.functions@.contains(f)
    }

    /// Functions that enumerated, with the opcodes they listed.
    pub closed spec fn listed(&self) -> Map<u8, Set<u8>> {
        Map::new(|f: u8| self.listed@.contains_key(f), |f: u8| self.listed@[f]@)
    }

    /// Functions that answered at all.
    pub closed spec fn answering(&self) -> Set<u8> {
        self.functions@
    }

    /// Addresses a read has settled, and whether it found them live.
    pub closed spec fn probed(&self) -> Map<Addr, bool> {
        Map::new(
            |a: Addr| self.probed@.contains_key((a.function, a.opcode)),
            |a: Addr| self.probed@[(a.function, a.opcode)],
        )
    }

    /// A surface that knows nothing: every address absent.
    pub fn new() -> (s: Surface)
        ensures
            s.wf(),
            s.listed() == Map::<u8, Set<u8>>::empty(),
            s.answering() == Set::<u8>::empty(),
            s.probed() == Map::<Addr, bool>::empty(),
    {
        let s = Surface { listed: BTreeMap::new(), functions: BTreeSet::new(), probed: BTreeMap::new() };
        proof {
            assert(s.listed() =~= Map::<u8, Set<u8>>::empty());
            assert(s.answering() =~= Set::<u8>::empty());
            assert(s.probed() =~= Map::<Addr, bool>::empty());
        }
        s
    }

    /// What is known about `addr`, before asking.
    pub fn state(&self, addr: Addr) -> (k: Known)
        requires
            self.wf(),
        ensures
            k == state_of(self.listed(), self.answering(), self.probed(), addr),
    {
        proof {
            lemma_keys_ordered();
        }
        match self.probed.get(&(addr.function, addr.opcode)) {
            Some(live) => {
                return if *live {
                    Known::Live
                } else {
                    Known::Absent
                };
            },
            None => {},
        }
        match self.listed.get(&addr.function) {
            Some(ops) => {
                if addr.opcode == 0 || ops.contains(&addr.opcode) {
                    Known::Live
                } else {
                    Known::Absent
                }
            },
            None => {
                if self.functions.contains(&addr.function) {
                    Known::Unproven
                } else {
                    Known::Absent
                }
            },
        }
    }

    /// Record what a read found. Only structural answers get here: a value, or
    /// a refusal that says the function or the opcode is not there.
    pub fn settle(&mut self, addr: Addr, live: bool)
        requires
            old(self).wf(),
        ensures
            final(self).wf(),
            final(self).probed() == old(self).probed().insert(addr, live),
            final(self).listed() == old(self).listed(),
            final(self).answering() == old(self).answering(),
    {
        proof {
            lemma_keys_ordered();
        }
        self.probed.insert((addr.function, addr.opcode), live);
        proof {
            assert(self.probed() =~= old(self).probed().insert(addr, live));
            assert(self.listed() =~= old(self).listed());
            assert(self.answering() =~= old(self).answering());
        }
    }

    /// Fold in what one function said when asked to list itself.
    ///
    /// Only `03` says the function is missing. Every other refusal means it is
    /// there and will not say what it holds — five such functions on the Ultra
    /// are full of data — so its addresses stay unproven rather than being
    /// written off.
    pub fn record_listing(&mut self, function: u8, listing: Listing)
        requires
            old(self).wf(),
        ensures
            final(self).wf(),
            final(self).probed() == old(self).probed(),
            match listing {
                Listing::Records(ops) => if ops@.len() > 0 {
                    &&& final(self).answering() == old(self).answering().insert(function)
                    &&& final(self).listed() == old(self).listed().insert(function, ops@.to_set())
                } else {
                    &&& final(self).answering() == old(self).answering().insert(function)
                    &&& final(self).listed() == old(self).listed()
                },
                Listing::Refused(Refusal::FunctionAbsent) => {
                    &&& final(self).answering() == old(self).answering()
                    &&& final(self).listed() == old(self).listed()
                },
                Listing::Silent => {
                    &&& final(self).answering() == old(self).answering()
                    &&& final(self).listed() == old(self).listed()
                },
                Listing::Refused(_) => {
                    &&& final(self).answering() == old(self).answering().insert(function)
                    &&& final(self).listed() == old(self).listed()
                },
            },
    {
        proof {
            lemma_keys_ordered();
        }
        match listing {
            Listing::Records(ops) => {
                self.functions.insert(function);
                if ops.len() > 0 {
                    let mut row: BTreeSet<u8> = BTreeSet::new();
                    let mut i: usize = 0;
                    while i < ops.len()
                        invariant
                            i <= ops@.len(),
                            keys_ordered(),
                            forall|o: u8| #[trigger] row@.contains(o) == ops@.subrange(0, i as int).contains(o),
                        decreases ops@.len() - i,
                    {
                        row.insert(ops[i]);
                        proof {
                            assert forall|o: u8| #[trigger] row@.contains(o) == ops@.subrange(0, i + 1).contains(o) by {
                                let s = ops@.subrange(0, i + 1);
                                assert(s =~= ops@.subrange(0, i as int).push(ops@[i as int]));
                                if o == ops@[i as int] {
                                    assert(s[i as int] == o);
                                } else {
                                    if ops@.subrange(0, i as int).contains(o) {
                                        let k = choose|k: int| 0 <= k < i && ops@.subrange(0, i as int)[k] == o;
                                        assert(s[k] == o);
                                    }
                                    if s.contains(o) {
                                        let k = choose|k: int| 0 <= k < s.len() && s[k] == o;
                                        assert(k < i);
                                        assert(ops@.subrange(0, i as int)[k] == o);
                                    }
                                }
                            }
                        }
                        i = i + 1;
                    }
                    proof {
                        assert(ops@.subrange(0, ops@.len() as int) =~= ops@);
                        assert(row@ =~= ops@.to_set());
                    }
                    self.listed.insert(function, row);
                    proof {
                        assert(self.listed() =~= old(self).listed().insert(function, ops@.to_set()));
                    }
                } else {
                    proof {
                        assert(self.listed() =~= old(self).listed());
                    }
                }
                proof {
                    assert(self.answering() =~= old(self).answering().insert(function));
                    assert(self.probed() =~= old(self).probed());
                }
            },
            Listing::Refused(Refusal::FunctionAbsent) => {},
            Listing::Silent => {},
            Listing::Refused(_) => {
                self.functions.insert(function);
                proof {
                    assert(self.answering() =~= old(self).answering().insert(function));
                    assert(self.listed() =~= old(self).listed());
                    assert(self.probed() =~= old(self).probed());
                }
            },
        }
    }

    /// One enumeration per function the catalog mentions.
    pub fn discover<T: Transport>(session: &mut Session<T>) -> (r: Result<Surface>)
        ensures
            r matches Ok(s) ==> s.wf() && s.probed() == Map::<Addr, bool>::empty() && (forall|f: u8|
                #[trigger] s.answering().contains(f) ==> catalog::first_occurrences(
                    catalog::functions_of(catalog::catalog_spec()),
                ).contains(f)) && (forall|f: u8| #[trigger] s.listed().contains_key(f)
                ==> s.answering().contains(f)),
            r matches Ok(s) ==> {
                let fs = catalog::first_occurrences(catalog::functions_of(catalog::catalog_spec()));
                let n = old(session).replies().len();
                let replies = final(session).replies().subrange(n as int, (n + fs.len()) as int);
                &&& final(session).sent_log() == old(session).sent_log() + fs.map_values(
                    |f: u8| enumerate_request(f),
                )
                &&& final(session).replies().len() == n + fs.len()
                &&& final(session).replies().subrange(0, n as int) == old(session).replies()
                &&& s.listed() == listed_from(fs, replies)
                &&& s.answering() == answering_from(fs, replies)
            },
            crate::session::grew(*old(session), *final(session)),
            r matches Err(e) ==> crate::session::broke_off(*old(session), *final(session), e),
    {
        let fs = catalog::functions();
        let ghost n = session.replies().len();
        let ghost log0 = session.sent_log();
        let ghost h0 = session.replies();
        proof {
            assert(fs@.subrange(0, 0).map_values(|f: u8| enumerate_request(f)) =~= Seq::<Seq<u8>>::empty());
            assert(log0 + Seq::<Seq<u8>>::empty() =~= log0);
            assert(h0.subrange(0, n as int) =~= h0);
        }
        let mut s = Surface::new();
        let mut i: usize = 0;
        while i < fs.len()
            invariant
                i <= fs@.len(),
                fs@ == catalog::first_occurrences(catalog::functions_of(catalog::catalog_spec())),
                s.wf(),
                s.probed() == Map::<Addr, bool>::empty(),
                forall|f: u8| #[trigger] s.answering().contains(f) ==> fs@.subrange(0, i as int).contains(f),
                crate::session::grew(*old(session), *session),
                forall|f: u8| #[trigger] s.listed().contains_key(f) ==> s.answering().contains(f),
                n == old(session).replies().len(),
                log0 == old(session).sent_log(),
                h0 == old(session).replies(),
                session.sent_log() == log0 + fs@.subrange(0, i as int).map_values(|f: u8| enumerate_request(f)),
                session.replies().len() == n + i,
                session.replies().subrange(0, n as int) == h0,
                s.listed() == listed_from(fs@.subrange(0, i as int), session.replies().subrange(n as int, n + i)),
                s.answering() == answering_from(fs@.subrange(0, i as int), session.replies().subrange(n as int, n + i)),
            decreases fs@.len() - i,
        {
            let f = fs[i];
            let ghost before = *session;
            let listing = session.list(f)?;
            s.record_listing(f, listing);
            proof {
                let fs1 = fs@.subrange(0, i + 1);
                let rs1 = session.replies().subrange(n as int, n + i + 1);
                assert(fs1.drop_last() =~= fs@.subrange(0, i as int));
                assert(fs1.last() == f);
                assert(rs1.drop_last() =~= before.replies().subrange(n as int, n + i));
                assert(rs1.last() == session.replied());
                assert(session.replies().subrange(0, n as int) =~= before.replies().subrange(0, n as int));
                assert(fs1.map_values(|g: u8| enumerate_request(g)) =~= fs@.subrange(0, i as int).map_values(
                    |g: u8| enumerate_request(g),
                ).push(enumerate_request(f)));
                assert(session.sent_log() =~= log0 + fs1.map_values(|g: u8| enumerate_request(g)));
                assert(listing_in(rs1.last(), fs1.last()) == listing@);
                assert forall|g: u8| #[trigger] s.answering().contains(g) implies fs@.subrange(0, i + 1).contains(g) by {
                    if g == f {
                        assert(fs@.subrange(0, i + 1)[i as int] == g);
                    } else {
                        let k = choose|k: int| 0 <= k < i && fs@.subrange(0, i as int)[k] == g;
                        assert(fs@.subrange(0, i + 1)[k] == g);
                    }
                }
            }
            i = i + 1;
        }
        proof {
            assert(fs@.subrange(0, fs@.len() as int) =~= fs@);
        }
        Ok(s)
    }

    /// Functions that answered at all, in order.
    pub fn functions(&self) -> (v: Vec<u8>)
        requires
            self.wf(),
        ensures
            v@ == Seq::new(256, |f: int| f as u8).filter(|f: u8| self.answering().contains(f)),
    {
        proof {
            lemma_keys_ordered();
        }
        let ghost all = Seq::new(256, |f: int| f as u8);
        let ghost pred = |f: u8| self.answering().contains(f);
        let mut v: Vec<u8> = Vec::new();
        let mut f: usize = 0;
        while f < 256
            invariant
                f <= 256,
                keys_ordered(),
                all == Seq::new(256, |g: int| g as u8),
                pred == (|g: u8| self.answering().contains(g)),
                v@ == all.subrange(0, f as int).filter(pred),
            decreases 256 - f,
        {
            proof {
                assert(all.subrange(0, f + 1) =~= all.subrange(0, f as int).push(f as u8));
                all.subrange(0, f as int).lemma_filter_push(f as u8, pred);
            }
            if self.functions.contains(&(f as u8)) {
                v.push(f as u8);
            }
            f = f + 1;
        }
        proof {
            assert(all.subrange(0, 256) =~= all);
        }
        v
    }

    /// Every address known to hold a value: those listed, in order, then those
    /// a read proved, in order.
    pub fn live(&self) -> (v: Vec<Addr>)
        requires
            self.wf(),
        ensures
            v@ == all_addrs().filter(|a: Addr| self.listed().contains_key(a.function)
                && self.listed()[a.function].contains(a.opcode)) + all_addrs().filter(
                |a: Addr| self.probed().contains_key(a) && self.probed()[a],
            ),
    {
        proof {
            lemma_keys_ordered();
        }
        let ghost listed_pred = |a: Addr| self.listed().contains_key(a.function)
            && self.listed()[a.function].contains(a.opcode);
        let ghost probed_pred = |a: Addr| self.probed().contains_key(a) && self.probed()[a];
        let mut v: Vec<Addr> = Vec::new();
        let mut k: usize = 0;
        while k < 65536
            invariant
                k <= 65536,
                keys_ordered(),
                listed_pred == (|a: Addr| self.listed().contains_key(a.function)
                    && self.listed()[a.function].contains(a.opcode)),
                v@ == all_addrs().subrange(0, k as int).filter(listed_pred),
            decreases 65536 - k,
        {
            let a = Addr::at((k / 256) as u8, (k % 256) as u8);
            proof {
                assert(all_addrs().subrange(0, k + 1) =~= all_addrs().subrange(0, k as int).push(a));
                all_addrs().subrange(0, k as int).lemma_filter_push(a, listed_pred);
            }
            match self.listed.get(&a.function) {
                Some(ops) => {
                    if ops.contains(&a.opcode) {
                        v.push(a);
                    }
                },
                None => {},
            }
            k = k + 1;
        }
        let ghost first = v@;
        let mut k: usize = 0;
        while k < 65536
            invariant
                k <= 65536,
                keys_ordered(),
                probed_pred == (|a: Addr| self.probed().contains_key(a) && self.probed()[a]),
                v@ == first + all_addrs().subrange(0, k as int).filter(probed_pred),
            decreases 65536 - k,
        {
            let a = Addr::at((k / 256) as u8, (k % 256) as u8);
            proof {
                assert(all_addrs().subrange(0, k + 1) =~= all_addrs().subrange(0, k as int).push(a));
                all_addrs().subrange(0, k as int).lemma_filter_push(a, probed_pred);
            }
            match self.probed.get(&(a.function, a.opcode)) {
                Some(live) => {
                    if *live {
                        v.push(a);
                        proof {
                            assert(first + all_addrs().subrange(0, k as int).filter(probed_pred).push(a)
                                =~= (first + all_addrs().subrange(0, k as int).filter(probed_pred)).push(a));
                        }
                    }
                },
                None => {},
            }
            k = k + 1;
        }
        proof {
            assert(all_addrs().subrange(0, 65536) =~= all_addrs());
        }
        v
    }
}

/// Once a read has settled an address, that answer is what the surface says,
/// whatever the listing said before.
pub proof fn lemma_settled_state(
    listed: Map<u8, Set<u8>>,
    answering: Set<u8>,
    probed: Map<Addr, bool>,
    addr: Addr,
    live: bool,
)
    ensures
        state_of(listed, answering, probed.insert(addr, live), addr) == if live {
            Known::Live
        } else {
            Known::Absent
        },
{
}

/// A function that enumerated answers for every opcode: the ones it listed
/// and its version at `00` are live, and the rest are absent.
pub proof fn lemma_listed_state(
    listed: Map<u8, Set<u8>>,
    answering: Set<u8>,
    probed: Map<Addr, bool>,
    addr: Addr,
)
    requires
        !probed.contains_key(addr),
        listed.contains_key(addr.function),
    ensures
        state_of(listed, answering, probed, addr) == if addr.opcode == 0 || listed[addr.function].contains(
            addr.opcode,
        ) {
            Known::Live
        } else {
            Known::Absent
        },
{
}


/// A function that answered but would not list itself leaves each of its
/// unread addresses unproven; one that never answered leaves them absent.
pub proof fn lemma_unlisted_state(
    listed: Map<u8, Set<u8>>,
    answering: Set<u8>,
    probed: Map<Addr, bool>,
    addr: Addr,
)
    requires
        !probed.contains_key(addr),
        !listed.contains_key(addr.function),
    ensures
        state_of(listed, answering, probed, addr) == if answering.contains(addr.function) {
            Known::Unproven
        } else {
            Known::Absent
        },
{
}

} // verus!
