//! The devices bluez already knows, so nobody has to type an address.
//!
//! Asking bluez is one D-Bus call and belongs to the program; what its answer
//! means — which ids a `Modalias` carries, and which devices are Bose's — is
//! decided here.

use vstd::prelude::*;

use super::rfcomm::parse_address_spec;
use vstd::utf8::encode_utf8;
use super::Address;
use crate::parse::{parse_u16_hex, parse_u16_hex_spec};
use crate::text::str_bytes;
use vstd::string::StringSliceAdditionalSpecFns;

verus! {

/// A paired device, as bluez describes it.
#[derive(Debug, Clone, PartialEq, Eq)]
pub struct Peer {
    pub address: Address,
    pub name: String,
    /// From `Modalias`, `bluetooth:v009Ep4066d0107`: the SIG company id and
    /// the product id, which is what `00 03` answers over RFCOMM.
    pub vendor: Option<u16>,
    pub product: Option<u16>,
    pub connected: bool,
}

/// Bose's Bluetooth SIG company identifier.
pub const BOSE: u16 = 0x009e;

impl Peer {
    pub fn is_bose(&self) -> (b: bool)
        ensures
            b == (self.vendor == Some(BOSE)),
    {
        match self.vendor {
            Some(v) => v == BOSE,
            None => false,
        }
    }
}

/// The index of the first `b` in `s` at or after `from`.
pub open spec fn first_index(s: Seq<u8>, b: u8, from: int) -> Option<int>
    decreases s.len() - from,
{
    if from >= s.len() || from < 0 {
        None
    } else if s[from] == b {
        Some(from)
    } else {
        first_index(s, b, from + 1)
    }
}

/// What a `Modalias` yields: after the first `:`, a `v`, the vendor in hex up
/// to the first `p`, then exactly four hex digits of product.
pub open spec fn modalias_spec(s: Seq<u8>) -> Option<(u16, u16)> {
    match first_index(s, 0x3a, 0) {
        None => None,
        Some(colon) => {
            let body = s.subrange(colon + 1, s.len() as int);
            if body.len() == 0 || body[0] != 0x76 {
                None
            } else {
                let afterv = body.drop_first();
                match first_index(afterv, 0x70, 0) {
                    None => None,
                    Some(p) => {
                        let v = afterv.subrange(0, p);
                        let rest = afterv.subrange(p + 1, afterv.len() as int);
                        if rest.len() < 4 {
                            None
                        } else {
                            match (parse_u16_hex_spec(v), parse_u16_hex_spec(rest.subrange(0, 4))) {
                                (Some(vendor), Some(product)) => Some((vendor, product)),
                                _ => None,
                            }
                        }
                    },
                }
            }
        },
    }
}

proof fn lemma_first_index_bounds(s: Seq<u8>, b: u8, from: int)
    ensures
        first_index(s, b, from) matches Some(i) ==> from <= i < s.len() && s[i] == b,
    decreases s.len() - from,
{
    if from < s.len() && from >= 0 && s[from] != b {
        lemma_first_index_bounds(s, b, from + 1);
    }
}

fn find_byte(s: &[u8], b: u8, from: usize) -> (r: Option<usize>)
    requires
        from <= s@.len(),
    ensures
        match first_index(s@, b, from as int) {
            Some(i) => r == Some(i as usize),
            None => r is None,
        },
        r matches Some(i) ==> from <= i < s@.len(),
{
    let mut i = from;
    while i < s.len()
        invariant
            from <= i <= s@.len(),
            first_index(s@, b, from as int) == first_index(s@, b, i as int),
        decreases s@.len() - i,
    {
        if s[i] == b {
            return Some(i);
        }
        i = i + 1;
    }
    None
}

/// `bluetooth:v009Ep4066d0107` — vendor, product, device version, hex. The
/// `usb:` form appears on some stacks and carries the same three fields.
///
/// The product is fixed width: the `d` that starts the version field is also
/// a hex digit.
pub fn modalias(s: &str) -> (r: Option<(u16, u16)>)
    ensures
        r == modalias_spec(s.spec_bytes()),
{
    let bytes = str_bytes(s);
    let b = bytes.as_slice();
    let n = b.len();
    let colon = match find_byte(b, 0x3a, 0) {
        Some(i) => i,
        None => {
            return None;
        },
    };
    let body = vstd::slice::slice_subrange(b, colon + 1, n);
    proof {
        lemma_first_index_bounds(bytes@, 0x3a, 0);
        assert(first_index(bytes@, 0x3a, 0) == Some(colon as int));
        assert(body@ =~= bytes@.subrange(colon + 1, bytes@.len() as int));
    }
    if body.len() == 0 || body[0] != 0x76 {
        return None;
    }
    let afterv = vstd::slice::slice_subrange(body, 1, body.len());
    proof {
        assert(afterv@ =~= body@.drop_first());
    }
    let p = match find_byte(afterv, 0x70, 0) {
        Some(i) => i,
        None => {
            return None;
        },
    };
    let v = vstd::slice::slice_subrange(afterv, 0, p);
    let rest = vstd::slice::slice_subrange(afterv, p + 1, afterv.len());
    proof {
        lemma_first_index_bounds(afterv@, 0x70, 0);
        assert(first_index(afterv@, 0x70, 0) == Some(p as int));
    }
    if rest.len() < 4 {
        return None;
    }
    let product = vstd::slice::slice_subrange(rest, 0, 4);
    proof {
        assert(product@ =~= rest@.subrange(0, 4));
    }
    match (parse_u16_hex(v), parse_u16_hex(product)) {
        (Some(vendor), Some(product)) => Some((vendor, product)),
        _ => None,
    }
}

/// What bluez says of one device object, each property as it came, or `None`
/// where the object does not carry it (or carries it with another type).
pub struct Properties {
    pub paired: bool,
    pub address: Option<String>,
    pub name: Option<String>,
    pub alias: Option<String>,
    pub modalias: Option<String>,
    pub connected: bool,
}

/// The name a device is listed under: its `Name`, else its `Alias`, else
/// nothing.
pub open spec fn listed_name(name: Option<String>, alias: Option<String>) -> Seq<char> {
    match name {
        Some(n) => n@,
        None => match alias {
            Some(a) => a@,
            None => Seq::empty(),
        },
    }
}

/// The ids a device object's `Modalias` carries, if it has one that reads.
pub open spec fn object_ids(modalias: Option<String>) -> Option<(u16, u16)> {
    match modalias {
        Some(m) => modalias_spec(encode_utf8(m@)),
        None => None,
    }
}

/// A device object as a peer: only a paired device whose address reads is
/// one; the rest are passed over.
pub fn peer(props: Properties) -> (r: Option<Peer>)
    ensures
        match r {
            None => !props.paired || props.address is None || parse_address_spec(
                encode_utf8(props.address->Some_0@),
            ) is None,
            Some(p) => {
                &&& props.paired
                &&& props.address matches Some(a) && parse_address_spec(encode_utf8(a@))
                    == Some(p.address@)
                &&& p.name@ == listed_name(props.name, props.alias)
                &&& match object_ids(props.modalias) {
                    Some((v, d)) => p.vendor == Some(v) && p.product == Some(d),
                    None => p.vendor is None && p.product is None,
                }
                &&& p.connected == props.connected
            },
        },
{
    if !props.paired {
        return None;
    }
    let address = match &props.address {
        Some(text) => match Address::parse(text.as_str()) {
            Ok(a) => a,
            Err(_) => {
                return None;
            },
        },
        None => {
            return None;
        },
    };
    let ids = match &props.modalias {
        Some(m) => modalias(m.as_str()),
        None => None,
    };
    let name = match props.name {
        Some(n) => n,
        None => match props.alias {
            Some(a) => a,
            None => String::new(),
        },
    };
    let (vendor, product) = match ids {
        Some((v, p)) => (Some(v), Some(p)),
        None => (None, None),
    };
    Some(Peer { address, name, vendor, product, connected: props.connected })
}

/// The paired devices that are Bose's, which is what a picker lists, in the
/// order bluez gave them.
pub fn bose(peers: Vec<Peer>) -> (out: Vec<Peer>)
    ensures
        out@ == peers@.filter(|p: Peer| p.vendor == Some(BOSE)),
{
    let ghost pred = |p: Peer| p.vendor == Some(BOSE);
    let ghost all = peers@;
    let mut rest = peers;
    // Walk from the back so each peer is moved, never cloned.
    let mut kept: Vec<Peer> = Vec::new();
    while rest.len() > 0
        invariant
            pred == (|p: Peer| p.vendor == Some(BOSE)),
            all.filter(pred) == rest@.filter(pred) + kept@.reverse(),
        decreases rest@.len(),
    {
        let ghost before = rest@;
        let p = rest.pop().unwrap();
        proof {
            assert(before =~= rest@.push(p));
            rest@.lemma_filter_push(p, pred);
        }
        if p.is_bose() {
            let ghost k0 = kept@;
            kept.push(p);
            proof {
                assert(kept@.reverse() =~= seq![p] + k0.reverse());
                assert(before.filter(pred) == rest@.filter(pred).push(p));
                assert(rest@.filter(pred).push(p) + k0.reverse() =~= rest@.filter(pred)
                    + kept@.reverse());
            }
        } else {
            proof {
                assert(before.filter(pred) == rest@.filter(pred));
            }
        }
    }
    proof {
        assert(rest@.filter(pred) =~= Seq::<Peer>::empty());
        assert(all.filter(pred) =~= kept@.reverse());
    }
    let mut out: Vec<Peer> = Vec::new();
    while kept.len() > 0
        invariant
            out@ + kept@.reverse() == all.filter(pred),
        decreases kept@.len(),
    {
        let ghost before = kept@;
        let p = kept.pop().unwrap();
        out.push(p);
        proof {
            assert(before.reverse() =~= seq![p] + kept@.reverse());
            assert(out@ + kept@.reverse() =~= before.reverse().take(0) + out@ + kept@.reverse());
        }
    }
    proof {
        assert(kept@.reverse() =~= Seq::<Peer>::empty());
        assert(out@ + kept@.reverse() =~= out@);
    }
    out
}

} // verus!
