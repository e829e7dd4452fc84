//! Bluetooth addresses, as people write them and as the kernel wants them.
//!
//! The socket itself needs hardware and the C library; it lives with the
//! program. What is decided about an address — how it is read, written and
//! reordered — is here.

use vstd::prelude::*;

use crate::error::{ErrorKind, IoError};
use crate::parse::{
    lemma_encode_ascii_char, lemma_encode_utf8_concat, lemma_hex2_bytes, lemma_split_append,
    lemma_split_plain, parse_u8, parse_u8_spec, split_bytes, split_on,
};
use vstd::utf8::encode_utf8;
use crate::text::{hex2, push_hex2, str_bytes, string_from_chars};
use vstd::string::StringSliceAdditionalSpecFns;

verus! {

/// A Bluetooth address, written the way people write it: `AA:BB:CC:DD:EE:FF`.
#[derive(Debug, Clone, Copy, PartialEq, Eq)]
pub struct Address(pub [u8; 6]);

impl View for Address {
    type V = Seq<u8>;

    open spec fn view(&self) -> Seq<u8> {
        self.0@
    }
}

/// Six octets, uppercase hex, colon-separated.
pub open spec fn address_text(octets: Seq<u8>) -> Seq<char> {
    hex2(octets[0], true) + seq![':'] + hex2(octets[1], true) + seq![':'] + hex2(octets[2], true)
        + seq![':'] + hex2(octets[3], true) + seq![':'] + hex2(octets[4], true) + seq![':']
        + hex2(octets[5], true)
}

/// What parsing `text` yields: six colon-separated hex octets, each as
/// `u8::from_str_radix(_, 16)` reads it, or `None`.
pub open spec fn parse_address_spec(text: Seq<u8>) -> Option<Seq<u8>> {
    let parts = split_on(text, 0x3a);
    if parts.len() != 6 {
        None
    } else if forall|i: int| 0 <= i < 6 ==> #[trigger] parse_u8_spec(parts[i], true) is Some {
        Some(Seq::new(6, |i: int| parse_u8_spec(parts[i], true)->Some_0))
    } else {
        None
    }
}

/// Why `text` is not an address: the wrong number of octets, or an octet that
/// is not hex.
pub open spec fn address_error(text: Seq<u8>) -> Seq<char> {
    if split_on(text, 0x3a).len() != 6 {
        "expected six octets"@
    } else {
        "bad octet"@
    }
}

impl Address {
    /// Read `AA:BB:CC:DD:EE:FF`. Anything else is rejected rather than guessed:
    /// a wrong count says so, and so does an octet that is not hex.
    pub fn parse(s: &str) -> (r: Result<Address, IoError>)
        ensures
            match r {
                Ok(a) => parse_address_spec(s.spec_bytes()) == Some(a@),
                Err(e) => parse_address_spec(s.spec_bytes()) is None && e.kind
                    == ErrorKind::InvalidInput && e.message@ == address_error(s.spec_bytes()),
            },
    {
        let bytes = str_bytes(s);
        let parts = split_bytes(bytes.as_slice(), 0x3a);
        if parts.len() != 6 {
            return Err(IoError::new(ErrorKind::InvalidInput, "expected six octets"));
        }
        let mut out: [u8; 6] = [0u8; 6];
        let mut i: usize = 0;
        while i < 6
            invariant
                i <= 6,
                parts@.len() == 6,
                bytes@ == s.spec_bytes(),
                parts@.len() == split_on(bytes@, 0x3a).len(),
                forall|j: int| 0 <= j < parts@.len() ==> #[trigger] parts@[j]@ == split_on(
                    bytes@,
                    0x3a,
                )[j],
                forall|j: int| 0 <= j < i ==> #[trigger] parse_u8_spec(parts@[j]@, true) == Some(
                    out@[j],
                ),
            decreases 6 - i,
        {
            match parse_u8(parts[i].as_slice(), true) {
                Some(b) => {
                    out[i] = b;
                },
                None => {
                    return Err(IoError::new(ErrorKind::InvalidInput, "bad octet"));
                },
            }
            i = i + 1;
        }
        let a = Address(out);
        proof {
            let split = split_on(bytes@, 0x3a);
            assert forall|j: int| 0 <= j < 6 implies #[trigger] parse_u8_spec(split[j], true) is Some by {
                assert(parts@[j]@ == split[j]);
            }
            assert forall|j: int| 0 <= j < 6 implies a@[j] == parse_u8_spec(split[j], true)->Some_0 by {
                assert(parts@[j]@ == split[j]);
                assert(parse_u8_spec(parts@[j]@, true) == Some(out@[j]));
            }
            assert(a@ =~= Seq::new(6, |j: int| parse_u8_spec(split[j], true)->Some_0));
        }
        Ok(a)
    }

    /// `AA:BB:CC:00:00:01`.
    pub fn to_string(&self) -> (s: String)
        ensures
            s@ == address_text(self@),
    {
        let mut out: Vec<char> = Vec::new();
        push_hex2(&mut out, self.0[0], true);
        out.push(':');
        push_hex2(&mut out, self.0[1], true);
        out.push(':');
        push_hex2(&mut out, self.0[2], true);
        out.push(':');
        push_hex2(&mut out, self.0[3], true);
        out.push(':');
        push_hex2(&mut out, self.0[4], true);
        out.push(':');
        push_hex2(&mut out, self.0[5], true);
        proof {
            assert(out@ =~= address_text(self@));
        }
        string_from_chars(&out)
    }
}

impl core::str::FromStr for Address {
    type Err = IoError;

    fn from_str(s: &str) -> (r: Result<Address, IoError>)
        ensures
            match r {
                Ok(a) => parse_address_spec(s.spec_bytes()) == Some(a@),
                Err(e) => parse_address_spec(s.spec_bytes()) is None && e.kind
                    == ErrorKind::InvalidInput && e.message@ == address_error(s.spec_bytes()),
            },
    {
        Address::parse(s)
    }
}

/// The kernel wants the six octets reversed: the opposite of how an address is
/// written and of how bluez prints it. Getting this backwards connects to
/// nothing, with no error that says why.
pub fn bdaddr(addr: Address) -> (bd: [u8; 6])
    ensures
        bd@ == addr@.reverse(),
{
    let o = addr.0;
    let bd = [o[5], o[4], o[3], o[2], o[1], o[0]];
    proof {
        assert(bd@ =~= addr@.reverse());
    }
    bd
}


/// Why a zero timeout is refused.
pub open spec fn zero_timeout() -> Seq<char> {
    "a zero timeout blocks forever; pass a duration"@
}

/// What the socket's send and receive timeouts are set to for a timeout of
/// `secs` seconds and `nanos` nanoseconds: whole seconds and microseconds.
///
/// A zero timeout is not "no timeout" to the kernel — `SO_RCVTIMEO` of zero
/// means block forever, so a caller asking for the fastest possible scan would
/// get one that never returns. It is refused before a socket is made.
pub fn socket_timeout(secs: u64, nanos: u32) -> (r: Result<(u64, u32), IoError>)
    ensures
        secs == 0 && nanos == 0 ==> (r matches Err(e) && e.kind == ErrorKind::InvalidInput
            && e.message@ == zero_timeout()),
        !(secs == 0 && nanos == 0) ==> r == Ok::<(u64, u32), IoError>((secs, nanos / 1000)),
{
    if secs == 0 && nanos == 0 {
        return Err(IoError::new(ErrorKind::InvalidInput, "a zero timeout blocks forever; pass a duration"));
    }
    Ok((secs, nanos / 1000))
}

/// The two bytes an octet is written as, uppercase.
spec fn octet_bytes(b: u8) -> Seq<u8> {
    encode_utf8(hex2(b, true))
}

proof fn lemma_octet_bytes(b: u8)
    ensures
        octet_bytes(b).len() == 2,
        !octet_bytes(b).contains(0x3a),
        parse_u8_spec(octet_bytes(b), true) == Some(b),
{
    lemma_hex2_bytes(b, true);
    let o = octet_bytes(b);
    assert(o[0] != 0x3a && o[1] != 0x3a);
    if o.contains(0x3a) {
        let k = choose|k: int| 0 <= k < o.len() && o[k] == 0x3a;
        assert(k == 0 || k == 1);
    }
}

/// The bytes an address is printed as: six octets of two digits, colons between.
spec fn address_bytes(octets: Seq<u8>) -> Seq<u8> {
    octet_bytes(octets[0]) + seq![0x3au8] + octet_bytes(octets[1]) + seq![0x3au8]
        + octet_bytes(octets[2]) + seq![0x3au8] + octet_bytes(octets[3]) + seq![0x3au8]
        + octet_bytes(octets[4]) + seq![0x3au8] + octet_bytes(octets[5])
}

proof fn lemma_address_bytes(octets: Seq<u8>)
    requires
        octets.len() == 6,
    ensures
        encode_utf8(address_text(octets)) == address_bytes(octets),
{
    let colon = seq![':'];
    lemma_encode_ascii_char(':');
    assert(encode_utf8(colon) =~= seq![0x3au8]);
    let h0 = hex2(octets[0], true);
    let h1 = hex2(octets[1], true);
    let h2 = hex2(octets[2], true);
    let h3 = hex2(octets[3], true);
    let h4 = hex2(octets[4], true);
    let h5 = hex2(octets[5], true);
    let t1 = h0 + colon;
    let t2 = t1 + h1;
    let t3 = t2 + colon;
    let t4 = t3 + h2;
    let t5 = t4 + colon;
    let t6 = t5 + h3;
    let t7 = t6 + colon;
    let t8 = t7 + h4;
    let t9 = t8 + colon;
    let t10 = t9 + h5;
    assert(address_text(octets) =~= t10);
    lemma_encode_utf8_concat(h0, colon);
    lemma_encode_utf8_concat(t1, h1);
    lemma_encode_utf8_concat(t2, colon);
    lemma_encode_utf8_concat(t3, h2);
    lemma_encode_utf8_concat(t4, colon);
    lemma_encode_utf8_concat(t5, h3);
    lemma_encode_utf8_concat(t6, colon);
    lemma_encode_utf8_concat(t7, h4);
    lemma_encode_utf8_concat(t8, colon);
    lemma_encode_utf8_concat(t9, h5);
    assert(encode_utf8(t10) =~= address_bytes(octets));
}

#[verifier::spinoff_prover]
proof fn lemma_address_bytes_split(octets: Seq<u8>)
    requires
        octets.len() == 6,
    ensures
        split_on(address_bytes(octets), 0x3a) == seq![
            octet_bytes(octets[0]),
            octet_bytes(octets[1]),
            octet_bytes(octets[2]),
            octet_bytes(octets[3]),
            octet_bytes(octets[4]),
            octet_bytes(octets[5]),
        ],
{
    let sep: u8 = 0x3a;
    lemma_octet_bytes(octets[0]);
    lemma_octet_bytes(octets[1]);
    lemma_octet_bytes(octets[2]);
    lemma_octet_bytes(octets[3]);
    lemma_octet_bytes(octets[4]);
    lemma_octet_bytes(octets[5]);
    let b0 = octet_bytes(octets[0]);
    let b1 = octet_bytes(octets[1]);
    let b2 = octet_bytes(octets[2]);
    let b3 = octet_bytes(octets[3]);
    let b4 = octet_bytes(octets[4]);
    let b5 = octet_bytes(octets[5]);
    let s2 = b0 + seq![sep] + b1;
    let s3 = s2 + seq![sep] + b2;
    let s4 = s3 + seq![sep] + b3;
    let s5 = s4 + seq![sep] + b4;
    let s6 = s5 + seq![sep] + b5;
    assert(address_bytes(octets) =~= s6);
    assert(split_on(s2, sep) =~= seq![b0, b1]) by {
        lemma_split_plain(b0, sep);
        lemma_split_append(b0, sep, b1);
    }
    assert(split_on(s3, sep) =~= seq![b0, b1, b2]) by {
        lemma_split_append(s2, sep, b2);
    }
    assert(split_on(s4, sep) =~= seq![b0, b1, b2, b3]) by {
        lemma_split_append(s3, sep, b3);
    }
    assert(split_on(s5, sep) =~= seq![b0, b1, b2, b3, b4]) by {
        lemma_split_append(s4, sep, b4);
    }
    assert(split_on(s6, sep) =~= seq![b0, b1, b2, b3, b4, b5]) by {
        lemma_split_append(s5, sep, b5);
    }
}

/// An address, printed, reads back as itself.
#[verifier::spinoff_prover]
#[verifier::rlimit(40)]
pub proof fn lemma_address_round_trip(octets: Seq<u8>)
    requires
        octets.len() == 6,
    ensures
        parse_address_spec(encode_utf8(address_text(octets))) == Some(octets),
{
    lemma_address_bytes(octets);
    lemma_address_bytes_split(octets);
    lemma_octet_bytes(octets[0]);
    lemma_octet_bytes(octets[1]);
    lemma_octet_bytes(octets[2]);
    lemma_octet_bytes(octets[3]);
    lemma_octet_bytes(octets[4]);
    lemma_octet_bytes(octets[5]);
    let parts = split_on(address_bytes(octets), 0x3a);
    assert(forall|i: int| 0 <= i < 6 ==> #[trigger] parse_u8_spec(parts[i], true) == Some(octets[i]));
    assert(Seq::new(6, |i: int| parse_u8_spec(parts[i], true)->Some_0) =~= octets);
}

} // verus!
