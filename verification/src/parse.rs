//! Reading numbers and fields out of text, the way std's integer parsers do.
//!
//! Addresses, channels and command arguments are all typed by a person, so the
//! rules here are spelled out: an optional `+` (and `-` where the type is
//! signed), at least one digit, nothing else, and a value that fits.

use vstd::prelude::*;
use vstd::utf8::{encode_scalar, encode_utf8, has_width_1_encoding, leading_byte_width_1};

use crate::text::{hex2, hex_digit, hex_digit_upper};

verus! {

/// The value of a hex digit, either case.
pub open spec fn hex_digit_value(b: u8) -> Option<nat> {
    if 0x30 <= b <= 0x39 {
        Some((b - 0x30) as nat)
    } else if 0x61 <= b <= 0x66 {
        Some((b - 0x61 + 10) as nat)
    } else if 0x41 <= b <= 0x46 {
        Some((b - 0x41 + 10) as nat)
    } else {
        None
    }
}

/// The value of a decimal digit.
pub open spec fn dec_digit_value(b: u8) -> Option<nat> {
    if 0x30 <= b <= 0x39 {
        Some((b - 0x30) as nat)
    } else {
        None
    }
}

/// The value of a run of digits in `radix` (10 or 16), saturating at `cap`:
/// anything at or above it reads as `cap`. `None` when a byte is not a digit.
pub open spec fn digits_value(d: Seq<u8>, hex: bool, cap: nat) -> Option<nat>
    decreases d.len(),
{
    if d.len() == 0 {
        Some(0)
    } else {
        let digit = if hex {
            hex_digit_value(d.last())
        } else {
            dec_digit_value(d.last())
        };
        match (digits_value(d.drop_last(), hex, cap), digit) {
            (Some(v), Some(x)) => {
                let n = if hex {
                    v * 16 + x
                } else {
                    v * 10 + x
                };
                Some(if n >= cap {
                    cap
                } else {
                    n
                })
            },
            _ => None,
        }
    }
}

/// What `u8::from_str_radix` accepts: an optional `+`, then one or more
/// digits, with a value below 256.
pub open spec fn parse_u8_spec(bytes: Seq<u8>, hex: bool) -> Option<u8> {
    let digits = if bytes.len() > 0 && bytes[0] == 0x2b {
        bytes.drop_first()
    } else {
        bytes
    };
    if digits.len() == 0 {
        None
    } else {
        match digits_value(digits, hex, 256) {
            Some(v) => if v < 256 {
                Some(v as u8)
            } else {
                None
            },
            None => None,
        }
    }
}

/// What `i8::from_str` accepts: an optional sign, then one or more decimal
/// digits, with a value in `-128..=127`.
pub open spec fn parse_i8_spec(bytes: Seq<u8>) -> Option<i8> {
    let negative = bytes.len() > 0 && bytes[0] == 0x2d;
    let digits = if bytes.len() > 0 && (bytes[0] == 0x2b || bytes[0] == 0x2d) {
        bytes.drop_first()
    } else {
        bytes
    };
    if digits.len() == 0 {
        None
    } else {
        match digits_value(digits, false, 129) {
            Some(v) => if negative && v <= 128 {
                Some((-(v as int)) as i8)
            } else if !negative && v <= 127 {
                Some(v as i8)
            } else {
                None
            },
            None => None,
        }
    }
}

pub fn hex_digit_of(b: u8) -> (r: Option<u8>)
    ensures
        match hex_digit_value(b) {
            Some(v) => r == Some(v as u8),
            None => r is None,
        },
{
    if 0x30 <= b && b <= 0x39 {
        Some(b - 0x30)
    } else if 0x61 <= b && b <= 0x66 {
        Some(b - 0x61 + 10)
    } else if 0x41 <= b && b <= 0x46 {
        Some(b - 0x41 + 10)
    } else {
        None
    }
}

/// The saturating value of `d`, as [`digits_value`] describes it.
pub fn digits_value_of(d: &[u8], hex: bool, cap: u32) -> (r: Option<u32>)
    requires
        0 < cap <= 65536,
    ensures
        match digits_value(d@, hex, cap as nat) {
            Some(v) => r == Some(v as u32),
            None => r is None,
        },
{
    let mut v: u32 = 0;
    let mut i: usize = 0;
    while i < d.len()
        invariant
            0 < cap <= 65536,
            i <= d@.len(),
            digits_value(d@.subrange(0, i as int), hex, cap as nat) == Some(v as nat),
            v <= cap,
        decreases d@.len() - i,
    {
        let x = if hex {
            hex_digit_of(d[i])
        } else if 0x30 <= d[i] && d[i] <= 0x39 {
            Some(d[i] - 0x30)
        } else {
            None
        };
        proof {
            let s = d@.subrange(0, i + 1);
            assert(s.drop_last() =~= d@.subrange(0, i as int));
            assert(s.last() == d@[i as int]);
        }
        match x {
            None => {
                proof {
                    lemma_digits_none_extends(d@, (i + 1) as nat, hex, cap as nat);
                }
                return None;
            },
            Some(x) => {
                let n: u32 = if hex {
                    v * 16 + x as u32
                } else {
                    v * 10 + x as u32
                };
                v = if n >= cap {
                    cap
                } else {
                    n
                };
            },
        }
        i = i + 1;
    }
    proof {
        assert(d@.subrange(0, d@.len() as int) =~= d@);
    }
    Some(v)
}

/// A bad digit anywhere spoils every longer run that contains it.
proof fn lemma_digits_none_extends(d: Seq<u8>, k: nat, hex: bool, cap: nat)
    requires
        k <= d.len(),
        digits_value(d.subrange(0, k as int), hex, cap) is None,
    ensures
        digits_value(d, hex, cap) is None,
    decreases d.len() - k,
{
    if k < d.len() {
        let s = d.subrange(0, k as int + 1);
        assert(s.drop_last() =~= d.subrange(0, k as int));
        lemma_digits_none_extends(d, k + 1, hex, cap);
    } else {
        assert(d.subrange(0, k as int) =~= d);
    }
}

/// `u8::from_str_radix(s, 16)` or `u8::from_str(s)`, on the bytes of `s`.
pub fn parse_u8(bytes: &[u8], hex: bool) -> (r: Option<u8>)
    ensures
        r == parse_u8_spec(bytes@, hex),
{
    let digits: &[u8] = if bytes.len() > 0 && bytes[0] == 0x2b {
        vstd::slice::slice_subrange(bytes, 1, bytes.len())
    } else {
        bytes
    };
    proof {
        if bytes@.len() > 0 && bytes@[0] == 0x2b {
            assert(digits@ =~= bytes@.drop_first());
        }
    }
    if digits.len() == 0 {
        return None;
    }
    match digits_value_of(digits, hex, 256) {
        Some(v) => if v < 256 {
            Some(v as u8)
        } else {
            None
        },
        None => None,
    }
}

/// `i8::from_str`, on the bytes of `s`.
pub fn parse_i8(bytes: &[u8]) -> (r: Option<i8>)
    ensures
        r == parse_i8_spec(bytes@),
{
    let negative = bytes.len() > 0 && bytes[0] == 0x2d;
    let digits: &[u8] = if bytes.len() > 0 && (bytes[0] == 0x2b || bytes[0] == 0x2d) {
        vstd::slice::slice_subrange(bytes, 1, bytes.len())
    } else {
        bytes
    };
    proof {
        if bytes@.len() > 0 && (bytes@[0] == 0x2b || bytes@[0] == 0x2d) {
            assert(digits@ =~= bytes@.drop_first());
        }
    }
    if digits.len() == 0 {
        return None;
    }
    match digits_value_of(digits, false, 129) {
        Some(v) => if negative && v <= 128 {
            Some((0 - v as i32) as i8)
        } else if !negative && v <= 127 {
            Some(v as i8)
        } else {
            None
        },
        None => None,
    }
}

/// The pieces of `b` between occurrences of `sep`, as `str::split` yields them:
/// an empty input is one empty piece, and a trailing separator leaves an empty
/// last piece.
pub open spec fn split_on(b: Seq<u8>, sep: u8) -> Seq<Seq<u8>>
    decreases b.len(),
{
    if b.len() == 0 {
        seq![seq![]]
    } else {
        let init = split_on(b.drop_last(), sep);
        if b.last() == sep {
            init.push(seq![])
        } else {
            init.update(init.len() - 1, init.last().push(b.last()))
        }
    }
}

proof fn lemma_split_nonempty(b: Seq<u8>, sep: u8)
    ensures
        split_on(b, sep).len() >= 1,
    decreases b.len(),
{
    if b.len() > 0 {
        lemma_split_nonempty(b.drop_last(), sep);
    }
}

/// What `u16::from_str_radix(_, 16)` accepts: an optional `+`, then one or
/// more hex digits, with a value below 65536.
pub open spec fn parse_u16_hex_spec(bytes: Seq<u8>) -> Option<u16> {
    let digits = if bytes.len() > 0 && bytes[0] == 0x2b {
        bytes.drop_first()
    } else {
        bytes
    };
    if digits.len() == 0 {
        None
    } else {
        match digits_value(digits, true, 65536) {
            Some(v) => if v < 65536 {
                Some(v as u16)
            } else {
                None
            },
            None => None,
        }
    }
}

pub fn parse_u16_hex(bytes: &[u8]) -> (r: Option<u16>)
    ensures
        r == parse_u16_hex_spec(bytes@),
{
    let digits: &[u8] = if bytes.len() > 0 && bytes[0] == 0x2b {
        vstd::slice::slice_subrange(bytes, 1, bytes.len())
    } else {
        bytes
    };
    proof {
        if bytes@.len() > 0 && bytes@[0] == 0x2b {
            assert(digits@ =~= bytes@.drop_first());
        }
    }
    if digits.len() == 0 {
        return None;
    }
    match digits_value_of(digits, true, 65536) {
        Some(v) => if v < 65536 {
            Some(v as u16)
        } else {
            None
        },
        None => None,
    }
}

/// Split bytes on a separator.
pub fn split_bytes(b: &[u8], sep: u8) -> (parts: Vec<Vec<u8>>)
    ensures
        parts@.len() == split_on(b@, sep).len(),
        forall|i: int| 0 <= i < parts@.len() ==> #[trigger] parts@[i]@ == split_on(b@, sep)[i],
{
    let mut parts: Vec<Vec<u8>> = Vec::new();
    parts.push(Vec::new());
    let mut i: usize = 0;
    proof {
        assert(b@.subrange(0, 0) =~= Seq::<u8>::empty());
    }
    while i < b.len()
        invariant
            i <= b@.len(),
            parts@.len() == split_on(b@.subrange(0, i as int), sep).len(),
            parts@.len() >= 1,
            forall|j: int|
                0 <= j < parts@.len() ==> #[trigger] parts@[j]@ == split_on(
                    b@.subrange(0, i as int),
                    sep,
                )[j],
        decreases b@.len() - i,
    {
        let ghost prev = split_on(b@.subrange(0, i as int), sep);
        let ghost s = b@.subrange(0, i + 1);
        proof {
            assert(s.drop_last() =~= b@.subrange(0, i as int));
            assert(s.last() == b@[i as int]);
        }
        if b[i] == sep {
            parts.push(Vec::new());
        } else {
            let last = parts.len() - 1;
            let mut piece = parts.pop().unwrap();
            piece.push(b[i]);
            parts.push(piece);
            proof {
                assert(parts@.len() == prev.len());
            }
        }
        i = i + 1;
        proof {
            let now = split_on(b@.subrange(0, i as int), sep);
            assert(now.len() == parts@.len());
            assert forall|j: int| 0 <= j < parts@.len() implies #[trigger] parts@[j]@ == now[j] by {}
        }
    }
    proof {
        assert(b@.subrange(0, b@.len() as int) =~= b@);
    }
    parts
}

/// Leading and trailing whitespace off, as `str::trim` removes it for ASCII
/// text: space, tab, newline, carriage return, vertical tab and form feed.
pub open spec fn is_space(b: u8) -> bool {
    b == 0x20 || b == 0x09 || b == 0x0a || b == 0x0d || b == 0x0b || b == 0x0c
}


/// The byte a hex digit is written as: `0`-`9`, then `a`-`f` or `A`-`F`.
pub open spec fn hex_byte_of(n: u8, upper: bool) -> u8 {
    if n < 10 {
        (0x30 + n) as u8
    } else if upper {
        (0x41 + n - 10) as u8
    } else {
        (0x61 + n - 10) as u8
    }
}

/// A hex digit is the ASCII byte it is written as, and reads back as itself.
proof fn lemma_hex_digit_ascii(n: u8, upper: bool)
    requires
        n < 16,
    ensures
        (if upper {
            hex_digit_upper(n)
        } else {
            hex_digit(n)
        }) as u32 == hex_byte_of(n, upper) as u32,
        hex_digit_value(hex_byte_of(n, upper)) == Some(n as nat),
        hex_byte_of(n, upper) != 0x3a,
        hex_byte_of(n, upper) != 0x2b,
        hex_byte_of(n, upper) != 0x78,
{
}

/// An ASCII character is encoded as the one byte of its value.
proof fn lemma_ascii_scalar(c: char)
    requires
        (c as u32) < 0x80,
    ensures
        encode_scalar(c as u32) == seq![c as u32 as u8],
{
    let v = c as u32;
    assert(has_width_1_encoding(v));
    assert((v & 0x7F) == v) by (bit_vector)
        requires
            v < 0x80,
    ;
    assert(leading_byte_width_1(v) == v as u8);
}

/// Encoding a concatenation is concatenating the encodings.
pub proof fn lemma_encode_utf8_concat(a: Seq<char>, b: Seq<char>)
    ensures
        encode_utf8(a + b) == encode_utf8(a) + encode_utf8(b),
    decreases a.len(),
{
    if a.len() == 0 {
        assert(a + b =~= b);
    } else {
        assert((a + b).drop_first() =~= a.drop_first() + b);
        lemma_encode_utf8_concat(a.drop_first(), b);
        assert(encode_utf8(a) + encode_utf8(b) =~= encode_scalar(a[0] as u32) + (encode_utf8(
            a.drop_first(),
        ) + encode_utf8(b)));
    }
}

/// One ASCII character encodes as its byte.
pub proof fn lemma_encode_ascii_char(c: char)
    requires
        (c as u32) < 0x80,
    ensures
        encode_utf8(seq![c]) == seq![c as u32 as u8],
{
    lemma_ascii_scalar(c);
    assert(seq![c].drop_first() =~= Seq::<char>::empty());
    assert(encode_utf8(seq![c]) =~= encode_scalar(c as u32) + encode_utf8(Seq::<char>::empty()));
}

/// Two hex digits encode as their two bytes, and read back as the byte they
/// were written from.
pub proof fn lemma_hex2_bytes(b: u8, upper: bool)
    ensures
        encode_utf8(hex2(b, upper)) == seq![hex_byte_of(b / 16, upper), hex_byte_of(b % 16, upper)],
        parse_u8_spec(encode_utf8(hex2(b, upper)), true) == Some(b),
{
    let hi = b / 16;
    let lo = b % 16;
    lemma_hex_digit_ascii(hi, upper);
    lemma_hex_digit_ascii(lo, upper);
    let c1 = if upper {
        hex_digit_upper(hi)
    } else {
        hex_digit(hi)
    };
    let c2 = if upper {
        hex_digit_upper(lo)
    } else {
        hex_digit(lo)
    };
    assert(hex2(b, upper) =~= seq![c1] + seq![c2]);
    lemma_encode_utf8_concat(seq![c1], seq![c2]);
    lemma_encode_ascii_char(c1);
    lemma_encode_ascii_char(c2);
    let bytes = seq![hex_byte_of(hi, upper), hex_byte_of(lo, upper)];
    assert(encode_utf8(hex2(b, upper)) =~= bytes);
    assert(bytes.drop_last() =~= seq![hex_byte_of(hi, upper)]);
    assert(bytes.drop_last().drop_last() =~= Seq::<u8>::empty());
    assert(digits_value(bytes.drop_last().drop_last(), true, 256) == Some(0nat));
    assert(digits_value(bytes.drop_last(), true, 256) == Some(hi as nat));
    assert(digits_value(bytes, true, 256) == Some(b as nat));
}


/// A piece with no separator in it splits as itself.
pub proof fn lemma_split_plain(p: Seq<u8>, sep: u8)
    requires
        !p.contains(sep),
    ensures
        split_on(p, sep) == seq![p],
    decreases p.len(),
{
    if p.len() == 0 {
        assert(p =~= Seq::<u8>::empty());
    } else {
        let q = p.drop_last();
        assert(!q.contains(sep)) by {
            if q.contains(sep) {
                let k = choose|k: int| 0 <= k < q.len() && q[k] == sep;
                assert(p[k] == sep);
            }
        }
        lemma_split_plain(q, sep);
        assert(p.last() != sep) by {
            assert(p[p.len() - 1] == p.last());
        }
        assert(q.push(p.last()) =~= p);
        assert(seq![q].update(0, q.push(p.last())) =~= seq![p]);
    }
}

/// A separator and then a piece with none in it adds that piece.
pub proof fn lemma_split_append(b: Seq<u8>, sep: u8, p: Seq<u8>)
    requires
        !p.contains(sep),
    ensures
        split_on(b + seq![sep] + p, sep) == split_on(b, sep).push(p),
    decreases p.len(),
{
    let whole = b + seq![sep] + p;
    if p.len() == 0 {
        assert(whole.drop_last() =~= b);
        assert(whole.last() == sep);
        assert(p =~= Seq::<u8>::empty());
    } else {
        let q = p.drop_last();
        assert(!q.contains(sep)) by {
            if q.contains(sep) {
                let k = choose|k: int| 0 <= k < q.len() && q[k] == sep;
                assert(p[k] == sep);
            }
        }
        lemma_split_append(b, sep, q);
        assert(whole.drop_last() =~= b + seq![sep] + q);
        assert(whole.last() == p.last());
        assert(p.last() != sep) by {
            assert(p[p.len() - 1] == p.last());
        }
        let init = split_on(b, sep).push(q);
        assert(init.update(init.len() - 1, init.last().push(p.last())) =~= split_on(b, sep).push(p)) by {
            assert(q.push(p.last()) =~= p);
        }
    }
}

} // verus!
