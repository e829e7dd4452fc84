//! Building the strings this crate shows a person.
//!
//! Everything a caller reads — hex dumps, error sentences, JSON — is assembled
//! here as a sequence of characters, so what it says is stated and proved, and
//! only the last step, turning those characters into a `String`, is std's.

use vstd::prelude::*;
use vstd::utf8::*;
use vstd::std_specs::iter::IteratorSpec;
use vstd::string::StringSliceAdditionalSpecFns;

verus! {

/// The characters `String::from_utf8_lossy` yields for these bytes.
pub uninterp spec fn utf8_lossy(bytes: Seq<u8>) -> Seq<char>;

/// `String::push`: the string with one more character at its end.
#[verifier::external_body]
fn string_push(s: &mut String, c: char)
    ensures
        final(s)@ == old(s)@.push(c),
{
    s.push(c)
}

/// The same characters, as a `String`.
pub fn string_from_chars(chars: &Vec<char>) -> (s: String)
    ensures
        s@ == chars@,
{
    let mut s = String::new();
    let mut i: usize = 0;
    while i < chars.len()
        invariant
            i <= chars@.len(),
            s@ == chars@.subrange(0, i as int),
        decreases chars@.len() - i,
    {
        string_push(&mut s, chars[i]);
        i = i + 1;
        proof {
            assert(s@ =~= chars@.subrange(0, i as int));
        }
    }
    proof {
        assert(chars@.subrange(0, chars@.len() as int) =~= chars@);
    }
    s
}

/// `String::from_utf8_lossy`, owned. The std documentation promises that valid
/// UTF-8 comes back as itself; invalid sequences become U+FFFD, which is not
/// restated here.
#[verifier::external_body]
pub(crate) fn string_from_utf8_lossy(bytes: &[u8]) -> (s: String)
    ensures
        s@ == utf8_lossy(bytes@),
        valid_utf8(bytes@) ==> s@ == decode_utf8(bytes@),
{
    String::from_utf8_lossy(bytes).into_owned()
}

/// A lowercase hex digit.
pub open spec fn hex_digit(n: u8) -> char {
    if n == 0 { '0' } else if n == 1 { '1' } else if n == 2 { '2' } else if n == 3 { '3' }
    else if n == 4 { '4' } else if n == 5 { '5' } else if n == 6 { '6' } else if n == 7 { '7' }
    else if n == 8 { '8' } else if n == 9 { '9' } else if n == 10 { 'a' } else if n == 11 { 'b' }
    else if n == 12 { 'c' } else if n == 13 { 'd' } else if n == 14 { 'e' } else { 'f' }
}

/// The uppercase form of [`hex_digit`].
pub open spec fn hex_digit_upper(n: u8) -> char {
    if n == 10 { 'A' } else if n == 11 { 'B' } else if n == 12 { 'C' } else if n == 13 { 'D' }
    else if n == 14 { 'E' } else if n == 15 { 'F' } else { hex_digit(n) }
}

/// A decimal digit, for `n < 10`.
pub open spec fn dec_digit(n: nat) -> char {
    hex_digit(n as u8)
}

/// Two hex digits, high nibble first.
pub open spec fn hex2(b: u8, upper: bool) -> Seq<char> {
    if upper {
        seq![hex_digit_upper(b / 16), hex_digit_upper(b % 16)]
    } else {
        seq![hex_digit(b / 16), hex_digit(b % 16)]
    }
}

/// The decimal digits of `n`, without leading zeros.
pub open spec fn decimal(n: nat) -> Seq<char>
    decreases n,
{
    if n < 10 {
        seq![dec_digit(n)]
    } else {
        decimal(n / 10) + seq![dec_digit(n % 10)]
    }
}

/// A signed number: a minus sign, then the magnitude.
pub open spec fn signed_decimal(n: int) -> Seq<char> {
    if n < 0 {
        seq!['-'] + decimal((-n) as nat)
    } else {
        decimal(n as nat)
    }
}

pub fn hex_digit_char(n: u8, upper: bool) -> (c: char)
    requires
        n < 16,
    ensures
        c == (if upper { hex_digit_upper(n) } else { hex_digit(n) }),
{
    if upper {
        if n == 10 {
            return 'A';
        } else if n == 11 {
            return 'B';
        } else if n == 12 {
            return 'C';
        } else if n == 13 {
            return 'D';
        } else if n == 14 {
            return 'E';
        } else if n == 15 {
            return 'F';
        }
    }
    if n == 0 { '0' } else if n == 1 { '1' } else if n == 2 { '2' } else if n == 3 { '3' }
    else if n == 4 { '4' } else if n == 5 { '5' } else if n == 6 { '6' } else if n == 7 { '7' }
    else if n == 8 { '8' } else if n == 9 { '9' } else if n == 10 { 'a' } else if n == 11 { 'b' }
    else if n == 12 { 'c' } else if n == 13 { 'd' } else if n == 14 { 'e' } else { 'f' }
}

/// Append two hex digits for `b`.
pub fn push_hex2(out: &mut Vec<char>, b: u8, upper: bool)
    ensures
        final(out)@ == old(out)@ + hex2(b, upper),
{
    out.push(hex_digit_char(b / 16, upper));
    out.push(hex_digit_char(b % 16, upper));
}

/// Append the decimal digits of `n`.
pub fn push_decimal(out: &mut Vec<char>, n: u64)
    ensures
        final(out)@ == old(out)@ + decimal(n as nat),
    decreases n,
{
    if n >= 10 {
        push_decimal(out, n / 10);
    }
    let d = (n % 10) as u8;
    out.push(hex_digit_char(d, false));
    proof {
        assert(decimal(n as nat) == if n < 10 {
            seq![dec_digit(n as nat)]
        } else {
            decimal((n / 10) as nat) + seq![dec_digit((n % 10) as nat)]
        });
    }
}

/// Append `n` with a leading minus when negative.
pub fn push_signed(out: &mut Vec<char>, n: i64)
    requires
        n > i64::MIN,
    ensures
        final(out)@ == old(out)@ + signed_decimal(n as int),
{
    if n < 0 {
        out.push('-');
        push_decimal(out, (-n) as u64);
    } else {
        push_decimal(out, n as u64);
    }
}

/// Append every character of `s`.
pub fn push_str(out: &mut Vec<char>, s: &str)
    ensures
        final(out)@ == old(out)@ + s@,
{
    let chars: Vec<char> = str_chars(s);
    let mut i: usize = 0;
    let ghost start = out@;
    while i < chars.len()
        invariant
            i <= chars@.len(),
            chars@ == s@,
            out@ == start + chars@.subrange(0, i as int),
        decreases chars@.len() - i,
    {
        out.push(chars[i]);
        i = i + 1;
        proof {
            assert(chars@.subrange(0, i as int) == chars@.subrange(0, (i - 1) as int).push(chars@[i - 1]));
        }
    }
    proof {
        assert(chars@.subrange(0, chars@.len() as int) == chars@);
    }
}

/// The characters of a text, in order.
pub fn str_chars(s: &str) -> (chars: Vec<char>)
    ensures
        chars@ == s@,
{
    broadcast use vstd::string::group_string_axioms;

    let mut it = s.chars();
    let mut out: Vec<char> = Vec::new();
    loop
        invariant_except_break
            out@ + it.remaining() == s@,
            it.decrease() is Some,
        ensures
            out@ == s@,
        decreases it.decrease()->0,
    {
        match it.next() {
            Some(c) => {
                out.push(c);
            },
            None => {
                proof {
                    assert(out@ + it.remaining() == s@);
                    assert(it.remaining().len() == 0);
                    assert(out@ =~= s@);
                }
                break;
            },
        }
    }
    out
}

/// `str::as_bytes`, copied out.
pub fn str_bytes(s: &str) -> (bytes: Vec<u8>)
    ensures
        bytes@ == s.spec_bytes(),
{
    let b: &[u8] = s.as_bytes();
    let mut out: Vec<u8> = Vec::new();
    let mut i: usize = 0;
    while i < b.len()
        invariant
            i <= b@.len(),
            out@ == b@.subrange(0, i as int),
        decreases b@.len() - i,
    {
        out.push(b[i]);
        i = i + 1;
        proof {
            assert(b@.subrange(0, i as int) == b@.subrange(0, (i - 1) as int).push(b@[i - 1]));
        }
    }
    proof {
        assert(b@.subrange(0, b@.len() as int) == b@);
    }
    out
}

} // verus!
