//! Finding the channel.
//!
//! It differs per model — 8 on a QuietComfort 35 and Sport Earbuds, 1 on the
//! Ultra family — and neither the SDP record nor the device id predicts it. The
//! only reliable method is to ask, with a read that writes nothing; the sockets
//! that ask live with the program, and what they try, in which order, and how a
//! remembered answer is read back is decided here.

use vstd::prelude::*;

use crate::error::{ErrorKind, IoError};
use crate::parse::{parse_u8, parse_u8_spec};
use crate::text::str_chars;

verus! {

/// The channel that is never probed: 24 is `SRfcomm`, silent, present on every
/// model and most plausibly firmware update. It is not to be touched.
pub open spec fn firmware_channel() -> u8 {
    24
}

/// The order channels are tried in: 1 and 8, the two every model seen so far
/// has used, then the rest of `1..=30` in order, leaving out those two and 24.
pub open spec fn channel_order_spec() -> Seq<u8> {
    seq![
        1u8, 8, 2, 3, 4, 5, 6, 7, 9, 10, 11, 12, 13, 14, 15, 16, 17, 18, 19, 20, 21, 22, 23, 25,
        26, 27, 28, 29, 30,
    ]
}

/// The channels to try, in order.
///
/// A first connection is then one or two attempts rather than up to
/// twenty-nine on an ACL link bluez may be bringing A2DP up on at the same
/// moment — which answers `Device or resource busy` and leaves no audio.
pub fn channel_order() -> (order: Vec<u8>)
    ensures
        order@ == channel_order_spec(),
        order@.len() == 29,
        forall|i: int| 0 <= i < order@.len() ==> #[trigger] order@[i] != firmware_channel(),
{
    let order = vec![
        1u8, 8, 2, 3, 4, 5, 6, 7, 9, 10, 11, 12, 13, 14, 15, 16, 17, 18, 19, 20, 21, 22, 23, 25,
        26, 27, 28, 29, 30,
    ];
    proof {
        assert(order@ =~= channel_order_spec());
    }
    order
}

/// How one attempt on a channel went.
#[derive(Debug, Clone, Copy, PartialEq, Eq, Structural)]
pub enum Attempt {
    /// Nothing is listening at that address: the device is switched off, out
    /// of range, or not connected.
    Unreachable,
    /// The channel could not be used — taken by another holder, or silent to
    /// the device-id read. Try the next.
    Unavailable,
    /// The device-id read answered: this is the control channel.
    Answered,
}

/// How a connect that failed with the OS error number `code` went. One of
/// `unreachable` — the platform's numbers for a host that is down or
/// unreachable, or a connect that timed out — means nothing is listening at the
/// address. Any other, or none, leaves only this channel unusable: refused
/// means the channel is there but taken, as the phone app holds one.
pub fn connect_failure(code: Option<i32>, unreachable: &[i32]) -> (a: Attempt)
    ensures
        a == (if code matches Some(c) && unreachable@.contains(c) {
            Attempt::Unreachable
        } else {
            Attempt::Unavailable
        }),
{
    let c = match code {
        Some(c) => c,
        None => {
            return Attempt::Unavailable;
        },
    };
    let mut i: usize = 0;
    while i < unreachable.len()
        invariant
            i <= unreachable@.len(),
            code == Some(c),
            forall|j: int| 0 <= j < i ==> unreachable@[j] != c,
        decreases unreachable@.len() - i,
    {
        if unreachable[i] == c {
            proof {
                assert(unreachable@[i as int] == c);
            }
            return Attempt::Unreachable;
        }
        i = i + 1;
    }
    Attempt::Unavailable
}

/// What a channel probe does next.
#[derive(Debug)]
pub enum Next {
    /// Connect to this channel, open a session and read the device id.
    Try(u8),
    /// The channel just tried is the control channel; keep its session.
    Found(u8),
    /// Stop, with this error.
    Fail(IoError),
}

/// Why a probe gives up on a device that is not there.
pub open spec fn unreachable_text() -> Seq<char> {
    "device not reachable; switched off, out of range, or not connected"@
}

/// Why a probe gives up when every channel was tried.
pub open spec fn no_channel_text() -> Seq<char> {
    "no control channel answered; the device is connected but not speaking this protocol"@
}

/// The probe's first step: the first channel of the order.
pub fn probe_start() -> (n: Next)
    ensures
        n == Next::Try(channel_order_spec()[0]),
        n matches Next::Try(c) && c != firmware_channel(),
{
    Next::Try(1)
}

/// The probe's next step, after the channel at `tried` in the order went as
/// `attempt`.
///
/// A device that is switched off or out of range answers `EHOSTDOWN` on the
/// first channel and on all thirty, at several seconds each; scanning through
/// it takes over a minute to conclude what the first attempt already said, so
/// that ends the probe and is reported as itself. The answering channel is
/// kept as found — closing and reconnecting races the kernel releasing it.
pub fn probe_next(tried: usize, attempt: Attempt) -> (n: Next)
    ensures
        attempt == Attempt::Unreachable ==> (n matches Next::Fail(e) && e.kind == ErrorKind::NotFound
            && e.message@ == unreachable_text()),
        attempt == Attempt::Answered && tried < channel_order_spec().len() ==> n == Next::Found(
            channel_order_spec()[tried as int],
        ),
        attempt == Attempt::Unavailable && tried + 1 < channel_order_spec().len() ==> n
            == Next::Try(channel_order_spec()[tried + 1]),
        attempt != Attempt::Unreachable && !(attempt == Attempt::Answered && tried
            < channel_order_spec().len()) && !(attempt == Attempt::Unavailable && tried + 1
            < channel_order_spec().len()) ==> (n matches Next::Fail(e) && e.kind
            == ErrorKind::NotFound && e.message@ == no_channel_text()),
        n matches Next::Try(c) ==> c != firmware_channel(),
{
    let order = channel_order();
    match attempt {
        Attempt::Unreachable => Next::Fail(
            IoError::new(
                ErrorKind::NotFound,
                "device not reachable; switched off, out of range, or not connected",
            ),
        ),
        Attempt::Answered if tried < order.len() => Next::Found(order[tried]),
        Attempt::Unavailable if tried < order.len() - 1 => Next::Try(order[tried + 1]),
        _ => Next::Fail(
            IoError::new(
                ErrorKind::NotFound,
                "no control channel answered; the device is connected but not speaking this protocol",
            ),
        ),
    }
}

/// Whitespace as `char::is_whitespace` knows it: Unicode `White_Space`.
pub open spec fn is_whitespace(c: char) -> bool {
    let u = c as u32;
    (0x09 <= u <= 0x0d) || u == 0x20 || u == 0x85 || u == 0xa0 || u == 0x1680 || (0x2000 <= u
        <= 0x200a) || u == 0x2028 || u == 0x2029 || u == 0x202f || u == 0x205f || u == 0x3000
}

pub fn char_is_whitespace(c: char) -> (b: bool)
    ensures
        b == is_whitespace(c),
{
    let u = c as u32;
    (0x09 <= u && u <= 0x0d) || u == 0x20 || u == 0x85 || u == 0xa0 || u == 0x1680 || (0x2000 <= u
        && u <= 0x200a) || u == 0x2028 || u == 0x2029 || u == 0x202f || u == 0x205f || u == 0x3000
}

/// `str::trim`: whitespace off both ends.
pub open spec fn trim_spec(s: Seq<char>) -> Seq<char>
    decreases s.len(),
{
    if s.len() > 0 && is_whitespace(s[0]) {
        trim_spec(s.drop_first())
    } else if s.len() > 0 && is_whitespace(s.last()) {
        trim_spec(s.drop_last())
    } else {
        s
    }
}

/// The bytes of text that is all ASCII, or `None`.
/// The character at `i` is ASCII.
pub open spec fn ascii_at(s: Seq<char>, i: int) -> bool {
    (s[i] as u32) < 0x80
}

pub open spec fn ascii_bytes(s: Seq<char>) -> Option<Seq<u8>> {
    if forall|i: int| 0 <= i < s.len() ==> #[trigger] ascii_at(s, i) {
        Some(Seq::new(s.len(), |i: int| (s[i] as u32) as u8))
    } else {
        None
    }
}

/// What a cache file's text says: one decimal channel, surrounded by any
/// whitespace. A damaged file reads as none.
pub open spec fn channel_from_text_spec(s: Seq<char>) -> Option<u8> {
    match ascii_bytes(trim_spec(s)) {
        Some(b) => parse_u8_spec(b, false),
        None => None,
    }
}

/// The channel a cache file holds, if it holds one. Reading the file is the
/// caller's; what counts as a channel is decided here, so a stray byte never
/// becomes one.
pub fn cached_channel(text: &str) -> (c: Option<u8>)
    ensures
        c == channel_from_text_spec(text@),
{
    let chars = str_chars(text);
    let mut lo: usize = 0;
    let mut hi: usize = chars.len();
    proof {
        assert(chars@.subrange(0, chars@.len() as int) =~= chars@);
    }
    // Trim from the front, then from the back, as `trim_spec` unfolds.
    while lo < hi && char_is_whitespace(chars[lo])
        invariant
            lo <= hi == chars@.len(),
            trim_spec(chars@) == trim_spec(chars@.subrange(lo as int, hi as int)),
        decreases hi - lo,
    {
        proof {
            assert(chars@.subrange(lo as int, hi as int).drop_first() =~= chars@.subrange(
                lo + 1,
                hi as int,
            ));
        }
        lo = lo + 1;
    }
    while lo < hi && char_is_whitespace(chars[hi - 1])
        invariant
            lo <= hi <= chars@.len(),
            trim_spec(chars@) == trim_spec(chars@.subrange(lo as int, hi as int)),
            lo < hi ==> !is_whitespace(chars@[lo as int]),
        decreases hi - lo,
    {
        proof {
            let s = chars@.subrange(lo as int, hi as int);
            assert(s.drop_last() =~= chars@.subrange(lo as int, hi - 1));
            assert(s[0] == chars@[lo as int]);
        }
        hi = hi - 1;
    }
    let ghost t = chars@.subrange(lo as int, hi as int);
    proof {
        if t.len() > 0 {
            assert(t[0] == chars@[lo as int]);
            assert(t.last() == chars@[hi - 1]);
        }
        assert(trim_spec(t) == t);
        assert(chars@ == text@);
    }
    let mut bytes: Vec<u8> = Vec::new();
    let mut i: usize = lo;
    while i < hi
        invariant
            lo <= i <= hi <= chars@.len(),
            t == chars@.subrange(lo as int, hi as int),
            trim_spec(text@) == t,
            bytes@.len() == i - lo,
            forall|k: int| 0 <= k < bytes@.len() ==> #[trigger] ascii_at(t, k),
            forall|k: int| 0 <= k < bytes@.len() ==> #[trigger] bytes@[k] == ((t[k] as u32) as u8),
        decreases hi - i,
    {
        let u = chars[i] as u32;
        proof {
            assert(t[i - lo] == chars@[i as int]);
        }
        if u >= 0x80 {
            proof {
                assert(!ascii_at(t, i - lo));
            }
            return None;
        }
        let ghost old_bytes = bytes@;
        bytes.push(u as u8);
        proof {
            let k = (i - lo) as int;
            assert(bytes@[k] == (u as u8));
            assert(t[k] == chars@[i as int]);
            assert((t[k] as u32) == u);
            assert(ascii_at(t, k));
        }
        i = i + 1;
    }
    proof {
        assert(bytes@ =~= Seq::new(t.len(), |k: int| (t[k] as u32) as u8));
    }
    parse_u8(bytes.as_slice(), false)
}

} // verus!
