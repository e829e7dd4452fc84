//! The rest of the settings.
//!
//! One method per known record. Where a field's meaning differs by
//! generation the type says so; where a value is documented but not understood,
//! it is passed through rather than dressed up.

use vstd::prelude::*;

use crate::codec::{self, flag_spec, name_spec, sat_sub};
use crate::device::{
    bytes_of, get_request, last_value, read_value, reply_value, Device,
};
use crate::error::{ErrorKind, IoError};
use crate::framing::{encode_record, Message, Operator, Record};
use crate::settings::unsupported;
use crate::text::str_bytes;
use crate::transport::{broke_off, grew, Transport};
use vstd::string::StringSliceAdditionalSpecFns;

verus! {

/// A setting that is simply on or off.
#[derive(Debug, Clone, Copy, PartialEq, Eq, Structural)]
pub enum Toggle {
    /// `01 0a` — two devices connected at once.
    Multipoint,
    /// `01 18` — pause when the headphones come off.
    HeadDetection,
    /// `01 1b` — answer a call by putting them on.
    AutoAnswer,
    /// `1f 05` — return to the last mode on power-up. Lives with the modes, not
    /// with the other toggles.
    RememberMode,
}

pub open spec fn toggle_address(t: Toggle) -> (u8, u8) {
    match t {
        Toggle::Multipoint => (0x01, 0x0a),
        Toggle::HeadDetection => (0x01, 0x18),
        Toggle::AutoAnswer => (0x01, 0x1b),
        Toggle::RememberMode => (0x1f, 0x05),
    }
}

impl Toggle {
    fn address(self) -> (a: (u8, u8))
        ensures
            a == toggle_address(self),
    {
        match self {
            Toggle::Multipoint => (0x01, 0x0a),
            Toggle::HeadDetection => (0x01, 0x18),
            Toggle::AutoAnswer => (0x01, 0x1b),
            Toggle::RememberMode => (0x1f, 0x05),
        }
    }
}

/// Voice-prompt language. Only two values have been seen on the wire.
#[derive(Debug, Clone, Copy, PartialEq, Eq, Structural)]
pub enum Language {
    English,
    Spanish,
    Other(u8),
}

pub open spec fn language_wire(l: Language) -> u8 {
    match l {
        Language::English => 0x21,
        Language::Spanish => 0x26,
        Language::Other(b) => b,
    }
}

pub open spec fn language_from_wire(b: u8) -> Language {
    if b == 0x21 {
        Language::English
    } else if b == 0x26 {
        Language::Spanish
    } else {
        Language::Other(b)
    }
}

impl Language {
    fn wire(self) -> (b: u8)
        ensures
            b == language_wire(self),
    {
        match self {
            Language::English => 0x21,
            Language::Spanish => 0x26,
            Language::Other(b) => b,
        }
    }

    fn from_wire(b: u8) -> (l: Language)
        ensures
            l == language_from_wire(b),
    {
        if b == 0x21 {
            Language::English
        } else if b == 0x26 {
            Language::Spanish
        } else {
            Language::Other(b)
        }
    }
}

/// `01 03`, which carries two settings in one record.
#[derive(Debug, Clone, Copy, PartialEq, Eq, Structural)]
pub struct Prompts {
    pub language: Language,
    /// Whether the device announces its charge on power-up.
    ///
    /// This was first read as the voice-prompt switch, from a capture where the
    /// assignment was positional. A later capture toggled it four times under a
    /// category recorded unambiguously as the battery announcement. Whether the
    /// prompts for calls and connections share this record is **not known**.
    pub battery_announcement: bool,
}

/// One battery cell.
///
/// A QuietComfort 35 reports a bare percentage; the Ultra family reports a
/// four-byte record per cell, so earbuds give two and a headband gives one.
#[derive(Debug, Clone, Copy, PartialEq, Eq, Structural)]
pub struct Cell {
    pub index: u8,
    pub percent: u8,
}

/// `05 05`. The device states the size of its own scale.
#[derive(Debug, Clone, Copy, PartialEq, Eq, Structural)]
pub struct Volume {
    pub current: u8,
    /// Positions on the scale; `0x19` on every model seen, a range of `0`–`0x18`.
    pub steps: u8,
}

/// `<f> <o> 02 <len> <payload>`: a write.
pub open spec fn set_request(f: u8, o: u8, payload: Seq<u8>) -> Seq<u8> {
    encode_record(Record { function: f, opcode: o, operator: Operator::SetGet, payload })
}

/// The cells a `02 02` payload reports: a bare percentage, or one four-byte
/// `<pct> ff ff <index>` record per cell.
pub open spec fn cells_of(p: Seq<u8>) -> Seq<Cell> {
    if p.len() == 1 {
        seq![Cell { index: 0, percent: p[0] }]
    } else {
        Seq::new(p.len() / 4, |i: int| Cell { percent: p[4 * i], index: p[4 * i + 3] })
    }
}

/// A read of `f o` and nothing else happened: the request went out if it
/// succeeded, and what the device said about itself is unchanged.
pub open spec fn read_once<T: Transport>(before: Device<T>, after: Device<T>, f: u8, o: u8, ok: bool) -> bool {
    &&& after.identity == before.identity
    &&& after.capabilities == before.capabilities
    &&& ok ==> after.sent_log() == before.sent_log().push(get_request(f, o))
    &&& ok ==> after.session.replies() == before.session.replies().push(after.session.replied())
}

/// The bytes the first request after `before` got back.
pub open spec fn first_reply<T: Transport>(before: Device<T>, after: Device<T>) -> Seq<u8> {
    after.session.replies()[before.session.replies().len() as int]
}

/// A write of `payload` to `f o` went out if it succeeded; one too long to
/// frame fails.
pub open spec fn wrote<T: Transport>(
    before: Device<T>,
    after: Device<T>,
    f: u8,
    o: u8,
    payload: Seq<u8>,
    ok: bool,
) -> bool {
    &&& after.identity == before.identity
    &&& after.capabilities == before.capabilities
    &&& ok ==> after.sent_log() == before.sent_log().push(set_request(f, o, payload))
    &&& ok ==> after.session.replies() == before.session.replies().push(after.session.replied())
    &&& payload.len() > 255 ==> !ok
}

impl<T: Transport> Device<T> {
    fn read(&mut self, function: u8, opcode: u8) -> (r: Result<Option<Vec<u8>>, IoError>)
        ensures
            read_once(*old(self), *final(self), function, opcode, r is Ok),
            r matches Ok(v) ==> bytes_of(v) == last_value(*final(self), function, opcode),
            grew(old(self).session, final(self).session),
            r matches Err(e) ==> broke_off(old(self).session, final(self).session, e),
    {
        read_value(&mut self.session, function, opcode)
    }

    /// Send a write. The reply is not inspected.
    fn write(&mut self, function: u8, opcode: u8, payload: Vec<u8>) -> (r: Result<(), IoError>)
        ensures
            wrote(*old(self), *final(self), function, opcode, payload@, r is Ok),
            grew(old(self).session, final(self).session),
            r matches Err(e) ==> payload@.len() > 255 || broke_off(old(self).session, final(self).session, e),
    {
        let m = Message::set(function, opcode, payload);
        match self.session.request(&m) {
            Ok(_) => Ok(()),
            Err(e) => Err(e),
        }
    }

    pub fn toggle(&mut self, t: Toggle) -> (r: Result<Option<bool>, IoError>)
        ensures
            read_once(*old(self), *final(self), toggle_address(t).0, toggle_address(t).1, r is Ok),
            r matches Ok(x) ==> x == match last_value(
                *final(self),
                toggle_address(t).0,
                toggle_address(t).1,
            ) {
                Some(p) => flag_spec(p),
                None => None,
            },
            grew(old(self).session, final(self).session),
            r matches Err(e) ==> broke_off(old(self).session, final(self).session, e),
    {
        let (f, o) = t.address();
        match self.read(f, o)? {
            Some(p) => {
                let b = codec::flag(p.as_slice());
                Ok(b)
            },
            None => Ok(None),
        }
    }

    pub fn set_toggle(&mut self, t: Toggle, on: bool) -> (r: Result<(), IoError>)
        ensures
            wrote(*old(self), *final(self), toggle_address(t).0, toggle_address(t).1, seq![if on { 1u8 } else { 0u8 }], r is Ok),
            grew(old(self).session, final(self).session),
            r matches Err(e) ==> broke_off(old(self).session, final(self).session, e),
    {
        let (f, o) = t.address();
        self.write(f, o, codec::set_flag(on))
    }

    /// `01 02`. The read carries a leading `00`; the write does not.
    pub fn name(&mut self) -> (r: Result<Option<String>, IoError>)
        ensures
            read_once(*old(self), *final(self), 0x01, 0x02, r is Ok),
            r matches Ok(x) ==> match last_value(*final(self), 0x01, 0x02) {
                Some(p) => x matches Some(s) && s@ == name_spec(p),
                None => x is None,
            },
            grew(old(self).session, final(self).session),
            r matches Err(e) ==> broke_off(old(self).session, final(self).session, e),
    {
        match self.read(0x01, 0x02)? {
            Some(p) => {
                Ok(codec::name(p.as_slice()))
            },
            None => Ok(None),
        }
    }

    /// Rename the device. The name lives in its firmware and shows up on every
    /// other host that pairs with it, so this is not a local alias.
    pub fn set_name(&mut self, name: &str) -> (r: Result<(), IoError>)
        ensures
            wrote(*old(self), *final(self), 0x01, 0x02, name.spec_bytes(), r is Ok),
            grew(old(self).session, final(self).session),
            r matches Err(e) ==> name.spec_bytes().len() > 255 || broke_off(old(self).session, final(self).session, e),
    {
        self.write(0x01, 0x02, str_bytes(name))
    }

    pub fn prompts(&mut self) -> (r: Result<Option<Prompts>, IoError>)
        ensures
            read_once(*old(self), *final(self), 0x01, 0x03, r is Ok),
            r matches Ok(x) ==> x == match last_value(*final(self), 0x01, 0x03) {
                Some(p) => if p.len() > 0 {
                    Some(
                        Prompts {
                            language: language_from_wire(p[0]),
                            battery_announcement: p[0] & 0x20 != 0,
                        },
                    )
                } else {
                    None
                },
                None => None,
            },
            grew(old(self).session, final(self).session),
            r matches Err(e) ==> broke_off(old(self).session, final(self).session, e),
    {
        match self.read(0x01, 0x03)? {
            Some(p) => {
                if p.len() == 0 {
                    return Ok(None);
                }
                let lang = p[0];
                // The read packs flags into the language byte; bit 0x20 is set
                // when announcements are on. The write uses a separate byte.
                Ok(
                    Some(
                        Prompts {
                            language: Language::from_wire(lang),
                            battery_announcement: lang & 0x20 != 0,
                        },
                    ),
                )
            },
            None => Ok(None),
        }
    }

    pub fn set_prompts(&mut self, p: Prompts) -> (r: Result<(), IoError>)
        ensures
            wrote(
                *old(self),
                *final(self),
                0x01,
                0x03,
                seq![language_wire(p.language), if p.battery_announcement { 1u8 } else { 0u8 }],
                r is Ok,
            ),
            grew(old(self).session, final(self).session),
            r matches Err(e) ==> broke_off(old(self).session, final(self).session, e),
    {
        let payload = vec![p.language.wire(), if p.battery_announcement { 1u8 } else { 0u8 }];
        self.write(0x01, 0x03, payload)
    }

    /// Minutes of inactivity before powering down. `None` means never.
    pub fn auto_off(&mut self) -> (r: Result<Option<Option<u8>>, IoError>)
        ensures
            read_once(*old(self), *final(self), 0x01, 0x04, r is Ok),
            r matches Ok(x) ==> x == match last_value(*final(self), 0x01, 0x04) {
                Some(p) => if p.len() > 0 {
                    Some(
                        if p[0] == 0 {
                            None
                        } else {
                            Some(p[0])
                        },
                    )
                } else {
                    None
                },
                None => None,
            },
            grew(old(self).session, final(self).session),
            r matches Err(e) ==> broke_off(old(self).session, final(self).session, e),
    {
        match self.read(0x01, 0x04)? {
            Some(p) => {
                if p.len() == 0 {
                    return Ok(None);
                }
                let m = p[0];
                Ok(
                    Some(
                        if m == 0 {
                            None
                        } else {
                            Some(m)
                        },
                    ),
                )
            },
            None => Ok(None),
        }
    }

    pub fn set_auto_off(&mut self, minutes: Option<u8>) -> (r: Result<(), IoError>)
        ensures
            wrote(
                *old(self),
                *final(self),
                0x01,
                0x04,
                seq![match minutes {
                    Some(m) => m,
                    None => 0u8,
                }],
                r is Ok,
            ),
            grew(old(self).session, final(self).session),
            r matches Err(e) ==> broke_off(old(self).session, final(self).session, e),
    {
        let m = match minutes {
            Some(m) => m,
            None => 0u8,
        };
        let payload = vec![m];
        proof {
            assert(payload@ =~= seq![m]);
        }
        self.write(0x01, 0x04, payload)
    }

    /// `01 0b`. Level `0` is off; `1` and `3` were the other values seen.
    pub fn self_voice(&mut self) -> (r: Result<Option<u8>, IoError>)
        ensures
            read_once(*old(self), *final(self), 0x01, 0x0b, r is Ok),
            r matches Ok(x) ==> x == match last_value(*final(self), 0x01, 0x0b) {
                Some(p) => if p.len() > 1 {
                    Some(p[1])
                } else {
                    None
                },
                None => None,
            },
            grew(old(self).session, final(self).session),
            r matches Err(e) ==> broke_off(old(self).session, final(self).session, e),
    {
        match self.read(0x01, 0x0b)? {
            Some(p) => {
                if p.len() > 1 {
                    Ok(Some(p[1]))
                } else {
                    Ok(None)
                }
            },
            None => Ok(None),
        }
    }

    pub fn set_self_voice(&mut self, level: u8) -> (r: Result<(), IoError>)
        ensures
            wrote(*old(self), *final(self), 0x01, 0x0b, seq![0x01u8, level], r is Ok),
            grew(old(self).session, final(self).session),
            r matches Err(e) ==> broke_off(old(self).session, final(self).session, e),
    {
        self.write(0x01, 0x0b, vec![0x01u8, level])
    }

    /// `01 09`. Four action values were captured — `0e`, `03`, `13`, `01` — but
    /// the capture changed the enabled state and the selection together, so
    /// which is which was never established. Passed through raw.
    pub fn shortcut(&mut self) -> (r: Result<Option<u8>, IoError>)
        ensures
            read_once(*old(self), *final(self), 0x01, 0x09, r is Ok),
            r matches Ok(x) ==> x == match last_value(*final(self), 0x01, 0x09) {
                Some(p) => if p.len() > 2 {
                    Some(p[2])
                } else {
                    None
                },
                None => None,
            },
            grew(old(self).session, final(self).session),
            r matches Err(e) ==> broke_off(old(self).session, final(self).session, e),
    {
        match self.read(0x01, 0x09)? {
            Some(p) => {
                if p.len() > 2 {
                    Ok(Some(p[2]))
                } else {
                    Ok(None)
                }
            },
            None => Ok(None),
        }
    }

    pub fn set_shortcut(&mut self, action: u8) -> (r: Result<(), IoError>)
        ensures
            wrote(*old(self), *final(self), 0x01, 0x09, seq![0x80u8, 0x09u8, action], r is Ok),
            grew(old(self).session, final(self).session),
            r matches Err(e) ==> broke_off(old(self).session, final(self).session, e),
    {
        self.write(0x01, 0x09, vec![0x80u8, 0x09u8, action])
    }

    pub fn battery(&mut self) -> (r: Result<Vec<Cell>, IoError>)
        ensures
            read_once(*old(self), *final(self), 0x02, 0x02, r is Ok),
            r matches Ok(v) ==> v@ == match last_value(*final(self), 0x02, 0x02) {
                Some(p) => cells_of(p),
                None => Seq::<Cell>::empty(),
            },
            grew(old(self).session, final(self).session),
            r matches Err(e) ==> broke_off(old(self).session, final(self).session, e),
    {
        let p = match self.read(0x02, 0x02)? {
            Some(p) => p,
            None => {
                return Ok(Vec::new());
            },
        };
        // A QuietComfort 35 answers with the percentage and nothing else.
        if p.len() == 1 {
            let v = vec![Cell { index: 0, percent: p[0] }];
            proof {
                assert(v@ =~= cells_of(p@));
            }
            return Ok(v);
        }
        let mut v: Vec<Cell> = Vec::new();
        let n = p.len() / 4;
        let mut i: usize = 0;
        while i < n
            invariant
                n == p@.len() / 4,
                p@.len() != 1,
                i <= n,
                v@ =~= cells_of(p@).subrange(0, i as int),
            decreases n - i,
        {
            let plen = p.len();
            assert(4 * i + 4 <= plen) by (nonlinear_arith)
                requires
                    i < n,
                    n == plen / 4,
            ;
            v.push(Cell { percent: p[4 * i], index: p[4 * i + 3] });
            i = i + 1;
        }
        proof {
            assert(cells_of(p@).subrange(0, n as int) =~= cells_of(p@));
        }
        Ok(v)
    }

    pub fn volume(&mut self) -> (r: Result<Option<Volume>, IoError>)
        ensures
            read_once(*old(self), *final(self), 0x05, 0x05, r is Ok),
            r matches Ok(x) ==> x == match last_value(*final(self), 0x05, 0x05) {
                Some(p) => if p.len() >= 2 {
                    Some(Volume { current: p[1], steps: p[0] })
                } else {
                    None
                },
                None => None,
            },
            grew(old(self).session, final(self).session),
            r matches Err(e) ==> broke_off(old(self).session, final(self).session, e),
    {
        match self.read(0x05, 0x05)? {
            Some(p) => {
                if p.len() >= 2 {
                    Ok(Some(Volume { current: p[1], steps: p[0] }))
                } else {
                    Ok(None)
                }
            },
            None => Ok(None),
        }
    }

    /// Clamped to the range the device reports rather than a hardcoded one.
    pub fn set_volume(&mut self, level: u8) -> (r: Result<(), IoError>)
        ensures
            final(self).identity == old(self).identity,
            final(self).capabilities == old(self).capabilities,
            r is Ok ==> (match reply_value(first_reply(*old(self), *final(self)), 0x05, 0x05) {
                Some(p) => p.len() >= 2 && final(self).sent_log() == old(self).sent_log().push(
                    get_request(0x05, 0x05),
                ).push(
                    set_request(0x05, 0x05, seq![if level as int <= sat_sub(p[0] as int, 1) { level } else { sat_sub(p[0] as int, 1) as u8 }]),
                ),
                None => false,
            }),
            grew(old(self).session, final(self).session),
            r matches Err(e) ==> broke_off(old(self).session, final(self).session, e) || (e.kind == ErrorKind::Unsupported
                && e.message@ == "this device does not report a volume"@ && final(self).sent_log()
                == old(self).sent_log().push(get_request(0x05, 0x05)) && !(last_value(
                *final(self),
                0x05,
                0x05,
            ) matches Some(p) && p.len() >= 2)),
    {
        let current = match self.volume()? {
            Some(v) => v,
            None => {
                return Err(unsupported("this device does not report a volume"));
            },
        };
        let ghost p = last_value(*self, 0x05, 0x05)->Some_0;
        let ghost mid = *self;
        let max = if current.steps > 0 {
            current.steps - 1
        } else {
            0
        };
        let target = if level <= max {
            level
        } else {
            max
        };
        let payload = vec![target];
        proof {
            assert(payload@ =~= seq![if level as int <= sat_sub(p[0] as int, 1) { level } else { sat_sub(p[0] as int, 1) as u8 }]);
        }
        let r = self.write(0x05, 0x05, payload);
        proof {
            if r is Ok {
                assert(first_reply(*old(self), *self) == mid.session.replied());
            }
        }
        r
    }
}

} // verus!
