//! Every record this crate knows, and how well it knows it.
//!
//! This is what is known of the protocol, machine-readable. A finding lands here as
//! one entry — address, label, codec, evidence, note — and nothing else in the
//! crate has to be told about it: [`catalog`] carries it into the surface
//! probe, the `raw` command and the catalog listing.
//!
//! Notes are kept word for word as they were recorded, rather than paraphrased.

use vstd::prelude::*;

use crate::wire::Addr;

verus! {

/// How well a direction of a record is understood.
///
/// The lesson of every capture, made structural: **a capture establishes the
/// syntax, not the semantics.** Only [`Evidence::Confirmed`] is writable, so a
/// format that was seen on the wire but never shown to change anything cannot
/// be sent by accident.
#[derive(Debug, Clone, Copy, PartialEq, Eq)]
pub enum Evidence {
    /// A write changed what a read returned, or a read was matched against a
    /// value known beforehand.
    Confirmed,
    /// Seen on the wire. The effect was never verified.
    Syntax(&'static str),
    /// The form is accepted and changes nothing.
    Ineffective(&'static str),
    /// Not understood, or not present in this direction.
    Unknown,
}

/// What to tell someone who asked for a direction anyway.
pub open spec fn evidence_why(e: Evidence) -> &'static str {
    match e {
        Evidence::Confirmed => "understood",
        Evidence::Syntax(w) => w,
        Evidence::Ineffective(w) => w,
        Evidence::Unknown => "no confirmed format for this write",
    }
}

impl Evidence {
    pub fn usable(self) -> (b: bool)
        ensures
            b == (self is Confirmed),
    {
        match self {
            Evidence::Confirmed => true,
            _ => false,
        }
    }

    /// What to tell someone who asked for it anyway.
    pub fn why(self) -> (w: &'static str)
        ensures
            w == evidence_why(self),
    {
        match self {
            Evidence::Confirmed => "understood",
            Evidence::Syntax(w) => w,
            Evidence::Ineffective(w) => w,
            Evidence::Unknown => "no confirmed format for this write",
        }
    }
}

/// What is known about a record, without its codec.
///
/// Type-free, so the whole catalog fits in one list and can be listed, swept
/// and printed by code that knows nothing about any particular value.
#[derive(Debug, Clone, Copy, PartialEq, Eq)]
pub struct Meta {
    pub addr: Addr,
    pub label: &'static str,
    pub read: Evidence,
    pub write: Evidence,
    /// One line, as it was recorded.
    pub note: &'static str,
}

/// Which function of [`crate::codec`] reads a record.
#[derive(Debug, Clone, Copy, PartialEq, Eq, Structural)]
pub enum Decoder {
    Raw,
    Ascii,
    DeviceId,
    Address,
    Name,
    Prompts,
    AutoOff,
    Graded,
    Named,
    Equaliser,
    Flag,
    Battery,
    Addresses,
    Volume,
    Immersive,
    Byte,
    Mode,
}

/// Which function of [`crate::codec`] writes a record.
#[derive(Debug, Clone, Copy, PartialEq, Eq, Structural)]
pub enum Encoder {
    SetName,
    SetPrompts,
    SetAutoOff,
    SetNamed,
    SetBand,
    SetShortcut,
    SetFlag,
    SetSelfVoice,
    SetVolume,
    SetByte,
}

/// One record, with the codecs for its two directions.
///
/// The codecs differ where the protocol does — the shortcut reads a
/// model-specific blob and writes a single action byte, and the language record
/// reads a flags byte and writes a pair.
#[derive(Debug, Clone, Copy, PartialEq, Eq)]
pub struct Field {
    pub meta: Meta,
    pub decode: Decoder,
    pub encode: Option<Encoder>,
}

/// `protocol version` — 1.0.4 on a QC35, 1.2.0 on an Ultra; not the firmware
#[verifier::allow_in_spec]
pub fn protocol_version() -> Field
    returns
        (Field {
            meta: Meta {
                addr: Addr { function: 0x00, opcode: 0x01 },
                label: "protocol version",
                read: Evidence::Confirmed,
                write: Evidence::Unknown,
                note: "1.0.4 on a QC35, 1.2.0 on an Ultra; not the firmware",
            },
            decode: Decoder::Ascii,
            encode: None,
        }),
{
    Field {
        meta: Meta {
            addr: Addr { function: 0x00, opcode: 0x01 },
            label: "protocol version",
            read: Evidence::Confirmed,
            write: Evidence::Unknown,
            note: "1.0.4 on a QC35, 1.2.0 on an Ultra; not the firmware",
        },
        decode: Decoder::Ascii,
        encode: None,
    }
}

/// `device id` — <id:2> <index>; equals the Modalias product id
#[verifier::allow_in_spec]
pub fn device_id() -> Field
    returns
        (Field {
            meta: Meta {
                addr: Addr { function: 0x00, opcode: 0x03 },
                label: "device id",
                read: Evidence::Confirmed,
                write: Evidence::Unknown,
                note: "<id:2> <index>; equals the Modalias product id",
            },
            decode: Decoder::DeviceId,
            encode: None,
        }),
{
    Field {
        meta: Meta {
            addr: Addr { function: 0x00, opcode: 0x03 },
            label: "device id",
            read: Evidence::Confirmed,
            write: Evidence::Unknown,
            note: "<id:2> <index>; equals the Modalias product id",
        },
        decode: Decoder::DeviceId,
        encode: None,
    }
}

/// `version` — firmware on a QC35, a build string on an Ultra; label it neither
#[verifier::allow_in_spec]
pub fn version() -> Field
    returns
        (Field {
            meta: Meta {
                addr: Addr { function: 0x00, opcode: 0x05 },
                label: "version",
                read: Evidence::Confirmed,
                write: Evidence::Unknown,
                note: "firmware on a QC35, a build string on an Ultra; label it neither",
            },
            decode: Decoder::Ascii,
            encode: None,
        }),
{
    Field {
        meta: Meta {
            addr: Addr { function: 0x00, opcode: 0x05 },
            label: "version",
            read: Evidence::Confirmed,
            write: Evidence::Unknown,
            note: "firmware on a QC35, a build string on an Ultra; label it neither",
        },
        decode: Decoder::Ascii,
        encode: None,
    }
}

/// `own address` — six bytes; the order is not established, every capture is redacted
#[verifier::allow_in_spec]
pub fn own_address() -> Field
    returns
        (Field {
            meta: Meta {
                addr: Addr { function: 0x00, opcode: 0x06 },
                label: "own address",
                read: Evidence::Confirmed,
                write: Evidence::Unknown,
                note: "six bytes; the order is not established, every capture is redacted",
            },
            decode: Decoder::Address,
            encode: None,
        }),
{
    Field {
        meta: Meta {
            addr: Addr { function: 0x00, opcode: 0x06 },
            label: "own address",
            read: Evidence::Confirmed,
            write: Evidence::Unknown,
            note: "six bytes; the order is not established, every capture is redacted",
        },
        decode: Decoder::Address,
        encode: None,
    }
}

/// `serial` — ASCII
#[verifier::allow_in_spec]
pub fn serial() -> Field
    returns
        (Field {
            meta: Meta {
                addr: Addr { function: 0x00, opcode: 0x07 },
                label: "serial",
                read: Evidence::Confirmed,
                write: Evidence::Unknown,
                note: "ASCII",
            },
            decode: Decoder::Ascii,
            encode: None,
        }),
{
    Field {
        meta: Meta {
            addr: Addr { function: 0x00, opcode: 0x07 },
            label: "serial",
            read: Evidence::Confirmed,
            write: Evidence::Unknown,
            note: "ASCII",
        },
        decode: Decoder::Ascii,
        encode: None,
    }
}

/// `unidentified, 16 bytes` — GUID-shaped; Ultra only, a QC35 refuses
#[verifier::allow_in_spec]
pub fn guid() -> Field
    returns
        (Field {
            meta: Meta {
                addr: Addr { function: 0x00, opcode: 0x0c },
                label: "unidentified, 16 bytes",
                read: Evidence::Unknown,
                write: Evidence::Unknown,
                note: "GUID-shaped; Ultra only, a QC35 refuses",
            },
            decode: Decoder::Raw,
            encode: None,
        }),
{
    Field {
        meta: Meta {
            addr: Addr { function: 0x00, opcode: 0x0c },
            label: "unidentified, 16 bytes",
            read: Evidence::Unknown,
            write: Evidence::Unknown,
            note: "GUID-shaped; Ultra only, a QC35 refuses",
        },
        decode: Decoder::Raw,
        encode: None,
    }
}

/// `model name` — plain text; Ultra only — a QC35 refuses, so a name table is still needed
#[verifier::allow_in_spec]
pub fn model() -> Field
    returns
        (Field {
            meta: Meta {
                addr: Addr { function: 0x00, opcode: 0x0f },
                label: "model name",
                read: Evidence::Confirmed,
                write: Evidence::Unknown,
                note: "plain text; Ultra only — a QC35 refuses, so a name table is still needed",
            },
            decode: Decoder::Ascii,
            encode: None,
        }),
{
    Field {
        meta: Meta {
            addr: Addr { function: 0x00, opcode: 0x0f },
            label: "model name",
            read: Evidence::Confirmed,
            write: Evidence::Unknown,
            note: "plain text; Ultra only — a QC35 refuses, so a name table is still needed",
        },
        decode: Decoder::Ascii,
        encode: None,
    }
}

/// `name` — read carries a leading 00, the write does not; lives in firmware. An Ultra dropped and re-established the link after the write, taking A2DP down with it
#[verifier::allow_in_spec]
pub fn name() -> Field
    returns
        (Field {
            meta: Meta {
                addr: Addr { function: 0x01, opcode: 0x02 },
                label: "name",
                read: Evidence::Confirmed,
                write: Evidence::Confirmed,
                note: "read carries a leading 00, the write does not; lives in firmware. An Ultra dropped and re-established the link after the write, taking A2DP down with it",
            },
            decode: Decoder::Name,
            encode: Some(Encoder::SetName),
        }),
{
    Field {
        meta: Meta {
            addr: Addr { function: 0x01, opcode: 0x02 },
            label: "name",
            read: Evidence::Confirmed,
            write: Evidence::Confirmed,
            note: "read carries a leading 00, the write does not; lives in firmware. An Ultra dropped and re-established the link after the write, taking A2DP down with it",
        },
        decode: Decoder::Name,
        encode: Some(Encoder::SetName),
    }
}

/// `language and battery announcement` — write <language> <announcement>, 21 EN 26 ES; the flag reads back at byte 6
#[verifier::allow_in_spec]
pub fn prompts() -> Field
    returns
        (Field {
            meta: Meta {
                addr: Addr { function: 0x01, opcode: 0x03 },
                label: "language and battery announcement",
                read: Evidence::Confirmed,
                write: Evidence::Confirmed,
                note: "write <language> <announcement>, 21 EN 26 ES; the flag reads back at byte 6",
            },
            decode: Decoder::Prompts,
            encode: Some(Encoder::SetPrompts),
        }),
{
    Field {
        meta: Meta {
            addr: Addr { function: 0x01, opcode: 0x03 },
            label: "language and battery announcement",
            read: Evidence::Confirmed,
            write: Evidence::Confirmed,
            note: "write <language> <announcement>, 21 EN 26 ES; the flag reads back at byte 6",
        },
        decode: Decoder::Prompts,
        encode: Some(Encoder::SetPrompts),
    }
}

/// `auto-off` — minutes, 3c = 60, 00 = never; the Ultra's three-byte form is not mapped
#[verifier::allow_in_spec]
pub fn auto_off() -> Field
    returns
        (Field {
            meta: Meta {
                addr: Addr { function: 0x01, opcode: 0x04 },
                label: "auto-off",
                read: Evidence::Confirmed,
                write: Evidence::Confirmed,
                note: "minutes, 3c = 60, 00 = never; the Ultra's three-byte form is not mapped",
            },
            decode: Decoder::AutoOff,
            encode: Some(Encoder::SetAutoOff),
        }),
{
    Field {
        meta: Meta {
            addr: Addr { function: 0x01, opcode: 0x04 },
            label: "auto-off",
            read: Evidence::Confirmed,
            write: Evidence::Confirmed,
            note: "minutes, 3c = 60, 00 = never; the Ultra's three-byte form is not mapped",
        },
        decode: Decoder::AutoOff,
        encode: Some(Encoder::SetAutoOff),
    }
}

/// `noise cancelling` — Ultra. 0b <awareness> 03, awareness = 10 - level; no write was ever captured
#[verifier::allow_in_spec]
pub fn anc_graded() -> Field
    returns
        (Field {
            meta: Meta {
                addr: Addr { function: 0x01, opcode: 0x05 },
                label: "noise cancelling",
                read: Evidence::Confirmed,
                write: Evidence::Unknown,
                note: "Ultra. 0b <awareness> 03, awareness = 10 - level; no write was ever captured",
            },
            decode: Decoder::Graded,
            encode: None,
        }),
{
    Field {
        meta: Meta {
            addr: Addr { function: 0x01, opcode: 0x05 },
            label: "noise cancelling",
            read: Evidence::Confirmed,
            write: Evidence::Unknown,
            note: "Ultra. 0b <awareness> 03, awareness = 10 - level; no write was ever captured",
        },
        decode: Decoder::Graded,
        encode: None,
    }
}

/// `noise cancelling` — QC35. <level> <mask>; 0b = bits 0,1,3, so only off, high and low
#[verifier::allow_in_spec]
pub fn anc_named() -> Field
    returns
        (Field {
            meta: Meta {
                addr: Addr { function: 0x01, opcode: 0x06 },
                label: "noise cancelling",
                read: Evidence::Confirmed,
                write: Evidence::Confirmed,
                note: "QC35. <level> <mask>; 0b = bits 0,1,3, so only off, high and low",
            },
            decode: Decoder::Named,
            encode: Some(Encoder::SetNamed),
        }),
{
    Field {
        meta: Meta {
            addr: Addr { function: 0x01, opcode: 0x06 },
            label: "noise cancelling",
            read: Evidence::Confirmed,
            write: Evidence::Confirmed,
            note: "QC35. <level> <mask>; 0b = bits 0,1,3, so only off, high and low",
        },
        decode: Decoder::Named,
        encode: Some(Encoder::SetNamed),
    }
}

/// `equaliser` — RangeControl, which the equaliser uses. Ultra. <min> <max> <value> <band> per band; write <value> <band>, signed
#[verifier::allow_in_spec]
pub fn equaliser() -> Field
    returns
        (Field {
            meta: Meta {
                addr: Addr { function: 0x01, opcode: 0x07 },
                label: "equaliser",
                read: Evidence::Confirmed,
                write: Evidence::Confirmed,
                note: "RangeControl, which the equaliser uses. Ultra. <min> <max> <value> <band> per band; write <value> <band>, signed",
            },
            decode: Decoder::Equaliser,
            encode: Some(Encoder::SetBand),
        }),
{
    Field {
        meta: Meta {
            addr: Addr { function: 0x01, opcode: 0x07 },
            label: "equaliser",
            read: Evidence::Confirmed,
            write: Evidence::Confirmed,
            note: "RangeControl, which the equaliser uses. Ultra. <min> <max> <value> <band> per band; write <value> <band>, signed",
        },
        decode: Decoder::Equaliser,
        encode: Some(Encoder::SetBand),
    }
}

/// `shortcut action` — write 80 09 <action>, 0e 03 13 01 seen; the read has a different, per-model shape
#[verifier::allow_in_spec]
pub fn shortcut() -> Field
    returns
        (Field {
            meta: Meta {
                addr: Addr { function: 0x01, opcode: 0x09 },
                label: "shortcut action",
                read: Evidence::Unknown,
                write: Evidence::Confirmed,
                note: "write 80 09 <action>, 0e 03 13 01 seen; the read has a different, per-model shape",
            },
            decode: Decoder::Raw,
            encode: Some(Encoder::SetShortcut),
        }),
{
    Field {
        meta: Meta {
            addr: Addr { function: 0x01, opcode: 0x09 },
            label: "shortcut action",
            read: Evidence::Unknown,
            write: Evidence::Confirmed,
            note: "write 80 09 <action>, 0e 03 13 01 seen; the read has a different, per-model shape",
        },
        decode: Decoder::Raw,
        encode: Some(Encoder::SetShortcut),
    }
}

/// `multipoint` — two devices at once
#[verifier::allow_in_spec]
pub fn multipoint() -> Field
    returns
        (Field {
            meta: Meta {
                addr: Addr { function: 0x01, opcode: 0x0a },
                label: "multipoint",
                read: Evidence::Confirmed,
                write: Evidence::Confirmed,
                note: "two devices at once",
            },
            decode: Decoder::Flag,
            encode: Some(Encoder::SetFlag),
        }),
{
    Field {
        meta: Meta {
            addr: Addr { function: 0x01, opcode: 0x0a },
            label: "multipoint",
            read: Evidence::Confirmed,
            write: Evidence::Confirmed,
            note: "two devices at once",
        },
        decode: Decoder::Flag,
        encode: Some(Encoder::SetFlag),
    }
}

/// `self-voice in calls` — write 01 <level>, 00 01 03 seen; the read layout is not established
#[verifier::allow_in_spec]
pub fn self_voice() -> Field
    returns
        (Field {
            meta: Meta {
                addr: Addr { function: 0x01, opcode: 0x0b },
                label: "self-voice in calls",
                read: Evidence::Unknown,
                write: Evidence::Confirmed,
                note: "write 01 <level>, 00 01 03 seen; the read layout is not established",
            },
            decode: Decoder::Raw,
            encode: Some(Encoder::SetSelfVoice),
        }),
{
    Field {
        meta: Meta {
            addr: Addr { function: 0x01, opcode: 0x0b },
            label: "self-voice in calls",
            read: Evidence::Unknown,
            write: Evidence::Confirmed,
            note: "write 01 <level>, 00 01 03 seen; the read layout is not established",
        },
        decode: Decoder::Raw,
        encode: Some(Encoder::SetSelfVoice),
    }
}

/// `unidentified` — one write captured, never identified
#[verifier::allow_in_spec]
pub fn unknown_01_0c() -> Field
    returns
        (Field {
            meta: Meta {
                addr: Addr { function: 0x01, opcode: 0x0c },
                label: "unidentified",
                read: Evidence::Unknown,
                write: Evidence::Unknown,
                note: "one write captured, never identified",
            },
            decode: Decoder::Raw,
            encode: None,
        }),
{
    Field {
        meta: Meta {
            addr: Addr { function: 0x01, opcode: 0x0c },
            label: "unidentified",
            read: Evidence::Unknown,
            write: Evidence::Unknown,
            note: "one write captured, never identified",
        },
        decode: Decoder::Raw,
        encode: None,
    }
}

/// `auto play/pause` — AutoPlayPause: pause when they come off. Distinct from OnHeadDetection, which is 01 10
#[verifier::allow_in_spec]
pub fn head_detection() -> Field
    returns
        (Field {
            meta: Meta {
                addr: Addr { function: 0x01, opcode: 0x18 },
                label: "auto play/pause",
                read: Evidence::Confirmed,
                write: Evidence::Confirmed,
                note: "AutoPlayPause: pause when they come off. Distinct from OnHeadDetection, which is 01 10",
            },
            decode: Decoder::Flag,
            encode: Some(Encoder::SetFlag),
        }),
{
    Field {
        meta: Meta {
            addr: Addr { function: 0x01, opcode: 0x18 },
            label: "auto play/pause",
            read: Evidence::Confirmed,
            write: Evidence::Confirmed,
            note: "AutoPlayPause: pause when they come off. Distinct from OnHeadDetection, which is 01 10",
        },
        decode: Decoder::Flag,
        encode: Some(Encoder::SetFlag),
    }
}

/// `auto-answer on wearing` — answer a call by putting them on
#[verifier::allow_in_spec]
pub fn auto_answer() -> Field
    returns
        (Field {
            meta: Meta {
                addr: Addr { function: 0x01, opcode: 0x1b },
                label: "auto-answer on wearing",
                read: Evidence::Confirmed,
                write: Evidence::Confirmed,
                note: "answer a call by putting them on",
            },
            decode: Decoder::Flag,
            encode: Some(Encoder::SetFlag),
        }),
{
    Field {
        meta: Meta {
            addr: Addr { function: 0x01, opcode: 0x1b },
            label: "auto-answer on wearing",
            read: Evidence::Confirmed,
            write: Evidence::Confirmed,
            note: "answer a call by putting them on",
        },
        decode: Decoder::Flag,
        encode: Some(Encoder::SetFlag),
    }
}

/// `battery` — one byte on a QC35, <pct> ff ff <index> per cell on an Ultra
#[verifier::allow_in_spec]
pub fn battery() -> Field
    returns
        (Field {
            meta: Meta {
                addr: Addr { function: 0x02, opcode: 0x02 },
                label: "battery",
                read: Evidence::Confirmed,
                write: Evidence::Unknown,
                note: "one byte on a QC35, <pct> ff ff <index> per cell on an Ultra",
            },
            decode: Decoder::Battery,
            encode: None,
        }),
{
    Field {
        meta: Meta {
            addr: Addr { function: 0x02, opcode: 0x02 },
            label: "battery",
            read: Evidence::Confirmed,
            write: Evidence::Unknown,
            note: "one byte on a QC35, <pct> ff ff <index> per cell on an Ultra",
        },
        decode: Decoder::Battery,
        encode: None,
    }
}

/// `battery log` — BatteryLog. The ASCII 'empty' never varies; the trailing counter tracks time between reads, so it is not device state
#[verifier::allow_in_spec]
pub fn clock_02_0d() -> Field
    returns
        (Field {
            meta: Meta {
                addr: Addr { function: 0x02, opcode: 0x0d },
                label: "battery log",
                read: Evidence::Unknown,
                write: Evidence::Unknown,
                note: "BatteryLog. The ASCII 'empty' never varies; the trailing counter tracks time between reads, so it is not device state",
            },
            decode: Decoder::Raw,
            encode: None,
        }),
{
    Field {
        meta: Meta {
            addr: Addr { function: 0x02, opcode: 0x0d },
            label: "battery log",
            read: Evidence::Unknown,
            write: Evidence::Unknown,
            note: "BatteryLog. The ASCII 'empty' never varies; the trailing counter tracks time between reads, so it is not device state",
        },
        decode: Decoder::Raw,
        encode: None,
    }
}

/// `battery log, raw` — BatteryLogRaw. Equal to 02 0d here; a field that moves every read manufactures correlations
#[verifier::allow_in_spec]
pub fn clock_02_0e() -> Field
    returns
        (Field {
            meta: Meta {
                addr: Addr { function: 0x02, opcode: 0x0e },
                label: "battery log, raw",
                read: Evidence::Unknown,
                write: Evidence::Unknown,
                note: "BatteryLogRaw. Equal to 02 0d here; a field that moves every read manufactures correlations",
            },
            decode: Decoder::Raw,
            encode: None,
        }),
{
    Field {
        meta: Meta {
            addr: Addr { function: 0x02, opcode: 0x0e },
            label: "battery log, raw",
            read: Evidence::Unknown,
            write: Evidence::Unknown,
            note: "BatteryLogRaw. Equal to 02 0d here; a field that moves every read manufactures correlations",
        },
        decode: Decoder::Raw,
        encode: None,
    }
}

/// `paired devices` — ListDevices. A leading byte then one address each — the byte is not a count (01 before three on a QC35, 03 before three on an Ultra); possibly a connected-slot mask
#[verifier::allow_in_spec]
pub fn paired() -> Field
    returns
        (Field {
            meta: Meta {
                addr: Addr { function: 0x04, opcode: 0x04 },
                label: "paired devices",
                read: Evidence::Confirmed,
                write: Evidence::Unknown,
                note: "ListDevices. A leading byte then one address each — the byte is not a count (01 before three on a QC35, 03 before three on an Ultra); possibly a connected-slot mask",
            },
            decode: Decoder::Addresses,
            encode: None,
        }),
{
    Field {
        meta: Meta {
            addr: Addr { function: 0x04, opcode: 0x04 },
            label: "paired devices",
            read: Evidence::Confirmed,
            write: Evidence::Unknown,
            note: "ListDevices. A leading byte then one address each — the byte is not a count (01 before three on a QC35, 03 before three on an Ultra); possibly a connected-slot mask",
        },
        decode: Decoder::Addresses,
        encode: None,
    }
}

/// `the app's own address` — AppAddress, not the active source — every model returns the same one, the host's
#[verifier::allow_in_spec]
pub fn active_device() -> Field
    returns
        (Field {
            meta: Meta {
                addr: Addr { function: 0x04, opcode: 0x09 },
                label: "the app's own address",
                read: Evidence::Confirmed,
                write: Evidence::Unknown,
                note: "AppAddress, not the active source — every model returns the same one, the host's",
            },
            decode: Decoder::Address,
            encode: None,
        }),
{
    Field {
        meta: Meta {
            addr: Addr { function: 0x04, opcode: 0x09 },
            label: "the app's own address",
            read: Evidence::Confirmed,
            write: Evidence::Unknown,
            note: "AppAddress, not the active source — every model returns the same one, the host's",
        },
        decode: Decoder::Address,
        encode: None,
    }
}

/// `active device` — 00 02 01 <addr:6>; documented before this catalog and confirmed on a QC35
#[verifier::allow_in_spec]
pub fn active_device_05() -> Field
    returns
        (Field {
            meta: Meta {
                addr: Addr { function: 0x05, opcode: 0x01 },
                label: "active device",
                read: Evidence::Unknown,
                write: Evidence::Unknown,
                note: "00 02 01 <addr:6>; documented before this catalog and confirmed on a QC35",
            },
            decode: Decoder::Raw,
            encode: None,
        }),
{
    Field {
        meta: Meta {
            addr: Addr { function: 0x05, opcode: 0x01 },
            label: "active device",
            read: Evidence::Unknown,
            write: Evidence::Unknown,
            note: "00 02 01 <addr:6>; documented before this catalog and confirmed on a QC35",
        },
        decode: Decoder::Raw,
        encode: None,
    }
}

/// `volume` — <steps> <current>; 19 = 25 positions, 0-0x18
#[verifier::allow_in_spec]
pub fn volume() -> Field
    returns
        (Field {
            meta: Meta {
                addr: Addr { function: 0x05, opcode: 0x05 },
                label: "volume",
                read: Evidence::Confirmed,
                write: Evidence::Confirmed,
                note: "<steps> <current>; 19 = 25 positions, 0-0x18",
            },
            decode: Decoder::Volume,
            encode: Some(Encoder::SetVolume),
        }),
{
    Field {
        meta: Meta {
            addr: Addr { function: 0x05, opcode: 0x05 },
            label: "volume",
            read: Evidence::Confirmed,
            write: Evidence::Confirmed,
            note: "<steps> <current>; 19 = 25 positions, 0-0x18",
        },
        decode: Decoder::Volume,
        encode: Some(Encoder::SetVolume),
    }
}

/// `immersive audio` — Ultra. 00 off, 01 still, 02 motion
#[verifier::allow_in_spec]
pub fn immersive() -> Field
    returns
        (Field {
            meta: Meta {
                addr: Addr { function: 0x05, opcode: 0x0f },
                label: "immersive audio",
                read: Evidence::Confirmed,
                write: Evidence::Unknown,
                note: "Ultra. 00 off, 01 still, 02 motion",
            },
            decode: Decoder::Immersive,
            encode: None,
        }),
{
    Field {
        meta: Meta {
            addr: Addr { function: 0x05, opcode: 0x0f },
            label: "immersive audio",
            read: Evidence::Confirmed,
            write: Evidence::Unknown,
            note: "Ultra. 00 off, 01 still, 02 motion",
        },
        decode: Decoder::Immersive,
        encode: None,
    }
}

/// `unidentified` — two bytes on an Ultra; moved during none of thirty labelled observations
#[verifier::allow_in_spec]
pub fn unknown_07_01() -> Field
    returns
        (Field {
            meta: Meta {
                addr: Addr { function: 0x07, opcode: 0x01 },
                label: "unidentified",
                read: Evidence::Unknown,
                write: Evidence::Unknown,
                note: "two bytes on an Ultra; moved during none of thirty labelled observations",
            },
            decode: Decoder::Raw,
            encode: None,
        }),
{
    Field {
        meta: Meta {
            addr: Addr { function: 0x07, opcode: 0x01 },
            label: "unidentified",
            read: Evidence::Unknown,
            write: Evidence::Unknown,
            note: "two bytes on an Ultra; moved during none of thirty labelled observations",
        },
        decode: Decoder::Raw,
        encode: None,
    }
}

/// `unidentified` — seven bytes on an Ultra
#[verifier::allow_in_spec]
pub fn unknown_1f_02() -> Field
    returns
        (Field {
            meta: Meta {
                addr: Addr { function: 0x1f, opcode: 0x02 },
                label: "unidentified",
                read: Evidence::Unknown,
                write: Evidence::Unknown,
                note: "seven bytes on an Ultra",
            },
            decode: Decoder::Raw,
            encode: None,
        }),
{
    Field {
        meta: Meta {
            addr: Addr { function: 0x1f, opcode: 0x02 },
            label: "unidentified",
            read: Evidence::Unknown,
            write: Evidence::Unknown,
            note: "seven bytes on an Ultra",
        },
        decode: Decoder::Raw,
        encode: None,
    }
}

/// `current mode` — Ultra. Reading tracks the selected mode. Selection is confirmed: 1f 03 05 02 <index> <play voice prompt>, a Start, replying Result with the resulting index. Not a get/set field — it is an operation
#[verifier::allow_in_spec]
pub fn current_mode() -> Field
    returns
        (Field {
            meta: Meta {
                addr: Addr { function: 0x1f, opcode: 0x03 },
                label: "current mode",
                read: Evidence::Confirmed,
                write: Evidence::Ineffective("a plain SetGet is refused; selection is a Start of <index> <prompt>, which Device::set does not send"),
                note: "Ultra. Reading tracks the selected mode. Selection is confirmed: 1f 03 05 02 <index> <play voice prompt>, a Start, replying Result with the resulting index. Not a get/set field — it is an operation",
            },
            decode: Decoder::Byte,
            encode: Some(Encoder::SetByte),
        }),
{
    Field {
        meta: Meta {
            addr: Addr { function: 0x1f, opcode: 0x03 },
            label: "current mode",
            read: Evidence::Confirmed,
            write: Evidence::Ineffective("a plain SetGet is refused; selection is a Start of <index> <prompt>, which Device::set does not send"),
            note: "Ultra. Reading tracks the selected mode. Selection is confirmed: 1f 03 05 02 <index> <play voice prompt>, a Start, replying Result with the resulting index. Not a get/set field — it is an operation",
        },
        decode: Decoder::Byte,
        encode: Some(Encoder::SetByte),
    }
}

/// `remember my mode` — returns to the last mode on power-up; lives with the modes, not the toggles
#[verifier::allow_in_spec]
pub fn remember_mode() -> Field
    returns
        (Field {
            meta: Meta {
                addr: Addr { function: 0x1f, opcode: 0x05 },
                label: "remember my mode",
                read: Evidence::Confirmed,
                write: Evidence::Confirmed,
                note: "returns to the last mode on power-up; lives with the modes, not the toggles",
            },
            decode: Decoder::Flag,
            encode: Some(Encoder::SetFlag),
        }),
{
    Field {
        meta: Meta {
            addr: Addr { function: 0x1f, opcode: 0x05 },
            label: "remember my mode",
            read: Evidence::Confirmed,
            write: Evidence::Confirmed,
            note: "returns to the last mode on power-up; lives with the modes, not the toggles",
        },
        decode: Decoder::Flag,
        encode: Some(Encoder::SetFlag),
    }
}

/// One slot. The table is ten of these and arrives as an enumeration, so
/// the mode list reads it with `enumerate` and this codec, not with `get`.
///
/// This crate has no encoder for the shorter write layout, so the write is
/// refused as a write with no encoder, although the catalog holds it
/// confirmed.
/// `mode table slot` — ModeConfig. Read 47 bytes on an Ultra HP, 44 on an Earbuds II: byte 2 prompt (0 = empty), 42 cncLevel, 46 wind block, byte 5 favorite not occupancy. The write is a shorter layout, confirmed by writing wind block on and reading byte 46 back
#[verifier::allow_in_spec]
pub fn mode_slot() -> Field
    returns
        (Field {
            meta: Meta {
                addr: Addr { function: 0x1f, opcode: 0x06 },
                label: "mode table slot",
                read: Evidence::Confirmed,
                write: Evidence::Confirmed,
                note: "ModeConfig. Read 47 bytes on an Ultra HP, 44 on an Earbuds II: byte 2 prompt (0 = empty), 42 cncLevel, 46 wind block, byte 5 favorite not occupancy. The write is a shorter layout, confirmed by writing wind block on and reading byte 46 back",
            },
            decode: Decoder::Mode,
            encode: None,
        }),
{
    Field {
        meta: Meta {
            addr: Addr { function: 0x1f, opcode: 0x06 },
            label: "mode table slot",
            read: Evidence::Confirmed,
            write: Evidence::Confirmed,
            note: "ModeConfig. Read 47 bytes on an Ultra HP, 44 on an Earbuds II: byte 2 prompt (0 = empty), 42 cncLevel, 46 wind block, byte 5 favorite not occupancy. The write is a shorter layout, confirmed by writing wind block on and reading byte 46 back",
        },
        decode: Decoder::Mode,
        encode: None,
    }
}

/// `mode slot count` — 0a 00 1f; 0a is the number of slots
#[verifier::allow_in_spec]
pub fn mode_slots() -> Field
    returns
        (Field {
            meta: Meta {
                addr: Addr { function: 0x1f, opcode: 0x08 },
                label: "mode slot count",
                read: Evidence::Confirmed,
                write: Evidence::Unknown,
                note: "0a 00 1f; 0a is the number of slots",
            },
            decode: Decoder::Byte,
            encode: None,
        }),
{
    Field {
        meta: Meta {
            addr: Addr { function: 0x1f, opcode: 0x08 },
            label: "mode slot count",
            read: Evidence::Confirmed,
            write: Evidence::Unknown,
            note: "0a 00 1f; 0a is the number of slots",
        },
        decode: Decoder::Byte,
        encode: None,
    }
}

/// Every record above, in declaration order.
pub open spec fn catalog_spec() -> Seq<Meta> {
    seq![
        protocol_version().meta,
        device_id().meta,
        version().meta,
        own_address().meta,
        serial().meta,
        guid().meta,
        model().meta,
        name().meta,
        prompts().meta,
        auto_off().meta,
        anc_graded().meta,
        anc_named().meta,
        equaliser().meta,
        shortcut().meta,
        multipoint().meta,
        self_voice().meta,
        unknown_01_0c().meta,
        head_detection().meta,
        auto_answer().meta,
        battery().meta,
        clock_02_0d().meta,
        clock_02_0e().meta,
        paired().meta,
        active_device().meta,
        active_device_05().meta,
        volume().meta,
        immersive().meta,
        unknown_07_01().meta,
        unknown_1f_02().meta,
        current_mode().meta,
        remember_mode().meta,
        mode_slot().meta,
        mode_slots().meta,
    ]
}

/// Every record this build knows, in declaration order.
pub fn catalog() -> (v: Vec<Meta>)
    ensures
        v@ == catalog_spec(),
{
    let mut v: Vec<Meta> = Vec::new();
    v.push(protocol_version().meta);
    v.push(device_id().meta);
    v.push(version().meta);
    v.push(own_address().meta);
    v.push(serial().meta);
    v.push(guid().meta);
    v.push(model().meta);
    v.push(name().meta);
    v.push(prompts().meta);
    v.push(auto_off().meta);
    v.push(anc_graded().meta);
    v.push(anc_named().meta);
    v.push(equaliser().meta);
    v.push(shortcut().meta);
    v.push(multipoint().meta);
    v.push(self_voice().meta);
    v.push(unknown_01_0c().meta);
    v.push(head_detection().meta);
    v.push(auto_answer().meta);
    v.push(battery().meta);
    v.push(clock_02_0d().meta);
    v.push(clock_02_0e().meta);
    v.push(paired().meta);
    v.push(active_device().meta);
    v.push(active_device_05().meta);
    v.push(volume().meta);
    v.push(immersive().meta);
    v.push(unknown_07_01().meta);
    v.push(unknown_1f_02().meta);
    v.push(current_mode().meta);
    v.push(remember_mode().meta);
    v.push(mode_slot().meta);
    v.push(mode_slots().meta);
    proof {
        assert(v@ =~= catalog_spec());
    }
    v
}

/// The addresses of [`catalog_spec`], in order.
pub open spec fn catalog_addrs() -> Seq<Addr> {
    seq![Addr { function: 0x00, opcode: 0x01 }, Addr { function: 0x00, opcode: 0x03 }, Addr { function: 0x00, opcode: 0x05 }, Addr { function: 0x00, opcode: 0x06 }, Addr { function: 0x00, opcode: 0x07 }, Addr { function: 0x00, opcode: 0x0c }, Addr { function: 0x00, opcode: 0x0f }, Addr { function: 0x01, opcode: 0x02 }, Addr { function: 0x01, opcode: 0x03 }, Addr { function: 0x01, opcode: 0x04 }, Addr { function: 0x01, opcode: 0x05 }, Addr { function: 0x01, opcode: 0x06 }, Addr { function: 0x01, opcode: 0x07 }, Addr { function: 0x01, opcode: 0x09 }, Addr { function: 0x01, opcode: 0x0a }, Addr { function: 0x01, opcode: 0x0b }, Addr { function: 0x01, opcode: 0x0c }, Addr { function: 0x01, opcode: 0x18 }, Addr { function: 0x01, opcode: 0x1b }, Addr { function: 0x02, opcode: 0x02 }, Addr { function: 0x02, opcode: 0x0d }, Addr { function: 0x02, opcode: 0x0e }, Addr { function: 0x04, opcode: 0x04 }, Addr { function: 0x04, opcode: 0x09 }, Addr { function: 0x05, opcode: 0x01 }, Addr { function: 0x05, opcode: 0x05 }, Addr { function: 0x05, opcode: 0x0f }, Addr { function: 0x07, opcode: 0x01 }, Addr { function: 0x1f, opcode: 0x02 }, Addr { function: 0x1f, opcode: 0x03 }, Addr { function: 0x1f, opcode: 0x05 }, Addr { function: 0x1f, opcode: 0x06 }, Addr { function: 0x1f, opcode: 0x08 }]
}

/// The distinct values of `s`, each where it first appears.
pub open spec fn first_occurrences(s: Seq<u8>) -> Seq<u8>
    decreases s.len(),
{
    if s.len() == 0 {
        seq![]
    } else {
        let d = first_occurrences(s.drop_last());
        if d.contains(s.last()) {
            d
        } else {
            d.push(s.last())
        }
    }
}

/// The functions of a list of records.
pub open spec fn functions_of(metas: Seq<Meta>) -> Seq<u8> {
    metas.map_values(|m: Meta| m.addr.function)
}

/// Every function the catalog mentions, once each, in order.
///
/// What a surface probe enumerates. Sweeping all sixty-four instead costs a
/// round trip each, and a silent function costs the whole receive timeout.
pub fn functions() -> (v: Vec<u8>)
    ensures
        v@ == first_occurrences(functions_of(catalog_spec())),
{
    let metas = catalog();
    let mut seen: Vec<bool> = vec![false; 256];
    let mut out: Vec<u8> = Vec::new();
    let mut i: usize = 0;
    while i < metas.len()
        invariant
            metas@ == catalog_spec(),
            i <= metas@.len(),
            seen@.len() == 256,
            out@ == first_occurrences(functions_of(metas@).subrange(0, i as int)),
            forall|f: u8| #[trigger] seen@[f as int] == out@.contains(f),
        decreases metas@.len() - i,
    {
        let f = metas[i].addr.function;
        let ghost prefix = functions_of(metas@).subrange(0, i + 1);
        proof {
            assert(prefix.drop_last() =~= functions_of(metas@).subrange(0, i as int));
            assert(prefix.last() == f);
        }
        if !seen[f as usize] {
            let ghost before = out@;
            seen.set(f as usize, true);
            out.push(f);
            proof {
                assert forall|g: u8| #[trigger] seen@[g as int] == out@.contains(g) by {
                    if g == f {
                        assert(out@[out@.len() - 1] == f);
                    } else {
                        assert(seen@[g as int] == before.contains(g));
                        if before.contains(g) {
                            let k = choose|k: int| 0 <= k < before.len() && before[k] == g;
                            assert(out@[k] == g);
                        }
                        if out@.contains(g) {
                            let k = choose|k: int| 0 <= k < out@.len() && out@[k] == g;
                            assert(k < before.len());
                            assert(before[k] == g);
                        }
                    }
                }
            }
        }
        i = i + 1;
    }
    proof {
        assert(functions_of(metas@).subrange(0, metas@.len() as int) =~= functions_of(metas@));
    }
    out
}

/// The first record at `addr`, if any.
pub open spec fn find_spec(metas: Seq<Meta>, addr: Addr) -> Option<Meta>
    decreases metas.len(),
{
    if metas.len() == 0 {
        None
    } else if metas[0].addr == addr {
        Some(metas[0])
    } else {
        find_spec(metas.drop_first(), addr)
    }
}

/// Look a record up by address, for the `raw` command and for error reporting.
pub fn find(addr: Addr) -> (r: Option<Meta>)
    ensures
        r == find_spec(catalog_spec(), addr),
{
    let metas = catalog();
    let mut i: usize = 0;
    proof {
        assert(catalog_spec().subrange(0, catalog_spec().len() as int) =~= catalog_spec());
    }
    while i < metas.len()
        invariant
            metas@ == catalog_spec(),
            i <= metas@.len(),
            find_spec(catalog_spec(), addr) == find_spec(catalog_spec().subrange(i as int, catalog_spec().len() as int), addr),
        decreases metas@.len() - i,
    {
        proof {
            let s = catalog_spec().subrange(i as int, catalog_spec().len() as int);
            assert(s.drop_first() =~= catalog_spec().subrange(i + 1, catalog_spec().len() as int));
            assert(s[0] == metas@[i as int]);
        }
        if metas[i].addr == addr {
            return Some(metas[i]);
        }
        i = i + 1;
    }
    None
}

/// No two records share an address: two entries for one address would mean
/// one of them is never reached.
pub proof fn lemma_catalog_addresses_distinct()
    ensures
        forall|i: int, j: int|
            0 <= i < j < catalog_spec().len() ==> catalog_spec()[i].addr != catalog_spec()[j].addr,
{
    assert(catalog_spec().map_values(|m: Meta| m.addr) =~= catalog_addrs());
    assert forall|i: int, j: int| 0 <= i < j < catalog_addrs().len() implies catalog_addrs()[i]
        != catalog_addrs()[j] by {
        assert(catalog_addrs()[i].function * 256 + catalog_addrs()[i].opcode < catalog_addrs()[j].function * 256 + catalog_addrs()[j].opcode);
    }
    assert forall|i: int, j: int| 0 <= i < j < catalog_spec().len() implies catalog_spec()[i].addr
        != catalog_spec()[j].addr by {
        assert(catalog_spec()[i].addr == catalog_addrs()[i]);
        assert(catalog_spec()[j].addr == catalog_addrs()[j]);
    }
}

/// Each value listed once, and every value of the input listed: what the
/// surface probe enumerates is every function the catalog mentions, each one
/// time.
pub proof fn lemma_first_occurrences(s: Seq<u8>)
    ensures
        forall|i: int, j: int|
            0 <= i < j < first_occurrences(s).len() ==> first_occurrences(s)[i] != first_occurrences(
                s,
            )[j],
        forall|x: u8| #[trigger] first_occurrences(s).contains(x) <==> s.contains(x),
    decreases s.len(),
{
    if s.len() > 0 {
        let init = s.drop_last();
        lemma_first_occurrences(init);
        let d = first_occurrences(init);
        assert forall|x: u8| #[trigger] first_occurrences(s).contains(x) <==> s.contains(x) by {
            if s.contains(x) && x != s.last() {
                let k = choose|k: int| 0 <= k < s.len() && s[k] == x;
                assert(k < s.len() - 1);
                assert(init[k] == x);
            }
            if init.contains(x) {
                let k = choose|k: int| 0 <= k < init.len() && init[k] == x;
                assert(s[k] == x);
            }
            if x == s.last() {
                assert(s[s.len() - 1] == x);
                if !d.contains(x) {
                    assert(d.push(x)[d.len() as int] == x);
                }
            }
            if d.contains(x) && !d.contains(s.last()) {
                let k = choose|k: int| 0 <= k < d.len() && d[k] == x;
                assert(d.push(s.last())[k] == x);
            }
            if d.push(s.last()).contains(x) && !d.contains(s.last()) {
                let k = choose|k: int| 0 <= k < d.len() + 1 && d.push(s.last())[k] == x;
                if k < d.len() {
                    assert(d[k] == x);
                }
            }
        }
    }
}

/// A write is sent only for a record whose write is confirmed and which has an
/// encoder; every record the catalog marks usable for writing that has no
/// encoder degrades to a refusal rather than to a blind write.
pub open spec fn writable(f: Field) -> bool {
    f.meta.write is Confirmed && f.encode is Some
}

} // verus!
