//! What can go wrong.
//!
//! Kept as its own type because this protocol answers three ways where most
//! answer two: a value, a refusal, or nothing at all. A client must hold them
//! apart — reading silence as "busy" invites a
//! retry loop against an opcode that will never answer, and reading it as
//! "unsupported" throws away the refusal codes, which are the only signal for
//! whether a function is worth probing further.

use vstd::prelude::*;

use crate::text::{push_str, string_from_chars};
use crate::wire::{self, addr_text, error_text, refusal_text, hex_spaced, push_hex_spaced, Addr, Refusal};

verus! {

/// The kind of a transport failure, as the transport reports it.
///
/// These are the kinds this crate raises or branches on. A socket error of any
/// other kind arrives as `Other`.
#[derive(Debug, Clone, Copy, PartialEq, Eq, Structural)]
pub enum ErrorKind {
    /// No reply within the receive timeout. Silence, not a refusal.
    TimedOut,
    /// The peer closed the connection.
    UnexpectedEof,
    /// Bytes arrived that do not parse.
    InvalidData,
    /// A caller passed something unusable.
    InvalidInput,
    /// This model, or this crate, cannot do it.
    Unsupported,
    /// Nothing answered at that address.
    NotFound,
    /// A send wrote less than it was given.
    WriteZero,
    /// The reader went away.
    BrokenPipe,
    Other,
}

/// A transport failure: its kind, and what the transport said about it.
#[derive(Debug, Clone, PartialEq, Eq)]
pub struct IoError {
    pub kind: ErrorKind,
    pub message: String,
}

impl IoError {
    pub fn new(kind: ErrorKind, message: &str) -> (e: IoError)
        ensures
            e.kind == kind,
            e.message@ == message@,
    {
        let mut chars: Vec<char> = Vec::new();
        push_str(&mut chars, message);
        IoError { kind, message: string_from_chars(&chars) }
    }

    pub fn kind(&self) -> (k: ErrorKind)
        ensures
            k == self.kind,
    {
        self.kind
    }

    /// A receive timeout.
    pub fn is_timeout(&self) -> (b: bool)
        ensures
            b == (self.kind == ErrorKind::TimedOut),
    {
        self.kind == ErrorKind::TimedOut
    }
}

pub type Result<T> = core::result::Result<T, Error>;

#[derive(Debug)]
pub enum Error {
    Io(IoError),
    Frame(wire::Error),
    /// The device refused, and said why.
    Refused { addr: Addr, why: Refusal },
    /// No reply and no refusal. Not a timeout to retry: the opcode does not
    /// answer, and the channel stays usable.
    Silent(Addr),
    /// This model does not carry it. Established before asking, from the
    /// device's own surface.
    Absent(Addr),
    /// The device answered in a shape the codec does not know.
    Malformed { addr: Addr, got: Vec<u8> },
    /// Real, but not understood well enough to use. The reason comes from the
    /// catalog entry, so it says what is missing rather than merely refusing.
    NotUnderstood { addr: Addr, why: &'static str },
}

/// The sentence a person is shown for an error.
pub open spec fn error_sentence(e: Error) -> Seq<char> {
    match e {
        Error::Io(io) => io.message@,
        Error::Frame(f) => error_text(f),
        Error::Refused { addr, why } => addr_text(addr) + ": "@ + refusal_text(why),
        Error::Silent(addr) => addr_text(addr) + ": no answer, and no refusal"@,
        Error::Absent(addr) => addr_text(addr) + ": this model does not have it"@,
        Error::Malformed { addr, got } => addr_text(addr) + ": unexpected payload ["@ + hex_spaced(
            got@,
        ) + "]"@,
        Error::NotUnderstood { addr, why } => addr_text(addr) + ": "@ + why@,
    }
}

impl Error {
    /// The sentence a person is shown: the address first, then what happened
    /// there.
    pub fn to_string(&self) -> (s: String)
        ensures
            s@ == error_sentence(*self),
    {
        let mut out: Vec<char> = Vec::new();
        match self {
            Error::Io(io) => {
                return io.message.clone();
            },
            Error::Frame(f) => {
                f.push_text(&mut out);
            },
            Error::Refused { addr, why } => {
                addr.push_text(&mut out);
                push_str(&mut out, ": ");
                why.push_text(&mut out);
            },
            Error::Silent(addr) => {
                addr.push_text(&mut out);
                push_str(&mut out, ": no answer, and no refusal");
            },
            Error::Absent(addr) => {
                addr.push_text(&mut out);
                push_str(&mut out, ": this model does not have it");
            },
            Error::Malformed { addr, got } => {
                addr.push_text(&mut out);
                push_str(&mut out, ": unexpected payload [");
                push_hex_spaced(&mut out, got.as_slice());
                push_str(&mut out, "]");
            },
            Error::NotUnderstood { addr, why } => {
                addr.push_text(&mut out);
                push_str(&mut out, ": ");
                push_str(&mut out, why);
            },
        }
        proof {
            assert(out@ =~= error_sentence(*self));
        }
        string_from_chars(&out)
    }

    /// The kind a shell-facing caller branches on: `Unsupported` for anything
    /// this model or this crate cannot do, `InvalidData` for a device that
    /// answered wrongly, `InvalidInput` for a refusal, `TimedOut` for silence.
    pub fn kind(&self) -> (k: ErrorKind)
        ensures
            k == error_kind(*self),
    {
        match self {
            Error::Io(e) => e.kind,
            Error::Frame(_) => ErrorKind::InvalidData,
            Error::Absent(_) => ErrorKind::Unsupported,
            Error::NotUnderstood { .. } => ErrorKind::Unsupported,
            Error::Refused { .. } => ErrorKind::InvalidInput,
            Error::Silent(_) => ErrorKind::TimedOut,
            Error::Malformed { .. } => ErrorKind::InvalidData,
        }
    }
}

pub open spec fn error_kind(e: Error) -> ErrorKind {
    match e {
        Error::Io(io) => io.kind,
        Error::Frame(_) => ErrorKind::InvalidData,
        Error::Absent(_) => ErrorKind::Unsupported,
        Error::NotUnderstood { .. } => ErrorKind::Unsupported,
        Error::Refused { .. } => ErrorKind::InvalidInput,
        Error::Silent(_) => ErrorKind::TimedOut,
        Error::Malformed { .. } => ErrorKind::InvalidData,
    }
}

impl From<IoError> for Error {
    fn from(e: IoError) -> (r: Error) {
        Error::Io(e)
    }
}

impl vstd::std_specs::convert::FromSpecImpl<IoError> for Error {
    open spec fn obeys_from_spec() -> bool {
        true
    }

    open spec fn from_spec(v: IoError) -> Error {
        Error::Io(v)
    }
}

impl From<wire::Error> for Error {
    fn from(e: wire::Error) -> (r: Error) {
        Error::Frame(e)
    }
}

impl vstd::std_specs::convert::FromSpecImpl<wire::Error> for Error {
    open spec fn obeys_from_spec() -> bool {
        true
    }

    open spec fn from_spec(v: wire::Error) -> Error {
        Error::Frame(v)
    }
}

} // verus!
