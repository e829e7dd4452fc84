//! The command line, as data.
//!
//! Everything the arguments can say is settled in [`parse`] before a socket is
//! opened. The channel probe costs up to four seconds per channel on an
//! unreachable device, so a typo must fail before it, not after. What a command
//! prints is assembled here too, from what the device answered; the program
//! around it only moves bytes.

use vstd::prelude::*;
use vstd::utf8::encode_utf8;

use crate::api::Toggle;
use crate::api::{
    anc_kind_text, anc_read, answering_among, asked, auto_off_set, band_set, language_set, last_answer,
    lemma_asked_outcome, lemma_fetched_outcome, level_set, modes_match, modes_read, outcome, read_as,
    replies_since, scanned, stored, stored_slots, supports_of, toggle_field, volume_set, Anc, AncKind,
    Device, Supports,
};
use crate::codec::language_code;
use crate::error::Error;
use crate::catalog::{self, catalog_spec, find_spec, Meta};
use crate::device::Identity;
use crate::error::Result;
use crate::transport::Transport;
use crate::codec::{
    addresses_spec, auto_off_spec, auto_off_text, bands_spec, byte_spec, cells_spec, flag_spec, graded_spec,
    immersive_spec, name_spec, named_spec, prompts_of, volume_spec,
};
use crate::codec::{auto_off_of, bit_set, level_wire, sat_sub, AutoOff, Band, Cell, Language, Level, Mode, Named, Prompts, Volume};
use crate::parse::{
    lemma_encode_ascii_char, lemma_encode_utf8_concat, lemma_hex2_bytes, parse_i8, parse_i8_spec,
    parse_u8, parse_u8_spec,
};
use crate::catalog::Evidence;
use crate::codec::Immersive;
use crate::text::{decimal, hex2, hex_digit, push_decimal, push_hex2, push_signed, push_str, signed_decimal, str_bytes, str_chars, string_from_chars};
use crate::transport::rfcomm::{address_error, address_text, parse_address_spec};
use crate::transport::bluez::Peer;
use crate::transport::Address;
use crate::surface::Surface;
use crate::wire::{addr_text, decode_spec, hex_spaced, push_hex_spaced, Addr, Frame};
use vstd::string::StringSliceAdditionalSpecFns;

verus! {

/// What the program prints when the words do not make an invocation.
#[verifier::allow_in_spec]
pub fn usage() -> &'static str
    returns
        "usage: bose-connect [--channel N] <address> <command>
       bose-connect catalog | devices | --help | --version

  info              identity and what this model supports
  json              the same, machine-readable
  anc               read noise cancelling
  anc off|high|low  set it, where the model offers named levels
  eq                read the equaliser, with each band's range
  eq <band> <val>   set one band
  modes             list stored modes
  mode              read the active mode index (selecting is not understood)
  immersive         read immersive audio

  language [en|es] [on|off]
      read or set the voice-prompt language; the second word is the
      battery announcement, which the record forces you to write too
  name [new]        read or set the device name
  battery           charge, one line per cell
  volume [level]    read or set, clamped to the device's own scale
  auto-off [min|never]
  toggle <what> [on|off]
      multipoint | head-detection | auto-answer | remember-mode
  paired            addresses the device remembers
  active            the host holding the link

  catalog           every record this build knows, and how well
  devices           paired Bose devices, from bluez (needs the bluez feature)
  raw <fn> <op>     read one address, decoded by nobody; hex
  scan [first last] which functions answer; hex, defaults to 00-3f

  --channel N       use this channel; otherwise the last one that answered,
                    or a probe",
{
    "usage: bose-connect [--channel N] <address> <command>
       bose-connect catalog | devices | --help | --version

  info              identity and what this model supports
  json              the same, machine-readable
  anc               read noise cancelling
  anc off|high|low  set it, where the model offers named levels
  eq                read the equaliser, with each band's range
  eq <band> <val>   set one band
  modes             list stored modes
  mode              read the active mode index (selecting is not understood)
  immersive         read immersive audio

  language [en|es] [on|off]
      read or set the voice-prompt language; the second word is the
      battery announcement, which the record forces you to write too
  name [new]        read or set the device name
  battery           charge, one line per cell
  volume [level]    read or set, clamped to the device's own scale
  auto-off [min|never]
  toggle <what> [on|off]
      multipoint | head-detection | auto-answer | remember-mode
  paired            addresses the device remembers
  active            the host holding the link

  catalog           every record this build knows, and how well
  devices           paired Bose devices, from bluez (needs the bluez feature)
  raw <fn> <op>     read one address, decoded by nobody; hex
  scan [first last] which functions answer; hex, defaults to 00-3f

  --channel N       use this channel; otherwise the last one that answered,
                    or a probe"
}

/// One invocation's command, fully decided.
#[derive(Debug, Clone, PartialEq, Eq)]
pub enum Cmd {
    Help,
    Version,
    Catalog,
    Devices,
    Info,
    Json,
    Anc(Option<Level>),
    Eq(Option<(u8, i8)>),
    Modes,
    Mode,
    Immersive,
    Language(Option<(Language, Option<bool>)>),
    Name(Option<String>),
    Battery,
    Volume(Option<u8>),
    AutoOff(Option<AutoOff>),
    Toggle(Toggle, Option<bool>),
    Paired,
    Active,
    Raw(Addr),
    Scan(u8, u8),
}

/// A command as the specification sees it: a name as its characters.
pub enum CmdView {
    Help,
    Version,
    Catalog,
    Devices,
    Info,
    Json,
    Anc(Option<Level>),
    Eq(Option<(u8, i8)>),
    Modes,
    Mode,
    Immersive,
    Language(Option<(Language, Option<bool>)>),
    Name(Option<Seq<char>>),
    Battery,
    Volume(Option<u8>),
    AutoOff(Option<AutoOff>),
    Toggle(Toggle, Option<bool>),
    Paired,
    Active,
    Raw(Addr),
    Scan(u8, u8),
}

impl View for Cmd {
    type V = CmdView;

    open spec fn view(&self) -> CmdView {
        match self {
            Cmd::Help => CmdView::Help,
            Cmd::Version => CmdView::Version,
            Cmd::Catalog => CmdView::Catalog,
            Cmd::Devices => CmdView::Devices,
            Cmd::Info => CmdView::Info,
            Cmd::Json => CmdView::Json,
            Cmd::Anc(l) => CmdView::Anc(*l),
            Cmd::Eq(b) => CmdView::Eq(*b),
            Cmd::Modes => CmdView::Modes,
            Cmd::Mode => CmdView::Mode,
            Cmd::Immersive => CmdView::Immersive,
            Cmd::Language(l) => CmdView::Language(*l),
            Cmd::Name(n) => CmdView::Name(
                match n {
                    Some(s) => Some(s@),
                    None => None,
                },
            ),
            Cmd::Battery => CmdView::Battery,
            Cmd::Volume(v) => CmdView::Volume(*v),
            Cmd::AutoOff(a) => CmdView::AutoOff(*a),
            Cmd::Toggle(t, v) => CmdView::Toggle(*t, *v),
            Cmd::Paired => CmdView::Paired,
            Cmd::Active => CmdView::Active,
            Cmd::Raw(a) => CmdView::Raw(*a),
            Cmd::Scan(a, b) => CmdView::Scan(*a, *b),
        }
    }
}

impl Cmd {
    /// Whether the command talks to a device.
    pub fn needs_device(&self) -> (b: bool)
        ensures
            b == !(self is Help || self is Version || self is Catalog || self is Devices),
    {
        match self {
            Cmd::Help | Cmd::Version | Cmd::Catalog | Cmd::Devices => false,
            _ => true,
        }
    }
}

/// One invocation, fully decided.
#[derive(Debug, Clone, PartialEq, Eq)]
pub struct Invocation {
    pub addr: Option<Address>,
    pub channel: Option<u8>,
    pub cmd: Cmd,
}

pub struct InvocationView {
    pub addr: Option<Seq<u8>>,
    pub channel: Option<u8>,
    pub cmd: CmdView,
}

impl View for Invocation {
    type V = InvocationView;

    open spec fn view(&self) -> InvocationView {
        InvocationView {
            addr: match self.addr {
                Some(a) => Some(a@),
                None => None,
            },
            channel: self.channel,
            cmd: self.cmd@,
        }
    }
}

/// `r` says what `s` does: the same value, or a message with the same text.
pub open spec fn says<V>(r: core::result::Result<V, String>, s: core::result::Result<V, Seq<char>>) -> bool {
    match s {
        Ok(v) => r matches Ok(x) && x == v,
        Err(m) => r matches Err(e) && e@ == m,
    }
}

/// `b` without a leading `0x`.
pub open spec fn strip_0x(b: Seq<u8>) -> Seq<u8> {
    if b.len() >= 2 && b[0] == 0x30 && b[1] == 0x78 {
        b.subrange(2, b.len() as int)
    } else {
        b
    }
}

/// Addresses are hex everywhere — in captures, in `catalog`'s output, in
/// every error message — so `raw` and `scan` take them that way, with or
/// without `0x`.
pub open spec fn hex_byte_spec(w: Seq<char>) -> core::result::Result<u8, Seq<char>> {
    match parse_u8_spec(strip_0x(encode_utf8(w)), true) {
        Some(v) => Ok(v),
        None => Err("not a hex byte: "@ + w),
    }
}

/// Quantities — a volume, a band, minutes — are decimal, as a person says them.
pub open spec fn dec_spec(w: Seq<char>) -> core::result::Result<u8, Seq<char>> {
    match parse_u8_spec(encode_utf8(w), false) {
        Some(v) => Ok(v),
        None => Err("not a number 0-255: "@ + w),
    }
}

pub open spec fn signed_spec(w: Seq<char>) -> core::result::Result<i8, Seq<char>> {
    match parse_i8_spec(encode_utf8(w)) {
        Some(v) => Ok(v),
        None => Err("not a number -128..127: "@ + w),
    }
}

pub open spec fn level_spec(w: Seq<char>) -> core::result::Result<Level, Seq<char>> {
    if w == "off"@ {
        Ok(Level::Off)
    } else if w == "high"@ {
        Ok(Level::High)
    } else if w == "low"@ {
        Ok(Level::Low)
    } else {
        Err("not a level (off, high, low): "@ + w)
    }
}

pub open spec fn language_spec(w: Seq<char>) -> core::result::Result<Language, Seq<char>> {
    if w == "en"@ {
        Ok(Language::English)
    } else if w == "es"@ {
        Ok(Language::Spanish)
    } else {
        Err("not a language (en, es): "@ + w)
    }
}

pub open spec fn on_off_spec(w: Seq<char>) -> core::result::Result<bool, Seq<char>> {
    if w == "on"@ {
        Ok(true)
    } else if w == "off"@ {
        Ok(false)
    } else {
        Err("not on or off: "@ + w)
    }
}

pub open spec fn toggle_spec(w: Seq<char>) -> core::result::Result<Toggle, Seq<char>> {
    if w == "multipoint"@ {
        Ok(Toggle::Multipoint)
    } else if w == "head-detection"@ {
        Ok(Toggle::HeadDetection)
    } else if w == "auto-answer"@ {
        Ok(Toggle::AutoAnswer)
    } else if w == "remember-mode"@ {
        Ok(Toggle::RememberMode)
    } else {
        Err("not a toggle (multipoint, head-detection, auto-answer, remember-mode): "@ + w)
    }
}

/// A command word and the words after it.
pub open spec fn command_spec(name: Seq<char>, rest: Seq<Seq<char>>) -> core::result::Result<CmdView, Seq<char>> {
    let n = rest.len();
    if name == "catalog"@ && n == 0 {
        Ok(CmdView::Catalog)
    } else if name == "info"@ && n == 0 {
        Ok(CmdView::Info)
    } else if name == "json"@ && n == 0 {
        Ok(CmdView::Json)
    } else if name == "anc"@ && n == 0 {
        Ok(CmdView::Anc(None))
    } else if name == "anc"@ && n == 1 {
        match level_spec(rest[0]) {
            Ok(l) => Ok(CmdView::Anc(Some(l))),
            Err(e) => Err(e),
        }
    } else if name == "eq"@ && n == 0 {
        Ok(CmdView::Eq(None))
    } else if name == "eq"@ && n == 2 {
        match dec_spec(rest[0]) {
            Err(e) => Err(e),
            Ok(band) => match signed_spec(rest[1]) {
                Err(e) => Err(e),
                Ok(v) => Ok(CmdView::Eq(Some((band, v)))),
            },
        }
    } else if name == "modes"@ && n == 0 {
        Ok(CmdView::Modes)
    } else if name == "mode"@ && n == 0 {
        Ok(CmdView::Mode)
    } else if name == "immersive"@ && n == 0 {
        Ok(CmdView::Immersive)
    } else if name == "language"@ && n == 0 {
        Ok(CmdView::Language(None))
    } else if name == "language"@ && n == 1 {
        match language_spec(rest[0]) {
            Ok(l) => Ok(CmdView::Language(Some((l, None)))),
            Err(e) => Err(e),
        }
    } else if name == "language"@ && n == 2 {
        match language_spec(rest[0]) {
            Err(e) => Err(e),
            Ok(l) => match on_off_spec(rest[1]) {
                Err(e) => Err(e),
                Ok(a) => Ok(CmdView::Language(Some((l, Some(a))))),
            },
        }
    } else if name == "name"@ && n == 0 {
        Ok(CmdView::Name(None))
    } else if name == "name"@ && n == 1 {
        Ok(CmdView::Name(Some(rest[0])))
    } else if name == "battery"@ && n == 0 {
        Ok(CmdView::Battery)
    } else if name == "volume"@ && n == 0 {
        Ok(CmdView::Volume(None))
    } else if name == "volume"@ && n == 1 {
        match dec_spec(rest[0]) {
            Ok(v) => Ok(CmdView::Volume(Some(v))),
            Err(e) => Err(e),
        }
    } else if name == "auto-off"@ && n == 0 {
        Ok(CmdView::AutoOff(None))
    } else if name == "auto-off"@ && n == 1 && rest[0] == "never"@ {
        Ok(CmdView::AutoOff(Some(AutoOff::Never)))
    } else if name == "auto-off"@ && n == 1 {
        match dec_spec(rest[0]) {
            Ok(m) => Ok(CmdView::AutoOff(Some(auto_off_of(m)))),
            Err(e) => Err(e),
        }
    } else if name == "toggle"@ && n == 1 {
        match toggle_spec(rest[0]) {
            Ok(t) => Ok(CmdView::Toggle(t, None)),
            Err(e) => Err(e),
        }
    } else if name == "toggle"@ && n == 2 {
        match toggle_spec(rest[0]) {
            Err(e) => Err(e),
            Ok(t) => match on_off_spec(rest[1]) {
                Err(e) => Err(e),
                Ok(v) => Ok(CmdView::Toggle(t, Some(v))),
            },
        }
    } else if name == "paired"@ && n == 0 {
        Ok(CmdView::Paired)
    } else if name == "active"@ && n == 0 {
        Ok(CmdView::Active)
    } else if name == "raw"@ && n == 2 {
        match hex_byte_spec(rest[0]) {
            Err(e) => Err(e),
            Ok(f) => match hex_byte_spec(rest[1]) {
                Err(e) => Err(e),
                Ok(o) => Ok(CmdView::Raw(Addr { function: f, opcode: o })),
            },
        }
    } else if name == "scan"@ && n == 0 {
        Ok(CmdView::Scan(0x00, 0x3f))
    } else if name == "scan"@ && n == 2 {
        match hex_byte_spec(rest[0]) {
            Err(e) => Err(e),
            Ok(a) => match hex_byte_spec(rest[1]) {
                Err(e) => Err(e),
                Ok(b) => Ok(CmdView::Scan(a, b)),
            },
        }
    } else {
        Err(usage()@)
    }
}

/// The words after any `--channel N` flags.
pub open spec fn words_spec(rest: Seq<Seq<char>>, channel: Option<u8>) -> core::result::Result<InvocationView, Seq<char>> {
    let plain = |cmd: CmdView| InvocationView { addr: None, channel, cmd };
    if rest.len() == 0 {
        Err(usage()@)
    } else if rest[0] == "--help"@ || rest[0] == "-h"@ || rest[0] == "help"@ {
        Ok(plain(CmdView::Help))
    } else if rest[0] == "--version"@ || rest[0] == "-V"@ {
        Ok(plain(CmdView::Version))
    } else if rest[0] == "catalog"@ {
        Ok(plain(CmdView::Catalog))
    } else if rest[0] == "devices"@ {
        Ok(plain(CmdView::Devices))
    } else if rest.len() < 2 {
        Err(usage()@)
    } else {
        match parse_address_spec(encode_utf8(rest[0])) {
            None => Err(rest[0] + ": "@ + address_error(encode_utf8(rest[0]))),
            Some(a) => match command_spec(rest[1], rest.subrange(2, rest.len() as int)) {
                Ok(cmd) => Ok(InvocationView { addr: Some(a), channel, cmd }),
                Err(e) => Err(e),
            },
        }
    }
}

/// Arguments to an invocation, leading `--channel N` flags first; the last
/// flag wins.
pub open spec fn parse_from(args: Seq<Seq<char>>, channel: Option<u8>) -> core::result::Result<InvocationView, Seq<char>>
    decreases args.len(),
{
    if args.len() >= 2 && args[0] == "--channel"@ {
        match dec_spec(args[1]) {
            Ok(c) => parse_from(args.subrange(2, args.len() as int), Some(c)),
            Err(e) => Err(e),
        }
    } else {
        words_spec(args, channel)
    }
}

/// The characters of each argument.
pub open spec fn words(args: Seq<String>) -> Seq<Seq<char>> {
    args.map_values(|s: String| s@)
}

/// `s`, owned.
fn owned(s: &str) -> (r: String)
    ensures
        r@ == s@,
{
    let r = s.to_string();
    assert(r@ == s@) by {
        broadcast use vstd::string::to_string_from_display_ensures_for_str;
    }
    r
}

/// `prefix` followed by `w`.
fn message(prefix: &str, w: &str) -> (m: String)
    ensures
        m@ == prefix@ + w@,
{
    let mut out: Vec<char> = Vec::new();
    push_str(&mut out, prefix);
    push_str(&mut out, w);
    string_from_chars(&out)
}

/// Whether `s` is the word `w`.
pub fn word_is(s: &str, w: &str) -> (b: bool)
    ensures
        b == (s@ == w@),
{
    let a = str_chars(s);
    let c = str_chars(w);
    if a.len() != c.len() {
        proof {
            assert(a@.len() != c@.len());
        }
        return false;
    }
    let mut i: usize = 0;
    while i < a.len()
        invariant
            a@ == s@,
            c@ == w@,
            a@.len() == c@.len(),
            i <= a@.len(),
            forall|j: int| 0 <= j < i ==> a@[j] == c@[j],
        decreases a@.len() - i,
    {
        if a[i] != c[i] {
            proof {
                assert(a@[i as int] != c@[i as int]);
            }
            return false;
        }
        i = i + 1;
    }
    proof {
        assert(a@ =~= c@);
    }
    true
}

pub fn hex_byte(s: &str) -> (r: core::result::Result<u8, String>)
    ensures
        says(r, hex_byte_spec(s@)),
{
    let b = str_bytes(s);
    let digits = if b.len() >= 2 && b[0] == 0x30 && b[1] == 0x78 {
        vstd::slice::slice_subrange(b.as_slice(), 2, b.len())
    } else {
        b.as_slice()
    };
    match parse_u8(digits, true) {
        Some(v) => Ok(v),
        None => Err(message("not a hex byte: ", s)),
    }
}

pub fn dec(s: &str) -> (r: core::result::Result<u8, String>)
    ensures
        says(r, dec_spec(s@)),
{
    let b = str_bytes(s);
    match parse_u8(b.as_slice(), false) {
        Some(v) => Ok(v),
        None => Err(message("not a number 0-255: ", s)),
    }
}

pub fn signed(s: &str) -> (r: core::result::Result<i8, String>)
    ensures
        says(r, signed_spec(s@)),
{
    let b = str_bytes(s);
    match parse_i8(b.as_slice()) {
        Some(v) => Ok(v),
        None => Err(message("not a number -128..127: ", s)),
    }
}

pub fn level(s: &str) -> (r: core::result::Result<Level, String>)
    ensures
        says(r, level_spec(s@)),
{
    if word_is(s, "off") {
        Ok(Level::Off)
    } else if word_is(s, "high") {
        Ok(Level::High)
    } else if word_is(s, "low") {
        Ok(Level::Low)
    } else {
        Err(message("not a level (off, high, low): ", s))
    }
}

pub fn language(s: &str) -> (r: core::result::Result<Language, String>)
    ensures
        says(r, language_spec(s@)),
{
    if word_is(s, "en") {
        Ok(Language::English)
    } else if word_is(s, "es") {
        Ok(Language::Spanish)
    } else {
        Err(message("not a language (en, es): ", s))
    }
}

pub fn on_off(s: &str) -> (r: core::result::Result<bool, String>)
    ensures
        says(r, on_off_spec(s@)),
{
    if word_is(s, "on") {
        Ok(true)
    } else if word_is(s, "off") {
        Ok(false)
    } else {
        Err(message("not on or off: ", s))
    }
}

pub fn toggle(s: &str) -> (r: core::result::Result<Toggle, String>)
    ensures
        says(r, toggle_spec(s@)),
{
    let all = Toggle::all();
    let mut i: usize = 0;
    while i < 4
        invariant
            i <= 4,
            all@ == seq![Toggle::Multipoint, Toggle::HeadDetection, Toggle::AutoAnswer, Toggle::RememberMode],
            forall|j: int| 0 <= j < i ==> s@ != crate::api::toggle_name(#[trigger] all@[j]),
        decreases 4 - i,
    {
        if word_is(s, all[i].name()) {
            return Ok(all[i]);
        }
        i = i + 1;
    }
    Err(message("not a toggle (multipoint, head-detection, auto-answer, remember-mode): ", s))
}

/// A command word and the words after it.
#[verifier::rlimit(40)]
pub fn command(name: &str, rest: &[String]) -> (r: core::result::Result<Cmd, String>)
    ensures
        match command_spec(name@, words(rest@)) {
            Ok(c) => r matches Ok(x) && x@ == c,
            Err(m) => r matches Err(e) && e@ == m,
        },
{
    let n = rest.len();
    let ghost w = words(rest@);
    proof {
        if n >= 1 {
            assert(w[0] == rest@[0]@);
        }
        if n >= 2 {
            assert(w[1] == rest@[1]@);
        }
    }
    if word_is(name, "catalog") && n == 0 {
        Ok(Cmd::Catalog)
    } else if word_is(name, "info") && n == 0 {
        Ok(Cmd::Info)
    } else if word_is(name, "json") && n == 0 {
        Ok(Cmd::Json)
    } else if word_is(name, "anc") && n == 0 {
        Ok(Cmd::Anc(None))
    } else if word_is(name, "anc") && n == 1 {
        match level(rest[0].as_str()) {
            Ok(l) => Ok(Cmd::Anc(Some(l))),
            Err(e) => Err(e),
        }
    } else if word_is(name, "eq") && n == 0 {
        Ok(Cmd::Eq(None))
    } else if word_is(name, "eq") && n == 2 {
        let band = match dec(rest[0].as_str()) {
            Ok(b) => b,
            Err(e) => {
                return Err(e);
            },
        };
        match signed(rest[1].as_str()) {
            Ok(v) => Ok(Cmd::Eq(Some((band, v)))),
            Err(e) => Err(e),
        }
    } else if word_is(name, "modes") && n == 0 {
        Ok(Cmd::Modes)
    } else if word_is(name, "mode") && n == 0 {
        Ok(Cmd::Mode)
    } else if word_is(name, "immersive") && n == 0 {
        Ok(Cmd::Immersive)
    } else if word_is(name, "language") && n == 0 {
        Ok(Cmd::Language(None))
    } else if word_is(name, "language") && n == 1 {
        match language(rest[0].as_str()) {
            Ok(l) => Ok(Cmd::Language(Some((l, None)))),
            Err(e) => Err(e),
        }
    } else if word_is(name, "language") && n == 2 {
        let l = match language(rest[0].as_str()) {
            Ok(l) => l,
            Err(e) => {
                return Err(e);
            },
        };
        match on_off(rest[1].as_str()) {
            Ok(a) => Ok(Cmd::Language(Some((l, Some(a))))),
            Err(e) => Err(e),
        }
    } else if word_is(name, "name") && n == 0 {
        Ok(Cmd::Name(None))
    } else if word_is(name, "name") && n == 1 {
        Ok(Cmd::Name(Some(rest[0].clone())))
    } else if word_is(name, "battery") && n == 0 {
        Ok(Cmd::Battery)
    } else if word_is(name, "volume") && n == 0 {
        Ok(Cmd::Volume(None))
    } else if word_is(name, "volume") && n == 1 {
        match dec(rest[0].as_str()) {
            Ok(v) => Ok(Cmd::Volume(Some(v))),
            Err(e) => Err(e),
        }
    } else if word_is(name, "auto-off") && n == 0 {
        Ok(Cmd::AutoOff(None))
    } else if word_is(name, "auto-off") && n == 1 && word_is(rest[0].as_str(), "never") {
        Ok(Cmd::AutoOff(Some(AutoOff::Never)))
    } else if word_is(name, "auto-off") && n == 1 {
        match dec(rest[0].as_str()) {
            Ok(m) => Ok(Cmd::AutoOff(Some(AutoOff::from_minutes(m)))),
            Err(e) => Err(e),
        }
    } else if word_is(name, "toggle") && n == 1 {
        match toggle(rest[0].as_str()) {
            Ok(t) => Ok(Cmd::Toggle(t, None)),
            Err(e) => Err(e),
        }
    } else if word_is(name, "toggle") && n == 2 {
        let t = match toggle(rest[0].as_str()) {
            Ok(t) => t,
            Err(e) => {
                return Err(e);
            },
        };
        match on_off(rest[1].as_str()) {
            Ok(v) => Ok(Cmd::Toggle(t, Some(v))),
            Err(e) => Err(e),
        }
    } else if word_is(name, "paired") && n == 0 {
        Ok(Cmd::Paired)
    } else if word_is(name, "active") && n == 0 {
        Ok(Cmd::Active)
    } else if word_is(name, "raw") && n == 2 {
        let f = match hex_byte(rest[0].as_str()) {
            Ok(f) => f,
            Err(e) => {
                return Err(e);
            },
        };
        match hex_byte(rest[1].as_str()) {
            Ok(o) => Ok(Cmd::Raw(Addr::at(f, o))),
            Err(e) => Err(e),
        }
    } else if word_is(name, "scan") && n == 0 {
        Ok(Cmd::Scan(0x00, 0x3f))
    } else if word_is(name, "scan") && n == 2 {
        let a = match hex_byte(rest[0].as_str()) {
            Ok(a) => a,
            Err(e) => {
                return Err(e);
            },
        };
        match hex_byte(rest[1].as_str()) {
            Ok(b) => Ok(Cmd::Scan(a, b)),
            Err(e) => Err(e),
        }
    } else {
        Err(owned(usage()))
    }
}

/// Arguments to an invocation. Pure, so a typo costs nothing and a test covers
/// it without a device.
pub fn parse(args: &[String]) -> (r: core::result::Result<Invocation, String>)
    ensures
        match parse_from(words(args@), None) {
            Ok(inv) => r matches Ok(x) && x@ == inv,
            Err(m) => r matches Err(e) && e@ == m,
        },
{
    let ghost all = words(args@);
    let mut channel: Option<u8> = None;
    let mut i: usize = 0;
    proof {
        assert(all.subrange(0, all.len() as int) =~= all);
    }
    while args.len() - i >= 2 && word_is(args[i].as_str(), "--channel")
        invariant
            i <= args@.len(),
            all == words(args@),
            parse_from(all, None) == parse_from(all.subrange(i as int, all.len() as int), channel),
        decreases args@.len() - i,
    {
        proof {
            let s = all.subrange(i as int, all.len() as int);
            assert(s.subrange(2, s.len() as int) =~= all.subrange(i + 2, all.len() as int));
            assert(s[0] == args@[i as int]@);
            assert(s[1] == args@[i + 1]@);
        }
        match dec(args[i + 1].as_str()) {
            Ok(c) => {
                channel = Some(c);
            },
            Err(e) => {
                return Err(e);
            },
        }
        i = i + 2;
    }
    let rest = vstd::slice::slice_subrange(args, i, args.len());
    proof {
        assert(words(rest@) =~= all.subrange(i as int, all.len() as int));
    }
    let first = if rest.len() > 0 {
        rest[0].as_str()
    } else {
        return Err(owned(usage()));
    };
    if word_is(first, "--help") || word_is(first, "-h") || word_is(first, "help") {
        return Ok(Invocation { addr: None, channel, cmd: Cmd::Help });
    }
    if word_is(first, "--version") || word_is(first, "-V") {
        return Ok(Invocation { addr: None, channel, cmd: Cmd::Version });
    }
    if word_is(first, "catalog") {
        return Ok(Invocation { addr: None, channel, cmd: Cmd::Catalog });
    }
    if word_is(first, "devices") {
        return Ok(Invocation { addr: None, channel, cmd: Cmd::Devices });
    }
    if rest.len() < 2 {
        return Err(owned(usage()));
    }
    let addr = match Address::parse(first) {
        Ok(a) => a,
        Err(e) => {
            let mut out: Vec<char> = Vec::new();
            push_str(&mut out, first);
            push_str(&mut out, ": ");
            let detail = str_chars(e.message.as_str());
            let mut k: usize = 0;
            let ghost start = out@;
            while k < detail.len()
                invariant
                    k <= detail@.len(),
                    out@ == start + detail@.subrange(0, k as int),
                decreases detail@.len() - k,
            {
                out.push(detail[k]);
                proof {
                    assert(detail@.subrange(0, k + 1) =~= detail@.subrange(0, k as int).push(detail@[k as int]));
                }
                k = k + 1;
            }
            proof {
                assert(detail@.subrange(0, detail@.len() as int) =~= detail@);
            }
            return Err(string_from_chars(&out));
        },
    };
    let tail = vstd::slice::slice_subrange(rest, 2, rest.len());
    proof {
        assert(words(tail@) =~= words(rest@).subrange(2, rest@.len() as int));
    }
    match command(rest[1].as_str(), tail) {
        Ok(cmd) => Ok(Invocation { addr: Some(addr), channel, cmd }),
        Err(e) => Err(e),
    }
}


// ---------------------------------------------------------------------------
// What a command prints
// ---------------------------------------------------------------------------

/// `n` spaces.
pub open spec fn spaces(n: nat) -> Seq<char> {
    Seq::new(n, |i: int| ' ')
}

/// `s` left-aligned in `w` columns, as `{:<w}` writes it.
pub open spec fn pad_right(s: Seq<char>, w: nat) -> Seq<char> {
    if s.len() >= w {
        s
    } else {
        s + spaces((w - s.len()) as nat)
    }
}

/// `s` right-aligned in `w` columns, as `{:>w}` writes it.
pub open spec fn pad_left(s: Seq<char>, w: nat) -> Seq<char> {
    if s.len() >= w {
        s
    } else {
        spaces((w - s.len()) as nat) + s
    }
}

/// The pieces with `sep` between each two.
pub open spec fn joined(parts: Seq<Seq<char>>, sep: Seq<char>) -> Seq<char>
    decreases parts.len(),
{
    if parts.len() == 0 {
        seq![]
    } else if parts.len() == 1 {
        parts[0]
    } else {
        joined(parts.drop_last(), sep) + sep + parts.last()
    }
}

/// One line: the text and a newline.
pub open spec fn line(s: Seq<char>) -> Seq<char> {
    s + seq!['\n']
}

pub open spec fn on_off_text(v: bool) -> Seq<char> {
    if v {
        "on"@
    } else {
        "off"@
    }
}

pub open spec fn bool_text(v: bool) -> Seq<char> {
    if v {
        "true"@
    } else {
        "false"@
    }
}

pub open spec fn level_text(l: Level) -> Seq<char> {
    match l {
        Level::Off => "off"@,
        Level::High => "high"@,
        Level::Low => "low"@,
    }
}

pub open spec fn language_text(l: Language) -> Seq<char> {
    match l {
        Language::English => "en"@,
        Language::Spanish => "es"@,
        Language::Other(c) => "language 0x"@ + hex2(c, false),
    }
}

pub open spec fn immersive_text(i: Immersive) -> Seq<char> {
    match i {
        Immersive::Off => "off"@,
        Immersive::Still => "still"@,
        Immersive::Motion => "motion"@,
    }
}

pub open spec fn evidence_text(e: Evidence) -> Seq<char> {
    match e {
        Evidence::Confirmed => "confirmed"@,
        Evidence::Syntax(_) => "syntax"@,
        Evidence::Ineffective(_) => "no effect"@,
        Evidence::Unknown => "-"@,
    }
}

/// Four lowercase hex digits, as `{:04x}` writes a `u16`.
pub open spec fn hex4(n: u16) -> Seq<char> {
    hex2((n / 256) as u8, false) + hex2((n % 256) as u8, false)
}

/// Bytes as two-digit hex, space-separated.
pub open spec fn hex_list(bytes: Seq<u8>) -> Seq<char> {
    joined(bytes.map_values(|b: u8| hex2(b, false)), " "@)
}

pub fn on_off_name(v: bool) -> (s: &'static str)
    ensures
        s@ == on_off_text(v),
{
    if v {
        "on"
    } else {
        "off"
    }
}

pub fn bool_name(v: bool) -> (s: &'static str)
    ensures
        s@ == bool_text(v),
{
    if v {
        "true"
    } else {
        "false"
    }
}

pub fn level_name(l: Level) -> (s: &'static str)
    ensures
        s@ == level_text(l),
{
    match l {
        Level::Off => "off",
        Level::High => "high",
        Level::Low => "low",
    }
}

pub fn immersive_name(i: Immersive) -> (s: &'static str)
    ensures
        s@ == immersive_text(i),
{
    match i {
        Immersive::Off => "off",
        Immersive::Still => "still",
        Immersive::Motion => "motion",
    }
}

pub fn evidence_name(e: Evidence) -> (s: &'static str)
    ensures
        s@ == evidence_text(e),
{
    match e {
        Evidence::Confirmed => "confirmed",
        Evidence::Syntax(_) => "syntax",
        Evidence::Ineffective(_) => "no effect",
        Evidence::Unknown => "-",
    }
}

pub fn language_name(l: Language) -> (s: String)
    ensures
        s@ == language_text(l),
{
    let mut out: Vec<char> = Vec::new();
    match l {
        Language::English => push_str(&mut out, "en"),
        Language::Spanish => push_str(&mut out, "es"),
        Language::Other(c) => {
            push_str(&mut out, "language 0x");
            push_hex2(&mut out, c, false);
        },
    }
    string_from_chars(&out)
}

/// Append `n` spaces.
fn push_spaces(out: &mut Vec<char>, n: usize)
    ensures
        final(out)@ == old(out)@ + spaces(n as nat),
{
    let ghost start = out@;
    let mut i: usize = 0;
    while i < n
        invariant
            i <= n,
            out@ == start + spaces(i as nat),
        decreases n - i,
    {
        out.push(' ');
        i = i + 1;
        proof {
            assert(spaces(i as nat) =~= spaces((i - 1) as nat).push(' '));
        }
    }
}

/// Append `s`, then spaces up to `w` columns.
fn push_padded(out: &mut Vec<char>, s: &Vec<char>, w: usize)
    ensures
        final(out)@ == old(out)@ + pad_right(s@, w as nat),
{
    let ghost start = out@;
    push_chars(out, s);
    if s.len() < w {
        push_spaces(out, w - s.len());
    }
    proof {
        assert(out@ =~= start + pad_right(s@, w as nat));
    }
}

/// Append spaces up to `w` columns, then `s`.
fn push_right_aligned(out: &mut Vec<char>, s: &Vec<char>, w: usize)
    ensures
        final(out)@ == old(out)@ + pad_left(s@, w as nat),
{
    let ghost start = out@;
    if s.len() < w {
        push_spaces(out, w - s.len());
    }
    push_chars(out, s);
    proof {
        assert(out@ =~= start + pad_left(s@, w as nat));
    }
}

/// Append every character of `s`.
fn push_chars(out: &mut Vec<char>, s: &Vec<char>)
    ensures
        final(out)@ == old(out)@ + s@,
{
    let ghost start = out@;
    let mut i: usize = 0;
    while i < s.len()
        invariant
            i <= s@.len(),
            out@ == start + s@.subrange(0, i as int),
        decreases s@.len() - i,
    {
        out.push(s[i]);
        proof {
            assert(s@.subrange(0, i + 1) =~= s@.subrange(0, i as int).push(s@[i as int]));
        }
        i = i + 1;
    }
    proof {
        assert(s@.subrange(0, s@.len() as int) =~= s@);
    }
}

/// The characters of `s`.
fn chars_of(s: &str) -> (v: Vec<char>)
    ensures
        v@ == s@,
{
    str_chars(s)
}

/// Append two hex digits per byte, space-separated.
fn push_hex_list(out: &mut Vec<char>, bytes: &Vec<u8>)
    ensures
        final(out)@ == old(out)@ + hex_list(bytes@),
{
    let ghost start = out@;
    let ghost f = |b: u8| hex2(b, false);
    let mut i: usize = 0;
    while i < bytes.len()
        invariant
            i <= bytes@.len(),
            f == (|b: u8| hex2(b, false)),
            out@ == start + joined(bytes@.subrange(0, i as int).map_values(f), " "@),
        decreases bytes@.len() - i,
    {
        let ghost parts = bytes@.subrange(0, i + 1).map_values(f);
        proof {
            assert(parts.drop_last() =~= bytes@.subrange(0, i as int).map_values(f));
            assert(parts.last() == hex2(bytes@[i as int], false));
        }
        if i > 0 {
            push_str(out, " ");
        }
        push_hex2(out, bytes[i], false);
        proof {
            if i == 0 {
                assert(bytes@.subrange(0, 0).map_values(f) =~= Seq::<Seq<char>>::empty());
                assert(out@ =~= start + joined(parts, " "@));
            } else {
                assert(out@ =~= start + joined(parts, " "@));
            }
        }
        i = i + 1;
    }
    proof {
        assert(bytes@.subrange(0, bytes@.len() as int) =~= bytes@);
    }
}

/// A JSON string, escaped per RFC 8259: the quote, the backslash and the
/// control characters, which a device name passed through `from_utf8_lossy`
/// may hold.
pub open spec fn json_char(c: char) -> Seq<char> {
    if c == '"' {
        seq!['\\', '"']
    } else if c == '\\' {
        seq!['\\', '\\']
    } else if c == '\n' {
        seq!['\\', 'n']
    } else if c == '\r' {
        seq!['\\', 'r']
    } else if c == '\t' {
        seq!['\\', 't']
    } else if (c as u32) < 0x20 {
        seq!['\\', 'u', '0', '0'] + hex2(c as u8, false)
    } else {
        seq![c]
    }
}

pub open spec fn json_body(s: Seq<char>) -> Seq<char>
    decreases s.len(),
{
    if s.len() == 0 {
        seq![]
    } else {
        json_body(s.drop_last()) + json_char(s.last())
    }
}

pub open spec fn json_text(s: Seq<char>) -> Seq<char> {
    seq!['"'] + json_body(s) + seq!['"']
}

/// A JSON string, escaped per RFC 8259. Device names are whatever the firmware
/// holds, passed through `from_utf8_lossy`, so control bytes are possible.
pub fn json_string(s: &str) -> (j: String)
    ensures
        j@ == json_text(s@),
{
    let cs = str_chars(s);
    let mut out: Vec<char> = Vec::new();
    out.push('"');
    let mut i: usize = 0;
    while i < cs.len()
        invariant
            i <= cs@.len(),
            out@ == seq!['"'] + json_body(cs@.subrange(0, i as int)),
        decreases cs@.len() - i,
    {
        let c = cs[i];
        let ghost before = out@;
        if c == '"' {
            out.push('\\');
            out.push('"');
        } else if c == '\\' {
            out.push('\\');
            out.push('\\');
        } else if c == '\n' {
            out.push('\\');
            out.push('n');
        } else if c == '\r' {
            out.push('\\');
            out.push('r');
        } else if c == '\t' {
            out.push('\\');
            out.push('t');
        } else if (c as u32) < 0x20 {
            out.push('\\');
            out.push('u');
            out.push('0');
            out.push('0');
            push_hex2(&mut out, c as u8, false);
        } else {
            out.push(c);
        }
        proof {
            assert(out@ =~= before + json_char(c));
            assert(cs@.subrange(0, i + 1).drop_last() =~= cs@.subrange(0, i as int));
        }
        i = i + 1;
    }
    out.push('"');
    proof {
        assert(cs@.subrange(0, cs@.len() as int) =~= cs@);
    }
    string_from_chars(&out)
}


/// One line per item.
pub open spec fn lines<T>(xs: Seq<T>, f: spec_fn(T) -> Seq<char>) -> Seq<char>
    decreases xs.len(),
{
    if xs.len() == 0 {
        seq![]
    } else {
        lines(xs.drop_last(), f) + line(f(xs.last()))
    }
}

/// `band 0    2  [-10..10]`.
pub open spec fn band_text(b: Band) -> Seq<char> {
    "band "@ + decimal(b.index as nat) + "  "@ + pad_left(signed_decimal(b.value as int), 3) + "  ["@
        + signed_decimal(b.min as int) + ".."@ + signed_decimal(b.max as int) + "]"@
}

/// `0  Quiet                awareness 0`, and `  wind block` where it is on.
pub open spec fn mode_text(m: Mode) -> Seq<char> {
    decimal(m.index as nat) + "  "@ + pad_right(m.name@, 20) + " awareness "@ + decimal(
        m.awareness as nat,
    ) + wind_text(m.wind_block)
}

pub open spec fn wind_text(on: bool) -> Seq<char> {
    if on {
        "  wind block"@
    } else {
        seq![]
    }
}

/// `cell 0  70%`.
pub open spec fn cell_text(c: Cell) -> Seq<char> {
    "cell "@ + decimal(c.index as nat) + "  "@ + decimal(c.percent as nat) + "%"@
}

/// `14 of 24`.
pub open spec fn volume_text(v: Volume) -> Seq<char> {
    decimal(v.current as nat) + " of "@ + decimal(sat_sub(v.steps as int, 1) as nat)
}

/// The levels a named model offers, by name.
pub open spec fn offered(n: Named) -> Seq<Seq<char>> {
    seq![Level::Off, Level::High, Level::Low].filter(
        |l: Level| bit_set(n.accepted, level_wire(l)),
    ).map_values(|l: Level| level_text(l))
}

/// The level a named model reports, or `unknown`.
pub open spec fn current_level_text(l: Option<Level>) -> Seq<char> {
    match l {
        Some(l) => level_text(l),
        None => "unknown"@,
    }
}

/// `high  (accepts off, high, low)`, or `cancelling 0 of 10  (awareness 10)`.
pub open spec fn anc_text(a: Anc) -> Seq<char> {
    match a {
        Anc::Named(n) => current_level_text(n.level) + "  (accepts "@ + joined(offered(n), ", "@)
            + ")"@,
        Anc::Graded(g) => "cancelling "@ + decimal(
            sat_sub(sat_sub(g.values as int, 1), g.awareness as int) as nat,
        ) + " of "@ + decimal(sat_sub(g.values as int, 1) as nat) + "  (awareness "@ + decimal(
            g.awareness as nat,
        ) + ")"@,
    }
}

pub open spec fn announcement_text(a: Option<bool>) -> Seq<char> {
    match a {
        Some(a) => on_off_text(a),
        None => "?"@,
    }
}

/// The language record, as `language` prints it.
pub open spec fn prompts_text(p: Prompts) -> Seq<char> {
    language_text(p.language) + "  voice prompts "@ + on_off_text(p.voice_prompts)
        + "  battery announcement "@ + announcement_text(p.battery_announcement) + "  (record "@
        + hex_spaced(p.raw@) + ")"@
}

pub open spec fn label_text(label: Option<Seq<char>>) -> Seq<char> {
    match label {
        Some(l) => "  ("@ + l + ")"@,
        None => seq![],
    }
}

/// One address read raw: where, the bytes, and what the catalog calls it.
pub open spec fn raw_text(a: Addr, bytes: Seq<u8>, label: Option<Seq<char>>) -> Seq<char> {
    addr_text(a) + "  "@ + hex_spaced(bytes) + label_text(label)
}

pub fn band_lines(bands: &Vec<Band>) -> (s: String)
    ensures
        s@ == lines(bands@, |b: Band| band_text(b)),
{
    let ghost f = |b: Band| band_text(b);
    let mut out: Vec<char> = Vec::new();
    let mut i: usize = 0;
    while i < bands.len()
        invariant
            i <= bands@.len(),
            f == (|b: Band| band_text(b)),
            out@ == lines(bands@.subrange(0, i as int), f),
        decreases bands@.len() - i,
    {
        let b = bands[i];
        let ghost before = out@;
        push_str(&mut out, "band ");
        push_decimal(&mut out, b.index as u64);
        push_str(&mut out, "  ");
        let mut value: Vec<char> = Vec::new();
        push_signed(&mut value, b.value as i64);
        push_right_aligned(&mut out, &value, 3);
        push_str(&mut out, "  [");
        push_signed(&mut out, b.min as i64);
        push_str(&mut out, "..");
        push_signed(&mut out, b.max as i64);
        push_str(&mut out, "]");
        out.push('\n');
        proof {
            assert(out@ =~= before + line(band_text(b)));
            assert(bands@.subrange(0, i + 1).drop_last() =~= bands@.subrange(0, i as int));
        }
        i = i + 1;
    }
    proof {
        assert(bands@.subrange(0, bands@.len() as int) =~= bands@);
    }
    string_from_chars(&out)
}

pub fn mode_lines(modes: &Vec<Mode>) -> (s: String)
    ensures
        s@ == lines(modes@, |m: Mode| mode_text(m)),
{
    let ghost f = |m: Mode| mode_text(m);
    let mut out: Vec<char> = Vec::new();
    let mut i: usize = 0;
    while i < modes.len()
        invariant
            i <= modes@.len(),
            f == (|m: Mode| mode_text(m)),
            out@ == lines(modes@.subrange(0, i as int), f),
        decreases modes@.len() - i,
    {
        let m = &modes[i];
        let ghost before = out@;
        push_decimal(&mut out, m.index as u64);
        push_str(&mut out, "  ");
        let name = chars_of(m.name.as_str());
        push_padded(&mut out, &name, 20);
        push_str(&mut out, " awareness ");
        push_decimal(&mut out, m.awareness as u64);
        if m.wind_block {
            push_str(&mut out, "  wind block");
        }
        out.push('\n');
        proof {
            assert(out@ =~= before + line(mode_text(*m)));
            assert(modes@.subrange(0, i + 1).drop_last() =~= modes@.subrange(0, i as int));
        }
        i = i + 1;
    }
    proof {
        assert(modes@.subrange(0, modes@.len() as int) =~= modes@);
    }
    string_from_chars(&out)
}

pub fn cell_lines(cells: &Vec<Cell>) -> (s: String)
    ensures
        s@ == lines(cells@, |c: Cell| cell_text(c)),
{
    let ghost f = |c: Cell| cell_text(c);
    let mut out: Vec<char> = Vec::new();
    let mut i: usize = 0;
    while i < cells.len()
        invariant
            i <= cells@.len(),
            f == (|c: Cell| cell_text(c)),
            out@ == lines(cells@.subrange(0, i as int), f),
        decreases cells@.len() - i,
    {
        let c = cells[i];
        let ghost before = out@;
        push_str(&mut out, "cell ");
        push_decimal(&mut out, c.index as u64);
        push_str(&mut out, "  ");
        push_decimal(&mut out, c.percent as u64);
        push_str(&mut out, "%");
        out.push('\n');
        proof {
            assert(out@ =~= before + line(cell_text(c)));
            assert(cells@.subrange(0, i + 1).drop_last() =~= cells@.subrange(0, i as int));
        }
        i = i + 1;
    }
    proof {
        assert(cells@.subrange(0, cells@.len() as int) =~= cells@);
    }
    string_from_chars(&out)
}

pub fn address_lines(addrs: &Vec<Address>) -> (s: String)
    ensures
        s@ == lines(addrs@, |a: Address| address_text(a@)),
{
    let ghost f = |a: Address| address_text(a@);
    let mut out: Vec<char> = Vec::new();
    let mut i: usize = 0;
    while i < addrs.len()
        invariant
            i <= addrs@.len(),
            f == (|a: Address| address_text(a@)),
            out@ == lines(addrs@.subrange(0, i as int), f),
        decreases addrs@.len() - i,
    {
        let ghost before = out@;
        let text = addrs[i].to_string();
        push_str(&mut out, text.as_str());
        out.push('\n');
        proof {
            assert(out@ =~= before + line(address_text(addrs@[i as int]@)));
            assert(addrs@.subrange(0, i + 1).drop_last() =~= addrs@.subrange(0, i as int));
        }
        i = i + 1;
    }
    proof {
        assert(addrs@.subrange(0, addrs@.len() as int) =~= addrs@);
    }
    string_from_chars(&out)
}

/// The ids column of the device picker: `vendor:product`, or `-` where either
/// is unknown.
pub open spec fn ids_text(vendor: Option<u16>, product: Option<u16>) -> Seq<char> {
    match (vendor, product) {
        (Some(v), Some(p)) => hex4(v) + ":"@ + hex4(p),
        _ => "-"@,
    }
}

/// `AA:BB:CC:00:00:01  009e:400c  Bose QC35 ... connected`: address, ids, the
/// name in 28 columns, and whether the link is up.
pub open spec fn peer_text(p: Peer) -> Seq<char> {
    address_text(p.address@) + "  "@ + ids_text(p.vendor, p.product) + "  "@ + pad_right(
        p.name@,
        28,
    ) + " "@ + if p.connected {
        "connected"@
    } else {
        ""@
    }
}

/// Append one picker line's text, without its newline.
fn push_peer(out: &mut Vec<char>, p: &Peer)
    ensures
        final(out)@ == old(out)@ + peer_text(*p),
{
    let ghost before = out@;
    let address = p.address.to_string();
    push_str(out, address.as_str());
    push_str(out, "  ");
    let ghost at_ids = out@;
    match (p.vendor, p.product) {
        (Some(v), Some(d)) => {
            push_hex4(out, v);
            out.push(':');
            push_hex4(out, d);
            proof {
                reveal_strlit(":");
            }
        },
        _ => push_str(out, "-"),
    }
    proof {
        assert(out@ =~= at_ids + ids_text(p.vendor, p.product));
    }
    push_str(out, "  ");
    let name = str_chars(p.name.as_str());
    push_padded(out, &name, 28);
    push_str(out, " ");
    let ghost at_state = out@;
    if p.connected {
        push_str(out, "connected");
    } else {
        proof {
            reveal_strlit("");
        }
    }
    proof {
        assert(out@ =~= at_state + if p.connected {
            "connected"@
        } else {
            ""@
        });
        assert(out@ =~= before + peer_text(*p));
    }
}

/// What `devices` prints: one line per paired Bose device.
pub fn peer_lines(peers: &Vec<Peer>) -> (s: String)
    ensures
        s@ == lines(peers@, |p: Peer| peer_text(p)),
{
    let ghost f = |p: Peer| peer_text(p);
    let mut out: Vec<char> = Vec::new();
    let mut i: usize = 0;
    while i < peers.len()
        invariant
            i <= peers@.len(),
            f == (|p: Peer| peer_text(p)),
            out@ == lines(peers@.subrange(0, i as int), f),
        decreases peers@.len() - i,
    {
        let ghost before = out@;
        push_peer(&mut out, &peers[i]);
        out.push('\n');
        proof {
            assert(out@ =~= before + line(peer_text(peers@[i as int])));
            assert(peers@.subrange(0, i + 1).drop_last() =~= peers@.subrange(0, i as int));
        }
        i = i + 1;
    }
    proof {
        assert(peers@.subrange(0, peers@.len() as int) =~= peers@);
    }
    string_from_chars(&out)
}

/// What `anc` prints for a reading.
pub fn anc_line(a: &Anc) -> (s: String)
    ensures
        s@ == line(anc_text(*a)),
{
    let mut out: Vec<char> = Vec::new();
    match a {
        Anc::Named(n) => {
            match n.level {
                Some(l) => push_str(&mut out, level_name(l)),
                None => push_str(&mut out, "unknown"),
            }
            push_str(&mut out, "  (accepts ");
            let ghost start = out@;
            let levels = n.levels();
            let ghost f = |l: Level| level_text(l);
            let mut i: usize = 0;
            while i < levels.len()
                invariant
                    i <= levels@.len(),
                    f == (|l: Level| level_text(l)),
                    out@ == start + joined(levels@.subrange(0, i as int).map_values(f), ", "@),
                decreases levels@.len() - i,
            {
                let ghost parts = levels@.subrange(0, i + 1).map_values(f);
                proof {
                    assert(parts.drop_last() =~= levels@.subrange(0, i as int).map_values(f));
                }
                if i > 0 {
                    push_str(&mut out, ", ");
                }
                push_str(&mut out, level_name(levels[i]));
                proof {
                    if i == 0 {
                        assert(levels@.subrange(0, 0).map_values(f) =~= Seq::<Seq<char>>::empty());
                    }
                    assert(out@ =~= start + joined(parts, ", "@));
                }
                i = i + 1;
            }
            proof {
                assert(levels@.subrange(0, levels@.len() as int) =~= levels@);
                assert(levels@.map_values(f) =~= offered(*n));
            }
            push_str(&mut out, ")");
        },
        Anc::Graded(g) => {
            push_str(&mut out, "cancelling ");
            push_decimal(&mut out, g.cancelling() as u64);
            push_str(&mut out, " of ");
            push_decimal(&mut out, g.top() as u64);
            push_str(&mut out, "  (awareness ");
            push_decimal(&mut out, g.awareness as u64);
            push_str(&mut out, ")");
        },
    }
    out.push('\n');
    proof {
        assert(out@ =~= line(anc_text(*a)));
    }
    string_from_chars(&out)
}

/// What `language` prints for a record.
pub fn prompts_line(p: &Prompts) -> (s: String)
    ensures
        s@ == line(prompts_text(*p)),
{
    let mut out: Vec<char> = Vec::new();
    let lang = language_name(p.language);
    push_str(&mut out, lang.as_str());
    push_str(&mut out, "  voice prompts ");
    push_str(&mut out, on_off_name(p.voice_prompts));
    push_str(&mut out, "  battery announcement ");
    match p.battery_announcement {
        Some(a) => push_str(&mut out, on_off_name(a)),
        None => push_str(&mut out, "?"),
    }
    push_str(&mut out, "  (record ");
    push_hex_spaced(&mut out, p.raw.as_slice());
    push_str(&mut out, ")");
    out.push('\n');
    proof {
        assert(out@ =~= line(prompts_text(*p)));
    }
    string_from_chars(&out)
}

pub fn volume_line(v: &Volume) -> (s: String)
    ensures
        s@ == line(volume_text(*v)),
{
    let mut out: Vec<char> = Vec::new();
    push_decimal(&mut out, v.current as u64);
    push_str(&mut out, " of ");
    push_decimal(&mut out, v.max() as u64);
    out.push('\n');
    proof {
        assert(out@ =~= line(volume_text(*v)));
    }
    string_from_chars(&out)
}

/// What `raw` prints.
pub fn raw_line(a: Addr, bytes: &Vec<u8>, label: Option<&str>) -> (s: String)
    ensures
        s@ == line(
            raw_text(
                a,
                bytes@,
                match label {
                    Some(l) => Some(l@),
                    None => None,
                },
            ),
        ),
{
    let mut out: Vec<char> = Vec::new();
    a.push_text(&mut out);
    push_str(&mut out, "  ");
    push_hex_spaced(&mut out, bytes.as_slice());
    match label {
        Some(l) => {
            push_str(&mut out, "  (");
            push_str(&mut out, l);
            push_str(&mut out, ")");
        },
        None => {},
    }
    out.push('\n');
    proof {
        assert(out@ =~= line(
            raw_text(
                a,
                bytes@,
                match label {
                    Some(l) => Some(l@),
                    None => None,
                },
            ),
        ));
    }
    string_from_chars(&out)
}

/// What `scan` prints: the functions that answered, as hex.
pub fn scan_line(found: &Vec<u8>) -> (s: String)
    ensures
        s@ == line(hex_list(found@)),
{
    let mut out: Vec<char> = Vec::new();
    push_hex_list(&mut out, found);
    out.push('\n');
    string_from_chars(&out)
}

/// A single value on a line of its own.
pub fn text_line(t: &str) -> (s: String)
    ensures
        s@ == line(t@),
{
    let mut out: Vec<char> = Vec::new();
    push_str(&mut out, t);
    out.push('\n');
    string_from_chars(&out)
}

/// A number on a line of its own.
pub fn number_line(n: u8) -> (s: String)
    ensures
        s@ == line(decimal(n as nat)),
{
    let mut out: Vec<char> = Vec::new();
    push_decimal(&mut out, n as u64);
    out.push('\n');
    string_from_chars(&out)
}


/// A text the device reported, or what stands in for it.
pub open spec fn or_text(o: Option<String>, missing: Seq<char>) -> Seq<char> {
    match o {
        Some(s) => s@,
        None => missing,
    }
}

/// The kind of noise cancelling, or `no`.
pub open spec fn kind_text(k: Option<AncKind>) -> Seq<char> {
    match k {
        Some(k) => anc_kind_text(k),
        None => "no"@,
    }
}

pub open spec fn id_text(id: Identity) -> Seq<char> {
    if id.id == 0 {
        "id        -"@
    } else {
        "id        0x"@ + hex4(id.id) + " index "@ + decimal(id.index as nat)
    }
}

pub open spec fn supports_text(s: Supports) -> Seq<char> {
    "supports  anc:"@ + kind_text(s.anc) + " eq:"@ + bool_text(s.equaliser) + " immersive:"@
        + bool_text(s.immersive) + " modes:"@ + bool_text(s.modes)
}

/// What `info` prints. Zero is no device's id; it is what opening leaves when
/// `00 03` did not answer.
pub open spec fn info_text(
    id: Identity,
    s: Supports,
    functions: Seq<u8>,
    immersive: Option<Immersive>,
    channel: u8,
) -> Seq<char> {
    line("channel   "@ + decimal(channel as nat)) + line(id_text(id)) + line(
        "model     "@ + or_text(id.model, "(not reported)"@),
    ) + line("version   "@ + or_text(id.version, "-"@)) + line(
        "serial    "@ + or_text(id.serial, "-"@),
    ) + line(supports_text(s)) + line("functions "@ + hex_list(functions)) + match immersive {
        Some(i) => line("immersive "@ + immersive_text(i)),
        None => seq![],
    }
}

/// Append a reported text, or the stand-in.
fn push_or(out: &mut Vec<char>, o: &Option<String>, missing: &str)
    ensures
        final(out)@ == old(out)@ + or_text(*o, missing@),
{
    match o {
        Some(s) => push_str(out, s.as_str()),
        None => push_str(out, missing),
    }
}

/// Append four hex digits.
fn push_hex4(out: &mut Vec<char>, n: u16)
    ensures
        final(out)@ == old(out)@ + hex4(n),
{
    push_hex2(out, (n / 256) as u8, false);
    push_hex2(out, (n % 256) as u8, false);
}

fn push_kind(out: &mut Vec<char>, k: Option<AncKind>)
    ensures
        final(out)@ == old(out)@ + kind_text(k),
{
    match k {
        Some(k) => push_str(out, k.as_str()),
        None => push_str(out, "no"),
    }
}

/// Append a line: a label, then a reported text or its stand-in.
fn push_reported_line(out: &mut Vec<char>, label: &str, o: &Option<String>, missing: &str)
    ensures
        final(out)@ == old(out)@ + line(label@ + or_text(*o, missing@)),
{
    let ghost start = out@;
    push_str(out, label);
    push_or(out, o, missing);
    out.push('\n');
    proof {
        assert(out@ =~= start + line(label@ + or_text(*o, missing@)));
    }
}

fn push_id_line(out: &mut Vec<char>, id: &Identity)
    ensures
        final(out)@ == old(out)@ + line(id_text(*id)),
{
    let ghost start = out@;
    if id.id == 0 {
        push_str(out, "id        -");
    } else {
        push_str(out, "id        0x");
        push_hex4(out, id.id);
        push_str(out, " index ");
        push_decimal(out, id.index as u64);
    }
    out.push('\n');
    proof {
        assert(out@ =~= start + line(id_text(*id)));
    }
}

fn push_supports_line(out: &mut Vec<char>, s: Supports)
    ensures
        final(out)@ == old(out)@ + line(supports_text(s)),
{
    let ghost start = out@;
    push_str(out, "supports  anc:");
    push_kind(out, s.anc);
    push_str(out, " eq:");
    push_str(out, bool_name(s.equaliser));
    push_str(out, " immersive:");
    push_str(out, bool_name(s.immersive));
    push_str(out, " modes:");
    push_str(out, bool_name(s.modes));
    out.push('\n');
    proof {
        assert(out@ =~= start + line(supports_text(s)));
    }
}

fn push_head_lines(out: &mut Vec<char>, id: &Identity, channel: u8)
    ensures
        final(out)@ == old(out)@ + line("channel   "@ + decimal(channel as nat)) + line(id_text(*id))
            + line("model     "@ + or_text(id.model, "(not reported)"@)) + line(
            "version   "@ + or_text(id.version, "-"@),
        ) + line("serial    "@ + or_text(id.serial, "-"@)),
{
    let ghost start = out@;
    push_str(out, "channel   ");
    push_decimal(out, channel as u64);
    out.push('\n');
    let ghost a = out@;
    proof {
        assert(a =~= start + line("channel   "@ + decimal(channel as nat)));
    }
    push_id_line(out, id);
    let ghost b = out@;
    push_reported_line(out, "model     ", &id.model, "(not reported)");
    let ghost c = out@;
    push_reported_line(out, "version   ", &id.version, "-");
    let ghost d = out@;
    push_reported_line(out, "serial    ", &id.serial, "-");
    proof {
        assert(out@ =~= start + line("channel   "@ + decimal(channel as nat)) + line(id_text(*id))
            + line("model     "@ + or_text(id.model, "(not reported)"@)) + line(
            "version   "@ + or_text(id.version, "-"@),
        ) + line("serial    "@ + or_text(id.serial, "-"@)));
    }
}

fn push_tail_lines(out: &mut Vec<char>, functions: &Vec<u8>, immersive: Option<Immersive>)
    ensures
        final(out)@ == old(out)@ + line("functions "@ + hex_list(functions@)) + match immersive {
            Some(i) => line("immersive "@ + immersive_text(i)),
            None => seq![],
        },
{
    let ghost start = out@;
    push_str(out, "functions ");
    push_hex_list(out, functions);
    out.push('\n');
    let ghost a = out@;
    proof {
        assert(a =~= start + line("functions "@ + hex_list(functions@)));
    }
    match immersive {
        Some(i) => {
            push_str(out, "immersive ");
            push_str(out, immersive_name(i));
            out.push('\n');
            proof {
                assert(out@ =~= a + line("immersive "@ + immersive_text(i)));
            }
        },
        None => {
            proof {
                assert(out@ =~= a + Seq::<char>::empty());
            }
        },
    }
}

/// What `info` prints, from what the device said.
pub fn info_text_of(
    id: &Identity,
    s: Supports,
    functions: &Vec<u8>,
    immersive: Option<Immersive>,
    channel: u8,
) -> (t: String)
    ensures
        t@ == info_text(*id, s, functions@, immersive, channel),
{
    let mut out: Vec<char> = Vec::new();
    push_head_lines(&mut out, id, channel);
    let ghost head = out@;
    push_supports_line(&mut out, s);
    let ghost mid = out@;
    push_tail_lines(&mut out, functions, immersive);
    proof {
        assert(out@ =~= info_text(*id, s, functions@, immersive, channel));
    }
    string_from_chars(&out)
}

/// A reported text as JSON: a string, or `null`.
pub open spec fn json_or_null(o: Option<String>) -> Seq<char> {
    match o {
        Some(s) => json_text(s@),
        None => "null"@,
    }
}

/// `{"cell": 0, "percent": 70}`.
pub open spec fn cell_json(c: Cell) -> Seq<char> {
    "{\"cell\": "@ + decimal(c.index as nat) + ", \"percent\": "@ + decimal(c.percent as nat) + "}"@
}

/// The cells as a JSON list, or `null` when the read failed — distinct from
/// `[]`, so a script polling it does not take an error for a device with no
/// cells.
pub open spec fn battery_json(b: Option<Seq<Cell>>) -> Seq<char> {
    match b {
        Some(cells) => "["@ + joined(cells.map_values(|c: Cell| cell_json(c)), ", "@) + "]"@,
        None => "null"@,
    }
}

pub open spec fn json_id(id: Identity) -> Seq<char> {
    if id.id == 0 {
        "  \"id\": null,"@
    } else {
        "  \"id\": \"0x"@ + hex4(id.id) + "\","@
    }
}

pub open spec fn json_kind(k: Option<AncKind>) -> Seq<char> {
    match k {
        Some(k) => json_text(anc_kind_text(k)),
        None => "null"@,
    }
}

/// What `json` prints.
pub open spec fn json_doc(id: Identity, s: Supports, battery: Option<Seq<Cell>>, channel: u8) -> Seq<char> {
    line("{"@) + line("  \"channel\": "@ + decimal(channel as nat) + ","@) + line(json_id(id)) + line(
        "  \"model\": "@ + json_or_null(id.model) + ","@,
    ) + line("  \"version\": "@ + json_or_null(id.version) + ","@) + line(
        "  \"serial\": "@ + json_or_null(id.serial) + ","@,
    ) + line("  \"anc\": "@ + json_kind(s.anc) + ","@) + line(
        "  \"equaliser\": "@ + bool_text(s.equaliser) + ","@,
    ) + line("  \"immersive\": "@ + bool_text(s.immersive) + ","@) + line(
        "  \"modes\": "@ + bool_text(s.modes) + ","@,
    ) + line("  \"battery\": "@ + battery_json(battery)) + line("}"@)
}

fn push_json_or_null(out: &mut Vec<char>, o: &Option<String>)
    ensures
        final(out)@ == old(out)@ + json_or_null(*o),
{
    match o {
        Some(s) => {
            let j = json_string(s.as_str());
            push_str(out, j.as_str());
        },
        None => push_str(out, "null"),
    }
}

fn push_battery_json(out: &mut Vec<char>, b: &Option<Vec<Cell>>)
    ensures
        final(out)@ == old(out)@ + battery_json(
            match b {
                Some(v) => Some(v@),
                None => None,
            },
        ),
{
    match b {
        None => push_str(out, "null"),
        Some(cells) => {
            let ghost start = out@;
            push_str(out, "[");
            let ghost open = out@;
            let ghost f = |c: Cell| cell_json(c);
            let mut i: usize = 0;
            while i < cells.len()
                invariant
                    i <= cells@.len(),
                    f == (|c: Cell| cell_json(c)),
                    out@ == open + joined(cells@.subrange(0, i as int).map_values(f), ", "@),
                decreases cells@.len() - i,
            {
                let ghost parts = cells@.subrange(0, i + 1).map_values(f);
                proof {
                    assert(parts.drop_last() =~= cells@.subrange(0, i as int).map_values(f));
                }
                if i > 0 {
                    push_str(out, ", ");
                }
                let c = cells[i];
                let ghost mid = out@;
                push_str(out, "{\"cell\": ");
                push_decimal(out, c.index as u64);
                push_str(out, ", \"percent\": ");
                push_decimal(out, c.percent as u64);
                push_str(out, "}");
                proof {
                    assert(out@ =~= mid + cell_json(c));
                    if i == 0 {
                        assert(cells@.subrange(0, 0).map_values(f) =~= Seq::<Seq<char>>::empty());
                    }
                    assert(out@ =~= open + joined(parts, ", "@));
                }
                i = i + 1;
            }
            push_str(out, "]");
            proof {
                assert(cells@.subrange(0, cells@.len() as int) =~= cells@);
                assert(out@ =~= start + battery_json(Some(cells@)));
            }
        },
    }
}

/// Append `  "key": <value>,` and a newline, with the value a reported text.
fn push_json_text_line(out: &mut Vec<char>, key: &str, o: &Option<String>)
    ensures
        final(out)@ == old(out)@ + line(key@ + json_or_null(*o) + ","@),
{
    let ghost start = out@;
    push_str(out, key);
    push_json_or_null(out, o);
    push_str(out, ",");
    out.push('\n');
    proof {
        assert(out@ =~= start + line(key@ + json_or_null(*o) + ","@));
    }
}

/// Append `  "key": <bool>,` and a newline.
fn push_json_bool_line(out: &mut Vec<char>, key: &str, v: bool)
    ensures
        final(out)@ == old(out)@ + line(key@ + bool_text(v) + ","@),
{
    let ghost start = out@;
    push_str(out, key);
    push_str(out, bool_name(v));
    push_str(out, ",");
    out.push('\n');
    proof {
        assert(out@ =~= start + line(key@ + bool_text(v) + ","@));
    }
}

fn push_json_head(out: &mut Vec<char>, id: &Identity, channel: u8)
    ensures
        final(out)@ == old(out)@ + line("{"@) + line("  \"channel\": "@ + decimal(channel as nat) + ","@)
            + line(json_id(*id)) + line("  \"model\": "@ + json_or_null(id.model) + ","@) + line(
            "  \"version\": "@ + json_or_null(id.version) + ","@,
        ) + line("  \"serial\": "@ + json_or_null(id.serial) + ","@),
{
    let ghost start = out@;
    push_str(out, "{");
    out.push('\n');
    push_str(out, "  \"channel\": ");
    push_decimal(out, channel as u64);
    push_str(out, ",");
    out.push('\n');
    let ghost a = out@;
    proof {
        assert(a =~= start + line("{"@) + line("  \"channel\": "@ + decimal(channel as nat) + ","@));
    }
    if id.id == 0 {
        push_str(out, "  \"id\": null,");
    } else {
        push_str(out, "  \"id\": \"0x");
        push_hex4(out, id.id);
        push_str(out, "\",");
    }
    out.push('\n');
    let ghost b = out@;
    proof {
        assert(b =~= a + line(json_id(*id)));
    }
    push_json_text_line(out, "  \"model\": ", &id.model);
    push_json_text_line(out, "  \"version\": ", &id.version);
    push_json_text_line(out, "  \"serial\": ", &id.serial);
    proof {
        assert(out@ =~= start + line("{"@) + line("  \"channel\": "@ + decimal(channel as nat) + ","@)
            + line(json_id(*id)) + line("  \"model\": "@ + json_or_null(id.model) + ","@) + line(
            "  \"version\": "@ + json_or_null(id.version) + ","@,
        ) + line("  \"serial\": "@ + json_or_null(id.serial) + ","@));
    }
}

fn push_json_tail(out: &mut Vec<char>, s: Supports, battery: &Option<Vec<Cell>>)
    ensures
        final(out)@ == old(out)@ + line("  \"anc\": "@ + json_kind(s.anc) + ","@) + line(
            "  \"equaliser\": "@ + bool_text(s.equaliser) + ","@,
        ) + line("  \"immersive\": "@ + bool_text(s.immersive) + ","@) + line(
            "  \"modes\": "@ + bool_text(s.modes) + ","@,
        ) + line(
            "  \"battery\": "@ + battery_json(
                match battery {
                    Some(v) => Some(v@),
                    None => None,
                },
            ),
        ) + line("}"@),
{
    let ghost start = out@;
    push_str(out, "  \"anc\": ");
    match s.anc {
        Some(k) => {
            let j = json_string(k.as_str());
            push_str(out, j.as_str());
        },
        None => push_str(out, "null"),
    }
    push_str(out, ",");
    out.push('\n');
    let ghost a = out@;
    proof {
        assert(a =~= start + line("  \"anc\": "@ + json_kind(s.anc) + ","@));
    }
    push_json_bool_line(out, "  \"equaliser\": ", s.equaliser);
    push_json_bool_line(out, "  \"immersive\": ", s.immersive);
    push_json_bool_line(out, "  \"modes\": ", s.modes);
    let ghost b = out@;
    push_str(out, "  \"battery\": ");
    push_battery_json(out, battery);
    out.push('\n');
    push_str(out, "}");
    out.push('\n');
    proof {
        assert(out@ =~= b + line(
            "  \"battery\": "@ + battery_json(
                match battery {
                    Some(v) => Some(v@),
                    None => None,
                },
            ),
        ) + line("}"@));
    }
}

/// What `json` prints, from what the device said.
pub fn json_doc_of(id: &Identity, s: Supports, battery: &Option<Vec<Cell>>, channel: u8) -> (t: String)
    ensures
        t@ == json_doc(
            *id,
            s,
            match battery {
                Some(v) => Some(v@),
                None => None,
            },
            channel,
        ),
{
    let mut out: Vec<char> = Vec::new();
    push_json_head(&mut out, id, channel);
    push_json_tail(&mut out, s, battery);
    proof {
        assert(out@ =~= json_doc(
            *id,
            s,
            match battery {
                Some(v) => Some(v@),
                None => None,
            },
            channel,
        ));
    }
    string_from_chars(&out)
}

/// One catalog row: address, label, read and write evidence, note.
pub open spec fn catalog_row(m: Meta) -> Seq<char> {
    pad_right(addr_text(m.addr), 6) + " "@ + pad_right(m.label@, 34) + " "@ + pad_right(
        evidence_text(m.read),
        10,
    ) + " "@ + pad_right(evidence_text(m.write), 10) + " "@ + m.note@
}

pub open spec fn catalog_header() -> Seq<char> {
    pad_right("addr"@, 6) + " "@ + pad_right("record"@, 34) + " "@ + pad_right("read"@, 10) + " "@
        + pad_right("write"@, 10) + " note"@
}

/// The catalog, as a table: a header, then one row per record.
pub open spec fn catalog_text() -> Seq<char> {
    line(catalog_header()) + lines(catalog::catalog_spec(), |m: Meta| catalog_row(m))
}

/// The catalog, as a table. The documentation renders the same facts; this is
/// for when the question is what a *build* knows, in a terminal, next to a
/// device.
#[verifier::spinoff_prover]
#[verifier::rlimit(40)]
pub fn catalog_table() -> (t: String)
    ensures
        t@ == catalog_text(),
{
    let metas = catalog::catalog();
    let mut out: Vec<char> = Vec::new();
    push_padded(&mut out, &chars_of("addr"), 6);
    push_str(&mut out, " ");
    push_padded(&mut out, &chars_of("record"), 34);
    push_str(&mut out, " ");
    push_padded(&mut out, &chars_of("read"), 10);
    push_str(&mut out, " ");
    push_padded(&mut out, &chars_of("write"), 10);
    push_str(&mut out, " note");
    out.push('\n');
    let ghost head = out@;
    proof {
        assert(head =~= line(catalog_header()));
    }
    let ghost f = |m: Meta| catalog_row(m);
    let mut i: usize = 0;
    while i < metas.len()
        invariant
            i <= metas@.len(),
            metas@ == catalog::catalog_spec(),
            f == (|m: Meta| catalog_row(m)),
            out@ == head + lines(metas@.subrange(0, i as int), f),
        decreases metas@.len() - i,
    {
        let m = metas[i];
        let ghost before = out@;
        let mut addr: Vec<char> = Vec::new();
        m.addr.push_text(&mut addr);
        push_padded(&mut out, &addr, 6);
        push_str(&mut out, " ");
        push_padded(&mut out, &chars_of(m.label), 34);
        push_str(&mut out, " ");
        push_padded(&mut out, &chars_of(evidence_name(m.read)), 10);
        push_str(&mut out, " ");
        push_padded(&mut out, &chars_of(evidence_name(m.write)), 10);
        push_str(&mut out, " ");
        push_str(&mut out, m.note);
        out.push('\n');
        proof {
            assert(out@ =~= before + line(catalog_row(m)));
            assert(metas@.subrange(0, i + 1).drop_last() =~= metas@.subrange(0, i as int));
        }
        i = i + 1;
    }
    proof {
        assert(metas@.subrange(0, metas@.len() as int) =~= metas@);
    }
    string_from_chars(&out)
}

/// Each address as its six octets.
pub open spec fn address_views(v: Seq<Address>) -> Seq<Seq<u8>> {
    v.map_values(|a: Address| a@)
}

/// The functions a surface has seen answer, ascending.
pub open spec fn answering_functions(s: Surface) -> Seq<u8> {
    Seq::new(256, |f: int| f as u8).filter(|f: u8| s.answering().contains(f))
}

/// The payload the device's last answer at `addr` carried, if it carried one.
pub open spec fn last_payload<T: Transport>(d: Device<T>, addr: Addr) -> Option<Seq<u8>> {
    match last_answer(d, addr) {
        Some(Ok(p)) => Some(p),
        _ => None,
    }
}

/// The immersive-audio read `info` makes: on a model whose surface shows the
/// record, the read and what it gave; on any other, none, and nothing asked.
pub open spec fn info_read<T: Transport>(before: Device<T>, after: Device<T>, ri: Result<Immersive>) -> bool {
    let addr = catalog::immersive().meta.addr;
    if supports_of(before).immersive {
        &&& read_as(before, after, addr, ri, |p: Seq<u8>| immersive_spec(p) is Some)
        &&& ri matches Ok(i) ==> last_payload(after, addr) matches Some(p) && immersive_spec(p) == Some(i)
    } else {
        after == before && ri is Err
    }
}

/// The battery read `json` makes, and what it gave.
pub open spec fn json_read<T: Transport>(before: Device<T>, after: Device<T>, rb: Result<Seq<Cell>>) -> bool {
    let addr = catalog::battery().meta.addr;
    &&& read_as(before, after, addr, rb, |p: Seq<u8>| true)
    &&& rb matches Ok(cells) ==> last_payload(after, addr) matches Some(p) && cells == cells_spec(p)
}

/// A scan of `first..=last` that ended as `u`.
pub open spec fn scan_ended<T: Transport>(
    before: Device<T>,
    after: Device<T>,
    first: u8,
    last: u8,
    u: Result<()>,
) -> bool {
    exists|rs: Result<Vec<u8>>|
        #![trigger scanned(before, after, first, last, rs)]
        scanned(before, after, first, last, rs) && outcome(rs) == u
}

/// What running `cmd` does to the device, by what it comes back with: the verb
/// the command names, with the verb's own outcome — the same error, or success
/// exactly when the verb succeeded. A command that needs no device leaves it
/// alone and succeeds, and so do `info` and `json`, which report a read that
/// failed by leaving its value out.
pub open spec fn performed<T: Transport>(
    cmd: CmdView,
    before: Device<T>,
    after: Device<T>,
    r: Result<String>,
) -> bool {
    let u = outcome(r);
    match cmd {
        CmdView::Help | CmdView::Version | CmdView::Catalog | CmdView::Devices => r is Ok && after
            == before,
        CmdView::Info | CmdView::Json => r is Ok,
        CmdView::Anc(None) => exists|ra: Result<Anc>|
            #![trigger anc_read(before, after, ra)]
            anc_read(before, after, ra) && outcome(ra) == u,
        CmdView::Anc(Some(level)) => level_set(before, after, level, u),
        CmdView::Eq(None) => read_as(
            before,
            after,
            catalog::equaliser().meta.addr,
            u,
            |p: Seq<u8>| true,
        ),
        CmdView::Eq(Some((index, value))) => band_set(before, after, index, value, u),
        CmdView::Modes => modes_read(before, after, u),
        CmdView::Mode => read_as(
            before,
            after,
            catalog::current_mode().meta.addr,
            u,
            |p: Seq<u8>| p.len() != 0,
        ),
        CmdView::Immersive => read_as(
            before,
            after,
            catalog::immersive().meta.addr,
            u,
            |p: Seq<u8>| immersive_spec(p) is Some,
        ),
        CmdView::Language(None) => read_as(
            before,
            after,
            catalog::prompts().meta.addr,
            u,
            |p: Seq<u8>| p.len() != 0,
        ),
        CmdView::Language(Some((language, None))) => language_set(before, after, language, u),
        CmdView::Language(Some((language, Some(on)))) => stored(
            before,
            after,
            catalog::prompts(),
            seq![0x20 | language_code(language), if on { 1u8 } else { 0u8 }],
            u,
        ),
        CmdView::Name(None) => read_as(before, after, catalog::name().meta.addr, u, |p: Seq<u8>| true),
        CmdView::Name(Some(n)) => stored(before, after, catalog::name(), encode_utf8(n), u),
        CmdView::Battery => read_as(
            before,
            after,
            catalog::battery().meta.addr,
            u,
            |p: Seq<u8>| true,
        ),
        CmdView::Volume(None) => read_as(
            before,
            after,
            catalog::volume().meta.addr,
            u,
            |p: Seq<u8>| volume_spec(p) is Some,
        ),
        CmdView::Volume(Some(level)) => volume_set(before, after, level, u),
        CmdView::AutoOff(None) => read_as(
            before,
            after,
            catalog::auto_off().meta.addr,
            u,
            |p: Seq<u8>| auto_off_spec(p) is Some,
        ),
        CmdView::AutoOff(Some(minutes)) => auto_off_set(before, after, minutes, u),
        CmdView::Toggle(which, None) => read_as(
            before,
            after,
            toggle_field(which).meta.addr,
            u,
            |p: Seq<u8>| p.len() != 0,
        ),
        CmdView::Toggle(which, Some(on)) => stored(
            before,
            after,
            toggle_field(which),
            seq![if on { 1u8 } else { 0u8 }],
            u,
        ),
        CmdView::Paired => read_as(
            before,
            after,
            catalog::paired().meta.addr,
            u,
            |p: Seq<u8>| p.len() != 0,
        ),
        CmdView::Active => read_as(
            before,
            after,
            catalog::active_device().meta.addr,
            u,
            |p: Seq<u8>| p.len() >= 6,
        ),
        CmdView::Raw(addr) => {
            &&& asked(before, after, addr, u)
            &&& after.wf()
            &&& after.identity == before.identity
            &&& after.surface == before.surface
        },
        CmdView::Scan(first, last) => scan_ended(before, after, first, last, u),
    }
}

/// What running `cmd` on the device `before`, leaving it as `after`, printed:
/// nothing for a command answered without a device or for a write, and
/// otherwise the rendering of what the device sent back at the command's
/// record.
pub open spec fn printed<T: Transport>(
    cmd: CmdView,
    before: Device<T>,
    after: Device<T>,
    channel: u8,
    t: Seq<char>,
) -> bool {
    match cmd {
        CmdView::Help | CmdView::Version | CmdView::Catalog | CmdView::Devices => t.len() == 0,
        CmdView::Anc(Some(_)) | CmdView::Eq(Some(_)) | CmdView::Language(Some(_))
        | CmdView::Name(Some(_)) | CmdView::Volume(Some(_)) | CmdView::AutoOff(Some(_))
        | CmdView::Toggle(_, Some(_)) => t.len() == 0,
        CmdView::Info => exists|ri: Result<Immersive>|
            #![trigger info_read(before, after, ri)]
            {
                &&& info_read(before, after, ri)
                &&& t == info_text(
                    before.identity,
                    supports_of(before),
                    answering_functions(before.surface),
                    match ri {
                        Ok(i) => Some(i),
                        Err(_) => None,
                    },
                    channel,
                )
            },
        CmdView::Json => exists|rb: Result<Seq<Cell>>|
            #![trigger json_read(before, after, rb)]
            {
                &&& json_read(before, after, rb)
                &&& t == json_doc(
                    before.identity,
                    supports_of(before),
                    match rb {
                        Ok(cells) => Some(cells),
                        Err(_) => None,
                    },
                    channel,
                )
            },
        CmdView::Anc(None) => exists|a: Anc|
            {
                &&& t == line(anc_text(a))
                &&& match a {
                    Anc::Named(v) => last_payload(after, catalog::anc_named().meta.addr) matches Some(
                        p,
                    ) && named_spec(p) == Some(v),
                    Anc::Graded(v) => last_payload(after, catalog::anc_graded().meta.addr)
                        matches Some(p) && graded_spec(p) == Some(v),
                }
            },
        CmdView::Eq(None) => last_payload(after, catalog::equaliser().meta.addr) matches Some(p)
            && t == lines(bands_spec(p), |b: Band| band_text(b)),
        CmdView::Modes => decode_spec(after.session.replied()) matches Ok(fs) && exists|
            v: Seq<Mode>,
        |
            #![trigger modes_match(v, stored_slots(fs, catalog::mode_slot().meta.addr))]
            modes_match(v, stored_slots(fs, catalog::mode_slot().meta.addr)) && t == lines(
                v,
                |m: Mode| mode_text(m),
            ),
        CmdView::Mode => last_payload(after, catalog::current_mode().meta.addr) matches Some(p)
            && byte_spec(p) matches Some(n) && t == line(decimal(n as nat)),
        CmdView::Immersive => last_payload(after, catalog::immersive().meta.addr) matches Some(p)
            && immersive_spec(p) matches Some(i) && t == line(immersive_text(i)),
        CmdView::Language(None) => last_payload(after, catalog::prompts().meta.addr) matches Some(
            p,
        ) && exists|v: Prompts| prompts_of(v, p) && t == line(prompts_text(v)),
        CmdView::Name(None) => last_payload(after, catalog::name().meta.addr) matches Some(p) && t
            == line(name_spec(p)),
        CmdView::Battery => last_payload(after, catalog::battery().meta.addr) matches Some(p) && t
            == lines(cells_spec(p), |c: Cell| cell_text(c)),
        CmdView::Volume(None) => last_payload(after, catalog::volume().meta.addr) matches Some(p)
            && volume_spec(p) matches Some(v) && t == line(volume_text(v)),
        CmdView::AutoOff(None) => last_payload(after, catalog::auto_off().meta.addr) matches Some(
            p,
        ) && auto_off_spec(p) matches Some(v) && t == line(auto_off_text(v)),
        CmdView::Toggle(which, None) => last_payload(after, toggle_field(which).meta.addr)
            matches Some(p) && flag_spec(p) matches Some(v) && t == line(on_off_text(v)),
        CmdView::Paired => last_payload(after, catalog::paired().meta.addr) matches Some(p) && p.len()
            >= 1 && exists|v: Seq<Address>|
            #[trigger] address_views(v) == addresses_spec(p) && t == lines(
                v,
                |a: Address| address_text(a@),
            ),
        CmdView::Active => last_payload(after, catalog::active_device().meta.addr) matches Some(p)
            && p.len() >= 6 && t == line(address_text(p.subrange(0, 6))),
        CmdView::Raw(a) => last_payload(after, a) matches Some(p) && t == line(
            raw_text(
                a,
                p,
                match find_spec(catalog_spec(), a) {
                    Some(m) => Some(m.label@),
                    None => None,
                },
            ),
        ),
        CmdView::Scan(first, _) => t == line(
            hex_list(answering_among(first as int, replies_since(before, after))),
        ),
    }
}

/// Run one command against a device and return what it prints. Writes print
/// nothing; a refusal comes back as the error.
pub fn run<T: Transport>(cmd: &Cmd, dev: &mut Device<T>, channel: u8) -> (r: Result<String>)
    requires
        old(dev).wf(),
    ensures
        final(dev).wf(),
        final(dev).identity == old(dev).identity,
        performed(cmd@, *old(dev), *final(dev), r),
        r matches Ok(t) ==> printed(cmd@, *old(dev), *final(dev), channel, t@),
{
    match cmd {
        Cmd::Help | Cmd::Version | Cmd::Catalog | Cmd::Devices => Ok(String::new()),
        Cmd::Info | Cmd::Json => overview(cmd, dev, channel),
        Cmd::Anc(Some(_)) | Cmd::Eq(Some(_)) | Cmd::Language(Some(_)) | Cmd::Name(Some(_))
        | Cmd::Volume(Some(_)) | Cmd::AutoOff(Some(_)) | Cmd::Toggle(_, Some(_)) => change(cmd, dev, channel),
        Cmd::Anc(None) | Cmd::Eq(None) | Cmd::Modes | Cmd::Mode | Cmd::Immersive | Cmd::Raw(_)
        | Cmd::Scan(_, _) => inspect(cmd, dev, channel),
        Cmd::Language(None) | Cmd::Name(None) | Cmd::Battery | Cmd::Volume(None) | Cmd::AutoOff(None)
        | Cmd::Toggle(_, None) | Cmd::Paired | Cmd::Active => show(cmd, dev, channel),
    }
}

/// `info` and `json`: what the surface says, with the one read each makes.
#[verifier::rlimit(50)]
fn overview<T: Transport>(cmd: &Cmd, dev: &mut Device<T>, channel: u8) -> (r: Result<String>)
    requires
        old(dev).wf(),
        cmd is Info || cmd is Json,
    ensures
        final(dev).wf(),
        final(dev).identity == old(dev).identity,
        performed(cmd@, *old(dev), *final(dev), r),
        r matches Ok(t) ==> printed(cmd@, *old(dev), *final(dev), channel, t@),
{
    let ghost before = *dev;
    match cmd {
        Cmd::Info => {
            let s = dev.supports();
            let functions = dev.surface.functions();
            let immersive = if s.immersive {
                let read = dev.immersive();
                let ghost got = read;
                proof {
                    lemma_fetched_outcome(before, *dev, catalog::immersive().meta.addr, got, got);
                    assert(info_read(before, *dev, got));
                }
                match read {
                    Ok(i) => Some(i),
                    Err(_) => None,
                }
            } else {
                proof {
                    assert(info_read(before, *dev, Err::<Immersive, Error>(Error::Absent(catalog::immersive().meta.addr))));
                }
                None
            };
            let out = info_text_of(&dev.identity, s, &functions, immersive, channel);
            proof {
                assert(functions@ == answering_functions(before.surface));
                assert(out@ == info_text(
                    before.identity,
                    supports_of(before),
                    answering_functions(before.surface),
                    immersive,
                    channel,
                ));
            }
            Ok(out)
        },
        Cmd::Json => {
            let s = dev.supports();
            let read = dev.battery();
            let ghost raw = read;
            let ghost got: Result<Seq<Cell>> = match raw {
                Ok(cells) => Ok(cells@),
                Err(e) => Err(e),
            };
            proof {
                lemma_fetched_outcome(before, *dev, catalog::battery().meta.addr, raw, got);
                assert(json_read(before, *dev, got));
            }
            let battery = match read {
                Ok(cells) => Some(cells),
                Err(_) => None,
            };
            let out = json_doc_of(&dev.identity, s, &battery, channel);
            proof {
                let b = match battery {
                    Some(v) => Some(v@),
                    None => None,
                };
                assert(out@ == json_doc(before.identity, supports_of(before), b, channel));
            }
            Ok(out)
        },
        _ => Ok(String::new()),
    }
}

/// The commands that write: each prints nothing, and fails as its verb does.
#[verifier::rlimit(50)]
fn change<T: Transport>(cmd: &Cmd, dev: &mut Device<T>, channel: u8) -> (r: Result<String>)
    requires
        old(dev).wf(),
        (cmd matches Cmd::Anc(Some(_))) || (cmd matches Cmd::Eq(Some(_))) || (cmd matches Cmd::Language(Some(_))) || (cmd matches Cmd::Name(Some(_))) || (cmd matches Cmd::Volume(Some(_))) || (cmd matches Cmd::AutoOff(Some(_))) || (cmd matches Cmd::Toggle(_, Some(_))),
    ensures
        final(dev).wf(),
        final(dev).identity == old(dev).identity,
        performed(cmd@, *old(dev), *final(dev), r),
        r matches Ok(t) ==> printed(cmd@, *old(dev), *final(dev), channel, t@),
{
    match cmd {
        Cmd::Anc(Some(level)) => {
            let r = nothing_printed(dev.set_level(*level));
            r
        },
        Cmd::Eq(Some((band, value))) => {
            let r = nothing_printed(dev.set_band(*band, *value));
            r
        },
        Cmd::Language(Some((l, None))) => {
            let r = nothing_printed(dev.set_language(*l));
            r
        },
        Cmd::Language(Some((l, Some(a)))) => {
            let r = nothing_printed(dev.set_prompts(*l, *a));
            r
        },
        Cmd::Name(Some(n)) => {
            let r = nothing_printed(dev.set_name(n.as_str()));
            r
        },
        Cmd::Volume(Some(v)) => {
            let r = nothing_printed(dev.set_volume(*v));
            r
        },
        Cmd::AutoOff(Some(a)) => {
            let r = nothing_printed(dev.set_auto_off(*a));
            r
        },
        Cmd::Toggle(which, Some(v)) => {
            let r = nothing_printed(dev.set_toggle(*which, *v));
            r
        },
        _ => Ok(String::new()),
    }
}

/// The reads of the sound controls, and the two commands past the surface.
#[verifier::rlimit(50)]
fn inspect<T: Transport>(cmd: &Cmd, dev: &mut Device<T>, channel: u8) -> (r: Result<String>)
    requires
        old(dev).wf(),
        (cmd matches Cmd::Anc(None)) || (cmd matches Cmd::Eq(None)) || cmd is Modes || cmd is Mode || cmd is Immersive || cmd is Raw || cmd is Scan,
    ensures
        final(dev).wf(),
        final(dev).identity == old(dev).identity,
        performed(cmd@, *old(dev), *final(dev), r),
        r matches Ok(t) ==> printed(cmd@, *old(dev), *final(dev), channel, t@),
{
    let ghost before = *dev;
    match cmd {
        Cmd::Anc(None) => {
            let read = dev.noise_cancelling();
            let ghost got = read;
            proof {
                assert(anc_read(before, *dev, got));
            }
            match read {
                Ok(a) => {
                    let out = anc_line(&a);
                    proof {
                        assert(out@ == line(anc_text(a)));
                        assert(outcome(got) == outcome(Ok::<String, Error>(out)));
                    }
                    Ok(out)
                },
                Err(e) => {
                    proof {
                        assert(outcome(got) == outcome(Err::<String, Error>(e)));
                    }
                    Err(e)
                },
            }
        },
        Cmd::Eq(None) => {
            let read = dev.equaliser();
            let ghost got = read;
            match read {
                Ok(bands) => {
                    let out = band_lines(&bands);
                    proof {
                        lemma_fetched_outcome(before, *dev, catalog::equaliser().meta.addr, got, Ok::<String, Error>(out));
                    }
                    Ok(out)
                },
                Err(e) => {
                    proof {
                        lemma_fetched_outcome(before, *dev, catalog::equaliser().meta.addr, got, Err::<String, Error>(e));
                    }
                    Err(e)
                },
            }
        },
        Cmd::Modes => {
            let read = dev.modes();
            let ghost got = read;
            match read {
                Ok(modes) => {
                    let out = mode_lines(&modes);
                    proof {
                        assert(out@ == lines(modes@, |m: Mode| mode_text(m)));
                        assert(outcome(got) == outcome(Ok::<String, Error>(out)));
                    }
                    Ok(out)
                },
                Err(e) => {
                    proof {
                        assert(outcome(got) == outcome(Err::<String, Error>(e)));
                    }
                    Err(e)
                },
            }
        },
        Cmd::Mode => {
            let read = dev.current_mode();
            let ghost got = read;
            match read {
                Ok(m) => {
                    let out = number_line(m);
                    proof {
                        lemma_fetched_outcome(before, *dev, catalog::current_mode().meta.addr, got, Ok::<String, Error>(out));
                    }
                    Ok(out)
                },
                Err(e) => {
                    proof {
                        lemma_fetched_outcome(before, *dev, catalog::current_mode().meta.addr, got, Err::<String, Error>(e));
                    }
                    Err(e)
                },
            }
        },
        Cmd::Immersive => {
            let read = dev.immersive();
            let ghost got = read;
            match read {
                Ok(i) => {
                    let out = text_line(immersive_name(i));
                    proof {
                        lemma_fetched_outcome(before, *dev, catalog::immersive().meta.addr, got, Ok::<String, Error>(out));
                    }
                    Ok(out)
                },
                Err(e) => {
                    proof {
                        lemma_fetched_outcome(before, *dev, catalog::immersive().meta.addr, got, Err::<String, Error>(e));
                    }
                    Err(e)
                },
            }
        },
        Cmd::Raw(a) => {
            let read = dev.raw(*a);
            let ghost got = read;
            match read {
                Ok(bytes) => {
                    let label = match catalog::find(*a) {
                        Some(m) => Some(m.label),
                        None => None,
                    };
                    let out = raw_line(*a, &bytes, label);
                    proof {
                        lemma_asked_outcome(before, *dev, *a, got, Ok::<String, Error>(out));
                    }
                    Ok(out)
                },
                Err(e) => {
                    proof {
                        lemma_asked_outcome(before, *dev, *a, got, Err::<String, Error>(e));
                    }
                    Err(e)
                },
            }
        },
        Cmd::Scan(first, last) => {
            let read = dev.scan(*first, *last);
            let ghost got = read;
            proof {
                assert(scanned(before, *dev, *first, *last, got));
                assert(cmd@ == CmdView::Scan(*first, *last));
            }
            match read {
                Ok(found) => {
                    let out = scan_line(&found);
                    proof {
                        assert(out@ == line(hex_list(found@)));
                        assert(outcome(got) == outcome(Ok::<String, Error>(out)));
                        assert(scan_ended(before, *dev, *first, *last, outcome(Ok::<String, Error>(out))));
                    }
                    Ok(out)
                },
                Err(e) => {
                    proof {
                        assert(outcome(got) == outcome(Err::<String, Error>(e)));
                        assert(scan_ended(before, *dev, *first, *last, outcome(Err::<String, Error>(e))));
                    }
                    Err(e)
                },
            }
        },
        _ => Ok(String::new()),
    }
}

/// The reads of settings and status.
#[verifier::rlimit(50)]
fn show<T: Transport>(cmd: &Cmd, dev: &mut Device<T>, channel: u8) -> (r: Result<String>)
    requires
        old(dev).wf(),
        (cmd matches Cmd::Language(None)) || (cmd matches Cmd::Name(None)) || cmd is Battery || (cmd matches Cmd::Volume(None)) || (cmd matches Cmd::AutoOff(None)) || (cmd matches Cmd::Toggle(_, None)) || cmd is Paired || cmd is Active,
    ensures
        final(dev).wf(),
        final(dev).identity == old(dev).identity,
        performed(cmd@, *old(dev), *final(dev), r),
        r matches Ok(t) ==> printed(cmd@, *old(dev), *final(dev), channel, t@),
{
    let ghost before = *dev;
    match cmd {
        Cmd::Language(None) => {
            let read = dev.prompts();
            let ghost got = read;
            match read {
                Ok(v) => {
                    let out = prompts_line(&v);
                    proof {
                        assert(out@ == line(prompts_text(v)));
                        assert(prompts_of(v, last_payload(*dev, catalog::prompts().meta.addr)->Some_0));
                        lemma_fetched_outcome(before, *dev, catalog::prompts().meta.addr, got, Ok::<String, Error>(out));
                    }
                    Ok(out)
                },
                Err(e) => {
                    proof {
                        lemma_fetched_outcome(before, *dev, catalog::prompts().meta.addr, got, Err::<String, Error>(e));
                    }
                    Err(e)
                },
            }
        },
        Cmd::Name(None) => {
            let read = dev.name();
            let ghost got = read;
            match read {
                Ok(n) => {
                    let out = text_line(n.as_str());
                    proof {
                        lemma_fetched_outcome(before, *dev, catalog::name().meta.addr, got, Ok::<String, Error>(out));
                    }
                    Ok(out)
                },
                Err(e) => {
                    proof {
                        lemma_fetched_outcome(before, *dev, catalog::name().meta.addr, got, Err::<String, Error>(e));
                    }
                    Err(e)
                },
            }
        },
        Cmd::Battery => {
            let read = dev.battery();
            let ghost got = read;
            match read {
                Ok(cells) => {
                    let out = cell_lines(&cells);
                    proof {
                        lemma_fetched_outcome(before, *dev, catalog::battery().meta.addr, got, Ok::<String, Error>(out));
                    }
                    Ok(out)
                },
                Err(e) => {
                    proof {
                        lemma_fetched_outcome(before, *dev, catalog::battery().meta.addr, got, Err::<String, Error>(e));
                    }
                    Err(e)
                },
            }
        },
        Cmd::Volume(None) => {
            let read = dev.volume();
            let ghost got = read;
            match read {
                Ok(v) => {
                    let out = volume_line(&v);
                    proof {
                        lemma_fetched_outcome(before, *dev, catalog::volume().meta.addr, got, Ok::<String, Error>(out));
                    }
                    Ok(out)
                },
                Err(e) => {
                    proof {
                        lemma_fetched_outcome(before, *dev, catalog::volume().meta.addr, got, Err::<String, Error>(e));
                    }
                    Err(e)
                },
            }
        },
        Cmd::AutoOff(None) => {
            let read = dev.auto_off();
            let ghost got = read;
            match read {
                Ok(a) => {
                    let t = a.to_string();
                    let out = text_line(t.as_str());
                    proof {
                        lemma_fetched_outcome(before, *dev, catalog::auto_off().meta.addr, got, Ok::<String, Error>(out));
                    }
                    Ok(out)
                },
                Err(e) => {
                    proof {
                        lemma_fetched_outcome(before, *dev, catalog::auto_off().meta.addr, got, Err::<String, Error>(e));
                    }
                    Err(e)
                },
            }
        },
        Cmd::Toggle(which, None) => {
            let read = dev.toggle(*which);
            let ghost got = read;
            match read {
                Ok(v) => {
                    let out = text_line(on_off_name(v));
                    proof {
                        lemma_fetched_outcome(before, *dev, toggle_field(*which).meta.addr, got, Ok::<String, Error>(out));
                    }
                    Ok(out)
                },
                Err(e) => {
                    proof {
                        lemma_fetched_outcome(before, *dev, toggle_field(*which).meta.addr, got, Err::<String, Error>(e));
                    }
                    Err(e)
                },
            }
        },
        Cmd::Paired => {
            let read = dev.paired();
            let ghost got = read;
            match read {
                Ok(addrs) => {
                    let out = address_lines(&addrs);
                    proof {
                        assert(address_views(addrs@) == addrs@.map_values(|a: Address| a@));
                        lemma_fetched_outcome(before, *dev, catalog::paired().meta.addr, got, Ok::<String, Error>(out));
                    }
                    Ok(out)
                },
                Err(e) => {
                    proof {
                        lemma_fetched_outcome(before, *dev, catalog::paired().meta.addr, got, Err::<String, Error>(e));
                    }
                    Err(e)
                },
            }
        },
        Cmd::Active => {
            let read = dev.active_device();
            let ghost got = read;
            match read {
                Ok(a) => {
                    let t = a.to_string();
                    let out = text_line(t.as_str());
                    proof {
                        lemma_fetched_outcome(before, *dev, catalog::active_device().meta.addr, got, Ok::<String, Error>(out));
                    }
                    Ok(out)
                },
                Err(e) => {
                    proof {
                        lemma_fetched_outcome(before, *dev, catalog::active_device().meta.addr, got, Err::<String, Error>(e));
                    }
                    Err(e)
                },
            }
        },
        _ => Ok(String::new()),
    }
}

/// A write prints nothing: its outcome, with an empty text for success.
fn nothing_printed(done: Result<()>) -> (r: Result<String>)
    ensures
        outcome(r) == done,
        r matches Ok(t) ==> t@.len() == 0,
{
    match done {
        Ok(v) => {
            proof {
                assert(v == ());
                assert(done == Ok::<(), Error>(()));
            }
            Ok(String::new())
        },
        Err(e) => Err(e),
    }
}

/// What the catalog table and every error message print for a byte, `raw` and
/// `scan` read back as that byte — with or without a `0x` in front — so an
/// address can be pasted from one into the other.
pub proof fn lemma_printed_hex_reads_back(b: u8)
    ensures
        hex_byte_spec(hex2(b, false)) == Ok::<u8, Seq<char>>(b),
        hex_byte_spec(seq!['0', 'x'] + hex2(b, false)) == Ok::<u8, Seq<char>>(b),
{
    lemma_hex2_bytes(b, false);
    let digits = encode_utf8(hex2(b, false));
    assert(strip_0x(digits) == digits);
    lemma_encode_utf8_concat(seq!['0', 'x'], hex2(b, false));
    lemma_encode_utf8_concat(seq!['0'], seq!['x']);
    assert(seq!['0'] + seq!['x'] =~= seq!['0', 'x']);
    lemma_encode_ascii_char('0');
    lemma_encode_ascii_char('x');
    let prefixed = encode_utf8(seq!['0', 'x'] + hex2(b, false));
    assert(prefixed =~= seq![0x30u8, 0x78u8] + digits);
    assert(strip_0x(prefixed) =~= digits);
}

/// What `json_char` writes for one character holds no raw control character.
proof fn lemma_json_char_printable(c: char)
    ensures
        forall|i: int| 0 <= i < json_char(c).len() ==> (#[trigger] json_char(c)[i]) as u32 >= 0x20,
{
    if (c as u32) < 0x20 && c != '\n' && c != '\r' && c != '\t' {
        let b = c as u8;
        let h = hex2(b, false);
        assert(h[0] == hex_digit(b / 16) && h[1] == hex_digit(b % 16));
        assert forall|i: int| 0 <= i < json_char(c).len() implies (#[trigger] json_char(c)[i]) as u32
            >= 0x20 by {
            if i >= 4 {
                assert(json_char(c)[i] == h[i - 4]);
            }
        }
    }
}

/// A device name passed through `json_string` holds no raw control character:
/// every one of them is escaped, whatever the firmware put there.
pub proof fn lemma_json_escapes_controls(s: Seq<char>)
    ensures
        forall|i: int| 0 <= i < json_text(s).len() ==> (#[trigger] json_text(s)[i]) as u32 >= 0x20,
    decreases s.len(),
{
    lemma_json_body_printable(s);
    let t = json_text(s);
    assert forall|i: int| 0 <= i < t.len() implies (#[trigger] t[i]) as u32 >= 0x20 by {
        if 1 <= i < t.len() - 1 {
            assert(t[i] == json_body(s)[i - 1]);
        }
    }
}

proof fn lemma_json_body_printable(s: Seq<char>)
    ensures
        forall|i: int| 0 <= i < json_body(s).len() ==> (#[trigger] json_body(s)[i]) as u32 >= 0x20,
    decreases s.len(),
{
    if s.len() > 0 {
        lemma_json_body_printable(s.drop_last());
        lemma_json_char_printable(s.last());
        let head = json_body(s.drop_last());
        let tail = json_char(s.last());
        assert forall|i: int| 0 <= i < json_body(s).len() implies (#[trigger] json_body(s)[i]) as u32
            >= 0x20 by {
            if i < head.len() {
                assert(json_body(s)[i] == head[i]);
            } else {
                assert(json_body(s)[i] == tail[i - head.len()]);
            }
        }
    }
}

} // verus!
