use bose_connect::device::{Anc, Device};
use bose_connect::transport::{Scripted, Session};

fn hex(s: &str) -> Vec<u8> {
    (0..s.len()).step_by(2).map(|i| u8::from_str_radix(&s[i..i + 2], 16).unwrap()).collect()
}

/// A QuietComfort 35, as observed. Functions 00 01 02 03 04 05 08 09; noise
/// cancelling at `01 06`; no equaliser, no immersive, no modes.
fn qc35() -> Scripted {
    let mut s = Scripted::new()
        .on(&hex("00010100"), &hex("00010305312e302e34"))
        .on(&hex("00030100"), &hex("00030303400c02"))
        .on(&hex("00050100"), &hex("00050305332e302e33"))
        .on(&hex("00070100"), &hex("0007030430303031"))
        .on(&hex("01060100"), &hex("01060302010b"))
        // The equaliser opcode does not refuse here — it says nothing.
        .silent(&hex("01070100"));
    for f in [0x00u8, 0x01, 0x02, 0x03, 0x04, 0x05, 0x08, 0x09] {
        s = s.on(&[f, 0x00, 0x01, 0x00], &[f, 0x00, 0x03, 0x05, 0x31, 0x2e, 0x30, 0x2e, 0x31]);
    }
    s
}

/// A QuietComfort Ultra Headphones. Noise cancelling moved to `01 05`, the old
/// opcode refuses, and function 0x1f carries the modes.
fn ultra() -> Scripted {
    let mut s = Scripted::new()
        .on(&hex("00010100"), &hex("00010305312e322e30"))
        .on(&hex("00030100"), &hex("00030303406601"))
        .on(&hex("00050100"), &hex("0005030e312e362e372b6736656261626432"))
        .on(&hex("000f0100"), &hex("000f0318426f736520514320556c747261204865616470686f6e6573"))
        .on(&hex("01060100"), &hex("0106040104"))
        .on(&hex("01050100"), &hex("010503030b0a03"))
        .on(&hex("01070100"), &hex("0107030cf60a0200f60a0101f60a0202"))
        .on(&hex("050f0100"), &hex("050f030100"));
    for f in [0x00u8, 0x01, 0x02, 0x05, 0x06, 0x07, 0x1f] {
        s = s.on(&[f, 0x00, 0x01, 0x00], &[f, 0x00, 0x03, 0x05, 0x31, 0x2e, 0x30, 0x2e, 0x30]);
    }
    s
}

fn open(t: Scripted) -> Device<Scripted> {
    Device::open(Session::open(t).unwrap()).unwrap()
}

#[test]
fn identifies_a_qc35() {
    let d = open(qc35());
    assert_eq!(d.identity.id, 0x400c);
    assert_eq!(d.identity.version.as_deref(), Some("3.0.3"));
    // The model name opcode is Ultra-only; older devices refuse it, so a client
    // still needs a table for them.
    assert_eq!(d.identity.model, None);
}

#[test]
fn identifies_an_ultra_by_asking_rather_than_by_table() {
    let d = open(ultra());
    assert_eq!(d.identity.id, 0x4066);
    assert_eq!(d.identity.model.as_deref(), Some("Bose QC Ultra Headphones"));
}

#[test]
fn device_finds_noise_cancelling_where_each_generation_keeps_it() {
    assert_eq!(open(qc35()).capabilities.anc, Anc::Legacy);
    assert_eq!(open(ultra()).capabilities.anc, Anc::Modern);
}

#[test]
fn silence_on_the_equaliser_reads_as_absent_not_present() {
    // A QC35 neither answers nor refuses `01 07`. Either misreading is a bug:
    // "present" offers a control that will never respond.
    assert!(!open(qc35()).capabilities.equaliser);
    assert!(open(ultra()).capabilities.equaliser);
}

#[test]
fn device_features_that_arrived_with_the_ultra_are_not_claimed_for_older_models() {
    let old = open(qc35()).capabilities;
    assert!(!old.immersive);
    assert!(!old.modes);
    let new = open(ultra()).capabilities;
    assert!(new.immersive);
    assert!(new.modes);
}

#[test]
fn reports_the_functions_a_model_actually_has() {
    let f = open(qc35()).capabilities.functions;
    assert!(f.contains(&0x08)); // exists on the QC35
    assert!(!f.contains(&0x1f)); // and not the modes function
}

#[test]
fn opening_probes_every_function_once_in_order() {
    let mut d = open(qc35());
    let sent = d.session().transport_sent().to_vec();
    // Handshake, four identity reads, sixty-four version probes, then the
    // noise-cancelling, equaliser and immersive reads.
    assert_eq!(sent.len(), 1 + 4 + 64 + 1 + 2);
    assert_eq!(sent[5], hex("00000100"));
    assert_eq!(sent[68], hex("3f000100"));
    assert_eq!(sent[69], hex("01060100"));
}
