use bose_connect::device::Device;
use bose_connect::error::ErrorKind;
use bose_connect::settings::{AncState, Immersive, Level, Unsupported};
use bose_connect::transport::{Scripted, Session};

fn hex(s: &str) -> Vec<u8> {
    (0..s.len()).step_by(2).map(|i| u8::from_str_radix(&s[i..i + 2], 16).unwrap()).collect()
}

fn qc35() -> Device<Scripted> {
    let mut s = Scripted::new()
        .on(&hex("00010100"), &hex("00010305312e302e34"))
        .on(&hex("00030100"), &hex("00030303400c02"))
        .on(&hex("01060100"), &hex("01060302010b"))
        .on(&hex("0106020103"), &hex("01060302030b"))
        .silent(&hex("01070100"));
    for f in [0x00u8, 0x01, 0x02, 0x05] {
        s = s.on(&[f, 0x00, 0x01, 0x00], &[f, 0x00, 0x03, 0x01, 0x00]);
    }
    Device::open(Session::open(s).unwrap()).unwrap()
}

fn ultra() -> Device<Scripted> {
    let mut s = Scripted::new()
        .on(&hex("00010100"), &hex("00010305312e322e30"))
        .on(&hex("00030100"), &hex("00030303406601"))
        .on(&hex("01060100"), &hex("0106040104"))
        .on(&hex("01050100"), &hex("010503030b0a03"))
        .on(&hex("01070100"), &hex("0107030cf60a0200f60a0101f60a0202"))
        .on(&hex("050f0100"), &hex("050f030102"));
    for f in [0x00u8, 0x01, 0x02, 0x05, 0x1f] {
        s = s.on(&[f, 0x00, 0x01, 0x00], &[f, 0x00, 0x03, 0x01, 0x00]);
    }
    Device::open(Session::open(s).unwrap()).unwrap()
}

#[test]
fn reads_noise_cancelling_from_whichever_opcode_the_model_uses() {
    assert!(matches!(
        qc35().noise_cancelling().unwrap().unwrap(),
        AncState::Named { level: Some(Level::High), accepted: 0x0b }
    ));
    assert!(matches!(
        ultra().noise_cancelling().unwrap().unwrap(),
        AncState::Graded { awareness: 0x0a, values: 0x0b }
    ));
}

#[test]
fn the_graded_scale_is_inverted_and_the_api_un_inverts_it() {
    // Awareness 0x0a of eleven values is no cancelling at all.
    assert_eq!(ultra().noise_cancelling().unwrap().unwrap().cancelling(), Some(0));
    // Named models have levels, not a scale, so nothing is invented.
    assert_eq!(qc35().noise_cancelling().unwrap().unwrap().cancelling(), None);
}

#[test]
fn settings_the_mask_says_which_levels_a_named_model_accepts() {
    // 0x0b is 0b1011: levels 0, 1 and 3 — off, high and low. Writing anything
    // else to a QC35 is refused with payload 06.
    let a = qc35().noise_cancelling().unwrap().unwrap();
    assert!(a.accepts(Level::Off));
    assert!(a.accepts(Level::High));
    assert!(a.accepts(Level::Low));
}

#[test]
fn writing_is_refused_where_the_format_is_unknown() {
    assert!(qc35().set_level(Level::Low).is_ok());
    // Graded models take no named level, and their write format is unknown.
    assert_eq!(ultra().set_level(Level::Low).unwrap_err().kind(), ErrorKind::Unsupported);
    assert_eq!(ultra().set_cancelling(5).unwrap_err().kind(), ErrorKind::Unsupported);
}

#[test]
fn settings_the_equaliser_reports_each_bands_own_range() {
    let bands = ultra().equaliser().unwrap();
    assert_eq!(bands.len(), 3);
    assert_eq!((bands[0].min, bands[0].max), (-10, 10));
    assert_eq!(bands[0].value, 2);
    assert_eq!(bands[2].index, 2);
}

#[test]
fn asking_a_qc35_for_an_equaliser_is_an_error_not_an_empty_list() {
    // Silence on `01 07` means the control does not exist. Returning an empty
    // list would invite a client to draw one with no bands.
    assert_eq!(qc35().equaliser().unwrap_err().kind(), ErrorKind::Unsupported);
}

#[test]
fn reads_immersive_audio() {
    assert_eq!(ultra().immersive().unwrap(), Some(Immersive::Motion));
    assert_eq!(qc35().immersive().unwrap_err().kind(), ErrorKind::Unsupported);
}

/// Build one 47-byte mode record the way a device sends it.
fn mode_record(index: u8, occupied: bool, name: &str, awareness: u8, wind: u8) -> Vec<u8> {
    let mut r = vec![0u8; 47];
    r[0] = index;
    r[5] = if occupied { 0x01 } else { 0x00 };
    r[6..6 + name.len()].copy_from_slice(name.as_bytes());
    r[42] = awareness;
    r[46] = wind;
    r
}

#[test]
fn settings_a_stored_mode_with_wind_block_off_is_still_a_stored_mode() {
    // Byte 46 is wind block, not occupancy. Every mode that does not use it
    // carries 0 there, so filtering on it drops real modes — which is what
    // this did until a check against a capture caught it.
    let mut reply = vec![0x1f, 0x01, 0x07, 0x00];
    for r in [
        mode_record(0, true, "Quiet", 0x00, 0x00),
        mode_record(3, true, "Focus", 0x05, 0x00),
        mode_record(5, false, "None", 0x00, 0x00),
    ] {
        reply.extend_from_slice(&[0x1f, 0x06, 0x03, 47]);
        reply.extend_from_slice(&r);
    }
    reply.extend_from_slice(&[0x1f, 0x01, 0x06, 0x00]);

    let mut s = Scripted::new()
        .on(&hex("00010100"), &hex("00010305312e322e30"))
        .on(&hex("00030100"), &hex("00030303406601"))
        .on(&hex("01060100"), &hex("0106040104"))
        .on(&hex("01050100"), &hex("010503030b0a03"))
        .on(&hex("1f010500"), &reply);
    for f in [0x00u8, 0x01, 0x1f] {
        s = s.on(&[f, 0x00, 0x01, 0x00], &[f, 0x00, 0x03, 0x01, 0x00]);
    }
    let modes = Device::open(Session::open(s).unwrap()).unwrap().modes().unwrap();
    assert_eq!(modes, vec![(0, "Quiet".to_string()), (3, "Focus".to_string())]);
}

#[test]
fn settings_selecting_a_mode_is_refused_because_it_does_not_work() {
    // The app's form is accepted by the device and changes nothing, for every
    // index. A control that silently does nothing is worse than none.
    assert_eq!(ultra().select_mode(1).unwrap_err().kind(), ErrorKind::Unsupported);
}

#[test]
fn a_band_is_clamped_to_its_own_range() {
    let mut d = ultra();
    d.set_band(1, 99).unwrap();
    // 99 is above the band's maximum of 10.
    assert!(d.session().transport_sent().iter().any(|s| s.as_slice() == hex("010702020a01").as_slice()));
    assert_eq!(d.set_band(9, 0).unwrap_err().kind(), ErrorKind::Unsupported);
}

#[test]
fn the_current_mode_is_read_where_modes_exist() {
    let mut d = ultra();
    assert_eq!(d.current_mode().unwrap(), None);
    assert_eq!(qc35().current_mode().unwrap_err().kind(), ErrorKind::Unsupported);
    assert_eq!(Immersive::try_from(0x02), Ok(Immersive::Motion));
    assert_eq!(Immersive::try_from(0x07), Err(0x07));
}

#[test]
fn an_unsupported_error_reads_as_the_sentence_it_was_raised_with() {
    let u = Unsupported("this device has no equaliser");
    assert_eq!(u.to_string(), "this device has no equaliser");
}
