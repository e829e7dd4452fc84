use bose_connect::api::{Anc, AncKind, Device, Toggle};
use bose_connect::codec::{AutoOff, Immersive, Language, Level};
use bose_connect::error::Error;
use bose_connect::fixtures;
use bose_connect::session::Session;
use bose_connect::surface::Known;
use bose_connect::wire::Addr;
use bose_connect::transport::Scripted;

fn open(t: Scripted) -> Device<Scripted> {
    Device::open(Session::open(t).unwrap()).unwrap()
}

fn qc35() -> Device<Scripted> {
    open(fixtures::qc35())
}

fn ultra() -> Device<Scripted> {
    open(fixtures::ultra_hp())
}

fn sent(d: &mut Device<Scripted>, bytes: &[u8]) -> bool {
    d.session().transport_sent().iter().any(|s| s.as_slice() == bytes)
}

#[test]
fn api_finds_noise_cancelling_where_each_generation_keeps_it() {
    assert!(matches!(qc35().noise_cancelling(), Ok(Anc::Named(_))));
    assert!(matches!(ultra().noise_cancelling(), Ok(Anc::Graded(_))));
    // The Sport Earbuds have none, and both opcodes say so.
    assert!(open(fixtures::sport()).noise_cancelling().is_err());
}

#[test]
fn api_features_that_arrived_with_the_ultra_are_not_claimed_for_older_models() {
    let old = qc35().supports();
    assert_eq!(old.anc, Some(AncKind::Named));
    assert!(!old.equaliser && !old.immersive && !old.modes);
    let new = ultra().supports();
    assert_eq!(new.anc, Some(AncKind::Graded));
    assert!(new.equaliser && new.modes);
}

#[test]
fn the_mask_decides_which_levels_a_named_model_accepts() {
    // Writing every value 0x00-0x0b to a QC35 had eight of the twelve refused.
    // The device states which three in its own reply.
    let mut d = qc35();
    d.set_level(Level::Low).unwrap();
    assert!(sent(&mut d, &[0x01, 0x06, 0x02, 0x01, 0x03]));
}

#[test]
fn a_refused_write_is_an_error_not_a_silent_no_op() {
    // Discarding the reply reports a refusal as success: the caller sets a
    // value, sees no error, and the device is unchanged.
    let mut d = qc35();
    assert!(d.set_name("a-name-the-fixture-refuses").is_err());
}

#[test]
fn writes_the_name_without_the_leading_zero_the_read_carries() {
    // Sending the read back verbatim would name the device "\0qc35".
    let mut d = qc35();
    assert_eq!(d.name().unwrap(), "qc35");
    d.set_name("renamed").unwrap();
    assert!(sent(&mut d, b"\x01\x02\x02\x07renamed"));
}

#[test]
fn api_volume_is_clamped_to_the_scale_the_device_reports() {
    let mut d = qc35();
    assert_eq!(d.volume().unwrap().max(), 24);
    d.set_volume(0xff).unwrap();
    // 0x19 positions means a maximum of 0x18, not 0xff.
    assert!(sent(&mut d, &[0x05, 0x05, 0x02, 0x01, 0x18]));
}

#[test]
fn changing_the_language_leaves_the_battery_announcement_alone() {
    // The announcement does not read back where it is written — byte 1 is a
    // constant 00 and the flag is byte 6. Preserving byte 1 wrote `21 00` and
    // switched the announcement off, on a real device.
    let mut d = ultra();
    d.set_language(Language::English).unwrap();
    assert!(sent(&mut d, &[0x01, 0x03, 0x02, 0x02, 0x21, 0x01]));
    assert!(!sent(&mut d, &[0x01, 0x03, 0x02, 0x02, 0x21, 0x00]));
}

#[test]
fn a_language_change_is_refused_where_the_layout_is_unmapped() {
    // The QC35's five-byte record was never tested, so the announcement's
    // position is unknown and writing the record whole would guess at it.
    let mut d = qc35();
    assert!(matches!(d.set_language(Language::English), Err(Error::NotUnderstood { .. })));
    assert_eq!(d.prompts().unwrap().battery_announcement, None);
}

#[test]
fn auto_off_refuses_a_layout_it_does_not_know() {
    // The Ultra answers with three bytes; reading p[0] would report five
    // minutes, and writing one byte would guess at a field it cannot see.
    assert!(matches!(ultra().auto_off(), Err(Error::Malformed { .. })));
    assert_eq!(qc35().auto_off().unwrap(), AutoOff::After(60));
}

#[test]
fn api_toggles_share_one_path_including_the_one_that_lives_elsewhere() {
    let mut d = ultra();
    assert!(d.toggle(Toggle::Multipoint).unwrap());
    assert!(!d.toggle(Toggle::HeadDetection).unwrap());
    // Remember-my-mode is function 1f, not 01, because it belongs to the mode
    // system rather than the settings block.
    d.set_toggle(Toggle::RememberMode, false).unwrap();
    assert!(sent(&mut d, &[0x1f, 0x05, 0x02, 0x01, 0x00]));
}

#[test]
fn the_equaliser_reports_each_bands_own_range_and_clamps_to_it() {
    let mut d = ultra();
    let bands = d.equaliser().unwrap();
    assert_eq!(bands.len(), 3);
    assert_eq!((bands[0].min, bands[0].max), (-10, 10));
    d.set_band(0, 99).unwrap();
    assert!(sent(&mut d, &[0x01, 0x07, 0x02, 0x02, 0x0a, 0x00]));
}

#[test]
fn asking_a_qc35_for_an_equaliser_says_so_rather_than_returning_nothing() {
    // An empty list would invite a client to draw a control with no bands.
    assert!(matches!(qc35().equaliser(), Err(Error::Absent(_))));
}

#[test]
fn reads_immersive_audio_where_it_exists() {
    assert_eq!(ultra().immersive().unwrap(), Immersive::Off);
    assert!(qc35().immersive().is_err());
}

#[test]
fn stored_modes_are_read_and_empty_slots_dropped() {
    let mut d = ultra();
    let modes = d.modes().unwrap();
    let named: Vec<(u8, &str)> = modes.iter().map(|m| (m.index, m.name.as_str())).collect();
    assert_eq!(
        named,
        vec![(0, "Quiet"), (1, "Aware"), (2, "Immersion"), (3, "Focus"), (4, "Home")]
    );
    // Byte 46 is wind block, not occupancy: Quiet has it off and is real.
    assert!(!modes[0].wind_block && modes[4].wind_block);
    assert_eq!(modes[3].awareness, 5);
    assert!(qc35().modes().is_err());
}

#[test]
fn api_selecting_a_mode_is_refused_because_it_does_not_work() {
    // The app's form is accepted by the device and changes nothing, for every
    // index. A control that silently does nothing is worse than none.
    let mut d = ultra();
    assert_eq!(d.current_mode().unwrap(), 0);
    assert!(matches!(d.select_mode(1), Err(Error::NotUnderstood { .. })));
}

#[test]
fn battery_grew_a_record_structure_between_generations() {
    assert_eq!(qc35().battery().unwrap().len(), 1);
    assert_eq!(open(fixtures::sport()).battery().unwrap().len(), 2);
}

#[test]
fn an_absent_address_is_answered_without_a_round_trip() {
    let mut d = qc35();
    let before = d.session().transport_sent().len();
    assert!(matches!(d.equaliser(), Err(Error::Absent(_))));
    assert_eq!(d.session().transport_sent().len(), before);
}

#[test]
fn a_read_of_an_unproven_address_settles_it() {
    let mut d = ultra();
    assert_eq!(d.surface.state(Addr::at(0x05, 0x0f)), Known::Unproven);
    d.immersive().unwrap();
    assert_eq!(d.surface.state(Addr::at(0x05, 0x0f)), Known::Live);
}

#[test]
fn a_write_without_confirmed_evidence_is_refused_with_the_reason() {
    let mut d = ultra();
    let Err(Error::NotUnderstood { why, .. }) = d.select_mode(0) else {
        panic!("selecting a mode was sent");
    };
    assert!(why.contains("Start"));
}

#[test]
fn identity_comes_from_the_device() {
    let d = ultra();
    assert_eq!(d.identity.id, 0x4066);
    assert_eq!(d.identity.model.as_deref(), Some("Bose QC Ultra Headphones"));
    assert_eq!(d.identity.version.as_deref(), Some("1.6.7+g6ebabd2"));
    let s = open(fixtures::sport());
    assert_eq!(s.identity.id, 0x402d);
    assert_eq!(s.identity.model, None);
}

#[test]
fn scanning_reports_the_functions_that_answer() {
    let mut d = qc35();
    assert_eq!(d.scan(0x00, 0x05).unwrap(), vec![0x00, 0x04, 0x05]);
    assert_eq!(d.scan(0x05, 0x00).unwrap(), Vec::<u8>::new());
}

#[test]
fn raw_reads_past_the_surface() {
    let mut d = qc35();
    assert_eq!(d.raw(Addr::at(0x04, 0x09)).unwrap(), vec![0xaa, 0xbb, 0xcc, 0x00, 0x00, 0x01]);
    assert_eq!(d.active_device().unwrap().to_string(), "AA:BB:CC:00:00:01");
}
