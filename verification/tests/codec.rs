use bose_connect::codec::{
    auto_off, battery, equaliser, graded, mode, name, named, prompts, set_band, set_name,
    set_prompts, volume, AutoOff, Cell, Language, Level,
};

#[test]
fn codec_battery_reads_one_cell_on_a_qc35_and_several_on_earbuds() {
    assert_eq!(battery(&[0x46]).unwrap(), vec![Cell { index: 0, percent: 0x46 }]);
    let earbuds = [0x64, 0xff, 0xff, 0x01, 0x64, 0xff, 0xff, 0x02];
    assert_eq!(
        battery(&earbuds).unwrap(),
        vec![Cell { index: 1, percent: 100 }, Cell { index: 2, percent: 100 }]
    );
}

#[test]
fn the_graded_scale_is_inverted_and_the_type_un_inverts_it() {
    // Awareness 0x0a of eleven values is no cancelling at all: Aware mode.
    assert_eq!(graded(&[0x0b, 0x0a, 0x03]).unwrap().cancelling(), 0);
    assert_eq!(graded(&[0x0b, 0x00, 0x03]).unwrap().cancelling(), 10);
    assert_eq!(graded(&[0x0b, 0x05, 0x03]).unwrap().cancelling(), 5);
}

#[test]
fn codec_the_mask_says_which_levels_a_named_model_accepts() {
    // 0x0b is bits 0, 1 and 3 — off, high and low. Writing anything else to a
    // QC35 is refused with payload 06.
    let a = named(&[0x01, 0x0b]).unwrap();
    assert_eq!(a.level, Some(Level::High));
    assert_eq!(a.levels(), Level::all());
    // A model offering only off and high would say so in the same byte.
    assert!(!named(&[0x00, 0x03]).unwrap().accepts(Level::Low));
}

#[test]
fn the_name_read_drops_its_leading_zero_and_the_write_adds_none() {
    assert_eq!(name(b"\0ABCD").unwrap(), "ABCD");
    assert_eq!(set_name("ABCD".into()), b"ABCD".to_vec());
}

#[test]
fn codec_auto_off_distinguishes_never_from_zero_minutes() {
    assert_eq!(auto_off(&[0x3c]), Some(AutoOff::After(60)));
    assert_eq!(auto_off(&[0x00]), Some(AutoOff::Never));
    // The Ultra's three-byte form is not a minute count; reading p[0] would
    // report five minutes.
    assert_eq!(auto_off(&[0x05, 0x00, 0x00]), None);
}

#[test]
fn the_language_read_is_a_flags_byte_not_the_write_value() {
    // A real QC35 with English selected answers 0xa1, never 0x21.
    let p = prompts(&[0xa1, 0x00, 0x04, 0xc3, 0xde]).unwrap();
    assert_eq!(p.language, Language::English);
    assert!(p.voice_prompts);
    // Five bytes: the announcement's position is not established there.
    assert_eq!(p.battery_announcement, None);
    assert_eq!(set_prompts((Language::Spanish, false)), vec![0x26, 0x00]);
}

#[test]
fn the_announcement_reads_back_last_not_second() {
    // Byte 1 is a constant 00; preserving it across a language change turned
    // the announcement off on a real device.
    let p = prompts(&[0xe1, 0x00, 0x01, 0x81, 0x5e, 0x01, 0x01]).unwrap();
    assert_eq!(p.battery_announcement, Some(true));
}

#[test]
fn codec_the_equaliser_reports_each_bands_own_range() {
    let bands = equaliser(&[0xf6, 0x0a, 0x02, 0x00, 0xf6, 0x0a, 0x00, 0x01]).unwrap();
    assert_eq!((bands[0].min, bands[0].max, bands[0].value), (-10, 10, 2));
    assert_eq!(bands[1].index, 1);
    assert_eq!(set_band((0, 6)), vec![0x06, 0x00]);
}

/// One 47-byte mode record the way a device sends it.
fn record(index: u8, occupied: bool, name: &str, awareness: u8, wind: u8) -> Vec<u8> {
    let mut r = vec![0u8; 47];
    r[0] = index;
    r[5] = u8::from(occupied);
    r[6..6 + name.len()].copy_from_slice(name.as_bytes());
    r[42] = awareness;
    r[46] = wind;
    r
}

#[test]
fn codec_a_stored_mode_with_wind_block_off_is_still_a_stored_mode() {
    // Byte 46 is wind block, not occupancy. Every mode that does not use it
    // carries 0 there, so filtering on it drops real modes.
    let focus = mode(&record(3, true, "Focus", 0x05, 0x00)).unwrap().unwrap();
    assert_eq!((focus.index, focus.name.as_str(), focus.awareness), (3, "Focus", 5));
    assert!(!focus.wind_block);
    assert_eq!(mode(&record(5, false, "None", 0x00, 0x00)).unwrap(), None);
}

#[test]
fn volume_states_the_size_of_its_own_scale() {
    let v = volume(&[0x19, 0x0e]).unwrap();
    assert_eq!((v.current, v.steps, v.max()), (14, 25, 24));
}

#[test]
fn a_short_mode_record_is_not_a_mode() {
    assert_eq!(mode(&[0u8; 46]), None);
}

#[test]
fn auto_off_prints_as_a_person_reads_it() {
    assert_eq!(AutoOff::After(60).to_string(), "60 min");
    assert_eq!(AutoOff::Never.to_string(), "never");
    assert_eq!(AutoOff::from_minutes(0), AutoOff::Never);
    assert_eq!(AutoOff::After(20).minutes(), 20);
}

#[test]
fn a_level_survives_the_wire() {
    for l in Level::all() {
        assert_eq!(Level::from_wire(l.wire()), Some(l));
    }
    assert_eq!(Level::from_wire(0x02), None);
}

#[test]
fn the_language_write_sets_the_prompt_bit() {
    assert_eq!(Language::English.wire(), 0x21);
    assert_eq!(Language::from_flags(0xa6), Language::Spanish);
    assert_eq!(Language::from_flags(0x05), Language::Other(0x05));
}

#[test]
fn a_name_that_is_not_utf8_reads_with_replacement_characters() {
    assert_eq!(name(b"\0A\xffB").unwrap(), "A\u{fffd}B");
}

#[test]
fn a_written_name_reads_back_as_itself() {
    for n in ["Bose QC35", "Kopfhörer", "ノイズ", ""] {
        let mut read = vec![0u8];
        read.extend(set_name(n.to_string()));
        assert_eq!(name(&read).unwrap(), n);
    }
}
