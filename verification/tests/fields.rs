use bose_connect::device::Device;
use bose_connect::fields::{Cell, Language, Prompts, Toggle, Volume};
use bose_connect::transport::{Scripted, Session};

fn hex(s: &str) -> Vec<u8> {
    (0..s.len()).step_by(2).map(|i| u8::from_str_radix(&s[i..i + 2], 16).unwrap()).collect()
}

fn dev(extra: Scripted) -> Device<Scripted> {
    let mut s = extra
        .on(&hex("00010100"), &hex("00010305312e302e34"))
        .on(&hex("00030100"), &hex("00030303400c02"));
    for f in [0x00u8, 0x01, 0x02, 0x05, 0x1f] {
        s = s.on(&[f, 0x00, 0x01, 0x00], &[f, 0x00, 0x03, 0x01, 0x00]);
    }
    Device::open(Session::open(s).unwrap()).unwrap()
}

fn sent(d: &mut Device<Scripted>, bytes: &[u8]) -> bool {
    d.session().transport_sent().iter().any(|s| s.as_slice() == bytes)
}

#[test]
fn reads_the_name_without_its_leading_zero() {
    let mut d = dev(Scripted::new().on(&hex("01020100"), &hex("010203050041424344")));
    assert_eq!(d.name().unwrap().as_deref(), Some("ABCD"));
}

#[test]
fn writes_the_name_without_one() {
    // The read carries a leading 00 and the write does not; sending it back
    // verbatim would name the device "\0ABCD".
    let mut d = dev(Scripted::new());
    d.set_name("ABCD").unwrap();
    assert!(sent(&mut d, &hex("0102020441424344")));
}

#[test]
fn fields_battery_reads_one_cell_on_a_qc35_and_several_on_earbuds() {
    let mut a = dev(Scripted::new().on(&hex("02020100"), &hex("0202030146")));
    assert_eq!(a.battery().unwrap(), vec![Cell { index: 0, percent: 0x46 }]);

    let mut b = dev(Scripted::new().on(&hex("02020100"), &hex("0202030864ffff0164ffff02")));
    assert_eq!(
        b.battery().unwrap(),
        vec![Cell { index: 1, percent: 100 }, Cell { index: 2, percent: 100 }]
    );
}

#[test]
fn fields_volume_is_clamped_to_the_scale_the_device_reports() {
    let mut d = dev(Scripted::new().on(&hex("05050100"), &hex("05050302190e")));
    assert_eq!(d.volume().unwrap(), Some(Volume { current: 0x0e, steps: 0x19 }));
    d.set_volume(0xff).unwrap();
    // 0x19 positions means a maximum of 0x18, not 0xff.
    assert!(sent(&mut d, &hex("0505020118")));
}

#[test]
fn fields_auto_off_distinguishes_never_from_zero_minutes() {
    let mut d = dev(Scripted::new().on(&hex("01040100"), &hex("010403013c")));
    assert_eq!(d.auto_off().unwrap(), Some(Some(60)));
    let mut d = dev(Scripted::new().on(&hex("01040100"), &hex("0104030100")));
    assert_eq!(d.auto_off().unwrap(), Some(None));
}

#[test]
fn fields_toggles_share_one_path_including_the_one_that_lives_elsewhere() {
    let mut d = dev(Scripted::new()
        .on(&hex("010a0100"), &hex("010a030101"))
        .on(&hex("1f050100"), &hex("1f05030100")));
    assert_eq!(d.toggle(Toggle::Multipoint).unwrap(), Some(true));
    // Remember-my-mode is function 0x1f, not 0x01, because it belongs to the
    // mode system rather than the settings block.
    assert_eq!(d.toggle(Toggle::RememberMode).unwrap(), Some(false));
    d.set_toggle(Toggle::RememberMode, true).unwrap();
    assert!(sent(&mut d, &hex("1f05020101")));
}

#[test]
fn language_survives_a_round_trip_and_unknown_values_pass_through() {
    let mut d = dev(Scripted::new().on(&hex("01030100"), &hex("01030305a10004c3de")));
    let p = d.prompts().unwrap().unwrap();
    // 0xa1: bit 0x20 set, so announcements on; the low bits are not 0x21.
    assert!(p.battery_announcement);
    assert_eq!(p.language, Language::Other(0xa1));
    d.set_prompts(Prompts { language: Language::Spanish, battery_announcement: false }).unwrap();
    assert!(sent(&mut d, &hex("010302022600")));
}

#[test]
fn the_shortcut_and_self_voice_pass_through_raw() {
    let mut d = dev(Scripted::new()
        .on(&hex("01090100"), &hex("0109030380090e"))
        .on(&hex("010b0100"), &hex("010b03020103")));
    assert_eq!(d.shortcut().unwrap(), Some(0x0e));
    assert_eq!(d.self_voice().unwrap(), Some(0x03));
    d.set_shortcut(0x13).unwrap();
    assert!(sent(&mut d, &hex("01090203800913")));
    d.set_self_voice(0x01).unwrap();
    assert!(sent(&mut d, &hex("010b02020101")));
}

#[test]
fn a_missing_volume_is_an_error_on_write() {
    let mut d = dev(Scripted::new());
    assert!(d.set_volume(3).is_err());
}
