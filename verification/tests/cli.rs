use bose_connect::api::{Device, Toggle};
use bose_connect::catalog::catalog;
use bose_connect::cli::{catalog_table, json_string, parse, peer_lines, run, Cmd};
use bose_connect::codec::AutoOff;
use bose_connect::fixtures;
use bose_connect::session::Session;
use bose_connect::transport::bluez::Peer;
use bose_connect::transport::{Address, Scripted};
use bose_connect::wire::Addr;

const MAC: &str = "AA:BB:CC:00:00:01";

fn args(s: &str) -> Vec<String> {
    s.split_whitespace().map(String::from).collect()
}

fn cmd(s: &str) -> Cmd {
    parse(&args(s)).unwrap().cmd
}

fn open(t: Scripted) -> Device<Scripted> {
    Device::open(Session::open(t).unwrap()).unwrap()
}

/// What a command prints, on a fixture.
fn output(c: &str, t: Scripted) -> String {
    run(&cmd(&format!("{MAC} {c}")), &mut open(t), 8).unwrap()
}

#[test]
fn addresses_are_hex_as_printed_by_the_catalog() {
    // `catalog` prints `1f 03`; pasting that back has to work.
    assert_eq!(cmd(&format!("{MAC} raw 1f 03")), Cmd::Raw(Addr::at(0x1f, 0x03)));
    assert_eq!(cmd(&format!("{MAC} raw 0x1f 0x03")), Cmd::Raw(Addr::at(0x1f, 0x03)));
    assert_eq!(cmd(&format!("{MAC} scan 00 3f")), Cmd::Scan(0x00, 0x3f));
    assert_eq!(cmd(&format!("{MAC} scan")), Cmd::Scan(0x00, 0x3f));
}

#[test]
fn quantities_are_decimal_as_a_person_says_them() {
    assert_eq!(cmd(&format!("{MAC} volume 10")), Cmd::Volume(Some(10)));
    assert_eq!(cmd(&format!("{MAC} eq 0 -6")), Cmd::Eq(Some((0, -6))));
    assert_eq!(cmd(&format!("{MAC} auto-off 60")), Cmd::AutoOff(Some(AutoOff::After(60))));
    assert_eq!(cmd(&format!("{MAC} auto-off never")), Cmd::AutoOff(Some(AutoOff::Never)));
}

#[test]
fn a_toggle_value_must_be_on_or_off() {
    // `toggle multipoint yes` used to switch multipoint *off*: anything that
    // was not the word "on" was taken as false.
    assert!(parse(&args(&format!("{MAC} toggle multipoint yes"))).is_err());
    assert_eq!(
        cmd(&format!("{MAC} toggle multipoint on")),
        Cmd::Toggle(Toggle::Multipoint, Some(true))
    );
    assert_eq!(cmd(&format!("{MAC} toggle remember-mode")), Cmd::Toggle(Toggle::RememberMode, None));
}

#[test]
fn every_word_is_checked_before_a_socket_is_opened() {
    // Each of these used to connect, probe every channel, discover the
    // surface, and then print usage.
    for bad in ["anc medium", "language de", "language en maybe", "toggle nonsense", "eq 0", "raw 1f", "mode 3"] {
        let r = parse(&args(&format!("{MAC} {bad}")));
        assert!(r.is_err(), "{bad} was accepted");
    }
    assert!(parse(&args("not-a-mac info")).unwrap_err().contains("not-a-mac"));
}

#[test]
fn commands_that_need_no_device_take_no_address() {
    assert_eq!(cmd("catalog"), Cmd::Catalog);
    assert_eq!(cmd(&format!("{MAC} catalog")), Cmd::Catalog);
    assert_eq!(cmd("--help"), Cmd::Help);
    assert_eq!(cmd("--version"), Cmd::Version);
    assert_eq!(cmd("devices"), Cmd::Devices);
    assert!(!Cmd::Catalog.needs_device() && Cmd::Info.needs_device());
}

#[test]
fn a_known_channel_skips_the_probe() {
    let inv = parse(&args(&format!("--channel 8 {MAC} battery"))).unwrap();
    assert_eq!(inv.channel, Some(8));
    assert_eq!(inv.cmd, Cmd::Battery);
    assert!(parse(&args(&format!("--channel x {MAC} battery"))).is_err());
}

#[test]
fn info_reports_what_each_generation_answers() {
    let old = output("info", fixtures::qc35());
    assert!(old.contains("id        0x400c index 2"));
    assert!(old.contains("model     (not reported)"));
    assert!(old.contains("supports  anc:named eq:false immersive:false modes:false"));
    let new = output("info", fixtures::ultra_hp());
    assert!(new.contains("model     Bose QC Ultra Headphones"));
    assert!(new.contains("anc:graded eq:true"));
    // Function 05 will not list itself, so `info` cannot claim immersive audio
    // before a read; the verb reaches it regardless.
    assert!(!new.contains("immersive off"));
    assert_eq!(output("immersive", fixtures::ultra_hp()), "off\n");
}

#[test]
fn json_is_what_the_readme_promises() {
    let j = output("json", fixtures::qc35());
    assert!(j.contains("\"id\": \"0x400c\""));
    assert!(j.contains("\"model\": null"));
    assert!(j.contains("\"anc\": \"named\""));
    assert!(j.contains("\"battery\": [{\"cell\": 0, \"percent\": 70}]"));
    // A model with no noise cancelling says so with null, not a string.
    assert!(output("json", fixtures::sport()).contains("\"anc\": null"));
}

#[test]
fn json_strings_escape_everything_a_firmware_might_hold() {
    assert_eq!(json_string("a\"b\\c"), r#""a\"b\\c""#);
    assert_eq!(json_string("tab\there\nnew\x01"), "\"tab\\there\\nnew\\u0001\"");
    assert_eq!(json_string("plain"), "\"plain\"");
}

#[test]
fn reads_print_as_the_readme_shows() {
    assert_eq!(output("anc", fixtures::qc35()), "high  (accepts off, high, low)\n");
    assert_eq!(output("anc", fixtures::ultra_hp()), "cancelling 0 of 10  (awareness 10)\n");
    assert_eq!(output("battery", fixtures::qc35()), "cell 0  70%\n");
    assert_eq!(output("volume", fixtures::qc35()), "14 of 24\n");
    assert_eq!(output("auto-off", fixtures::qc35()), "60 min\n");
    assert_eq!(output("name", fixtures::qc35()), "qc35\n");
    assert_eq!(output("active", fixtures::qc35()), "AA:BB:CC:00:00:01\n");
    assert!(output("modes", fixtures::ultra_hp()).starts_with("0  Quiet"));
    assert!(output("eq", fixtures::ultra_hp()).contains("band 0    2  [-10..10]"));
}

#[test]
fn writes_reach_the_wire_as_the_device_expects() {
    let mut d = open(fixtures::qc35());
    run(&cmd(&format!("{MAC} anc low")), &mut d, 8).unwrap();
    assert!(d.session().transport_sent().iter().any(|s| s == &[0x01, 0x06, 0x02, 0x01, 0x03]));
    let mut d = open(fixtures::ultra_hp());
    run(&cmd(&format!("{MAC} toggle multipoint off")), &mut d, 1).unwrap();
    assert!(d.session().transport_sent().iter().any(|s| s == &[0x01, 0x0a, 0x02, 0x01, 0x00]));
}

#[test]
fn asking_for_what_a_model_lacks_is_an_error_with_the_address_in_it() {
    let e = run(&cmd(&format!("{MAC} eq")), &mut open(fixtures::qc35()), 8).unwrap_err();
    assert_eq!(e.to_string(), "01 07: this model does not have it");
}

#[test]
fn the_catalog_table_lists_every_record() {
    let s = catalog_table();
    assert_eq!(s.lines().count(), catalog().len() + 1);
    assert!(s.contains("1f 03  current mode"));
}

#[test]
fn a_bad_word_says_what_it_should_have_been() {
    assert_eq!(parse(&args(&format!("{MAC} anc medium"))).unwrap_err(), "not a level (off, high, low): medium");
    assert_eq!(parse(&args(&format!("{MAC} raw zz 01"))).unwrap_err(), "not a hex byte: zz");
    assert_eq!(parse(&args(&format!("{MAC} volume 300"))).unwrap_err(), "not a number 0-255: 300");
    assert_eq!(parse(&args("AA:BB info")).unwrap_err(), "AA:BB: expected six octets");
    assert_eq!(parse(&args("--channel 1 --channel 8 devices")).unwrap().channel, Some(8));
}

#[test]
fn language_and_raw_print_what_the_record_holds() {
    assert_eq!(
        output("language", fixtures::ultra_hp()),
        "en  voice prompts on  battery announcement on  (record e1 00 01 81 5e 01 01)\n"
    );
    assert_eq!(output("raw 05 05", fixtures::qc35()), "05 05  19 0e  (volume)\n");
    assert_eq!(output("scan 00 05", fixtures::qc35()), "00 04 05\n");
}

#[test]
fn the_device_picker_prints_one_line_per_peer() {
    let peers = vec![
        Peer {
            address: Address::parse("AA:BB:CC:00:00:01").unwrap(),
            name: "Bose QC35".to_string(),
            vendor: Some(0x009e),
            product: Some(0x400c),
            connected: true,
        },
        Peer {
            address: Address::parse("AA:BB:CC:00:00:02").unwrap(),
            name: String::new(),
            vendor: Some(0x009e),
            product: None,
            connected: false,
        },
    ];
    let text = peer_lines(&peers);
    let mut expected = String::new();
    expected.push_str(&format!("AA:BB:CC:00:00:01  009e:400c  {:<28} connected\n", "Bose QC35"));
    expected.push_str(&format!("AA:BB:CC:00:00:02  -  {:<28} \n", ""));
    assert_eq!(text, expected);
}

#[test]
fn a_write_command_sends_the_write_its_verb_sends() {
    let mut dev = open(fixtures::qc35());
    assert_eq!(run(&cmd(&format!("{MAC} volume 255")), &mut dev, 8).unwrap(), "");
    assert_eq!(dev.session().transport_sent().last().unwrap(), &vec![0x05, 0x05, 0x02, 0x01, 0x18]);
}

#[test]
fn a_read_command_fails_as_its_verb_fails() {
    // The Sport refuses both noise-cancelling opcodes.
    let mut dev = open(fixtures::sport());
    assert!(run(&cmd(&format!("{MAC} anc")), &mut dev, 8).is_err());
    assert!(dev.noise_cancelling().is_err());
}
