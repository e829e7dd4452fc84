use bose_connect::transport::bluez::{bose, modalias, peer, Peer, Properties, BOSE};
use bose_connect::transport::Address;

#[test]
fn modalias_yields_the_ids_the_device_reports_over_rfcomm() {
    // `00 03` answers 40 66 01 on this device; bluez knows before connecting.
    assert_eq!(modalias("bluetooth:v009Ep4066d0107"), Some((0x009e, 0x4066)));
    assert_eq!(modalias("usb:v009Ep400Cd0007"), Some((0x009e, 0x400c)));
    assert_eq!(modalias("bluetooth:v009E"), None);
    assert_eq!(modalias("garbage"), None);
}

fn mk(vendor: Option<u16>) -> Peer {
    Peer {
        address: "AA:BB:CC:00:00:01".parse::<Address>().unwrap(),
        name: String::new(),
        vendor,
        product: None,
        connected: false,
    }
}

#[test]
fn only_bose_devices_pass_the_picker() {
    assert!(mk(Some(BOSE)).is_bose());
    assert!(!mk(Some(0x004c)).is_bose()); // Apple
    assert!(!mk(None).is_bose());
}

#[test]
fn the_picker_keeps_bose_devices_in_order() {
    let picked = bose(vec![mk(Some(BOSE)), mk(Some(0x004c)), mk(None), mk(Some(BOSE))]);
    assert_eq!(picked.len(), 2);
    assert!(picked.iter().all(|p| p.is_bose()));
}

fn props(paired: bool, address: Option<&str>) -> Properties {
    Properties {
        paired,
        address: address.map(String::from),
        name: None,
        alias: Some("QC35".to_string()),
        modalias: Some("bluetooth:v009Ep400Cd0007".to_string()),
        connected: true,
    }
}

#[test]
fn a_paired_device_object_becomes_a_peer() {
    let p = peer(props(true, Some("AA:BB:CC:00:00:01"))).unwrap();
    assert_eq!(p.address.0, [0xaa, 0xbb, 0xcc, 0x00, 0x00, 0x01]);
    assert_eq!(p.name, "QC35");
    assert_eq!(p.vendor, Some(BOSE));
    assert_eq!(p.product, Some(0x400c));
    assert!(p.connected);
    assert!(p.is_bose());
}

#[test]
fn unpaired_or_unaddressed_objects_are_passed_over() {
    assert!(peer(props(false, Some("AA:BB:CC:00:00:01"))).is_none());
    assert!(peer(props(true, None)).is_none());
    assert!(peer(props(true, Some("AA:BB:CC"))).is_none());
}

#[test]
fn the_name_wins_over_the_alias() {
    let mut p = props(true, Some("AA:BB:CC:00:00:01"));
    p.name = Some("Bose QC35".to_string());
    p.modalias = None;
    let peer = peer(p).unwrap();
    assert_eq!(peer.name, "Bose QC35");
    assert_eq!(peer.vendor, None);
    assert_eq!(peer.product, None);
}
