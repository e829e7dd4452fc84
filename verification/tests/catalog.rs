use bose_connect::catalog::{
    anc_graded, battery, catalog, current_mode, find, functions, volume, Evidence,
};
use bose_connect::wire::Addr;

#[test]
fn the_catalog_has_no_duplicate_addresses() {
    // Two entries for one address means one of them is never reached, and the
    // flat list is what the surface probe and `raw` both walk.
    let mut seen: Vec<Addr> = catalog().iter().map(|m| m.addr).collect();
    let before = seen.len();
    seen.sort_unstable();
    seen.dedup();
    assert_eq!(seen.len(), before);
}

#[test]
fn an_unconfirmed_write_carries_a_reason_rather_than_an_encoder() {
    // `1f 03` is the case this exists for: selection works, but as a Start of
    // <index> <prompt>, which Device::set (a SetGet) does not send. So the byte
    // codec here is not usable, and the reason says why.
    assert!(!current_mode().meta.write.usable());
    assert!(current_mode().meta.write.why().contains("Start"));
    // And `01 05` has no captured write at all.
    assert_eq!(anc_graded().meta.write, Evidence::Unknown);
    assert!(anc_graded().encode.is_none());
}

#[test]
fn evidence_and_encoder_must_agree_before_anything_is_sent() {
    // Neither alone is enough. `Device::set` requires both, so a record marked
    // confirmed without an encoder degrades to a refusal rather than to a blind
    // write.
    assert!(volume().encode.is_some() && volume().meta.write.usable());
    assert!(battery().encode.is_none() && !battery().meta.write.usable());
    // The interesting middle: an encoder exists and must not be used.
    assert!(current_mode().encode.is_some() && !current_mode().meta.write.usable());
}

#[test]
fn functions_are_listed_once_each_in_declaration_order() {
    assert_eq!(functions(), vec![0x00, 0x01, 0x02, 0x04, 0x05, 0x07, 0x1f]);
}

#[test]
fn a_record_can_be_found_by_address() {
    assert_eq!(find(Addr::at(0x05, 0x05)).unwrap().label, "volume");
    assert!(find(Addr::at(0x03, 0x03)).is_none());
}

#[test]
fn a_write_that_was_never_captured_says_so() {
    assert_eq!(Evidence::Unknown.why(), "no confirmed format for this write");
    assert_eq!(Evidence::Confirmed.why(), "understood");
    assert!(Evidence::Confirmed.usable());
}
