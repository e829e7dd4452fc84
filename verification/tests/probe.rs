use bose_connect::error::ErrorKind;
use bose_connect::transport::probe::{cached_channel, channel_order, probe_next, probe_start, Attempt, Next, connect_failure};

#[test]
fn the_firmware_channel_is_never_probed() {
    // 24 is SRfcomm: silent, on every model, most plausibly firmware update.
    // It is not to be touched.
    let order = channel_order();
    assert!(!order.contains(&24));
    assert_eq!(&order[..2], &[1, 8]);
    assert_eq!(order.len(), 29);
}

#[test]
fn a_damaged_or_missing_cache_file_reads_as_no_cache() {
    // The probe is the fallback; a stray byte must not become a channel.
    assert_eq!(cached_channel("8\n"), Some(8));
    assert_eq!(cached_channel("eight"), None);
    assert_eq!(cached_channel(""), None);
}

#[test]
fn a_cached_channel_is_one_decimal_number() {
    assert_eq!(cached_channel("  1 "), Some(1));
    assert_eq!(cached_channel("300"), None);
    assert_eq!(cached_channel("8 8"), None);
}

fn tried_in_order() -> Vec<u8> {
    // Every channel unavailable: the probe walks the whole order, then stops.
    let mut seen = Vec::new();
    let mut next = probe_start();
    let mut tried = 0;
    loop {
        match next {
            Next::Try(c) => {
                seen.push(c);
                next = probe_next(tried, Attempt::Unavailable);
                tried += 1;
            }
            Next::Found(_) => panic!("nothing answered"),
            Next::Fail(e) => {
                assert_eq!(e.kind, ErrorKind::NotFound);
                assert!(e.message.starts_with("no control channel answered"));
                return seen;
            }
        }
    }
}

#[test]
fn the_probe_walks_the_order_and_never_the_firmware_channel() {
    assert_eq!(tried_in_order(), channel_order());
}

#[test]
fn an_unreachable_device_ends_the_probe_at_once() {
    let Next::Fail(e) = probe_next(0, Attempt::Unreachable) else {
        panic!("the probe went on past an unreachable device");
    };
    assert_eq!(e.kind, ErrorKind::NotFound);
    assert!(e.message.starts_with("device not reachable"));
}

#[test]
fn the_answering_channel_is_the_one_found() {
    assert!(matches!(probe_next(0, Attempt::Answered), Next::Found(1)));
    assert!(matches!(probe_next(1, Attempt::Answered), Next::Found(8)));
    assert!(matches!(probe_next(1, Attempt::Unavailable), Next::Try(2)));
}

#[test]
fn a_connect_error_is_unreachable_only_for_the_given_numbers() {
    let unreachable = [112, 113, 110];
    assert_eq!(connect_failure(Some(113), &unreachable), Attempt::Unreachable);
    assert_eq!(connect_failure(Some(110), &unreachable), Attempt::Unreachable);
    // Refused: the channel is there but taken.
    assert_eq!(connect_failure(Some(111), &unreachable), Attempt::Unavailable);
    assert_eq!(connect_failure(None, &unreachable), Attempt::Unavailable);
}
