use keyscan::derivation::derive_address;
use keyscan::hexfmt::key_hex;
use keyscan::logging::{render_block, render_line, strip_colors, FlushClock};
use keyscan::scan::{run_scan, ScanConfig};
use keyscan::shared::{FoundSlot, ProgressCounter};
use keyscan::worker::{batch_end_forward, batch_start_backward, run_worker, scan_batch};

/// The reference derivation, computed directly with the outside crates.
fn expected_address(k: u128) -> String {
    let bytes = hex::decode(format!("{:064x}", k)).unwrap();
    let sk = bitcoin::PrivateKey::from_slice(&bytes, bitcoin::Network::Bitcoin).unwrap();
    let secp = secp256k1::Secp256k1::new();
    let pk = bitcoin::PublicKey::from_private_key(&secp, &sk);
    bitcoin::Address::p2pkh(&pk, bitcoin::Network::Bitcoin).to_string()
}

#[test]
fn derive_address_matches_the_reference_derivation() {
    let addr = derive_address(&key_hex(0x19)).unwrap();
    assert_eq!(addr, expected_address(0x19));
    // a malformed encoding and the out-of-domain zero scalar are rejected
    assert_eq!(derive_address("zz"), None);
    assert_eq!(derive_address(&key_hex(0)), None);
}

#[test]
fn scan_finds_a_key_inside_the_range() {
    let target = expected_address(0x19);
    let cfg = ScanConfig::new("10", "1f", &target, 4).unwrap();
    let mut found = FoundSlot::new();
    let mut progress = ProgressCounter::new();
    run_scan(&cfg, 4, &mut found, &mut progress);
    let rec = found.get().expect("the matching scalar must be recorded");
    assert_eq!(rec.key_hex, format!("{:064x}", 0x19u128));
    assert!(rec.key_hex.ends_with("19"));
    assert_eq!(rec.key_hex.len(), 64);
    assert_eq!(rec.address, target);
}

#[test]
fn scan_with_no_match_exhausts_both_passes() {
    let cfg = ScanConfig::new("10", "1f", "no address derives to this", 4).unwrap();
    let mut found = FoundSlot::new();
    let mut progress = ProgressCounter::new();
    run_scan(&cfg, 5, &mut found, &mut progress);
    assert!(found.get().is_none());
    // two full passes over 16 candidates
    assert_eq!(progress.current(), 32);
}

#[test]
fn scan_batch_finds_first_match_in_direction() {
    let target = expected_address(0x15);
    assert_eq!(scan_batch(0x10, 0x1f, true, &target), Some(0x15));
    assert_eq!(scan_batch(0x10, 0x1f, false, &target), Some(0x15));
    assert_eq!(scan_batch(0x16, 0x1f, true, &target), None);
}

#[test]
fn worker_respects_an_already_set_slot() {
    let sub = keyscan::rangepart::Partition {
        lo: 0x10,
        hi: 0x1f,
        dir: keyscan::rangepart::Direction::Ascending,
    };
    let mut found = FoundSlot::new();
    let peer = keyscan::shared::FoundRecord {
        key_hex: "peer".to_string(),
        address: "peer-addr".to_string(),
    };
    found.try_set(peer);
    let mut progress = ProgressCounter::new();
    run_worker(sub, "anything", 4, &mut found, &mut progress);
    assert_eq!(progress.current(), 0);
    assert_eq!(found.get().unwrap().key_hex, "peer");
}

#[test]
fn batch_boundaries_clip_at_the_range_ends() {
    assert_eq!(batch_end_forward(10, 100, 8), 17);
    assert_eq!(batch_end_forward(97, 100, 8), 100);
    assert_eq!(batch_start_backward(100, 10, 8), 93);
    assert_eq!(batch_start_backward(13, 10, 8), 10);
    assert_eq!(batch_start_backward(5, 0, 10000), 0);
}

#[test]
fn stripping_removes_every_decoration_code() {
    let decorated = "\x1b[32mfound\x1b[0m \x1b[1mkey\x1b[0m \x1b[36mdetail\x1b[0m";
    assert_eq!(strip_colors(decorated), "found key detail");
    assert_eq!(strip_colors("plain"), "plain");
    assert_eq!(strip_colors(""), "");
    // an unknown escape sequence is not a decoration code and stays
    assert_eq!(strip_colors("\x1b[9m"), "\x1b[9m");
}

#[test]
fn line_and_block_rendering() {
    assert_eq!(render_line("2024-01-01 00:00:00", "hello"), "[2024-01-01 00:00:00] hello");
    let lines = vec!["one".to_string(), "two".to_string()];
    assert_eq!(
        render_block("ts", "title:", &lines),
        "[ts] title:\n[ts]   one\n[ts]   two"
    );
    let none: Vec<String> = Vec::new();
    assert_eq!(render_block("ts", "only", &none), "[ts] only");
}

#[test]
fn forced_flush_happens_before_return_when_lock_is_had() {
    let mut clock = FlushClock::new(1000);
    let d = clock.plan_file_write("line", true, true, 1001);
    assert_eq!(d.file_line.as_deref(), Some("line"));
    assert!(d.flush);
    // the flush reset the clock: an unforced young write defers its flush
    let d2 = clock.plan_file_write("next", false, true, 1002);
    assert_eq!(d2.file_line.as_deref(), Some("next"));
    assert!(!d2.flush);
}

#[test]
fn unforced_write_still_reaches_the_sink_and_ages_into_a_flush() {
    let mut clock = FlushClock::new(0);
    let young = clock.plan_file_write("a", false, true, 30000);
    assert_eq!(young.file_line.as_deref(), Some("a"));
    assert!(!young.flush);
    let aged = clock.plan_file_write("b", false, true, 30001);
    assert!(aged.flush);
}

#[test]
fn contended_lock_skips_the_file_write() {
    let mut clock = FlushClock::new(0);
    let d = clock.plan_file_write("line", true, false, 50000);
    assert!(d.file_line.is_none());
    assert!(!d.flush);
}
