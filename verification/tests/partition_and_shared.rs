use keyscan::rangepart::{partition_range, Direction, KeyRange};
use keyscan::scan::{coerce_worker_count, ConfigError, ScanConfig};
use keyscan::shared::{FoundRecord, FoundSlot, ProgressCounter};

#[test]
fn sixteen_candidates_four_workers() {
    // 16 candidates and 4 workers: two ascending partitions and the same
    // boundaries again descending
    let range = KeyRange { start: 0x10, end: 0x1f };
    let parts = partition_range(range, 4);
    assert_eq!(parts.len(), 4);
    assert_eq!((parts[0].lo, parts[0].hi), (0x10, 0x17));
    assert_eq!((parts[1].lo, parts[1].hi), (0x18, 0x1f));
    assert_eq!((parts[2].lo, parts[2].hi), (0x10, 0x17));
    assert_eq!((parts[3].lo, parts[3].hi), (0x18, 0x1f));
    assert_eq!(parts[0].dir, Direction::Ascending);
    assert_eq!(parts[1].dir, Direction::Ascending);
    assert_eq!(parts[2].dir, Direction::Descending);
    assert_eq!(parts[3].dir, Direction::Descending);
}

#[test]
fn partitions_tile_without_gap_or_overlap() {
    let range = KeyRange { start: 100, end: 205 };
    for workers in [2usize, 4, 6, 8, 10] {
        let parts = partition_range(range, workers);
        let half = workers / 2;
        for pass in [&parts[..half], &parts[half..]] {
            assert_eq!(pass[0].lo, range.start);
            assert_eq!(pass[pass.len() - 1].hi, range.end);
            for w in pass.windows(2) {
                assert_eq!(w[1].lo, w[0].hi + 1);
            }
            // every scalar falls in exactly one sub-range of the pass
            for k in range.start..=range.end {
                let owners = pass.iter().filter(|p| p.lo <= k && k <= p.hi).count();
                assert_eq!(owners, 1);
            }
        }
    }
}

#[test]
fn remainder_folds_into_last_partition() {
    let range = KeyRange { start: 0, end: 9 };
    let parts = partition_range(range, 6);
    assert_eq!((parts[0].lo, parts[0].hi), (0, 2));
    assert_eq!((parts[1].lo, parts[1].hi), (3, 5));
    assert_eq!((parts[2].lo, parts[2].hi), (6, 9));
}

#[test]
fn single_pair_of_workers_takes_whole_range() {
    let range = KeyRange { start: 5, end: 5 };
    let parts = partition_range(range, 2);
    assert_eq!(parts.len(), 2);
    assert_eq!((parts[0].lo, parts[0].hi), (5, 5));
    assert_eq!((parts[1].lo, parts[1].hi), (5, 5));
}

#[test]
fn found_slot_first_writer_wins() {
    let mut slot = FoundSlot::new();
    assert!(!slot.is_set());
    let first = FoundRecord { key_hex: "aa".to_string(), address: "addr1".to_string() };
    let second = FoundRecord { key_hex: "bb".to_string(), address: "addr2".to_string() };
    assert!(slot.try_set(first));
    assert!(slot.is_set());
    // every later writer, same or different record, is a no-op
    assert!(!slot.try_set(second));
    let third = FoundRecord { key_hex: "aa".to_string(), address: "addr1".to_string() };
    assert!(!slot.try_set(third));
    let held = slot.get().unwrap();
    assert_eq!(held.key_hex, "aa");
    assert_eq!(held.address, "addr1");
}

#[test]
fn progress_counter_accumulates() {
    let mut p = ProgressCounter::new();
    assert_eq!(p.current(), 0);
    let mut seen = 0u128;
    for add in [10000u128, 1, 0, 99] {
        let before = p.current();
        p.add(add);
        seen += add;
        assert!(p.current() >= before);
        assert_eq!(p.current(), seen);
    }
}

#[test]
fn worker_count_coercion() {
    let big = KeyRange { start: 0, end: 1000 };
    assert_eq!(coerce_worker_count(8, big), 8);
    assert_eq!(coerce_worker_count(7, big), 6);
    assert_eq!(coerce_worker_count(1, big), 2);
    assert_eq!(coerce_worker_count(0, big), 2);
    let two = KeyRange { start: 0, end: 1 };
    assert_eq!(coerce_worker_count(100, two), 4);
}

#[test]
fn config_rejects_bad_bounds() {
    assert_eq!(
        ScanConfig::new("zz", "10", "t", 4).err(),
        Some(ConfigError::InvalidStartHex)
    );
    assert_eq!(
        ScanConfig::new("10", "", "t", 4).err(),
        Some(ConfigError::InvalidEndHex)
    );
    assert_eq!(
        ScanConfig::new("20", "10", "t", 4).err(),
        Some(ConfigError::EmptyRange)
    );
    let all = "f".repeat(32);
    assert_eq!(
        ScanConfig::new("0", &all, "t", 4).err(),
        Some(ConfigError::RangeTooLarge)
    );
}

#[test]
fn config_accepts_the_reference_setup() {
    let cfg = ScanConfig::new("1000000", "1ffffff", "target-address", 8).unwrap();
    assert_eq!(cfg.range.start, 0x1000000);
    assert_eq!(cfg.range.end, 0x1ffffff);
    assert_eq!(cfg.workers, 8);
    assert_eq!(cfg.target, "target-address");
}
