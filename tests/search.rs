use portpick::aggregate::aggregate;
use portpick::search::{find_available_ports, find_available_ports_in_order, TierOrder};
use std::collections::HashSet;

#[test]
fn test_find_available_ports_single() {
    let mut forbidden = HashSet::new();
    forbidden.insert(1024);
    forbidden.insert(1025);
    let available = find_available_ports(&forbidden, 1, false);
    assert_eq!(available.len(), 1);
    assert_eq!(available[0], 1026);
}

#[test]
fn test_find_available_ports_multiple_non_continuous() {
    let mut forbidden = HashSet::new();
    forbidden.insert(1024);
    forbidden.insert(1026);
    let available = find_available_ports(&forbidden, 2, false);
    assert_eq!(available.len(), 2);
    assert_eq!(available[0], 1025);
    assert_eq!(available[1], 1027);
}

#[test]
fn test_find_available_ports_continuous() {
    let mut forbidden = HashSet::new();
    forbidden.insert(1024);
    forbidden.insert(1027); // Gap between 1026 and 1028
    let available = find_available_ports(&forbidden, 3, true);
    assert_eq!(available.len(), 3);
    assert_eq!(available, vec![1028, 1029, 1030]);
}

#[test]
fn test_find_available_ports_continuous_at_range_boundary() {
    let mut forbidden = HashSet::new();
    // Forbid all but the last 3 ports in the first range
    for p in 1024..(49151 - 2) {
        forbidden.insert(p);
    }
    let available = find_available_ports(&forbidden, 3, true);
    assert_eq!(available.len(), 3);
    assert_eq!(available, vec![49149, 49150, 49151]);
}

#[test]
fn test_find_available_ports_none_available_in_range() {
    let mut forbidden = HashSet::new();
    for port in 1024..=65535 {
        // Forbid all possible ports
        forbidden.insert(port);
    }
    let available = find_available_ports(&forbidden, 1, false);
    assert!(available.is_empty());
}

#[test]
fn test_find_available_ports_num_ports_zero() {
    let forbidden = HashSet::new();
    let available = find_available_ports(&forbidden, 0, false);
    assert!(available.is_empty());
    let available_continuous = find_available_ports(&forbidden, 0, true);
    assert!(available_continuous.is_empty());
}

#[test]
fn test_find_available_ports_prefer_registered_range() {
    let forbidden = HashSet::new(); // No ports forbidden initially
    let available = find_available_ports(&forbidden, 1, false);
    assert_eq!(available.len(), 1);
    assert!(available[0] >= 1024 && available[0] <= 49151);
    assert_eq!(available[0], 1024); // Specifically, the first one
}

#[test]
fn test_find_available_ports_fallback_to_dynamic_range() {
    let mut forbidden = HashSet::new();
    for port in 1024..=49151 {
        // Forbid all registered ports
        forbidden.insert(port);
    }
    let available = find_available_ports(&forbidden, 1, false);
    assert_eq!(available.len(), 1);
    assert!(available[0] >= 49152);
    assert_eq!(available[0], 49152); // Specifically, the first one in this range
}

#[test]
fn test_find_available_ports_continuous_block_too_large() {
    let forbidden = HashSet::new();
    // Request more ports than available in any single continuous block in the ranges
    let num_ports_too_large = (49151 - 1024 + 1) + (65535 - 49152 + 1) + 100; // Larger than total
    let available = find_available_ports(&forbidden, num_ports_too_large, true);
    assert!(
        available.is_empty(),
        "Should not find a block larger than total available ports"
    );
}

fn all_forbidden() -> HashSet<u16> {
    (1024..=65535).collect()
}

#[test]
fn zero_count_is_empty_in_every_mode() {
    let forbidden: HashSet<u16> = [1024, 2000].into_iter().collect();
    for order in [TierOrder::RegisteredFirst, TierOrder::DynamicFirst] {
        assert!(find_available_ports_in_order(&forbidden, 0, false, order).is_empty());
        assert!(find_available_ports_in_order(&forbidden, 0, true, order).is_empty());
    }
}

#[test]
fn results_avoid_exclusions_and_stay_in_tiers() {
    let forbidden: HashSet<u16> = (1024..1100).chain([1101, 1103, 49152]).chain(0..1024).collect();
    for continuous in [false, true] {
        for order in [TierOrder::RegisteredFirst, TierOrder::DynamicFirst] {
            let found = find_available_ports_in_order(&forbidden, 5, continuous, order);
            assert_eq!(found.len(), 5);
            for p in &found {
                assert!(*p >= 1024);
                assert!(!forbidden.contains(p));
            }
        }
    }
}

#[test]
fn contiguous_result_is_a_unit_step_run() {
    let forbidden: HashSet<u16> = [1030, 1041, 1045].into_iter().collect();
    let found = find_available_ports(&forbidden, 10, true);
    assert_eq!(found, (1031..1041).collect::<Vec<u16>>());
    for w in found.windows(2) {
        assert_eq!(w[1], w[0] + 1);
    }
}

#[test]
fn non_contiguous_skips_exclusions() {
    let forbidden: HashSet<u16> = [1024, 1025].into_iter().collect();
    assert_eq!(find_available_ports(&forbidden, 1, false), vec![1026]);
    let forbidden: HashSet<u16> = [1025, 1027].into_iter().collect();
    assert_eq!(find_available_ports(&forbidden, 4, false), vec![1024, 1026, 1028, 1029]);
}

#[test]
fn everything_forbidden_gives_nothing() {
    let forbidden = all_forbidden();
    assert!(find_available_ports(&forbidden, 1, false).is_empty());
    assert!(find_available_ports(&forbidden, 1, true).is_empty());
}

#[test]
fn non_contiguous_spans_both_tiers() {
    let forbidden: HashSet<u16> = (1024..=49149).collect();
    let found = find_available_ports(&forbidden, 4, false);
    assert_eq!(found, vec![49150, 49151, 49152, 49153]);
}

#[test]
fn non_contiguous_shortfall_returns_what_is_free() {
    let mut forbidden = all_forbidden();
    forbidden.remove(&2000);
    forbidden.remove(&60000);
    assert_eq!(find_available_ports(&forbidden, 5, false), vec![2000, 60000]);
    assert_eq!(
        find_available_ports_in_order(&forbidden, 5, false, TierOrder::DynamicFirst),
        vec![60000, 2000]
    );
}

#[test]
fn contiguous_does_not_straddle_tiers() {
    let forbidden: HashSet<u16> = (1024..=49149).chain(49154..=65535).collect();
    // 49150..=49151 and 49152..=49153 are free, but a block of three would cross tiers.
    assert!(find_available_ports(&forbidden, 3, true).is_empty());
    assert_eq!(find_available_ports(&forbidden, 2, true), vec![49150, 49151]);
    assert_eq!(
        find_available_ports_in_order(&forbidden, 2, true, TierOrder::DynamicFirst),
        vec![49152, 49153]
    );
}

#[test]
fn contiguous_whole_tiers() {
    let empty = HashSet::new();
    let a = find_available_ports(&empty, 48128, true);
    assert_eq!(a.len(), 48128);
    assert_eq!(a[0], 1024);
    assert_eq!(a[48127], 49151);
    assert!(find_available_ports(&empty, 48129, true).is_empty());
    let b = find_available_ports_in_order(&empty, 16384, true, TierOrder::DynamicFirst);
    assert_eq!(b.len(), 16384);
    assert_eq!(b[0], 49152);
    assert_eq!(b[16383], 65535);
    let b2 = find_available_ports_in_order(&empty, 16385, true, TierOrder::DynamicFirst);
    assert_eq!(b2[0], 1024);
}

#[test]
fn contiguous_falls_back_to_second_tier() {
    let forbidden: HashSet<u16> = (1024..=49151).step_by(2).collect();
    assert_eq!(find_available_ports(&forbidden, 2, true), vec![49152, 49153]);
}

#[test]
fn dynamic_first_order() {
    let forbidden: HashSet<u16> = [49152].into_iter().collect();
    assert_eq!(
        find_available_ports_in_order(&forbidden, 2, false, TierOrder::DynamicFirst),
        vec![49153, 49154]
    );
    assert_eq!(find_available_ports(&forbidden, 2, false), vec![1024, 1025]);
}

#[test]
fn search_largest_count() {
    let empty = HashSet::new();
    let found = find_available_ports(&empty, 65535, false);
    assert_eq!(found.len(), 64512);
    assert_eq!(found[0], 1024);
    assert_eq!(found[64511], 65535);
    assert!(find_available_ports(&empty, 65535, true).is_empty());
}

#[test]
fn aggregate_unions_sources() {
    let a: HashSet<u16> = [1, 2, 3].into_iter().collect();
    let b: HashSet<u16> = [3, 4].into_iter().collect();
    let c: HashSet<u16> = HashSet::new();
    let all: HashSet<u16> = [1, 2, 3, 4].into_iter().collect();
    assert_eq!(aggregate(&vec![a.clone(), b.clone(), c.clone()]), all);
    assert_eq!(aggregate(&vec![b.clone(), a.clone()]), aggregate(&vec![a.clone(), b.clone()]));
    assert!(aggregate(&vec![]).is_empty());
    let ab = aggregate(&vec![a.clone(), b.clone()]);
    let bc = aggregate(&vec![b.clone(), c.clone()]);
    assert_eq!(aggregate(&vec![ab, c.clone()]), aggregate(&vec![a, bc]));
}

#[test]
fn aggregate_then_search() {
    let registry: HashSet<u16> = [1024, 1025].into_iter().collect();
    let live: HashSet<u16> = [1026].into_iter().collect();
    let forbidden = aggregate(&vec![registry, live]);
    assert_eq!(find_available_ports(&forbidden, 1, false), vec![1027]);
}
