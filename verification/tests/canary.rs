use stack_canary::{count_sentinel_run, estimate_unused_stack_space, mark_pattern, PATTERN};

#[test]
fn pattern_value() {
    assert_eq!(PATTERN, 0x5A);
}

#[test]
fn paint_fills_whole_region() {
    let mut region: Vec<u8> = vec![0u8; 32];
    mark_pattern(&mut region);
    assert_eq!(region.len(), 32);
    assert!(region.iter().all(|&b| b == PATTERN));
}

#[test]
fn paint_is_idempotent() {
    let mut region: Vec<u8> = (0u8..64).collect();
    mark_pattern(&mut region);
    let once: Vec<u8> = region.clone();
    mark_pattern(&mut region);
    mark_pattern(&mut region);
    assert_eq!(region, once);
}

#[test]
fn full_match_returns_region_size() {
    let region: Vec<u8> = vec![PATTERN; 64];
    assert_eq!(count_sentinel_run(&region), 64);
    assert_eq!(estimate_unused_stack_space(Some(&region)), 64);
}

#[test]
fn immediate_mismatch_returns_zero() {
    let mut region: Vec<u8> = vec![PATTERN; 16];
    region[0] = 0x00;
    assert_eq!(count_sentinel_run(&region), 0);
    assert_eq!(estimate_unused_stack_space(Some(&region)), 0);
}

#[test]
fn partial_run_counts_exactly_k() {
    let n: usize = 16;
    for k in 0..=n {
        let mut region: Vec<u8> = vec![0x00u8; n];
        for i in 0..k {
            region[i] = PATTERN;
        }
        assert_eq!(count_sentinel_run(&region), k);
    }
}

#[test]
fn scan_stops_at_first_mismatch() {
    let mut region: Vec<u8> = vec![PATTERN; 16];
    region[5] = 0x01;
    assert_eq!(count_sentinel_run(&region), 5);
}

#[test]
fn empty_region_returns_zero() {
    let region: Vec<u8> = Vec::new();
    assert_eq!(estimate_unused_stack_space(Some(&region)), 0);
}

#[test]
fn single_byte_region_boundary() {
    let hit: Vec<u8> = vec![PATTERN];
    assert_eq!(estimate_unused_stack_space(Some(&hit)), 1);
    let miss: Vec<u8> = vec![0x00];
    assert_eq!(estimate_unused_stack_space(Some(&miss)), 0);
}

#[test]
fn unsupported_target_reports_zero() {
    assert_eq!(estimate_unused_stack_space(None), 0);
}

#[test]
fn consumption_scenario() {
    let mut region: Vec<u8> = vec![0u8; 64];
    mark_pattern(&mut region);
    for i in 54..64 {
        region[i] = 0x00;
    }
    assert_eq!(estimate_unused_stack_space(Some(&region)), 54);
    // A coincidental write of the pattern value next to the consumed bytes:
    // the scan already stops before it, so the estimate does not rise.
    region[53] = PATTERN;
    assert_eq!(estimate_unused_stack_space(Some(&region)), 54);
}

#[test]
fn deeper_consumption_never_raises_estimate() {
    let mut region: Vec<u8> = vec![PATTERN; 64];
    let mut prev: u16 = estimate_unused_stack_space(Some(&region));
    assert_eq!(prev, 64);
    for used in 1..=64usize {
        region[64 - used] = 0x11;
        let now: u16 = estimate_unused_stack_space(Some(&region));
        assert!(now <= prev);
        assert!(prev - now <= 1);
        prev = now;
    }
    assert_eq!(prev, 0);
}
