use udp_link::payload::sequence_payload;
use udp_link::stats::{LinkPacketData, RunningStatistics};

fn sample(t_us: u64, sequence: Option<u64>) -> LinkPacketData {
    LinkPacketData { t_us, payload_size: 500, sequence }
}

#[test]
fn fresh_statistics_snapshot_is_all_zero() {
    let stats = RunningStatistics::new();
    let snap = stats.snapshot();
    assert_eq!(stats.len(), 0);
    assert_eq!(snap.sample_count, 0);
    assert_eq!(snap.gap_count, 0);
    assert_eq!(snap.gap_sum_us, 0);
    assert_eq!(snap.max_gap_us, 0);
    assert_eq!(snap.average_gap_us, 0);
    assert_eq!(snap.reorder_count, 0);
    assert_eq!(snap.gaps_at_least_2ms, 0);
    assert_eq!(snap.gaps_at_least_16ms, 0);
    assert!(stats.times().is_empty());
    assert!(stats.gaps().is_empty());
}

#[test]
fn one_sample_has_no_gap() {
    let mut stats = RunningStatistics::new();
    stats.record_sample(sample(5_000, None));
    let snap = stats.snapshot();
    assert_eq!(snap.sample_count, 1);
    assert_eq!(snap.gap_count, 0);
    assert_eq!(snap.average_gap_us, 0);
    assert_eq!(stats.times(), &[5_000]);
}

#[test]
fn five_sample_series_average_and_max() {
    let mut stats = RunningStatistics::new();
    for t in [0u64, 1_000, 3_000, 3_500, 9_500] {
        stats.record_sample(sample(t, None));
    }
    let snap = stats.snapshot();
    assert_eq!(snap.sample_count, 5);
    assert_eq!(snap.gap_count, 4);
    assert_eq!(stats.gaps(), &[1_000, 2_000, 500, 6_000]);
    assert_eq!(snap.gap_sum_us, 9_500);
    assert_eq!(snap.average_gap_us, 2_375);
    assert_eq!(snap.max_gap_us, 6_000);
    assert_eq!(snap.gaps_at_least_2ms, 2);
    assert_eq!(snap.gaps_at_least_4ms, 1);
    assert_eq!(snap.gaps_at_least_8ms, 0);
    assert_eq!(snap.gaps_at_least_16ms, 0);
}

#[test]
fn ten_thousand_sample_series_average_and_max() {
    let mut stats = RunningStatistics::new();
    let mut t: u64 = 1_000_000;
    let mut expected_sum: u128 = 0;
    let mut expected_max: u64 = 0;
    for i in 0..10_000u64 {
        if i > 0 {
            let gap = 900 + (i * 37) % 400;
            t += gap;
            expected_sum += gap as u128;
            expected_max = expected_max.max(gap);
        }
        stats.record_sample(sample(t, None));
    }
    let snap = stats.snapshot();
    assert_eq!(snap.sample_count, 10_000);
    assert_eq!(snap.gap_count, 9_999);
    assert_eq!(snap.gap_sum_us, expected_sum);
    assert_eq!(snap.max_gap_us, expected_max);
    assert_eq!(snap.average_gap_us as u128, expected_sum / 9_999);
}

#[test]
fn reorder_sequence_with_one_late_packet() {
    let mut stats = RunningStatistics::new();
    let mut t: u64 = 0;
    for s in [0u64, 1, 2, 4, 3, 5] {
        t += 1_000;
        stats.record_sample(sample(t, Some(s)));
    }
    assert_eq!(stats.snapshot().reorder_count, 1);
    // 4 after 2, and 5 after the late 3
    assert_eq!(stats.snapshot().sequence_gap_count, 2);
}

#[test]
fn forward_jump_is_a_gap_not_a_reorder() {
    let mut stats = RunningStatistics::new();
    for (i, s) in [0u64, 1, 2, 4].iter().enumerate() {
        stats.record_sample(sample(i as u64 * 1_000, Some(*s)));
    }
    assert_eq!(stats.snapshot().reorder_count, 0);
    assert_eq!(stats.snapshot().sequence_gap_count, 1);
    stats.record_sample(sample(5_000, Some(3)));
    assert_eq!(stats.snapshot().reorder_count, 1);
    stats.record_sample(sample(6_000, Some(5)));
    assert_eq!(stats.snapshot().reorder_count, 1);
}

#[test]
fn repeated_sequence_is_a_reorder() {
    let mut stats = RunningStatistics::new();
    stats.record_sample(sample(0, Some(8)));
    stats.record_sample(sample(10, Some(8)));
    assert_eq!(stats.snapshot().reorder_count, 1);
    assert_eq!(stats.snapshot().sequence_gap_count, 0);
}

#[test]
fn in_order_sequence_has_no_reorder() {
    let mut stats = RunningStatistics::new();
    for s in 0u64..50 {
        stats.record_sample(sample(s * 100, Some(s)));
    }
    assert_eq!(stats.snapshot().reorder_count, 0);
}

#[test]
fn first_sequence_value_is_never_a_reorder() {
    let mut stats = RunningStatistics::new();
    stats.record_sample(sample(0, Some(17)));
    stats.record_sample(sample(10, Some(18)));
    assert_eq!(stats.snapshot().reorder_count, 0);
}

#[test]
fn samples_without_sequence_are_skipped_by_reorder_check() {
    let mut stats = RunningStatistics::new();
    stats.record_sample(sample(0, Some(1)));
    stats.record_sample(sample(10, None));
    stats.record_sample(sample(20, Some(2)));
    stats.record_sample(sample(30, Some(2)));
    assert_eq!(stats.snapshot().reorder_count, 1);
}

#[test]
fn sequence_after_largest_counter_is_a_reorder() {
    let mut stats = RunningStatistics::new();
    stats.record_sample(sample(0, Some(u64::MAX)));
    stats.record_sample(sample(10, Some(0)));
    assert_eq!(stats.snapshot().reorder_count, 1);
}

#[test]
fn clock_going_back_gives_zero_gap() {
    let mut stats = RunningStatistics::new();
    stats.record_sample(sample(5_000, None));
    stats.record_sample(sample(4_000, None));
    assert_eq!(stats.gaps(), &[0]);
    assert_eq!(stats.snapshot().max_gap_us, 0);
}

#[test]
fn max_gap_never_decreases() {
    let mut stats = RunningStatistics::new();
    let mut last_max = 0;
    let mut t = 0u64;
    for gap in [300u64, 5_000, 20, 7_000, 1, 6_999] {
        t += gap;
        stats.record_sample(sample(t, None));
        let m = stats.snapshot().max_gap_us;
        assert!(m >= last_max);
        last_max = m;
    }
    assert_eq!(last_max, 7_000);
}

#[test]
fn reset_forgets_everything() {
    let mut stats = RunningStatistics::new();
    stats.record_sample(sample(0, Some(3)));
    stats.record_sample(sample(20_000, Some(9)));
    stats.reset();
    let snap = stats.snapshot();
    assert_eq!(snap.sample_count, 0);
    assert_eq!(snap.max_gap_us, 0);
    assert_eq!(snap.reorder_count, 0);
    stats.record_sample(sample(1, Some(0)));
    assert_eq!(stats.snapshot().reorder_count, 0);
}

#[test]
fn record_arrival_reads_sequence_from_payload() {
    let mut stats = RunningStatistics::new();
    stats.record_arrival(100, &sequence_payload(7, 64));
    stats.record_arrival(200, &sequence_payload(9, 64));
    stats.record_arrival(300, &[1, 2, 3]);
    let snap = stats.snapshot();
    assert_eq!(snap.sample_count, 3);
    assert_eq!(snap.reorder_count, 0);
    assert_eq!(snap.sequence_gap_count, 1);
    assert_eq!(stats.times(), &[100, 200, 300]);
}
