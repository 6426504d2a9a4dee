use udp_link::stats::{LinkPacketData, RunningStatistics};
use udp_link::window::{packets_per_time, window_start};

fn stats_of(times: &[u64]) -> RunningStatistics {
    let mut s = RunningStatistics::new();
    for t in times {
        s.record_sample(LinkPacketData { t_us: *t, payload_size: 0, sequence: None });
    }
    s
}

#[test]
fn window_start_walks_back_to_window_edge() {
    let times = [0u64, 1_000, 2_000, 3_000, 4_000, 5_000];
    assert_eq!(window_start(&times, 2_500), 2);
    assert_eq!(window_start(&times, 2_000), 3);
    assert_eq!(window_start(&times, 100_000), 0);
    assert_eq!(window_start(&times, 0), 4);
    assert_eq!(window_start(&[7, 9], 1), 0);
}

#[test]
fn window_needs_more_than_two_gaps() {
    assert!(stats_of(&[]).window(1_000).is_none());
    assert!(stats_of(&[1, 2, 3]).window(1_000).is_none());
    assert!(stats_of(&[1, 2, 3, 4]).window(1_000).is_some());
}

#[test]
fn window_summary_over_recent_samples() {
    let s = stats_of(&[0, 1_000, 2_000, 2_500, 5_000, 5_200]);
    let w = s.window(3_000).unwrap();
    // 5_200 - 3_000 = 2_200: the sample at 2_000 is the last at or before it
    assert_eq!(w.first, 2);
    assert_eq!(w.sample_count, 4);
    assert_eq!(w.window_us, 3_200);
    assert_eq!(w.min_gap_us, 200);
    assert_eq!(w.max_gap_us, 2_500);
    assert_eq!(w.average_gap_us, 1_066);
    assert_eq!(w.time_bins, 0);
}

#[test]
fn time_bins_grow_with_samples_up_to_one_hundred() {
    let times: Vec<u64> = (0..250u64).map(|i| i * 10).collect();
    assert_eq!(stats_of(&times).window(1_000_000).unwrap().time_bins, 25);
    let many: Vec<u64> = (0..2_000u64).map(|i| i * 10).collect();
    assert_eq!(stats_of(&many).window(1_000_000).unwrap().time_bins, 100);
}

#[test]
fn packets_per_time_counts_each_bin() {
    let times = [0u64, 100, 250, 400, 500, 999, 1_000];
    // span 1000 in 4 bins: edges 250, 500, 750, 1000
    assert_eq!(packets_per_time(&times, 0, 4), vec![2, 2, 1, 1]);
    assert_eq!(packets_per_time(&times, 0, 0), Vec::<usize>::new());
    // from index 3: span 400..1000 in 2 bins, edges 700 and 1000
    assert_eq!(packets_per_time(&times, 3, 2), vec![2, 1]);
}
