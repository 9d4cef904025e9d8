use ur_io::bench::{
    BenchConfig, BenchTotals, SendProgress, DEFAULT_BATCH_SIZE, DEFAULT_PACKET_COUNT,
    DEFAULT_PACKET_SIZE, DEFAULT_TARGET,
};

fn args(v: &[&str]) -> Vec<String> {
    v.iter().map(|s| s.to_string()).collect()
}

#[test]
fn defaults_without_arguments() {
    let c = BenchConfig::from_args(&args(&["bench-udp"]));
    assert_eq!(c.target, "127.0.0.1:9000");
    assert_eq!(c.target, DEFAULT_TARGET);
    assert_eq!(c.packet_count, 100_000);
    assert_eq!(c.packet_size, 512);
    assert_eq!(c.batch_size, 100);
    assert_eq!(
        (DEFAULT_PACKET_COUNT, DEFAULT_PACKET_SIZE, DEFAULT_BATCH_SIZE),
        (100_000, 512, 100)
    );
}

#[test]
fn all_arguments_given() {
    let c = BenchConfig::from_args(&args(&["b", "10.0.0.1:9", "5", "64", "2"]));
    assert_eq!(c.target, "10.0.0.1:9");
    assert_eq!((c.packet_count, c.packet_size, c.batch_size), (5, 64, 2));
}

#[test]
fn bad_numbers_fall_back_to_defaults() {
    let c = BenchConfig::from_args(&args(&["b", "h:1", "abc", "-3", " 7"]));
    assert_eq!(c.target, "h:1");
    assert_eq!((c.packet_count, c.packet_size, c.batch_size), (100_000, 512, 100));
    let c = BenchConfig::from_args(&args(&["b", "h:1", "+12", "", "99999999999999999999999"]));
    assert_eq!((c.packet_count, c.packet_size, c.batch_size), (12, 512, 100));
    let c = BenchConfig::from_args(&args(&["b", "h:1", "0", "+", "007"]));
    assert_eq!((c.packet_count, c.packet_size, c.batch_size), (0, 512, 7));
}

#[test]
fn totals_of_a_run() {
    let t = BenchTotals::calculate(100_000, 512, 2_000_000_000);
    assert_eq!(t.total_packets, 100_000);
    assert_eq!(t.total_bytes, 51_200_000);
    assert_eq!(t.avg_latency_ns, 20_000);
    let t = BenchTotals::calculate(3, 0, 10);
    assert_eq!((t.total_bytes, t.avg_latency_ns), (0, 3));
    let t = BenchTotals::calculate(1, 1, (1u128 << 64) + 9);
    assert_eq!(t.avg_latency_ns, 9);
}

#[test]
fn progress_reported_every_batch() {
    let mut p = SendProgress::new(5, 2);
    let mut reports = Vec::new();
    while !p.is_done() {
        reports.push(p.record_send());
    }
    assert_eq!(reports, vec![false, true, false, true, false]);
    assert_eq!(p.sent, 5);
    assert!(SendProgress::new(0, 0).is_done());
}
