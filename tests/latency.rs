use pubsub_lease::LatencyEstimator;

#[test]
fn no_samples_gives_the_floor() {
    let e = LatencyEstimator::new();
    assert_eq!(e.estimate(), 10_000);
}

#[test]
fn short_latencies_count_as_ten_seconds() {
    let mut e = LatencyEstimator::new();
    e.observe(200);
    e.observe(-5);
    assert_eq!(e.estimate(), 10_000);
}

#[test]
fn latency_rounds_up_to_whole_seconds() {
    let mut e = LatencyEstimator::new();
    e.observe(12_001);
    assert_eq!(e.estimate(), 13_000);
    let mut f = LatencyEstimator::new();
    f.observe(12_000);
    assert_eq!(f.estimate(), 12_000);
}

#[test]
fn long_latencies_count_as_600_seconds() {
    let mut e = LatencyEstimator::new();
    e.observe(10_000_000);
    assert_eq!(e.estimate(), 600_000);
}

#[test]
fn estimate_is_the_99th_percentile() {
    let mut e = LatencyEstimator::new();
    for _ in 0..99 {
        e.observe(20_000);
    }
    e.observe(100_000);
    // 99 of 100 samples lie at or below 20 s
    assert_eq!(e.estimate(), 20_000);
    e.observe(100_000);
    // 99 of 101 is under 99 in 100
    assert_eq!(e.estimate(), 100_000);
}
