use aggbook::nanos::nanos_pretty;

#[test]
fn zero_duration_reads_zero_seconds() {
    assert_eq!(nanos_pretty(0), "0s");
}

#[test]
fn durations_read_by_unit() {
    assert_eq!(nanos_pretty(1_500_000_000), "1s 500ms");
    assert_eq!(nanos_pretty(1_000), "1us");
}
