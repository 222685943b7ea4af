use wrk::stats::{merge, ErrorCounters, ThreadStats};

#[test]
fn records_latency_and_increments_requests() {
    let mut s = ThreadStats::new();
    s.record_latency(500);
    s.record_latency(1000);
    assert_eq!(s.requests, 2);
    assert_eq!(s.latency.histogram.value_at_quantile(0.5), 500);
}

#[test]
fn records_errors_by_category() {
    let mut s = ThreadStats::new();
    s.errors.connect += 1;
    s.errors.timeout += 2;
    s.errors.status += 3;
    assert_eq!(s.errors.socket_total(), 3);
    assert_eq!(s.errors.status, 3);
    assert_eq!(s.requests, 0);
}

#[test]
fn merges_error_counters() {
    let mut a = ErrorCounters {
        connect: 1,
        read: 2,
        write: 3,
        timeout: 4,
        status: 5,
    };
    let b = ErrorCounters {
        connect: 10,
        read: 20,
        write: 30,
        timeout: 40,
        status: 50,
    };
    a.merge(&b);
    assert_eq!(a.connect, 11);
    assert_eq!(a.read, 22);
    assert_eq!(a.write, 33);
    assert_eq!(a.timeout, 44);
    assert_eq!(a.status, 55);
    assert_eq!(a.socket_total(), 110);
}

#[test]
fn accumulates_bytes() {
    let mut s = ThreadStats::new();
    s.add_bytes(1024);
    s.add_bytes(2048);
    assert_eq!(s.bytes, 3072);
}

#[test]
fn merges_two_threads() {
    let mut t1 = ThreadStats::new();
    t1.record_latency(100);
    t1.add_bytes(512);
    t1.duration_us = 1_000_000;

    let mut t2 = ThreadStats::new();
    t2.record_latency(200);
    t2.add_bytes(512);
    t2.duration_us = 1_200_000;

    let agg = merge(vec![t1, t2]);
    assert_eq!(agg.requests, 2);
    assert_eq!(agg.bytes, 1024);
    assert_eq!(agg.duration_us, 1_200_000);
    assert!(agg.latency.histogram.value_at_quantile(0.5) >= 100);
}

#[test]
fn empty_merge_gives_zero_stats() {
    let agg = merge(vec![]);
    assert_eq!(agg.requests, 0);
    assert_eq!(agg.bytes, 0);
}

#[test]
fn zero_latency_counts_as_one_microsecond() {
    let mut s = ThreadStats::new();
    s.record_latency(0);
    assert_eq!(s.latency.histogram.len(), 1);
    assert_eq!(s.latency.histogram.max(), 1);
}

#[test]
fn out_of_range_latency_is_counted_but_not_recorded() {
    let mut s = ThreadStats::new();
    s.record_latency(u64::MAX);
    assert_eq!(s.requests, 1);
    assert_eq!(s.latency.histogram.len(), 0);
}

#[test]
fn merge_sums_errors_and_pools_samples() {
    let mut t1 = ThreadStats::default();
    t1.errors.read = 2;
    t1.errors.status = 1;
    t1.record_latency(10);
    let mut t2 = ThreadStats::default();
    t2.errors.read = 3;
    t2.errors.write = 4;
    t2.record_latency(20);
    t2.record_latency(30);
    let agg = merge(vec![t1, t2]);
    assert_eq!(agg.errors, ErrorCounters { connect: 0, read: 5, write: 4, timeout: 0, status: 1 });
    assert_eq!(agg.latency.histogram.len(), 3);
    assert_eq!(agg.latency.histogram.max(), 30);
}

#[test]
fn absorb_adds_one_connection() {
    let mut thread = ThreadStats::new();
    let mut conn = ThreadStats::new();
    conn.record_latency(7);
    conn.add_bytes(99);
    conn.errors.timeout = 1;
    conn.duration_us = 5;
    thread.absorb(&conn);
    thread.absorb(&conn);
    assert_eq!(thread.requests, 2);
    assert_eq!(thread.bytes, 198);
    assert_eq!(thread.errors.timeout, 2);
    assert_eq!(thread.duration_us, 0);
    assert_eq!(thread.latency.histogram.len(), 2);
}

#[test]
fn default_error_counters_are_zero() {
    let e = ErrorCounters::default();
    assert_eq!(e, ErrorCounters { connect: 0, read: 0, write: 0, timeout: 0, status: 0 });
    assert_eq!(e.socket_total(), 0);
}

#[test]
fn small_latencies_are_recorded_exactly() {
    let mut s = ThreadStats::new();
    s.record_latency(0);
    s.record_latency(2047);
    s.record_latency(733);
    let h = &s.latency.histogram;
    assert_eq!(h.len(), 3);
    assert_eq!(h.min(), 1);
    assert_eq!(h.max(), 2047);
    assert_eq!(h.count_at(733), 1);
    assert_eq!(h.value_at_quantile(0.5), 733);
}

#[test]
fn merge_ignores_thread_order() {
    let mut a = ThreadStats::new();
    a.record_latency(10);
    a.add_bytes(5);
    a.duration_us = 7;
    a.errors.read = 1;
    let mut b = ThreadStats::new();
    b.record_latency(20);
    b.record_latency(30);
    b.add_bytes(6);
    b.duration_us = 9;
    b.errors.status = 2;
    let mut a2 = ThreadStats::new();
    a2.record_latency(10);
    a2.add_bytes(5);
    a2.duration_us = 7;
    a2.errors.read = 1;
    let mut b2 = ThreadStats::new();
    b2.record_latency(20);
    b2.record_latency(30);
    b2.add_bytes(6);
    b2.duration_us = 9;
    b2.errors.status = 2;
    let x = merge(vec![a, b]);
    let y = merge(vec![b2, a2]);
    assert_eq!((x.requests, x.bytes, x.duration_us, x.errors), (y.requests, y.bytes, y.duration_us, y.errors));
    assert_eq!(x.latency.histogram.len(), y.latency.histogram.len());
    assert_eq!(x.latency.histogram.max(), y.latency.histogram.max());
    assert_eq!(x.latency.histogram.min(), y.latency.histogram.min());
}
