//! Per-thread and aggregate benchmark statistics: request and byte counts,
//! error counters by category, and a latency histogram kept by
//! `hdrhistogram`.

use hdrhistogram::{AdditionError, CreationError, Histogram, RecordError};
use vstd::multiset::Multiset;
use vstd::prelude::*;

verus! {

// ---------------------------------------------------------------------------
// The latency histogram
// ---------------------------------------------------------------------------

/// A latency histogram: an `hdrhistogram::Histogram<u64>`, which Verus
/// cannot declare (its `Counter` bound is refused), held in a struct that
/// Verus treats as opaque. The histogram stays reachable for reporting.
#[verifier::external_body]
pub struct LatencyHistogram {
    pub histogram: Histogram<u64>,
}

#[verifier::external_type_specification]
#[verifier::external_body]
pub struct ExCreationError(CreationError);

#[verifier::external_type_specification]
#[verifier::external_body]
pub struct ExRecordError(RecordError);

#[verifier::external_type_specification]
#[verifier::external_body]
pub struct ExAdditionError(AdditionError);

/// The samples a histogram holds, each taken as the highest value of the
/// bucket it was counted in.
pub uninterp spec fn histogram_samples(h: LatencyHistogram) -> Multiset<u64>;

/// The settings a histogram was made with: lowest discernible value, highest
/// trackable value, significant figures, and whether it grows on demand.
pub uninterp spec fn histogram_config(h: LatencyHistogram) -> (u64, u64, u8, bool);

/// Calls `Histogram::new_with_bounds`. The source rejects only a `low` of 0
/// or above `u64::MAX / 2`, a `high` under `2 * low`, a `sigfig` over 5, a
/// `low` too large for `sigfig`, and a bucket count that does not fit in
/// `usize`; none of these arises for `low == 1`, `high >= 2`, `sigfig <= 5`.
/// A new histogram is empty, keeps the bounds it was given and does not grow
/// on demand.
#[verifier::external_body]
fn histogram_with_bounds(low: u64, high: u64, sigfig: u8) -> (r: Result<
    LatencyHistogram,
    CreationError,
>)
    ensures
        low == 1 && high >= 2 && sigfig <= 5 ==> r is Ok,
        r matches Ok(h) ==> histogram_samples(h) =~= Multiset::empty() && histogram_config(h) == (
            low,
            high,
            sigfig,
            false,
        ),
{
    Histogram::new_with_bounds(low, high, sigfig).map(|h| LatencyHistogram { histogram: h })
}

/// The value a histogram made with lowest discernible value `low` and
/// `sigfig` significant figures counts `value` as: the highest value of the
/// bucket `value` falls in (`Histogram::highest_equivalent`).
pub uninterp spec fn bucket_value(low: u64, sigfig: u8, value: u64) -> u64;

/// Calls `Histogram::record`. Per the source, a value up to the highest
/// trackable value is always recorded; a failed call changes nothing; a
/// successful one adds one sample to the value's bucket, counted as the
/// bucket's highest value (never below `value`), where the count saturates
/// at `u64::MAX`. With a lowest value of 1 and three significant figures,
/// the first 2048 buckets each hold a single value, so a value below 2048 is
/// counted as itself. A histogram that does not grow keeps its settings.
#[verifier::external_body]
fn histogram_record(h: &mut LatencyHistogram, value: u64) -> (r: Result<(), RecordError>)
    ensures
        value <= histogram_config(*old(h)).1 ==> r is Ok,
        r is Err ==> histogram_samples(*final(h)) == histogram_samples(*old(h)),
        r is Ok ==> histogram_samples(*final(h)) == histogram_samples(*old(h))
            || histogram_samples(*final(h)) == histogram_samples(*old(h)).insert(
            bucket_value(histogram_config(*old(h)).0, histogram_config(*old(h)).2, value),
        ),
        r is Ok && histogram_samples(*old(h)).len() < u64::MAX ==> {
            let w = bucket_value(histogram_config(*old(h)).0, histogram_config(*old(h)).2, value);
            &&& histogram_samples(*final(h)) == histogram_samples(*old(h)).insert(w)
            &&& w >= value
            &&& histogram_config(*old(h)).0 == 1 && histogram_config(*old(h)).2 == 3 && value
                < 2048 ==> w == value
        },
        !histogram_config(*old(h)).3 ==> histogram_config(*final(h)) == histogram_config(*old(h)),
{
    h.histogram.record(value)
}

/// Calls `Histogram::add`. Per the source, a failed call changes nothing, and
/// a histogram that does not grow keeps its settings. When both histograms
/// have the same settings, neither grows, and their sample counts together
/// fit in `u64`, the buckets line up one to one, the call succeeds, and the
/// samples of `source` are added to those of `h`.
#[verifier::external_body]
fn histogram_add(h: &mut LatencyHistogram, source: &LatencyHistogram) -> (r: Result<(), AdditionError>)
    ensures
        r is Err ==> histogram_samples(*final(h)) == histogram_samples(*old(h)),
        !histogram_config(*old(h)).3 ==> histogram_config(*final(h)) == histogram_config(*old(h)),
        histogram_config(*old(h)) == histogram_config(*source) && !histogram_config(*source).3
            && histogram_samples(*old(h)).len() + histogram_samples(*source).len() <= u64::MAX
            ==> r is Ok && histogram_samples(*final(h)) == histogram_samples(*old(h)).add(
            histogram_samples(*source),
        ),
{
    h.histogram.add(&source.histogram)
}

/// The settings of every latency histogram made here: values from 1 µs to
/// 60 s, three significant figures, no growth.
pub open spec fn latency_config() -> (u64, u64, u8, bool) {
    (1, 60_000_000, 3, false)
}

fn new_latency_histogram() -> (h: LatencyHistogram)
    ensures
        histogram_samples(h) =~= Multiset::empty(),
        histogram_config(h) == latency_config(),
{
    histogram_with_bounds(1, 60_000_000, 3).unwrap()
}

// ---------------------------------------------------------------------------
// Error counters
// ---------------------------------------------------------------------------

/// Error counters by category: socket errors (connect, read, write,
/// timeout) and responses with an error status.
#[derive(Clone, Copy, Debug, PartialEq, Eq, Structural)]
pub struct ErrorCounters {
    pub connect: u64,
    pub read: u64,
    pub write: u64,
    pub timeout: u64,
    pub status: u64,
}

/// The number of socket errors of a set of counters.
pub open spec fn socket_errors(e: ErrorCounters) -> int {
    e.connect + e.read + e.write + e.timeout
}

/// Whether two sets of counters can be added field by field in `u64`.
pub open spec fn counters_addable(a: ErrorCounters, b: ErrorCounters) -> bool {
    &&& a.connect + b.connect <= u64::MAX
    &&& a.read + b.read <= u64::MAX
    &&& a.write + b.write <= u64::MAX
    &&& a.timeout + b.timeout <= u64::MAX
    &&& a.status + b.status <= u64::MAX
}

/// The field-by-field sum of two sets of counters.
pub open spec fn counters_sum(a: ErrorCounters, b: ErrorCounters) -> ErrorCounters {
    ErrorCounters {
        connect: (a.connect + b.connect) as u64,
        read: (a.read + b.read) as u64,
        write: (a.write + b.write) as u64,
        timeout: (a.timeout + b.timeout) as u64,
        status: (a.status + b.status) as u64,
    }
}

pub open spec fn zero_counters() -> ErrorCounters {
    ErrorCounters { connect: 0, read: 0, write: 0, timeout: 0, status: 0 }
}

impl Default for ErrorCounters {
    fn default() -> (r: Self)
        ensures
            r == zero_counters(),
    {
        ErrorCounters { connect: 0, read: 0, write: 0, timeout: 0, status: 0 }
    }
}

impl ErrorCounters {
    /// The number of socket errors: connect, read, write and timeout.
    pub fn socket_total(&self) -> (n: u64)
        requires
            socket_errors(*self) <= u64::MAX,
        ensures
            n == socket_errors(*self),
    {
        self.connect + self.read + self.write + self.timeout
    }

    /// Tells whether [`ErrorCounters::socket_total`] can be called: the
    /// total fits in `u64`.
    pub fn socket_total_fits(&self) -> (b: bool)
        ensures
            b == (socket_errors(*self) <= u64::MAX),
    {
        let max: u64 = u64::MAX;
        self.connect <= max - self.read && self.connect + self.read <= max - self.write
            && self.connect + self.read + self.write <= max - self.timeout
    }

    /// Tells whether [`ErrorCounters::merge`] can be called: every sum fits
    /// in `u64`.
    pub fn can_merge(&self, other: &ErrorCounters) -> (b: bool)
        ensures
            b == counters_addable(*self, *other),
    {
        let max: u64 = u64::MAX;
        self.connect <= max - other.connect && self.read <= max - other.read && self.write <= max
            - other.write && self.timeout <= max - other.timeout && self.status <= max - other.status
    }

    /// Adds `other` to these counters, field by field.
    pub fn merge(&mut self, other: &ErrorCounters)
        requires
            counters_addable(*old(self), *other),
        ensures
            *final(self) == counters_sum(*old(self), *other),
    {
        self.connect = self.connect + other.connect;
        self.read = self.read + other.read;
        self.write = self.write + other.write;
        self.timeout = self.timeout + other.timeout;
        self.status = self.status + other.status;
    }
}

/// Merging counters adds their socket-error totals.
pub proof fn lemma_merge_socket_total(a: ErrorCounters, b: ErrorCounters)
    requires
        counters_addable(a, b),
    ensures
        socket_errors(counters_sum(a, b)) == socket_errors(a) + socket_errors(b),
{
}

/// Merging counters does not depend on their order.
pub proof fn lemma_merge_commutes(a: ErrorCounters, b: ErrorCounters)
    requires
        counters_addable(a, b),
    ensures
        counters_addable(b, a),
        counters_sum(a, b) == counters_sum(b, a),
{
}

/// Merging counters does not depend on how they are grouped.
pub proof fn lemma_merge_associates(a: ErrorCounters, b: ErrorCounters, c: ErrorCounters)
    requires
        counters_addable(a, b),
        counters_addable(counters_sum(a, b), c),
    ensures
        counters_addable(b, c),
        counters_addable(a, counters_sum(b, c)),
        counters_sum(counters_sum(a, b), c) == counters_sum(a, counters_sum(b, c)),
{
}

/// Merging zero counters changes nothing.
pub proof fn lemma_merge_zero(a: ErrorCounters)
    ensures
        counters_addable(a, zero_counters()),
        counters_sum(a, zero_counters()) == a,
{
}

/// A latency as it is recorded: at least 1 µs.
pub open spec fn clamped_latency(us: u64) -> u64 {
    if us > 1 {
        us
    } else {
        1
    }
}

/// The sample that recording latency `us` adds to histogram `h`.
pub open spec fn latency_sample(h: LatencyHistogram, us: u64) -> u64 {
    bucket_value(histogram_config(h).0, histogram_config(h).2, clamped_latency(us))
}

/// What recording latency `us` does to the samples of histogram `old`,
/// giving `new`: it adds the sample [`latency_sample`], and surely does so
/// when the latency is within range and the histogram is not full; that
/// sample is never below the latency, and with a lowest value of 1 and three
/// significant figures a latency below 2048 µs is recorded as itself.
pub open spec fn latency_recorded(old: LatencyHistogram, new: LatencyHistogram, us: u64) -> bool {
    let v = clamped_latency(us);
    let w = latency_sample(old, us);
    &&& histogram_samples(new) == histogram_samples(old) || histogram_samples(new)
        == histogram_samples(old).insert(w)
    &&& v <= histogram_config(old).1 && histogram_samples(old).len() < u64::MAX ==> {
        &&& histogram_samples(new) == histogram_samples(old).insert(w)
        &&& w >= v
        &&& histogram_config(old).0 == 1 && histogram_config(old).2 == 3 && v < 2048 ==> w == v
    }
}

// ---------------------------------------------------------------------------
// Per-thread statistics
// ---------------------------------------------------------------------------

/// What one thread (or one connection) measured.
pub struct ThreadStats {
    pub latency: LatencyHistogram,
    pub requests: u64,
    pub errors: ErrorCounters,
    pub bytes: u64,
    pub duration_us: u64,
}

impl ThreadStats {
    /// Empty statistics with a latency histogram for 1 µs to 60 s.
    pub fn new() -> (s: ThreadStats)
        ensures
            s.requests == 0,
            s.errors == zero_counters(),
            s.bytes == 0,
            s.duration_us == 0,
            histogram_samples(s.latency) =~= Multiset::empty(),
            histogram_config(s.latency) == latency_config(),
    {
        ThreadStats {
            latency: new_latency_histogram(),
            requests: 0,
            errors: ErrorCounters::default(),
            bytes: 0,
            duration_us: 0,
        }
    }

    /// Counts one request and records its latency, taken as at least 1 µs.
    /// A latency beyond the histogram's range is counted but not recorded.
    pub fn record_latency(&mut self, us: u64)
        requires
            old(self).requests < u64::MAX,
        ensures
            final(self).requests == old(self).requests + 1,
            final(self).errors == old(self).errors,
            final(self).bytes == old(self).bytes,
            final(self).duration_us == old(self).duration_us,
            latency_recorded(old(self).latency, final(self).latency, us),
            !histogram_config(old(self).latency).3 ==> histogram_config(final(self).latency)
                == histogram_config(old(self).latency),
    {
        let value: u64 = if us > 1 {
            us
        } else {
            1
        };
        let _ = histogram_record(&mut self.latency, value);
        self.requests = self.requests + 1;
    }

    /// Adds `n` to the byte count.
    pub fn add_bytes(&mut self, n: u64)
        requires
            old(self).bytes + n <= u64::MAX,
        ensures
            final(self).bytes == old(self).bytes + n,
            final(self).requests == old(self).requests,
            final(self).errors == old(self).errors,
            final(self).duration_us == old(self).duration_us,
            final(self).latency == old(self).latency,
    {
        self.bytes = self.bytes + n;
    }

    /// Tells whether [`ThreadStats::absorb`] can be called: every sum fits
    /// in `u64`.
    pub fn can_absorb(&self, other: &ThreadStats) -> (b: bool)
        ensures
            b == (self.requests + other.requests <= u64::MAX && self.bytes + other.bytes
                <= u64::MAX && counters_addable(self.errors, other.errors)),
    {
        let max: u64 = u64::MAX;
        self.requests <= max - other.requests && self.bytes <= max - other.bytes
            && self.errors.can_merge(&other.errors)
    }

    /// Adds the counts, errors, bytes and latency samples of `other` (the
    /// statistics of one connection) to these; the duration is left alone.
    pub fn absorb(&mut self, other: &ThreadStats)
        requires
            old(self).requests + other.requests <= u64::MAX,
            old(self).bytes + other.bytes <= u64::MAX,
            counters_addable(old(self).errors, other.errors),
        ensures
            final(self).requests == old(self).requests + other.requests,
            final(self).bytes == old(self).bytes + other.bytes,
            final(self).errors == counters_sum(old(self).errors, other.errors),
            final(self).duration_us == old(self).duration_us,
            !histogram_config(old(self).latency).3 ==> histogram_config(final(self).latency)
                == histogram_config(old(self).latency),
            histogram_config(old(self).latency) == histogram_config(other.latency)
                && !histogram_config(other.latency).3 && histogram_samples(old(self).latency).len()
                + histogram_samples(other.latency).len() <= u64::MAX ==> histogram_samples(
                final(self).latency,
            ) == histogram_samples(old(self).latency).add(histogram_samples(other.latency)),
    {
        self.requests = self.requests + other.requests;
        self.errors.merge(&other.errors);
        self.bytes = self.bytes + other.bytes;
        let _ = histogram_add(&mut self.latency, &other.latency);
    }
}

impl Default for ThreadStats {
    fn default() -> (s: Self)
        ensures
            s.requests == 0,
            s.errors == zero_counters(),
            s.bytes == 0,
            s.duration_us == 0,
            histogram_samples(s.latency) =~= Multiset::empty(),
            histogram_config(s.latency) == latency_config(),
    {
        Self::new()
    }
}

// ---------------------------------------------------------------------------
// Aggregation over threads
// ---------------------------------------------------------------------------

/// The statistics of a whole run.
pub struct AggregateStats {
    pub latency: LatencyHistogram,
    pub requests: u64,
    pub errors: ErrorCounters,
    pub bytes: u64,
    pub duration_us: u64,
}

/// The sum of `f` over the threads.
pub open spec fn sum_over(ts: Seq<ThreadStats>, f: spec_fn(ThreadStats) -> int) -> int
    decreases ts.len(),
{
    if ts.len() == 0 {
        0
    } else {
        sum_over(ts.drop_last(), f) + f(ts.last())
    }
}

/// The longest duration among the threads, 0 for none.
pub open spec fn max_duration(ts: Seq<ThreadStats>) -> u64
    decreases ts.len(),
{
    if ts.len() == 0 {
        0
    } else {
        let m = max_duration(ts.drop_last());
        if ts.last().duration_us > m {
            ts.last().duration_us
        } else {
            m
        }
    }
}

/// All latency samples of the threads together.
pub open spec fn all_samples(ts: Seq<ThreadStats>) -> Multiset<u64>
    decreases ts.len(),
{
    if ts.len() == 0 {
        Multiset::empty()
    } else {
        all_samples(ts.drop_last()).add(histogram_samples(ts.last().latency))
    }
}

pub open spec fn requests_of(t: ThreadStats) -> int {
    t.requests as int
}

pub open spec fn bytes_of(t: ThreadStats) -> int {
    t.bytes as int
}

pub open spec fn connect_errors_of(t: ThreadStats) -> int {
    t.errors.connect as int
}

pub open spec fn read_errors_of(t: ThreadStats) -> int {
    t.errors.read as int
}

pub open spec fn write_errors_of(t: ThreadStats) -> int {
    t.errors.write as int
}

pub open spec fn timeout_errors_of(t: ThreadStats) -> int {
    t.errors.timeout as int
}

pub open spec fn status_errors_of(t: ThreadStats) -> int {
    t.errors.status as int
}

/// Whether every total over the threads fits in `u64`.
pub open spec fn totals_fit(ts: Seq<ThreadStats>) -> bool {
    &&& sum_over(ts, |t: ThreadStats| requests_of(t)) <= u64::MAX
    &&& sum_over(ts, |t: ThreadStats| bytes_of(t)) <= u64::MAX
    &&& sum_over(ts, |t: ThreadStats| connect_errors_of(t)) <= u64::MAX
    &&& sum_over(ts, |t: ThreadStats| read_errors_of(t)) <= u64::MAX
    &&& sum_over(ts, |t: ThreadStats| write_errors_of(t)) <= u64::MAX
    &&& sum_over(ts, |t: ThreadStats| timeout_errors_of(t)) <= u64::MAX
    &&& sum_over(ts, |t: ThreadStats| status_errors_of(t)) <= u64::MAX
}

/// Whether every thread's histogram has the standard latency settings.
pub open spec fn standard_histograms(ts: Seq<ThreadStats>) -> bool {
    forall|i: int| 0 <= i < ts.len() ==> histogram_config(#[trigger] ts[i].latency) == latency_config()
}

proof fn lemma_sum_over_prefix(ts: Seq<ThreadStats>, f: spec_fn(ThreadStats) -> int, k: int)
    requires
        0 <= k <= ts.len(),
        forall|t: ThreadStats| #[trigger] f(t) >= 0,
    ensures
        sum_over(ts.take(k), f) <= sum_over(ts, f),
    decreases ts.len(),
{
    if k < ts.len() {
        lemma_sum_over_prefix(ts.drop_last(), f, k);
        assert(ts.drop_last().take(k) =~= ts.take(k));
        assert(f(ts.last()) >= 0);
    } else {
        assert(ts.take(k) =~= ts);
    }
}

/// Adds up the statistics of all threads: counts, bytes and errors are
/// summed, the duration is the longest one, and the latency samples are
/// pooled.
pub fn merge(threads: Vec<ThreadStats>) -> (agg: AggregateStats)
    requires
        totals_fit(threads@),
    ensures
        agg.requests == sum_over(threads@, |t: ThreadStats| requests_of(t)),
        agg.bytes == sum_over(threads@, |t: ThreadStats| bytes_of(t)),
        agg.errors.connect == sum_over(threads@, |t: ThreadStats| connect_errors_of(t)),
        agg.errors.read == sum_over(threads@, |t: ThreadStats| read_errors_of(t)),
        agg.errors.write == sum_over(threads@, |t: ThreadStats| write_errors_of(t)),
        agg.errors.timeout == sum_over(threads@, |t: ThreadStats| timeout_errors_of(t)),
        agg.errors.status == sum_over(threads@, |t: ThreadStats| status_errors_of(t)),
        agg.duration_us == max_duration(threads@),
        histogram_config(agg.latency) == latency_config(),
        standard_histograms(threads@) && all_samples(threads@).len() <= u64::MAX
            ==> histogram_samples(agg.latency) == all_samples(threads@),
{
    let mut agg = AggregateStats {
        latency: new_latency_histogram(),
        requests: 0,
        errors: ErrorCounters::default(),
        bytes: 0,
        duration_us: 0,
    };
    let ghost ts = threads@;
    let ghost fr = |t: ThreadStats| requests_of(t);
    let ghost fb = |t: ThreadStats| bytes_of(t);
    let ghost fc = |t: ThreadStats| connect_errors_of(t);
    let ghost frd = |t: ThreadStats| read_errors_of(t);
    let ghost fw = |t: ThreadStats| write_errors_of(t);
    let ghost ft = |t: ThreadStats| timeout_errors_of(t);
    let ghost fs = |t: ThreadStats| status_errors_of(t);
    let mut i: usize = 0;
    while i < threads.len()
        invariant
            ts == threads@,
            i <= threads.len(),
            totals_fit(ts),
            fr == (|t: ThreadStats| requests_of(t)),
            fb == (|t: ThreadStats| bytes_of(t)),
            fc == (|t: ThreadStats| connect_errors_of(t)),
            frd == (|t: ThreadStats| read_errors_of(t)),
            fw == (|t: ThreadStats| write_errors_of(t)),
            ft == (|t: ThreadStats| timeout_errors_of(t)),
            fs == (|t: ThreadStats| status_errors_of(t)),
            agg.requests == sum_over(ts.take(i as int), fr),
            agg.bytes == sum_over(ts.take(i as int), fb),
            agg.errors.connect == sum_over(ts.take(i as int), fc),
            agg.errors.read == sum_over(ts.take(i as int), frd),
            agg.errors.write == sum_over(ts.take(i as int), fw),
            agg.errors.timeout == sum_over(ts.take(i as int), ft),
            agg.errors.status == sum_over(ts.take(i as int), fs),
            agg.duration_us == max_duration(ts.take(i as int)),
            histogram_config(agg.latency) == latency_config(),
            standard_histograms(ts) && all_samples(ts).len() <= u64::MAX ==> histogram_samples(
                agg.latency,
            ) == all_samples(ts.take(i as int)),
        decreases threads.len() - i,
    {
        let ghost next = ts.take(i + 1);
        assert(next.drop_last() =~= ts.take(i as int));
        assert(next.last() == ts[i as int]);
        proof {
            lemma_sum_over_prefix(ts, fr, i + 1);
            lemma_sum_over_prefix(ts, fb, i + 1);
            lemma_sum_over_prefix(ts, fc, i + 1);
            lemma_sum_over_prefix(ts, frd, i + 1);
            lemma_sum_over_prefix(ts, fw, i + 1);
            lemma_sum_over_prefix(ts, ft, i + 1);
            lemma_sum_over_prefix(ts, fs, i + 1);
            if standard_histograms(ts) && all_samples(ts).len() <= u64::MAX {
                lemma_all_samples_prefix(ts, i + 1);
            }
        }
        let t = &threads[i];
        let _ = histogram_add(&mut agg.latency, &t.latency);
        agg.requests = agg.requests + t.requests;
        agg.errors.merge(&t.errors);
        agg.bytes = agg.bytes + t.bytes;
        if t.duration_us > agg.duration_us {
            agg.duration_us = t.duration_us;
        }
        i = i + 1;
    }
    assert(ts.take(i as int) =~= ts);
    agg
}

/// Tells whether [`merge`] can be called: every total fits in `u64`.
pub fn totals_in_range(threads: &Vec<ThreadStats>) -> (b: bool)
    ensures
        b == totals_fit(threads@),
{
    let ghost ts = threads@;
    let ghost fr = |t: ThreadStats| requests_of(t);
    let ghost fb = |t: ThreadStats| bytes_of(t);
    let ghost fc = |t: ThreadStats| connect_errors_of(t);
    let ghost frd = |t: ThreadStats| read_errors_of(t);
    let ghost fw = |t: ThreadStats| write_errors_of(t);
    let ghost ft = |t: ThreadStats| timeout_errors_of(t);
    let ghost fs = |t: ThreadStats| status_errors_of(t);
    let mut requests: u64 = 0;
    let mut bytes: u64 = 0;
    let mut sums = ErrorCounters { connect: 0, read: 0, write: 0, timeout: 0, status: 0 };
    let mut i: usize = 0;
    while i < threads.len()
        invariant
            ts == threads@,
            i <= threads.len(),
            fr == (|t: ThreadStats| requests_of(t)),
            fb == (|t: ThreadStats| bytes_of(t)),
            fc == (|t: ThreadStats| connect_errors_of(t)),
            frd == (|t: ThreadStats| read_errors_of(t)),
            fw == (|t: ThreadStats| write_errors_of(t)),
            ft == (|t: ThreadStats| timeout_errors_of(t)),
            fs == (|t: ThreadStats| status_errors_of(t)),
            requests == sum_over(ts.take(i as int), fr),
            bytes == sum_over(ts.take(i as int), fb),
            sums.connect == sum_over(ts.take(i as int), fc),
            sums.read == sum_over(ts.take(i as int), frd),
            sums.write == sum_over(ts.take(i as int), fw),
            sums.timeout == sum_over(ts.take(i as int), ft),
            sums.status == sum_over(ts.take(i as int), fs),
        decreases threads.len() - i,
    {
        let ghost next = ts.take(i + 1);
        assert(next.drop_last() =~= ts.take(i as int));
        assert(next.last() == ts[i as int]);
        proof {
            lemma_sum_over_prefix(ts, fr, i + 1);
            lemma_sum_over_prefix(ts, fb, i + 1);
            lemma_sum_over_prefix(ts, fc, i + 1);
            lemma_sum_over_prefix(ts, frd, i + 1);
            lemma_sum_over_prefix(ts, fw, i + 1);
            lemma_sum_over_prefix(ts, ft, i + 1);
            lemma_sum_over_prefix(ts, fs, i + 1);
        }
        let t = &threads[i];
        if requests > u64::MAX - t.requests || bytes > u64::MAX - t.bytes || !sums.can_merge(
            &t.errors,
        ) {
            return false;
        }
        requests = requests + t.requests;
        bytes = bytes + t.bytes;
        sums.merge(&t.errors);
        i = i + 1;
    }
    assert(ts.take(i as int) =~= ts);
    true
}

proof fn lemma_all_samples_prefix(ts: Seq<ThreadStats>, k: int)
    requires
        0 <= k <= ts.len(),
    ensures
        all_samples(ts.take(k)).len() <= all_samples(ts).len(),
    decreases ts.len(),
{
    if k < ts.len() {
        lemma_all_samples_prefix(ts.drop_last(), k);
        assert(ts.drop_last().take(k) =~= ts.take(k));
    } else {
        assert(ts.take(k) =~= ts);
    }
}

/// Taking out the thread at `j` takes its share out of a sum, its duration
/// out of the longest one and its samples out of the pooled ones.
proof fn lemma_remove_thread(ts: Seq<ThreadStats>, j: int, f: spec_fn(ThreadStats) -> int)
    requires
        0 <= j < ts.len(),
    ensures
        sum_over(ts, f) == sum_over(ts.remove(j), f) + f(ts[j]),
        max_duration(ts) == (if ts[j].duration_us > max_duration(ts.remove(j)) {
            ts[j].duration_us
        } else {
            max_duration(ts.remove(j))
        }),
        all_samples(ts) =~= all_samples(ts.remove(j)).add(histogram_samples(ts[j].latency)),
    decreases ts.len(),
{
    if j == ts.len() - 1 {
        assert(ts.remove(j) =~= ts.drop_last());
    } else {
        lemma_remove_thread(ts.drop_last(), j, f);
        assert(ts.remove(j).drop_last() =~= ts.drop_last().remove(j));
        assert(ts.remove(j).last() == ts.last());
        assert(ts.drop_last()[j] == ts[j]);
    }
}

proof fn lemma_permuted_threads(a: Seq<ThreadStats>, b: Seq<ThreadStats>, f: spec_fn(ThreadStats) -> int)
    requires
        a.to_multiset() == b.to_multiset(),
    ensures
        sum_over(a, f) == sum_over(b, f),
        max_duration(a) == max_duration(b),
        all_samples(a) == all_samples(b),
    decreases a.len(),
{
    broadcast use vstd::seq_lib::group_to_multiset_ensures;
    broadcast use vstd::multiset::group_multiset_axioms;

    if a.len() == 0 {
        assert(b.to_multiset().len() == 0);
        assert(b =~= Seq::<ThreadStats>::empty());
    } else {
        let x = a.last();
        let rest = a.drop_last();
        assert(rest.push(x) =~= a);
        assert(a.to_multiset() =~= rest.to_multiset().insert(x));
        assert(b.to_multiset().count(x) > 0);
        assert(b.contains(x));
        let j = choose|j: int| 0 <= j < b.len() && b[j] == x;
        assert(b.remove(j).to_multiset() =~= rest.to_multiset());
        lemma_permuted_threads(rest, b.remove(j), f);
        lemma_remove_thread(b, j, f);
    }
}

/// Merging does not depend on the order of the threads: any two lists with
/// the same threads give the same totals, the same longest duration and the
/// same pooled samples, and either both meet the conditions of [`merge`] or
/// neither does.
pub proof fn lemma_merge_order_independent(a: Seq<ThreadStats>, b: Seq<ThreadStats>)
    requires
        a.to_multiset() == b.to_multiset(),
    ensures
        forall|f: spec_fn(ThreadStats) -> int| #[trigger] sum_over(a, f) == sum_over(b, f),
        max_duration(a) == max_duration(b),
        all_samples(a) == all_samples(b),
        totals_fit(a) == totals_fit(b),
        standard_histograms(a) == standard_histograms(b),
{
    broadcast use vstd::seq_lib::group_to_multiset_ensures;

    assert forall|f: spec_fn(ThreadStats) -> int| #[trigger] sum_over(a, f) == sum_over(b, f) by {
        lemma_permuted_threads(a, b, f);
    }
    lemma_permuted_threads(a, b, |t: ThreadStats| requests_of(t));
    assert(standard_histograms(a) == standard_histograms(b)) by {
        if standard_histograms(a) {
            assert forall|i: int| 0 <= i < b.len() implies histogram_config(
                #[trigger] b[i].latency,
            ) == latency_config() by {
                assert(b.to_multiset().count(b[i]) > 0);
                assert(a.contains(b[i]));
            }
        }
        if standard_histograms(b) {
            assert forall|i: int| 0 <= i < a.len() implies histogram_config(
                #[trigger] a[i].latency,
            ) == latency_config() by {
                assert(a.to_multiset().count(a[i]) > 0);
                assert(b.contains(a[i]));
            }
        }
    }
}

} // verus!
