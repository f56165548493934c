//! The Prometheus text exposition of the fixed metric set: request counts,
//! response classes, the latency histogram, the 503 count, the decode
//! gauges, and build info.
//!
//! Counters wrap at `u64::MAX`, as the atomic counters they model do.

use vstd::prelude::*;
use crate::grammar::{padded_text, push_padded, push_str};
use crate::text::{nat_text, push_u64};
use crate::version::{VERSION, REVISION};
use vstd::arithmetic::div_mod::{lemma_fundamental_div_mod, lemma_mod_multiples_vanish};

verus! {

/// Upper bounds of the latency histogram buckets, in nanoseconds (5 ms to
/// 10 s); a final `+Inf` bucket follows.
pub open spec fn bucket_bound(i: int) -> nat {
    if i == 0 {
        5_000_000
    } else if i == 1 {
        10_000_000
    } else if i == 2 {
        25_000_000
    } else if i == 3 {
        50_000_000
    } else if i == 4 {
        100_000_000
    } else if i == 5 {
        250_000_000
    } else if i == 6 {
        500_000_000
    } else if i == 7 {
        1_000_000_000
    } else if i == 8 {
        2_500_000_000
    } else {
        10_000_000_000
    }
}

/// The `le` label of each bounded bucket, in seconds.
pub open spec fn bucket_label(i: int) -> Seq<char> {
    if i == 0 {
        "0.005"@
    } else if i == 1 {
        "0.01"@
    } else if i == 2 {
        "0.025"@
    } else if i == 3 {
        "0.05"@
    } else if i == 4 {
        "0.1"@
    } else if i == 5 {
        "0.25"@
    } else if i == 6 {
        "0.5"@
    } else if i == 7 {
        "1"@
    } else if i == 8 {
        "2.5"@
    } else {
        "10"@
    }
}

/// The bucket an observation of `nanos` lands in: the first bound it does
/// not exceed, or the `+Inf` bucket (index 10).
pub open spec fn bucket_of(nanos: nat) -> int {
    if nanos <= bucket_bound(0) {
        0
    } else if nanos <= bucket_bound(1) {
        1
    } else if nanos <= bucket_bound(2) {
        2
    } else if nanos <= bucket_bound(3) {
        3
    } else if nanos <= bucket_bound(4) {
        4
    } else if nanos <= bucket_bound(5) {
        5
    } else if nanos <= bucket_bound(6) {
        6
    } else if nanos <= bucket_bound(7) {
        7
    } else if nanos <= bucket_bound(8) {
        8
    } else if nanos <= bucket_bound(9) {
        9
    } else {
        10
    }
}

/// Which request family a hit belongs to, for the counter labels.
#[derive(Debug, Clone, Copy, PartialEq, Eq, Structural)]
#[non_exhaustive]
pub enum Family {
    /// info.json requests.
    Info,
    /// Image (pixel) requests.
    Image,
    /// Everything else (health, favicon, errors).
    Other,
}

/// Process-lifetime counters.
#[derive(Debug)]
pub struct Metrics {
    /// info.json requests served, whichever API version.
    requests_info: u64,
    /// Image requests served, whichever API version.
    requests_image: u64,
    /// Everything else: health, metrics, redirects, unroutable paths.
    requests_other: u64,
    /// Responses with a 2xx status.
    responses_2xx: u64,
    /// Responses with a 3xx status.
    responses_3xx: u64,
    /// Responses with a 4xx status.
    responses_4xx: u64,
    /// Responses with a 5xx status (and any status outside 200–499).
    responses_5xx: u64,
    /// Requests refused by the admission bound (503), counted apart from
    /// the 5xx total.
    overload_503: u64,
    /// Per-bucket histogram counts: ten bounded buckets, then `+Inf`.
    latency_buckets: Vec<u64>,
    /// Total observed latency in microseconds — the histogram's `_sum`.
    latency_sum_micros: u64,
    /// Number of observations — the histogram's `_count`.
    latency_count: u64,
}

/// `a + b` wrapping at 2^64.
pub open spec fn wrap_add(a: u64, b: nat) -> u64 {
    ((a + b) % 0x1_0000_0000_0000_0000) as u64
}

/// The abstract state of the registry.
pub struct MetricsView {
    /// Requests per family: info, image, other.
    pub requests: (u64, u64, u64),
    /// Responses per class: 2xx, 3xx, 4xx, 5xx.
    pub responses: (u64, u64, u64, u64),
    /// 503 responses.
    pub overload: u64,
    /// Per-bucket latency counts (eleven).
    pub buckets: Seq<u64>,
    /// Latency sum in microseconds.
    pub sum_micros: u64,
    /// Observation count.
    pub count: u64,
}

impl View for Metrics {
    type V = MetricsView;

    closed spec fn view(&self) -> MetricsView {
        MetricsView {
            requests: (self.requests_info, self.requests_image, self.requests_other),
            responses: (self.responses_2xx, self.responses_3xx, self.responses_4xx, self.responses_5xx),
            overload: self.overload_503,
            buckets: self.latency_buckets@,
            sum_micros: self.latency_sum_micros,
            count: self.latency_count,
        }
    }
}

/// The sum of a sequence of counters.
pub open spec fn total(s: Seq<u64>) -> nat
    decreases s.len(),
{
    if s.len() == 0 {
        0
    } else {
        total(s.drop_last()) + (s.last() as nat)
    }
}

/// The registry's bookkeeping: eleven buckets, and every observation
/// counted once per family, once per status class and once in the
/// histogram (all modulo 2^64).
pub open spec fn metrics_consistent(v: MetricsView) -> bool {
    &&& v.buckets.len() == 11
    &&& (v.requests.0 + v.requests.1 + v.requests.2) % 0x1_0000_0000_0000_0000 == v.count as int
    &&& (v.responses.0 + v.responses.1 + v.responses.2 + v.responses.3) % 0x1_0000_0000_0000_0000
        == v.count as int
    &&& total(v.buckets) % 0x1_0000_0000_0000_0000 == v.count as int
}

/// The state after observing one request of `family` answered with
/// `status` after `nanos` nanoseconds.
pub open spec fn observed(v: MetricsView, family: Family, status: u16, nanos: nat) -> MetricsView {
    let class = status / 100;
    MetricsView {
        requests: match family {
            Family::Info => (wrap_add(v.requests.0, 1), v.requests.1, v.requests.2),
            Family::Image => (v.requests.0, wrap_add(v.requests.1, 1), v.requests.2),
            Family::Other => (v.requests.0, v.requests.1, wrap_add(v.requests.2, 1)),
        },
        responses: if class == 2 {
            (wrap_add(v.responses.0, 1), v.responses.1, v.responses.2, v.responses.3)
        } else if class == 3 {
            (v.responses.0, wrap_add(v.responses.1, 1), v.responses.2, v.responses.3)
        } else if class == 4 {
            (v.responses.0, v.responses.1, wrap_add(v.responses.2, 1), v.responses.3)
        } else {
            (v.responses.0, v.responses.1, v.responses.2, wrap_add(v.responses.3, 1))
        },
        overload: if status == 503 {
            wrap_add(v.overload, 1)
        } else {
            v.overload
        },
        buckets: v.buckets.update(bucket_of(nanos), wrap_add(v.buckets[bucket_of(nanos)], 1)),
        sum_micros: wrap_add(
            v.sum_micros,
            if nanos / 1000 > u64::MAX {
                u64::MAX as nat
            } else {
                nanos / 1000
            },
        ),
        count: wrap_add(v.count, 1),
    }
}

/// `(a + b) mod 2^64`, computed.
fn wadd(a: u64, b: u64) -> (r: u64)
    ensures
        r == wrap_add(a, b as nat),
{
    if a as u128 + b as u128 >= 0x1_0000_0000_0000_0000u128 {
        ((a as u128 + b as u128) - 0x1_0000_0000_0000_0000u128) as u64
    } else {
        a + b
    }
}

/// Adding one to an element adds one to the total.
proof fn lemma_total_update(s: Seq<u64>, i: int, x: u64)
    requires
        0 <= i < s.len(),
    ensures
        total(s.update(i, x)) == total(s) - s[i] + x,
    decreases s.len(),
{
    if i == s.len() - 1 {
        assert(s.update(i, x).drop_last() =~= s.drop_last());
    } else {
        lemma_total_update(s.drop_last(), i, x);
        assert(s.update(i, x).drop_last() =~= s.drop_last().update(i, x));
    }
}

/// Reducing one summand modulo `m` first does not change the sum modulo `m`.
proof fn lemma_mod_first(a: int, b: int, m: int)
    requires
        m > 0,
        a >= 0,
    ensures
        ((a % m) + b) % m == (a + b) % m,
{
    lemma_fundamental_div_mod(a, m);
    lemma_mod_multiples_vanish(a / m, (a % m) + b, m);
    assert(m * (a / m) + ((a % m) + b) == a + b);
}

/// A counter never exceeds the total of its sequence.
proof fn lemma_total_ge(s: Seq<u64>, i: int)
    requires
        0 <= i < s.len(),
    ensures
        total(s) >= s[i],
    decreases s.len(),
{
    if i < s.len() - 1 {
        lemma_total_ge(s.drop_last(), i);
    }
}

/// Observing a request keeps the bookkeeping consistent: the family
/// counters, the status classes and the histogram buckets each still add
/// up to the observation count (modulo 2^64).
#[verifier::rlimit(40)]
pub proof fn lemma_observed_consistent(v: MetricsView, family: Family, status: u16, nanos: nat)
    requires
        metrics_consistent(v),
    ensures
        metrics_consistent(observed(v, family, status, nanos)),
{
    let m: int = 0x1_0000_0000_0000_0000;
    let w = observed(v, family, status, nanos);
    let count = v.count as int;
    let (r0, r1, r2) = (v.requests.0 as int, v.requests.1 as int, v.requests.2 as int);
    let (s0, s1, s2, s3) = (
        v.responses.0 as int,
        v.responses.1 as int,
        v.responses.2 as int,
        v.responses.3 as int,
    );
    // The count.
    lemma_mod_first(r0 + r1 + r2, 1, m);
    assert(w.count as int == (r0 + r1 + r2 + 1) % m);
    // Families.
    match family {
        Family::Info => lemma_mod_first(r0 + 1, r1 + r2, m),
        Family::Image => lemma_mod_first(r1 + 1, r0 + r2, m),
        Family::Other => lemma_mod_first(r2 + 1, r0 + r1, m),
    }
    // Classes.
    lemma_mod_first(s0 + s1 + s2 + s3, 1, m);
    let class = status / 100;
    if class == 2 {
        lemma_mod_first(s0 + 1, s1 + s2 + s3, m);
    } else if class == 3 {
        lemma_mod_first(s1 + 1, s0 + s2 + s3, m);
    } else if class == 4 {
        lemma_mod_first(s2 + 1, s0 + s1 + s3, m);
    } else {
        lemma_mod_first(s3 + 1, s0 + s1 + s2, m);
    }
    // Buckets.
    let i = bucket_of(nanos);
    let b = v.buckets[i] as int;
    let t = total(v.buckets) as int;
    lemma_total_update(v.buckets, i, wrap_add(v.buckets[i], 1));
    lemma_total_ge(v.buckets, i);
    lemma_mod_first(b + 1, t - b, m);
    lemma_mod_first(t, 1, m);
}

impl Metrics {
    /// The histogram always has its eleven buckets.
    #[verifier::type_invariant]
    spec fn has_all_buckets(self) -> bool {
        self.latency_buckets@.len() == 11
    }

    /// A registry with every counter at zero.
    pub fn new() -> (m: Metrics)
        ensures
            m@.requests == (0u64, 0u64, 0u64),
            m@.responses == (0u64, 0u64, 0u64, 0u64),
            m@.overload == 0,
            m@.buckets == Seq::new(11, |i: int| 0u64),
            m@.sum_micros == 0,
            m@.count == 0,
            m@ == fresh_metrics(),
            metrics_consistent(m@),
    {
        let buckets = vec![0u64; 11];
        let m = Metrics {
            requests_info: 0,
            requests_image: 0,
            requests_other: 0,
            responses_2xx: 0,
            responses_3xx: 0,
            responses_4xx: 0,
            responses_5xx: 0,
            overload_503: 0,
            latency_buckets: buckets,
            latency_sum_micros: 0,
            latency_count: 0,
        };
        assert(m@.buckets =~= Seq::new(11, |i: int| 0u64));
        proof {
            reveal_with_fuel(total, 12);
        }
        m
    }

    /// Records one finished request of `family`, answered with `status`
    /// after `elapsed_nanos` nanoseconds, in its family's counter, its
    /// status class, the 503 count and the latency histogram.
    pub fn observe(&mut self, family: Family, status: u16, elapsed_nanos: u128)
        ensures
            final(self)@.buckets.len() == 11,
            final(self)@ == observed(old(self)@, family, status, elapsed_nanos as nat),
            metrics_consistent(old(self)@) ==> metrics_consistent(final(self)@),
    {
        proof {
            use_type_invariant(&*self);
        }
        match family {
            Family::Info => {
                self.requests_info = wadd(self.requests_info, 1);
            },
            Family::Image => {
                self.requests_image = wadd(self.requests_image, 1);
            },
            Family::Other => {
                self.requests_other = wadd(self.requests_other, 1);
            },
        }
        let class = status / 100;
        if class == 2 {
            self.responses_2xx = wadd(self.responses_2xx, 1);
        } else if class == 3 {
            self.responses_3xx = wadd(self.responses_3xx, 1);
        } else if class == 4 {
            self.responses_4xx = wadd(self.responses_4xx, 1);
        } else {
            self.responses_5xx = wadd(self.responses_5xx, 1);
        }
        if status == 503 {
            self.overload_503 = wadd(self.overload_503, 1);
        }
        let index: usize = bucket_index(elapsed_nanos);
        let old_bucket = self.latency_buckets[index];
        let mut buckets = self.latency_buckets.clone();
        assert(buckets@ =~= self.latency_buckets@);
        buckets.set(index, wadd(old_bucket, 1));
        self.latency_buckets = buckets;
        let micros = elapsed_nanos / 1000;
        let micros: u64 = if micros > 0xFFFF_FFFF_FFFF_FFFFu128 {
            0xFFFF_FFFF_FFFF_FFFFu64
        } else {
            micros as u64
        };
        self.latency_sum_micros = wadd(self.latency_sum_micros, micros);
        self.latency_count = wadd(self.latency_count, 1);
        proof {
            if metrics_consistent(old(self)@) {
                lemma_observed_consistent(old(self)@, family, status, elapsed_nanos as nat);
            }
        }
    }
}

/// The bucket index of an observation.
fn bucket_index(nanos: u128) -> (i: usize)
    ensures
        i == bucket_of(nanos as nat),
        i <= 10,
{
    if nanos <= 5_000_000 {
        0
    } else if nanos <= 10_000_000 {
        1
    } else if nanos <= 25_000_000 {
        2
    } else if nanos <= 50_000_000 {
        3
    } else if nanos <= 100_000_000 {
        4
    } else if nanos <= 250_000_000 {
        5
    } else if nanos <= 500_000_000 {
        6
    } else if nanos <= 1_000_000_000 {
        7
    } else if nanos <= 2_500_000_000 {
        8
    } else if nanos <= 10_000_000_000 {
        9
    } else {
        10
    }
}

/// The cumulative count of the first `k` buckets (modulo 2^64).
pub open spec fn cumulative(b: Seq<u64>, k: int) -> u64 {
    (total(b.take(k)) % 0x1_0000_0000_0000_0000) as u64
}

/// A longer prefix of counters has at least the total of a shorter one.
proof fn lemma_total_prefix_grows(s: Seq<u64>, j: int, k: int)
    requires
        0 <= j <= k <= s.len(),
    ensures
        total(s.take(j)) <= total(s.take(k)),
    decreases k - j,
{
    if j < k {
        assert(s.take(k).drop_last() =~= s.take(k - 1));
        lemma_total_prefix_grows(s, j, k - 1);
    }
}

/// The histogram's printed buckets never decrease, and its `+Inf` bucket is
/// the observation count. For a consistent registry whose bucket counts
/// have not wrapped past 2^64, the cumulative count of the first `j`
/// buckets is at most that of the first `k` for `j <= k`; and the
/// cumulative count over all eleven buckets, the `+Inf` line, equals the
/// `_count` line.
pub proof fn lemma_histogram_cumulative(v: MetricsView, j: int, k: int)
    requires
        metrics_consistent(v),
        total(v.buckets) < 0x1_0000_0000_0000_0000,
        0 <= j <= k <= 11,
    ensures
        cumulative(v.buckets, j) <= cumulative(v.buckets, k),
        cumulative(v.buckets, 11) == v.count,
{
    lemma_total_prefix_grows(v.buckets, j, k);
    lemma_total_prefix_grows(v.buckets, k, 11);
    assert(v.buckets.take(11) =~= v.buckets);
}

/// The registry as [`Metrics::new`] makes it: every counter at zero.
pub open spec fn fresh_metrics() -> MetricsView {
    MetricsView {
        requests: (0u64, 0u64, 0u64),
        responses: (0u64, 0u64, 0u64, 0u64),
        overload: 0,
        buckets: Seq::new(11, |i: int| 0u64),
        sum_micros: 0,
        count: 0,
    }
}

/// The registry after observing `run` (family, status, nanoseconds) in
/// order, from `v`.
pub open spec fn observed_run(v: MetricsView, run: Seq<(Family, u16, nat)>) -> MetricsView
    decreases run.len(),
{
    if run.len() == 0 {
        v
    } else {
        observed(observed_run(v, run.drop_last()), run.last().0, run.last().1, run.last().2)
    }
}

/// One observation, short of wrapping, adds one to the histogram's total
/// and to the count.
proof fn lemma_observed_counts(v: MetricsView, family: Family, status: u16, nanos: nat)
    requires
        v.buckets.len() == 11,
        total(v.buckets) == v.count,
        v.count + 1 < 0x1_0000_0000_0000_0000,
    ensures
        total(observed(v, family, status, nanos).buckets) == v.count + 1,
        observed(v, family, status, nanos).count == v.count + 1,
{
    let i = bucket_of(nanos);
    lemma_total_ge(v.buckets, i);
    assert(wrap_add(v.buckets[i], 1) == v.buckets[i] + 1);
    lemma_total_update(v.buckets, i, wrap_add(v.buckets[i], 1));
}

/// A run of observations from a fresh registry keeps it consistent, and
/// while fewer than 2^64 requests have been observed the histogram counts
/// each exactly once.
proof fn lemma_run_counts(run: Seq<(Family, u16, nat)>)
    requires
        run.len() < 0x1_0000_0000_0000_0000,
    ensures
        metrics_consistent(observed_run(fresh_metrics(), run)),
        total(observed_run(fresh_metrics(), run).buckets) == run.len(),
        observed_run(fresh_metrics(), run).count == run.len(),
        observed_run(fresh_metrics(), run).buckets.len() == 11,
    decreases run.len(),
{
    if run.len() == 0 {
        reveal_with_fuel(total, 12);
    } else {
        let prev = run.drop_last();
        lemma_run_counts(prev);
        let v = observed_run(fresh_metrics(), prev);
        let f = run.last().0;
        let st = run.last().1;
        let n = run.last().2;
        assert(observed_run(fresh_metrics(), run) == observed(v, f, st, n));
        lemma_observed_consistent(v, f, st, n);
        lemma_observed_counts(v, f, st, n);
    }
}

/// Over any run of fewer than 2^64 observations from a fresh registry, the
/// printed histogram buckets never decrease and the `+Inf` bucket equals the
/// `_count`, which is the number of observations.
pub proof fn lemma_run_histogram(run: Seq<(Family, u16, nat)>, j: int, k: int)
    requires
        run.len() < 0x1_0000_0000_0000_0000,
        0 <= j <= k <= 11,
    ensures
        ({
            let w = observed_run(fresh_metrics(), run);
            &&& cumulative(w.buckets, j) <= cumulative(w.buckets, k)
            &&& cumulative(w.buckets, 11) == w.count
            &&& w.count == run.len()
        }),
{
    lemma_run_counts(run);
    lemma_histogram_cumulative(observed_run(fresh_metrics(), run), j, k);
}

/// The bounded-bucket lines of the histogram, for the first `k` buckets.
pub open spec fn bucket_lines(b: Seq<u64>, k: nat) -> Seq<char>
    decreases k,
{
    if k == 0 {
        Seq::empty()
    } else {
        bucket_lines(b, (k - 1) as nat) + "iiif_request_duration_seconds_bucket{le=\""@ + bucket_label(
            k - 1,
        ) + "\"} "@ + nat_text(cumulative(b, k as int) as nat) + "\n"@
    }
}

/// The Prometheus text of the registry in state `v`, for a build of
/// `revision` with the given decode gauges.
pub open spec fn metrics_text(v: MetricsView, revision: Seq<char>, in_flight: u64, queued: u64) -> Seq<char> {
    "# HELP iiif_build_info Build identity of the running binary; the value is always 1.\n# TYPE iiif_build_info gauge\niiif_build_info{version=\""@
        + VERSION@ + "\",revision=\""@ + revision + "\"} 1\n"@
        + "# HELP iiif_requests_total Requests received, by endpoint family.\n# TYPE iiif_requests_total counter\niiif_requests_total{family=\"info\"} "@
        + nat_text(v.requests.0 as nat) + "\niiif_requests_total{family=\"image\"} "@ + nat_text(
        v.requests.1 as nat,
    ) + "\niiif_requests_total{family=\"other\"} "@ + nat_text(v.requests.2 as nat) + "\n"@
        + "# HELP iiif_responses_total Responses sent, by status class.\n# TYPE iiif_responses_total counter\niiif_responses_total{class=\"2xx\"} "@
        + nat_text(v.responses.0 as nat) + "\niiif_responses_total{class=\"3xx\"} "@ + nat_text(
        v.responses.1 as nat,
    ) + "\niiif_responses_total{class=\"4xx\"} "@ + nat_text(v.responses.2 as nat)
        + "\niiif_responses_total{class=\"5xx\"} "@ + nat_text(v.responses.3 as nat) + "\n"@
        + "# HELP iiif_overload_total Requests shed with 503.\n# TYPE iiif_overload_total counter\niiif_overload_total "@
        + nat_text(v.overload as nat) + "\n"@
        + "# HELP iiif_request_duration_seconds Request latency.\n# TYPE iiif_request_duration_seconds histogram\n"@
        + bucket_lines(v.buckets, 10) + "iiif_request_duration_seconds_bucket{le=\"+Inf\"} "@
        + nat_text(cumulative(v.buckets, 11) as nat) + "\niiif_request_duration_seconds_sum "@
        + nat_text(v.sum_micros as nat / 1_000_000) + "."@ + padded_text(
        v.sum_micros as nat % 1_000_000,
        6,
    ) + "\niiif_request_duration_seconds_count "@ + nat_text(v.count as nat) + "\n"@
        + "# HELP iiif_decode_in_flight Decodes currently executing.\n# TYPE iiif_decode_in_flight gauge\niiif_decode_in_flight "@
        + nat_text(in_flight as nat)
        + "\n# HELP iiif_decode_queued Requests admitted and waiting for a worker.\n# TYPE iiif_decode_queued gauge\niiif_decode_queued "@
        + nat_text(queued as nat) + "\n"@
}

/// The `le` label of bucket `i`.
fn label_of(i: usize) -> (s: &'static str)
    requires
        i < 10,
    ensures
        s@ == bucket_label(i as int),
{
    if i == 0 {
        "0.005"
    } else if i == 1 {
        "0.01"
    } else if i == 2 {
        "0.025"
    } else if i == 3 {
        "0.05"
    } else if i == 4 {
        "0.1"
    } else if i == 5 {
        "0.25"
    } else if i == 6 {
        "0.5"
    } else if i == 7 {
        "1"
    } else if i == 8 {
        "2.5"
    } else {
        "10"
    }
}

impl Metrics {
    /// Renders the Prometheus text format for a build of `revision`.
    /// `in_flight` and `queued` are point-in-time gauges the caller derives
    /// from its semaphores.
    pub fn render_for(&self, revision: &str, in_flight: u64, queued: u64) -> (s: String)
        ensures
            s@ == metrics_text(self@, revision@, in_flight, queued),
    {
        proof {
            use_type_invariant(self);
        }
        let mut out = String::new();
        push_str(
            &mut out,
            "# HELP iiif_build_info Build identity of the running binary; the value is always 1.\n# TYPE iiif_build_info gauge\niiif_build_info{version=\"",
        );
        push_str(&mut out, VERSION);
        push_str(&mut out, "\",revision=\"");
        push_str(&mut out, revision);
        push_str(&mut out, "\"} 1\n");
        push_str(
            &mut out,
            "# HELP iiif_requests_total Requests received, by endpoint family.\n# TYPE iiif_requests_total counter\niiif_requests_total{family=\"info\"} ",
        );
        push_u64(&mut out, self.requests_info);
        push_str(&mut out, "\niiif_requests_total{family=\"image\"} ");
        push_u64(&mut out, self.requests_image);
        push_str(&mut out, "\niiif_requests_total{family=\"other\"} ");
        push_u64(&mut out, self.requests_other);
        push_str(&mut out, "\n");
        let ghost part1 = out@;
        self.push_responses(&mut out);
        let ghost part2 = out@;
        self.push_histogram(&mut out);
        let ghost part3 = out@;
        push_str(
            &mut out,
            "# HELP iiif_decode_in_flight Decodes currently executing.\n# TYPE iiif_decode_in_flight gauge\niiif_decode_in_flight ",
        );
        push_u64(&mut out, in_flight);
        push_str(
            &mut out,
            "\n# HELP iiif_decode_queued Requests admitted and waiting for a worker.\n# TYPE iiif_decode_queued gauge\niiif_decode_queued ",
        );
        push_u64(&mut out, queued);
        push_str(&mut out, "\n");
        assert(out@ =~= metrics_text(self@, revision@, in_flight, queued));
        out
    }

    /// Renders the Prometheus text format for a build outside the release
    /// pipeline.
    pub fn render(&self, in_flight: u64, queued: u64) -> (s: String)
        ensures
            s@ == metrics_text(self@, REVISION@, in_flight, queued),
    {
        self.render_for(REVISION, in_flight, queued)
    }

    /// Appends the response-class and overload counters.
    fn push_responses(&self, out: &mut String)
        ensures
            final(out)@ == old(out)@
                + "# HELP iiif_responses_total Responses sent, by status class.\n# TYPE iiif_responses_total counter\niiif_responses_total{class=\"2xx\"} "@
                + nat_text(self@.responses.0 as nat) + "\niiif_responses_total{class=\"3xx\"} "@
                + nat_text(self@.responses.1 as nat) + "\niiif_responses_total{class=\"4xx\"} "@
                + nat_text(self@.responses.2 as nat) + "\niiif_responses_total{class=\"5xx\"} "@
                + nat_text(self@.responses.3 as nat) + "\n"@
                + "# HELP iiif_overload_total Requests shed with 503.\n# TYPE iiif_overload_total counter\niiif_overload_total "@
                + nat_text(self@.overload as nat) + "\n"@,
    {
        push_str(
            out,
            "# HELP iiif_responses_total Responses sent, by status class.\n# TYPE iiif_responses_total counter\niiif_responses_total{class=\"2xx\"} ",
        );
        push_u64(out, self.responses_2xx);
        push_str(out, "\niiif_responses_total{class=\"3xx\"} ");
        push_u64(out, self.responses_3xx);
        push_str(out, "\niiif_responses_total{class=\"4xx\"} ");
        push_u64(out, self.responses_4xx);
        push_str(out, "\niiif_responses_total{class=\"5xx\"} ");
        push_u64(out, self.responses_5xx);
        push_str(out, "\n");
        push_str(
            out,
            "# HELP iiif_overload_total Requests shed with 503.\n# TYPE iiif_overload_total counter\niiif_overload_total ",
        );
        push_u64(out, self.overload_503);
        push_str(out, "\n");
    }

    /// Appends the latency histogram.
    fn push_histogram(&self, out: &mut String)
        requires
            self@.buckets.len() == 11,
        ensures
            final(out)@ == old(out)@
                + "# HELP iiif_request_duration_seconds Request latency.\n# TYPE iiif_request_duration_seconds histogram\n"@
                + bucket_lines(self@.buckets, 10) + "iiif_request_duration_seconds_bucket{le=\"+Inf\"} "@
                + nat_text(cumulative(self@.buckets, 11) as nat) + "\niiif_request_duration_seconds_sum "@
                + nat_text(self@.sum_micros as nat / 1_000_000) + "."@ + padded_text(
                self@.sum_micros as nat % 1_000_000,
                6,
            ) + "\niiif_request_duration_seconds_count "@ + nat_text(self@.count as nat) + "\n"@,
    {
        push_str(
            out,
            "# HELP iiif_request_duration_seconds Request latency.\n# TYPE iiif_request_duration_seconds histogram\n",
        );
        let ghost start = out@;
        let b = &self.latency_buckets;
        let mut cum: u64 = 0;
        let mut i: usize = 0;
        assert(b@.take(0) =~= Seq::<u64>::empty());
        while i < 10
            invariant
                b@ == self@.buckets,
                b@.len() == 11,
                i <= 10,
                cum == cumulative(b@, i as int),
                out@ == start + bucket_lines(b@, i as nat),
            decreases 10 - i,
        {
            proof {
                lemma_cumulative_step(b@, i as int);
            }
            cum = wadd(cum, b[i]);
            push_str(out, "iiif_request_duration_seconds_bucket{le=\"");
            push_str(out, label_of(i));
            push_str(out, "\"} ");
            push_u64(out, cum);
            push_str(out, "\n");
            assert(out@ =~= start + bucket_lines(b@, (i + 1) as nat));
            i += 1;
        }
        proof {
            lemma_cumulative_step(b@, 10);
        }
        cum = wadd(cum, b[10]);
        push_str(out, "iiif_request_duration_seconds_bucket{le=\"+Inf\"} ");
        push_u64(out, cum);
        push_str(out, "\niiif_request_duration_seconds_sum ");
        push_u64(out, self.latency_sum_micros / 1_000_000);
        push_str(out, ".");
        push_padded(out, self.latency_sum_micros % 1_000_000, 6);
        push_str(out, "\niiif_request_duration_seconds_count ");
        push_u64(out, self.latency_count);
        push_str(out, "\n");
    }
}

/// The cumulative count advances by one bucket, wrapping.
proof fn lemma_cumulative_step(b: Seq<u64>, i: int)
    requires
        0 <= i < b.len(),
    ensures
        cumulative(b, i + 1) == wrap_add(cumulative(b, i), b[i] as nat),
{
    let m: int = 0x1_0000_0000_0000_0000;
    assert(b.take(i + 1).drop_last() =~= b.take(i));
    assert(b.take(i + 1).last() == b[i]);
    lemma_mod_first(total(b.take(i)) as int, b[i] as int, m);
}

} // verus!
