//! Crawl counters: pages crawled, and how many of them succeeded or failed.

use vstd::prelude::*;

verus! {

/// The crawl counters.  Every crawled page is counted once in `total` and
/// once in either `success` or `failed`.
pub struct CrawlMetrics {
    total: u64,
    success: u64,
    failed: u64,
}

/// The counts of a [`CrawlMetrics`].
pub struct MetricsView {
    pub total: nat,
    pub success: nat,
    pub failed: nat,
}

impl View for CrawlMetrics {
    type V = MetricsView;

    closed spec fn view(&self) -> MetricsView {
        MetricsView {
            total: self.total as nat,
            success: self.success as nat,
            failed: self.failed as nat,
        }
    }
}

impl CrawlMetrics {
    #[verifier::type_invariant]
    spec fn balanced(self) -> bool {
        self.total == self.success + self.failed
    }

    /// Counters at zero.
    pub fn new() -> (m: CrawlMetrics)
        ensures
            m@ == (MetricsView { total: 0, success: 0, failed: 0 }),
    {
        CrawlMetrics { total: 0, success: 0, failed: 0 }
    }

    /// Pages crawled; always the sum of the successes and the failures.
    pub fn total(&self) -> (n: u64)
        ensures
            n == self@.total,
            self@.total == self@.success + self@.failed,
    {
        proof {
            use_type_invariant(self);
        }
        self.total
    }

    /// Pages crawled successfully.
    pub fn success(&self) -> (n: u64)
        ensures
            n == self@.success,
            self@.success <= self@.total,
    {
        proof {
            use_type_invariant(self);
        }
        self.success
    }

    /// Pages whose crawl failed.
    pub fn failed(&self) -> (n: u64)
        ensures
            n == self@.failed,
            self@.failed <= self@.total,
    {
        proof {
            use_type_invariant(self);
        }
        self.failed
    }
}

/// The success rate as a fraction `(numerator, denominator)`: successes
/// over pages crawled, or one whole before any page is crawled.
pub open spec fn ratio_of(v: MetricsView) -> (nat, nat) {
    if v.total == 0 {
        (1, 1)
    } else {
        (v.success, v.total)
    }
}

/// The counts after one more successful crawl.
pub open spec fn after_success(v: MetricsView) -> MetricsView {
    MetricsView { total: v.total + 1, success: v.success + 1, failed: v.failed }
}

/// The counts after one more failed crawl.
pub open spec fn after_failure(v: MetricsView) -> MetricsView {
    MetricsView { total: v.total + 1, success: v.success, failed: v.failed + 1 }
}

/// The success rate of the counters (see [`ratio_of`]).
pub fn success_ratio(m: &CrawlMetrics) -> (r: (u64, u64))
    ensures
        (r.0 as nat, r.1 as nat) == ratio_of(m@),
        r.0 <= r.1,
        r.1 > 0,
{
    let total = m.total();
    let success = m.success();
    if total == 0 {
        (1, 1)
    } else {
        (success, total)
    }
}

/// Records a successful crawl: one more page in all, one more success.
pub fn inc_crawl_success(m: &mut CrawlMetrics)
    requires
        old(m)@.total < u64::MAX,
    ensures
        final(m)@ == after_success(old(m)@),
{
    proof {
        use_type_invariant(&*m);
    }
    *m = CrawlMetrics { total: m.total + 1, success: m.success + 1, failed: m.failed };
}

/// Records a failed crawl: one more page in all, one more failure.
pub fn inc_crawl_failed(m: &mut CrawlMetrics)
    requires
        old(m)@.total < u64::MAX,
    ensures
        final(m)@ == after_failure(old(m)@),
{
    proof {
        use_type_invariant(&*m);
    }
    *m = CrawlMetrics { total: m.total + 1, success: m.success, failed: m.failed + 1 };
}

/// The success rate never falls when a crawl succeeds and never rises when
/// one fails.  Fractions `a/b` and `c/d` are compared as `a * d` and `c * b`.
pub proof fn lemma_success_ratio_monotone(v: MetricsView)
    requires
        v.total == v.success + v.failed,
    ensures
        ratio_of(after_success(v)).0 * ratio_of(v).1 >= ratio_of(v).0 * ratio_of(
            after_success(v),
        ).1,
        ratio_of(after_failure(v)).0 * ratio_of(v).1 <= ratio_of(v).0 * ratio_of(
            after_failure(v),
        ).1,
{
    if v.total > 0 {
        let s = v.success;
        let t = v.total;
        assert((s + 1) * t >= s * (t + 1)) by (nonlinear_arith)
            requires
                s <= t,
        ;
        assert(s * t <= s * (t + 1)) by (nonlinear_arith);
        assert(ratio_of(after_failure(v)) == (s, (t + 1) as nat));
        assert(ratio_of(after_success(v)) == ((s + 1) as nat, (t + 1) as nat));
        assert(ratio_of(v) == (s, t));
    } else {
        assert(v.success == 0);
        assert(ratio_of(after_failure(v)) == (0nat, 1nat));
        assert(ratio_of(after_success(v)) == (1nat, 1nat));
    }
}

/// The success rate is the successes over the pages crawled, and 1 before
/// any page is crawled; a recorded success adds one page and one success,
/// a recorded failure one page and one failure, and nothing else changes.
pub proof fn lemma_counts_and_ratio(v: MetricsView)
    ensures
        v.total > 0 ==> ratio_of(v) == (v.success, v.total),
        v.total == 0 ==> ratio_of(v) == (1nat, 1nat),
        after_success(v).total == v.total + 1,
        after_success(v).success == v.success + 1,
        after_success(v).failed == v.failed,
        after_failure(v).total == v.total + 1,
        after_failure(v).success == v.success,
        after_failure(v).failed == v.failed + 1,
{
}

} // verus!
