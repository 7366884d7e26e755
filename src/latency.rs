//! The latency estimator: a histogram of acknowledgement latencies with one
//! bucket per second from 0 s to 600 s, so its memory stays fixed however
//! many samples arrive.
use vstd::prelude::*;

use crate::policy::MIN_DURATION_PER_LEASE_EXTENSION;

verus! {

/// The number of buckets: one per whole second from 0 s to 600 s.
pub const BUCKETS: usize = 601;

/// Samples below this bucket (10 s) are counted in it.
pub const LOWEST_BUCKET: i64 = 10;

/// Samples above this bucket (600 s) are counted in it.
pub const HIGHEST_BUCKET: i64 = 600;

/// The sum of the first `n` counts.
pub open spec fn prefix(c: Seq<u64>, n: int) -> int
    decreases n,
{
    if n <= 0 || n > c.len() {
        0
    } else {
        prefix(c, n - 1) + c[n - 1]
    }
}

/// The bucket of a latency of `ms` milliseconds: its whole seconds rounded
/// up, held within 10 ..= 600.
pub open spec fn bucket_of(ms: i64) -> int {
    let secs = if ms <= 0 {
        0
    } else {
        ms / 1000 + if ms % 1000 != 0 { 1int } else { 0int }
    };
    if secs < LOWEST_BUCKET {
        LOWEST_BUCKET as int
    } else if secs > HIGHEST_BUCKET {
        HIGHEST_BUCKET as int
    } else {
        secs
    }
}

/// At least 99 in 100 of the `total` samples lie in bucket `b` or below.
pub open spec fn covers_p99(c: Seq<u64>, total: int, b: int) -> bool {
    100 * prefix(c, b + 1) >= 99 * total
}

/// A fixed-size histogram of acknowledgement latencies.
pub struct LatencyEstimator {
    counts: Vec<u64>,
    total: u64,
}

proof fn lemma_prefix_bounds(c: Seq<u64>, n: int, m: int)
    requires
        0 <= n <= m <= c.len(),
    ensures
        0 <= prefix(c, n) <= prefix(c, m),
    decreases m - n,
{
    if n < m {
        lemma_prefix_bounds(c, n, m - 1);
    } else {
        lemma_prefix_nonneg(c, n);
    }
}

proof fn lemma_prefix_nonneg(c: Seq<u64>, n: int)
    requires
        0 <= n <= c.len(),
    ensures
        0 <= prefix(c, n),
    decreases n,
{
    if n > 0 {
        lemma_prefix_nonneg(c, n - 1);
    }
}

proof fn lemma_prefix_bump(c: Seq<u64>, b: int, n: int)
    requires
        0 <= b < c.len(),
        0 <= n <= c.len(),
        c[b] < u64::MAX,
    ensures
        prefix(c.update(b, (c[b] + 1) as u64), n) == prefix(c, n) + if b < n { 1int } else { 0int },
    decreases n,
{
    if n > 0 {
        lemma_prefix_bump(c, b, n - 1);
    }
}

impl LatencyEstimator {
    /// The count held in each bucket.
    pub closed spec fn counts(&self) -> Seq<u64> {
        self.counts@
    }

    /// The number of samples held.
    pub closed spec fn total(&self) -> int {
        self.total as int
    }

    pub closed spec fn wf(&self) -> bool {
        &&& self.counts@.len() == BUCKETS
        &&& self.total == prefix(self.counts@, BUCKETS as int)
    }

    /// An estimator that holds no sample.
    pub fn new() -> (r: Self)
        ensures
            r.wf(),
            r.total() == 0,
            r.counts() == Seq::new(BUCKETS as nat, |i: int| 0u64),
    {
        let mut counts: Vec<u64> = Vec::new();
        let mut n: usize = 0;
        while n < BUCKETS
            invariant
                n <= BUCKETS,
                counts@ == Seq::new(n as nat, |i: int| 0u64),
                prefix(counts@, n as int) == 0,
            decreases BUCKETS - n,
        {
            let ghost before = counts@;
            counts.push(0);
            proof {
                assert(counts@.drop_last() =~= before);
                assert forall|k: int| 0 <= k <= n implies prefix(counts@, k) == prefix(before, k) by {
                    lemma_prefix_prefix(before, counts@, k);
                }
                assert(counts@ =~= Seq::new((n + 1) as nat, |i: int| 0u64));
            }
            n = n + 1;
        }
        LatencyEstimator { counts, total: 0 }
    }

    /// Records one acknowledgement latency of `latency_ms` milliseconds in its
    /// bucket. Once `u64::MAX` samples are held, further samples are not
    /// counted.
    pub fn observe(&mut self, latency_ms: i64)
        requires
            old(self).wf(),
        ensures
            final(self).wf(),
            old(self).total() < u64::MAX ==> {
                &&& final(self).total() == old(self).total() + 1
                &&& final(self).counts() == old(self).counts().update(
                    bucket_of(latency_ms),
                    (old(self).counts()[bucket_of(latency_ms)] + 1) as u64,
                )
            },
            old(self).total() == u64::MAX ==> final(self).counts() == old(self).counts()
                && final(self).total() == old(self).total(),
    {
        if self.total == u64::MAX {
            return;
        }
        let secs: i64 = if latency_ms <= 0 {
            0
        } else {
            latency_ms / 1000 + if latency_ms % 1000 != 0 { 1 } else { 0 }
        };
        let bucket: i64 = if secs < LOWEST_BUCKET {
            LOWEST_BUCKET
        } else if secs > HIGHEST_BUCKET {
            HIGHEST_BUCKET
        } else {
            secs
        };
        let b = bucket as usize;
        proof {
            lemma_prefix_bounds(self.counts@, b as int, b + 1);
            lemma_prefix_bounds(self.counts@, b + 1, BUCKETS as int);
        }
        let ghost before = self.counts@;
        let v = self.counts[b];
        self.counts.set(b, v + 1);
        self.total = self.total + 1;
        proof {
            lemma_prefix_bump(before, b as int, BUCKETS as int);
        }
    }

    /// The 99th percentile of the samples held, in milliseconds: the lowest
    /// bucket at or below which at least 99 in 100 samples lie. With no
    /// sample it is the 10 s floor.
    pub fn estimate(&self) -> (r: i64)
        requires
            self.wf(),
        ensures
            self.total() == 0 ==> r == MIN_DURATION_PER_LEASE_EXTENSION,
            self.total() > 0 ==> {
                &&& r % 1000 == 0
                &&& 0 <= r / 1000 < BUCKETS
                &&& covers_p99(self.counts(), self.total(), r / 1000)
                &&& forall|b: int| 0 <= b < r / 1000 ==> !covers_p99(self.counts(), self.total(), b)
            },
    {
        if self.total == 0 {
            return MIN_DURATION_PER_LEASE_EXTENSION;
        }
        let mut cum: u64 = 0;
        let mut b: usize = 0;
        while b < BUCKETS
            invariant
                self.wf(),
                self.total > 0,
                b <= BUCKETS,
                cum == prefix(self.counts@, b as int),
                forall|k: int| 0 <= k < b ==> !covers_p99(self.counts@, self.total as int, k),
            decreases BUCKETS - b,
        {
            proof {
                lemma_prefix_bounds(self.counts@, b + 1, BUCKETS as int);
                lemma_prefix_nonneg(self.counts@, b as int);
            }
            cum = cum + self.counts[b];
            if (cum as u128) * 100 >= (self.total as u128) * 99 {
                return (b as i64) * 1000;
            }
            b = b + 1;
        }
        proof {
            assert(!covers_p99(self.counts@, self.total as int, BUCKETS - 1));
        }
        (HIGHEST_BUCKET) * 1000
    }
}

proof fn lemma_prefix_prefix(short: Seq<u64>, long: Seq<u64>, k: int)
    requires
        short.len() <= long.len(),
        0 <= k <= short.len(),
        forall|i: int| 0 <= i < short.len() ==> short[i] == long[i],
    ensures
        prefix(long, k) == prefix(short, k),
    decreases k,
{
    if k > 0 {
        lemma_prefix_prefix(short, long, k - 1);
    }
}

} // verus!
