//! The response times of the workers of a dataset, and the timeout that
//! follows from them.

use vstd::prelude::*;

verus! {

/// How many response times are kept: the latest ones.
pub const MAX_SAMPLES: usize = 256;

/// How many of `s` are below `v`.
pub open spec fn count_below(s: Seq<u64>, v: u64) -> nat
    decreases s.len(),
{
    if s.len() == 0 {
        0
    } else {
        count_below(s.drop_last(), v) + if s.last() < v {
            1nat
        } else {
            0nat
        }
    }
}

/// How many of `s` are at most `v`.
pub open spec fn count_at_most(s: Seq<u64>, v: u64) -> nat
    decreases s.len(),
{
    if s.len() == 0 {
        0
    } else {
        count_at_most(s.drop_last(), v) + if s.last() <= v {
            1nat
        } else {
            0nat
        }
    }
}

/// Whether `v` is the one of `s` that stands at position `k`, counted from
/// zero, once they are put in ascending order.
pub open spec fn has_rank(s: Seq<u64>, v: u64, k: nat) -> bool {
    s.contains(v) && count_below(s, v) <= k < count_at_most(s, v)
}

/// The position, in ascending order, of the quantile `permille` thousandths
/// among `len` values; a quantile above one counts as one.
pub open spec fn quantile_rank(len: nat, permille: u16) -> nat {
    if len == 0 {
        0
    } else if permille >= 1000 {
        (len - 1) as nat
    } else {
        (((len - 1) * permille) / 1000) as nat
    }
}

/// The larger of the least timeout and the observed quantile.
pub open spec fn timeout_from(minimum: u64, quantile: Option<u64>) -> u64 {
    match quantile {
        Some(q) => if q > minimum {
            q
        } else {
            minimum
        },
        None => minimum,
    }
}

proof fn lemma_counts_bounded(s: Seq<u64>, v: u64)
    ensures
        count_below(s, v) <= count_at_most(s, v) <= s.len(),
    decreases s.len(),
{
    if s.len() > 0 {
        lemma_counts_bounded(s.drop_last(), v);
    }
}

proof fn lemma_none_below(s: Seq<u64>, v: u64)
    requires
        forall|i: int| 0 <= i < s.len() ==> s[i] >= v,
    ensures
        count_below(s, v) == 0,
    decreases s.len(),
{
    if s.len() > 0 {
        lemma_none_below(s.drop_last(), v);
    }
}

proof fn lemma_all_at_most(s: Seq<u64>, v: u64)
    requires
        forall|i: int| 0 <= i < s.len() ==> s[i] <= v,
    ensures
        count_at_most(s, v) == s.len(),
    decreases s.len(),
{
    if s.len() > 0 {
        lemma_all_at_most(s.drop_last(), v);
    }
}

proof fn lemma_counts_meet(s: Seq<u64>, low: u64, high: u64)
    requires
        forall|i: int| 0 <= i < s.len() ==> (s[i] <= low) == (s[i] < high),
    ensures
        count_at_most(s, low) == count_below(s, high),
    decreases s.len(),
{
    if s.len() > 0 {
        lemma_counts_meet(s.drop_last(), low, high);
    }
}

proof fn lemma_counts_grow(s: Seq<u64>, low: u64, high: u64)
    requires
        low < high,
    ensures
        count_at_most(s, low) <= count_below(s, high),
    decreases s.len(),
{
    if s.len() > 0 {
        lemma_counts_grow(s.drop_last(), low, high);
    }
}

/// At most one value has a given rank.
pub proof fn lemma_rank_is_unique(s: Seq<u64>, v: u64, w: u64, k: nat)
    requires
        has_rank(s, v, k),
        has_rank(s, w, k),
    ensures
        v == w,
{
    if v < w {
        lemma_counts_grow(s, v, w);
    } else if w < v {
        lemma_counts_grow(s, w, v);
    }
}

fn below(samples: &Vec<u64>, v: u64) -> (n: usize)
    ensures
        n == count_below(samples@, v),
{
    let mut n: usize = 0;
    let mut i: usize = 0;
    while i < samples.len()
        invariant
            i <= samples.len(),
            n <= i,
            n == count_below(samples@.take(i as int), v),
        decreases samples.len() - i,
    {
        proof {
            assert(samples@.take(i + 1).drop_last() =~= samples@.take(i as int));
            assert(samples@.take(i + 1).last() == samples@[i as int]);
        }
        if samples[i] < v {
            n = n + 1;
        }
        i = i + 1;
    }
    proof {
        assert(samples@.take(i as int) =~= samples@);
    }
    n
}

/// The latest response times of one dataset, in milliseconds.
pub struct LatencyWindow {
    samples: Vec<u64>,
    oldest: usize,
}

impl LatencyWindow {
    /// The response times that are kept.
    pub closed spec fn samples(&self) -> Seq<u64> {
        self.samples@
    }

    /// The position of the response time that the next one replaces, once the
    /// window is full.
    pub closed spec fn oldest(&self) -> nat {
        self.oldest as nat
    }

    /// The window holds no more than it may, and the position to replace lies
    /// within it.
    pub closed spec fn wf(&self) -> bool {
        &&& self.samples@.len() <= MAX_SAMPLES
        &&& self.oldest < MAX_SAMPLES
        &&& self.samples@.len() < MAX_SAMPLES ==> self.oldest == 0
    }

    /// A window without response times.
    pub fn new() -> (w: LatencyWindow)
        ensures
            w.wf(),
            w.samples().len() == 0,
            w.oldest() == 0,
    {
        LatencyWindow { samples: Vec::new(), oldest: 0 }
    }

    /// How many response times are kept.
    pub fn len(&self) -> (n: usize)
        ensures
            n == self.samples().len(),
    {
        self.samples.len()
    }

    /// Takes the response time of a successful query. A full window forgets its
    /// oldest one for it.
    pub fn record(&mut self, millis: u64)
        requires
            old(self).wf(),
        ensures
            final(self).wf(),
            old(self).samples().len() < MAX_SAMPLES ==> final(self).samples() == old(self).samples().push(millis)
                && final(self).oldest() == 0,
            old(self).samples().len() == MAX_SAMPLES ==> final(self).samples() == old(self).samples().update(
                old(self).oldest() as int,
                millis,
            ) && final(self).oldest() == (old(self).oldest() + 1) % (MAX_SAMPLES as nat),
    {
        if self.samples.len() < MAX_SAMPLES {
            self.samples.push(millis);
        } else {
            self.samples.set(self.oldest, millis);
            self.oldest = (self.oldest + 1) % MAX_SAMPLES;
        }
    }

    /// The quantile `permille` thousandths of the response times: the one at
    /// position `quantile_rank` in ascending order. Without response times there is
    /// none.
    pub fn quantile(&self, permille: u16) -> (res: Option<u64>)
        requires
            self.wf(),
        ensures
            self.samples().len() == 0 ==> res is None,
            self.samples().len() > 0 ==> (res matches Some(v) && has_rank(
                self.samples(),
                v,
                quantile_rank(self.samples().len(), permille),
            )),
    {
        let n: usize = self.samples.len();
        if n == 0 {
            return None;
        }
        proof {
            if permille < 1000 {
                assert((n - 1) * permille <= 255 * 999 && (n - 1) * permille <= (n - 1) * 1000) by (nonlinear_arith)
                    requires
                        0 <= n - 1 <= 255,
                        0 <= permille <= 999,
                ;
            }
        }
        let k: usize = if permille >= 1000 {
            n - 1
        } else {
            (n - 1) * (permille as usize) / 1000
        };
        let mut v: u64 = self.samples[0];
        let mut i: usize = 1;
        while i < n
            invariant
                1 <= i <= n,
                n == self.samples@.len(),
                self.samples@.contains(v),
                forall|j: int| 0 <= j < i ==> self.samples@[j] <= v,
            decreases n - i,
        {
            if self.samples[i] > v {
                v = self.samples[i];
            }
            i = i + 1;
        }
        proof {
            lemma_all_at_most(self.samples@, v);
        }
        let mut under: usize = below(&self.samples, v);
        while under > k
            invariant
                n == self.samples@.len(),
                k < n,
                self.samples@.contains(v),
                under == count_below(self.samples@, v),
                count_at_most(self.samples@, v) > k,
            decreases under,
        {
            let mut next: Option<u64> = None;
            let mut j: usize = 0;
            while j < n
                invariant
                    j <= n,
                    n == self.samples@.len(),
                    next is None ==> forall|a: int| 0 <= a < j ==> self.samples@[a] >= v,
                    next matches Some(b) ==> b < v && self.samples@.contains(b) && forall|a: int|
                        0 <= a < j && self.samples@[a] < v ==> self.samples@[a] <= b,
                decreases n - j,
            {
                let x = self.samples[j];
                if x < v {
                    let higher = match next {
                        None => true,
                        Some(b) => x > b,
                    };
                    if higher {
                        next = Some(x);
                    }
                }
                j = j + 1;
            }
            match next {
                None => {
                    proof {
                        lemma_none_below(self.samples@, v);
                    }
                    return Some(v);
                },
                Some(b) => {
                    proof {
                        lemma_counts_meet(self.samples@, b, v);
                        lemma_counts_bounded(self.samples@, b);
                        assert(count_below(self.samples@, b) < count_at_most(self.samples@, b)) by {
                            lemma_below_misses_itself(self.samples@, b);
                        }
                    }
                    v = b;
                    under = below(&self.samples, v);
                },
            }
        }
        Some(v)
    }

    /// The time to wait for a worker: the larger of `minimum` and the quantile
    /// `permille` thousandths of the response times.
    pub fn effective_timeout(&self, minimum: u64, permille: u16) -> (t: u64)
        requires
            self.wf(),
        ensures
            t >= minimum,
            self.samples().len() == 0 ==> t == minimum,
            self.samples().len() > 0 ==> exists|v: u64| #[trigger]
                has_rank(self.samples(), v, quantile_rank(self.samples().len(), permille)) && t == timeout_from(
                    minimum,
                    Some(v),
                ),
    {
        larger_timeout(minimum, self.quantile(permille))
    }
}

/// The larger of the least timeout and the observed quantile.
pub fn larger_timeout(minimum: u64, quantile: Option<u64>) -> (t: u64)
    ensures
        t == timeout_from(minimum, quantile),
{
    match quantile {
        Some(q) => if q > minimum {
            q
        } else {
            minimum
        },
        None => minimum,
    }
}

proof fn lemma_below_misses_itself(s: Seq<u64>, v: u64)
    requires
        s.contains(v),
    ensures
        count_below(s, v) < count_at_most(s, v),
    decreases s.len(),
{
    let i = choose|i: int| 0 <= i < s.len() && s[i] == v;
    if i == s.len() - 1 {
        lemma_counts_bounded(s.drop_last(), v);
    } else {
        assert(s.drop_last()[i] == v);
        lemma_below_misses_itself(s.drop_last(), v);
    }
}

} // verus!
