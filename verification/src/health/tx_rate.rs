//! How many transactions a mirror handles, over the last minute.

use vstd::prelude::*;

verus! {

/// Number of samples that count.
pub const TX_RATE_BUCKETS: usize = 60;

/// The last samples of a counter, one a second.
pub struct SourceTxRate {
    last_tx: Option<u64>,
    buckets: Vec<u64>,
    head: usize,
    filled: usize,
}

/// What [`SourceTxRate`] holds: the counter as it was seen last, and by how
/// much it grew between two looks, oldest first.
#[verifier::ext_equal]
pub struct RateModel {
    pub last: Option<u64>,
    pub growth: Seq<u64>,
}

/// By how much a counter grew; a counter that fell did not grow.
pub open spec fn grown(before: u64, after: u64) -> u64 {
    if after > before {
        (after - before) as u64
    } else {
        0
    }
}

/// The last values of a list that count.
pub open spec fn last_minute(s: Seq<u64>) -> Seq<u64> {
    if s.len() > TX_RATE_BUCKETS {
        s.skip(s.len() - TX_RATE_BUCKETS)
    } else {
        s
    }
}

/// Sum of a list.
pub open spec fn total(s: Seq<u64>) -> nat
    decreases s.len(),
{
    if s.len() == 0 {
        0
    } else {
        total(s.drop_last()) + s.last() as nat
    }
}

impl RateModel {
    /// A counter that was never looked at.
    pub open spec fn unseen() -> RateModel {
        RateModel { last: None, growth: Seq::empty() }
    }

    /// The samples after a look at the counter.
    pub open spec fn recorded(self, tx: u64) -> RateModel {
        RateModel {
            last: Some(tx),
            growth: match self.last {
                Some(before) => last_minute(self.growth.push(grown(before, tx))),
                None => self.growth,
            },
        }
    }
}

proof fn lemma_total_of_two(a: Seq<u64>, b: Seq<u64>)
    ensures
        total(a + b) == total(a) + total(b),
    decreases b.len(),
{
    if b.len() == 0 {
        assert(a + b =~= a);
    } else {
        lemma_total_of_two(a, b.drop_last());
        assert((a + b).drop_last() =~= a + b.drop_last());
    }
}

proof fn lemma_total_bound(s: Seq<u64>)
    ensures
        total(s) <= s.len() * u64::MAX,
    decreases s.len(),
{
    if s.len() > 0 {
        lemma_total_bound(s.drop_last());
        assert(s.len() * u64::MAX == (s.len() - 1) * u64::MAX + u64::MAX) by (nonlinear_arith);
    }
}

impl View for SourceTxRate {
    type V = RateModel;

    closed spec fn view(&self) -> RateModel {
        RateModel {
            last: self.last_tx,
            growth: if self.filled < TX_RATE_BUCKETS {
                self.buckets@.take(self.filled as int)
            } else {
                self.buckets@.skip(self.head as int) + self.buckets@.take(self.head as int)
            },
        }
    }
}

impl SourceTxRate {
    /// The ring has its size, and its head follows what is filled.
    pub closed spec fn wf(&self) -> bool {
        &&& self.buckets@.len() == TX_RATE_BUCKETS
        &&& self.filled <= TX_RATE_BUCKETS
        &&& self.head < TX_RATE_BUCKETS
        &&& self.filled < TX_RATE_BUCKETS ==> self.head == self.filled
    }

    /// At most a minute counts.
    pub proof fn lemma_size(&self)
        requires
            self.wf(),
        ensures
            self@.growth.len() <= TX_RATE_BUCKETS,
    {
    }

    /// A counter that was never looked at.
    pub fn new() -> (r: Self)
        ensures
            r.wf(),
            r@ == RateModel::unseen(),
    {
        let mut buckets: Vec<u64> = Vec::new();
        let mut i: usize = 0;
        while i < TX_RATE_BUCKETS
            invariant
                i <= TX_RATE_BUCKETS,
                buckets@.len() == i,
            decreases TX_RATE_BUCKETS - i,
        {
            buckets.push(0);
            i += 1;
        }
        let r = SourceTxRate { last_tx: None, buckets, head: 0, filled: 0 };
        assert(r@ =~= RateModel::unseen());
        r
    }

    /// Takes a look at the counter.
    pub fn record(&mut self, tx: u64)
        requires
            old(self).wf(),
        ensures
            final(self).wf(),
            final(self)@ == old(self)@.recorded(tx),
    {
        let ghost before = *self;
        if let Some(prev) = self.last_tx {
            let delta: u64 = if tx > prev {
                tx - prev
            } else {
                0
            };
            self.buckets.set(self.head, delta);
            self.head = if self.head + 1 == TX_RATE_BUCKETS {
                0
            } else {
                self.head + 1
            };
            if self.filled < TX_RATE_BUCKETS {
                self.filled = self.filled + 1;
            }
            self.last_tx = Some(tx);
            assert(self@.growth =~= last_minute(before@.growth.push(delta)));
            return ;
        }
        self.last_tx = Some(tx);
        assert(self@ =~= before@.recorded(tx));
    }

    /// By how much the counter grew in all, and over how many samples; `None`
    /// before the second look.
    pub fn growth(&self) -> (r: Option<(u128, usize)>)
        requires
            self.wf(),
        ensures
            match r {
                Some((sum, n)) => self@.growth.len() == n && n > 0 && sum == total(self@.growth),
                None => self@.growth.len() == 0,
            },
    {
        if self.filled == 0 {
            return None;
        }
        let mut sum: u128 = 0;
        let mut i: usize = 0;
        let n: usize = self.filled;
        while i < n
            invariant
                self.wf(),
                i <= n <= TX_RATE_BUCKETS,
                n == self.filled,
                sum == total(self.buckets@.take(i as int)),
            decreases n - i,
        {
            proof {
                assert(self.buckets@.take(i + 1).drop_last() =~= self.buckets@.take(i as int));
                lemma_total_bound(self.buckets@.take(i as int));
                assert(i * u64::MAX <= 60 * u64::MAX) by (nonlinear_arith)
                    requires
                        i <= 60,
                ;
            }
            sum = sum + self.buckets[i] as u128;
            i += 1;
        }
        proof {
            if n == TX_RATE_BUCKETS {
                let a = self.buckets@.take(self.head as int);
                let b = self.buckets@.skip(self.head as int);
                lemma_total_of_two(a, b);
                lemma_total_of_two(b, a);
                assert(a + b =~= self.buckets@.take(n as int));
            }
        }
        Some((sum, n))
    }
}

/// A counter needs two looks before it has a rate.
pub proof fn law_rate_needs_two_looks(first: u64, second: u64)
    ensures
        RateModel::unseen().recorded(first).growth.len() == 0,
        RateModel::unseen().recorded(first).recorded(second).growth == seq![grown(first, second)],
{
    assert(RateModel::unseen().recorded(first).recorded(second).growth =~= seq![grown(first, second)]);
}

/// A counter that grows by the same amount at every look has that amount as
/// its growth throughout, however long it is watched.
pub proof fn law_steady_growth(m: RateModel, step: u64, tx: u64)
    requires
        m.last == Some(tx),
        tx + step <= u64::MAX,
        forall|i: int| 0 <= i < m.growth.len() ==> #[trigger] m.growth[i] == step,
    ensures
        ({
            let after = m.recorded((tx + step) as u64);
            forall|i: int| 0 <= i < after.growth.len() ==> #[trigger] after.growth[i] == step
        }),
{
    let more = m.growth.push(step);
    assert forall|i: int| 0 <= i < last_minute(more).len() implies #[trigger] last_minute(more)[i] == step by {
        if more.len() > TX_RATE_BUCKETS {
            assert(last_minute(more)[i] == more[i + more.len() - TX_RATE_BUCKETS]);
        }
    }
}

/// A counter grows by the difference of two looks, and one that fell did not
/// grow. The last growth is always kept, and the oldest goes when there are more
/// than 60.
pub proof fn law_growth_is_the_difference_of_looks(m: RateModel, before: u64, tx: u64, k: int)
    requires
        m.last == Some(before),
        m.growth.len() <= TX_RATE_BUCKETS,
        0 <= k < m.growth.len(),
    ensures
        ({
            let after = m.recorded(tx);
            &&& after.last == Some(tx)
            &&& after.growth.len() > 0
            &&& after.growth.len() <= 60
            &&& tx >= before ==> after.growth.last() == tx - before
            &&& tx < before ==> after.growth.last() == 0
            &&& m.growth.len() < 60 ==> after.growth.len() == m.growth.len() + 1 && after.growth[k]
                == m.growth[k]
            &&& m.growth.len() == 60 && k > 0 ==> after.growth[k - 1] == m.growth[k]
        }),
{
}

/// The growth in all is that of each look added up.
pub proof fn law_growth_adds_up(s: Seq<u64>, more: u64)
    ensures
        total(Seq::empty()) == 0,
        total(s.push(more)) == total(s) + more,
{
    assert(s.push(more).drop_last() =~= s);
}

} // verus!
