use vstd::prelude::*;

verus! {

/// The bytes recorded for bucket `b` in the entries `s`.
pub open spec fn count_of(s: Seq<(u64, u64)>, b: u64) -> nat
    decreases s.len(),
{
    if s.len() == 0 {
        0
    } else {
        count_of(s.drop_last(), b) + if s.last().0 == b {
            s.last().1 as nat
        } else {
            0
        }
    }
}

/// The bytes recorded in the entries `s` for all buckets `>= from`.
pub open spec fn sum_from(s: Seq<(u64, u64)>, from: u64) -> nat
    decreases s.len(),
{
    if s.len() == 0 {
        0
    } else {
        sum_from(s.drop_last(), from) + if s.last().0 >= from {
            s.last().1 as nat
        } else {
            0
        }
    }
}

/// `s1` is `s0` after `amount` bytes were recorded in bucket `bucket`:
/// that bucket grew by `amount`, every other stayed as it was.
pub open spec fn is_record(s0: Seq<(u64, u64)>, s1: Seq<(u64, u64)>, bucket: u64, amount: u64) -> bool {
    &&& forall|b: u64| #[trigger]
        count_of(s1, b) == count_of(s0, b) + if b == bucket {
            amount as nat
        } else {
            0
        }
    &&& forall|from: u64| #[trigger]
        sum_from(s1, from) == sum_from(s0, from) + if bucket >= from {
            amount as nat
        } else {
            0
        }
}

/// Bytes moved per elapsed second. Each bucket (a whole number of seconds
/// since measurement start) has at most one entry, holding the sum of all
/// amounts recorded for it.
pub struct Ledger {
    entries: Vec<(u64, u64)>,
    total: u64,
}

impl View for Ledger {
    type V = Seq<(u64, u64)>;

    closed spec fn view(&self) -> Seq<(u64, u64)> {
        self.entries@
    }
}

proof fn lemma_sum_from_le_total(s: Seq<(u64, u64)>, from: u64)
    ensures
        sum_from(s, from) <= sum_from(s, 0),
    decreases s.len(),
{
    if s.len() > 0 {
        lemma_sum_from_le_total(s.drop_last(), from);
    }
}

proof fn lemma_entry_le_total(s: Seq<(u64, u64)>, i: int)
    requires
        0 <= i < s.len(),
    ensures
        s[i].1 <= sum_from(s, 0),
    decreases s.len(),
{
    if i < s.len() - 1 {
        lemma_entry_le_total(s.drop_last(), i);
    }
}

proof fn lemma_update(s: Seq<(u64, u64)>, i: int, amount: u64)
    requires
        0 <= i < s.len(),
        s[i].1 + amount <= u64::MAX,
    ensures
        is_record(s, s.update(i, (s[i].0, (s[i].1 + amount) as u64)), s[i].0, amount),
    decreases s.len(),
{
    let t = s.update(i, (s[i].0, (s[i].1 + amount) as u64));
    let key = s[i].0;
    if i < s.len() - 1 {
        let s2 = s.drop_last();
        lemma_update(s2, i, amount);
        assert(s2[i] == s[i]);
        assert(t.drop_last() =~= s2.update(i, (s2[i].0, (s2[i].1 + amount) as u64)));
        assert(t.last() == s.last());
        assert forall|b: u64| #[trigger]
            count_of(t, b) == count_of(s, b) + if b == key {
                amount as nat
            } else {
                0
            } by {
            assert(count_of(t.drop_last(), b) == count_of(s2, b) + if b == key {
                amount as nat
            } else {
                0
            });
        }
        assert forall|from: u64| #[trigger]
            sum_from(t, from) == sum_from(s, from) + if key >= from {
                amount as nat
            } else {
                0
            } by {
            assert(sum_from(t.drop_last(), from) == sum_from(s2, from) + if key >= from {
                amount as nat
            } else {
                0
            });
        }
    } else {
        assert(t.drop_last() =~= s.drop_last());
        assert(t.last() == (key, (s[i].1 + amount) as u64));
        assert forall|b: u64| #[trigger]
            count_of(t, b) == count_of(s, b) + if b == key {
                amount as nat
            } else {
                0
            } by {}
        assert forall|from: u64| #[trigger]
            sum_from(t, from) == sum_from(s, from) + if key >= from {
                amount as nat
            } else {
                0
            } by {}
    }
}

proof fn lemma_push(s: Seq<(u64, u64)>, bucket: u64, amount: u64)
    ensures
        is_record(s, s.push((bucket, amount)), bucket, amount),
{
    assert(s.push((bucket, amount)).drop_last() =~= s);
}

impl Ledger {
    /// Entries have distinct buckets, and `total` is the sum of all of them.
    pub closed spec fn wf(&self) -> bool {
        &&& forall|i: int, j: int|
            0 <= i < j < self.entries@.len() ==> self.entries@[i].0 != self.entries@[j].0
        &&& self.total == sum_from(self.entries@, 0)
    }

    /// An empty ledger.
    pub fn new() -> (r: Ledger)
        ensures
            r.wf(),
            r@ == Seq::<(u64, u64)>::empty(),
    {
        Ledger { entries: Vec::new(), total: 0 }
    }

    /// All bytes recorded so far.
    pub fn total(&self) -> (r: u64)
        requires
            self.wf(),
        ensures
            r == sum_from(self@, 0),
    {
        self.total
    }

    /// Adds `amount` bytes to bucket `bucket`, creating it if absent.
    pub fn record(&mut self, bucket: u64, amount: u64)
        requires
            old(self).wf(),
            sum_from(old(self)@, 0) + amount <= u64::MAX,
        ensures
            final(self).wf(),
            is_record(old(self)@, final(self)@, bucket, amount),
    {
        let ghost s = self.entries@;
        // Buckets mostly arrive in increasing order, so the search starts
        // at the newest entry.
        let n = self.entries.len();
        let mut i: usize = n;
        while i > 0
            invariant
                i <= n == self.entries@.len(),
                self.entries@ == s,
                old(self).wf(),
                *old(self) == *self,
                sum_from(s, 0) + amount <= u64::MAX,
                forall|j: int| i <= j < n ==> s[j].0 != bucket,
            decreases i,
        {
            if self.entries[i - 1].0 == bucket {
                let v = self.entries[i - 1].1;
                proof {
                    lemma_entry_le_total(s, i - 1);
                    lemma_update(s, i - 1, amount);
                    lemma_sum_from_le_total(s, 0);
                }
                self.entries.set(i - 1, (bucket, v + amount));
                self.total = self.total + amount;
                proof {
                    assert(self.entries@ == s.update(i - 1, (s[i - 1].0, (s[i - 1].1 + amount) as u64)));
                    assert(sum_from(self.entries@, 0) == sum_from(s, 0) + amount);
                    assert forall|j: int, k: int|
                        0 <= j < k < self.entries@.len() implies self.entries@[j].0
                        != self.entries@[k].0 by {
                        assert(self.entries@[j].0 == s[j].0 && self.entries@[k].0 == s[k].0);
                    }
                }
                return;
            }
            i = i - 1;
        }
        proof {
            lemma_push(s, bucket, amount);
        }
        self.entries.push((bucket, amount));
        self.total = self.total + amount;
        assert(self.entries@ == s.push((bucket, amount)));
    }

    /// The bytes recorded in all buckets `>= from`.
    pub fn windowed_sum(&self, from: u64) -> (r: u64)
        requires
            self.wf(),
        ensures
            r == sum_from(self@, from),
    {
        let ghost s = self.entries@;
        let mut acc: u64 = 0;
        let mut i: usize = 0;
        while i < self.entries.len()
            invariant
                i <= s.len(),
                s == self.entries@,
                self.wf(),
                acc == sum_from(s.subrange(0, i as int), from),
            decreases s.len() - i,
        {
            let (b, v) = self.entries[i];
            proof {
                assert(s.subrange(0, i + 1).drop_last() =~= s.subrange(0, i as int));
                lemma_sum_from_le_total(s.subrange(0, i + 1), from);
                lemma_prefix_le(s, i + 1);
            }
            if b >= from {
                acc = acc + v;
            }
            i = i + 1;
        }
        assert(s.subrange(0, s.len() as int) =~= s);
        acc
    }
}

/// Records never lose one another: when each state of `trace` follows the one
/// before it by recording `amount` bytes in `bucket`, the last state holds
/// `amount` bytes more in that bucket, and in every window that contains it,
/// per record made.
pub proof fn lemma_no_lost_updates(trace: Seq<Seq<(u64, u64)>>, bucket: u64, amount: u64)
    requires
        trace.len() >= 1,
        forall|i: int| 0 <= i < trace.len() - 1 ==> is_record(#[trigger] trace[i], trace[i + 1], bucket, amount),
    ensures
        count_of(trace.last(), bucket) == count_of(trace[0], bucket) + (trace.len() - 1) * amount,
        forall|from: u64| from <= bucket ==> #[trigger] sum_from(trace.last(), from)
            == sum_from(trace[0], from) + (trace.len() - 1) * amount,
        forall|from: u64| from > bucket ==> #[trigger] sum_from(trace.last(), from)
            == sum_from(trace[0], from),
    decreases trace.len(),
{
    if trace.len() > 1 {
        let prefix = trace.drop_last();
        lemma_no_lost_updates(prefix, bucket, amount);
        let n = trace.len() - 1;
        assert(is_record(trace[n - 1], trace[n], bucket, amount));
        assert(prefix.last() == trace[n - 1]);
        assert((n - 1) * amount + amount == n * amount) by (nonlinear_arith);
        assert forall|from: u64| from <= bucket implies #[trigger] sum_from(trace.last(), from)
            == sum_from(trace[0], from) + (trace.len() - 1) * amount by {
            assert(sum_from(prefix.last(), from) == sum_from(prefix[0], from) + (n - 1) * amount);
        }
        assert forall|from: u64| from > bucket implies #[trigger] sum_from(trace.last(), from)
            == sum_from(trace[0], from) by {
            assert(sum_from(prefix.last(), from) == sum_from(prefix[0], from));
        }
    }
}

proof fn lemma_prefix_le(s: Seq<(u64, u64)>, k: int)
    requires
        0 <= k <= s.len(),
    ensures
        sum_from(s.subrange(0, k), 0) <= sum_from(s, 0),
    decreases s.len(),
{
    if k < s.len() {
        lemma_prefix_le(s.drop_last(), k);
        assert(s.drop_last().subrange(0, k) =~= s.subrange(0, k));
    } else {
        assert(s.subrange(0, k) =~= s);
    }
}

} // verus!
