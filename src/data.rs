//! The retention-bounded in-memory store of watt samples.

use vstd::prelude::*;

verus! {

/// One watt sample; `date` is in milliseconds since the Unix epoch (UTC).
#[derive(Clone, Copy, Debug, PartialEq, Eq, Structural)]
pub struct DataPoint {
    pub date: i64,
    pub value: i32,
}

impl DataPoint {
    pub fn to_tuple(&self) -> (r: (i64, i32))
        ensures
            r == (self.date, self.value),
    {
        (self.date, self.value)
    }

    pub fn from_tuple(tuple: &(i64, i32)) -> (r: DataPoint)
        ensures
            r == (DataPoint { date: tuple.0, value: tuple.1 }),
    {
        DataPoint { date: tuple.0, value: tuple.1 }
    }
}

/// A time range in milliseconds since the Unix epoch.
#[derive(Clone, Copy, Debug, PartialEq, Eq, Structural)]
pub struct Range {
    pub from: i64,
    pub to: i64,
}

/// How long a sample is kept: seven days, in milliseconds.
pub const DATA_RETENTION_PERIOD_MS: i64 = 7 * 24 * 60 * 60 * 1000;

/// A sample not older than the retention period at `now`.
pub open spec fn recent(p: DataPoint, now: int) -> bool {
    now - p.date <= DATA_RETENTION_PERIOD_MS
}

/// The samples of `s` that are recent at `now`, in order.
pub open spec fn keep_recent(s: Seq<DataPoint>, now: int) -> Seq<DataPoint>
    decreases s.len(),
{
    if s.len() == 0 {
        s
    } else {
        let rest = keep_recent(s.drop_last(), now);
        if recent(s.last(), now) {
            rest.push(s.last())
        } else {
            rest
        }
    }
}

/// The samples of `s` dated in `[lower, upper)`, in order.
pub open spec fn in_interval(s: Seq<DataPoint>, lower: int, upper: int) -> Seq<DataPoint>
    decreases s.len(),
{
    if s.len() == 0 {
        s
    } else {
        let rest = in_interval(s.drop_last(), lower, upper);
        if lower <= s.last().date < upper {
            rest.push(s.last())
        } else {
            rest
        }
    }
}

/// The store after `put(p)`: `p` appended, and every sample more than the
/// retention period older than `p` dropped.
pub open spec fn after_put(s: Seq<DataPoint>, p: DataPoint) -> Seq<DataPoint> {
    keep_recent(s.push(p), p.date as int)
}

/// Samples in insertion order.
pub struct EnergyData {
    store: Vec<DataPoint>,
}

impl View for EnergyData {
    type V = Seq<DataPoint>;

    closed spec fn view(&self) -> Seq<DataPoint> {
        self.store@
    }
}

impl EnergyData {
    pub fn new() -> (r: EnergyData)
        ensures
            r@ == Seq::<DataPoint>::empty(),
    {
        EnergyData { store: Vec::new() }
    }

    /// The number of samples held.
    pub fn len(&self) -> (r: usize)
        ensures
            r == self@.len(),
    {
        self.store.len()
    }

    /// The samples dated in `[lower, upper)`, in insertion order.
    pub fn get_interval(&self, lower: i64, upper: i64) -> (r: Vec<DataPoint>)
        ensures
            r@ == in_interval(self@, lower as int, upper as int),
    {
        let mut out: Vec<DataPoint> = Vec::new();
        let mut i: usize = 0;
        while i < self.store.len()
            invariant
                i <= self.store@.len(),
                out@ == in_interval(self.store@.subrange(0, i as int), lower as int, upper as int),
            decreases self.store@.len() - i,
        {
            let p = self.store[i];
            proof {
                assert(self.store@.subrange(0, i + 1).drop_last() =~= self.store@.subrange(0, i as int));
            }
            if lower <= p.date && p.date < upper {
                out.push(p);
            }
            i = i + 1;
        }
        proof {
            assert(self.store@.subrange(0, i as int) =~= self.store@);
        }
        out
    }

    /// Appends `data_point` and drops every sample dated more than the
    /// retention period before it.
    pub fn put(&mut self, data_point: DataPoint)
        ensures
            final(self)@ == after_put(old(self)@, data_point),
    {
        self.store.push(data_point);
        let ghost all = self.store@;
        let mut kept: Vec<DataPoint> = Vec::new();
        let mut i: usize = 0;
        while i < self.store.len()
            invariant
                all == self.store@,
                i <= all.len(),
                kept@ == keep_recent(all.subrange(0, i as int), data_point.date as int),
            decreases all.len() - i,
        {
            let p = self.store[i];
            proof {
                assert(all.subrange(0, i + 1).drop_last() =~= all.subrange(0, i as int));
            }
            if data_point.date as i128 - p.date as i128 <= DATA_RETENTION_PERIOD_MS as i128 {
                kept.push(p);
            }
            i = i + 1;
        }
        proof {
            assert(all.subrange(0, i as int) =~= all);
        }
        self.store = kept;
    }
}

proof fn lemma_keep_recent(s: Seq<DataPoint>, now: int)
    ensures
        forall|k: int| 0 <= k < keep_recent(s, now).len() ==> recent(#[trigger] keep_recent(s, now)[k], now),
        forall|k: int| 0 <= k < s.len() && recent(#[trigger] s[k], now) ==> keep_recent(s, now).contains(s[k]),
    decreases s.len(),
{
    if s.len() > 0 {
        let rest = keep_recent(s.drop_last(), now);
        lemma_keep_recent(s.drop_last(), now);
        assert forall|k: int| 0 <= k < s.len() && recent(#[trigger] s[k], now) implies keep_recent(s, now).contains(s[k]) by {
            if k < s.len() - 1 {
                assert(s.drop_last()[k] == s[k]);
                let j = choose|j: int| 0 <= j < rest.len() && rest[j] == s[k];
                if recent(s.last(), now) {
                    assert(keep_recent(s, now)[j] == s[k]);
                }
            } else {
                assert(keep_recent(s, now).last() == s[k]);
            }
        }
    }
}

/// After a `put`, the store holds no sample more than the retention period
/// older than the new one; it holds every sample that was not, and ends with
/// the new one.
pub proof fn lemma_put_retention(s: Seq<DataPoint>, p: DataPoint)
    ensures
        forall|k: int| 0 <= k < after_put(s, p).len() ==> #[trigger] after_put(s, p)[k].date >= p.date - DATA_RETENTION_PERIOD_MS,
        forall|k: int| 0 <= k < s.len() && recent(#[trigger] s[k], p.date as int) ==> after_put(s, p).contains(s[k]),
        after_put(s, p).len() > 0 && after_put(s, p).last() == p,
{
    let t = s.push(p);
    lemma_keep_recent(t, p.date as int);
    assert forall|k: int| 0 <= k < s.len() && recent(#[trigger] s[k], p.date as int) implies after_put(s, p).contains(s[k]) by {
        assert(t[k] == s[k]);
    }
    assert(t.drop_last() =~= s);
    assert forall|k: int| 0 <= k < after_put(s, p).len() implies #[trigger] after_put(s, p)[k].date >= p.date - DATA_RETENTION_PERIOD_MS by {
        assert(recent(after_put(s, p)[k], p.date as int));
    }
}

/// Into an empty store, `put(first)` then `put(second)`, with `second` later than `first` and
/// within the retention period of it: an interval then holds exactly those of
/// the two dated in it, in order.
pub proof fn lemma_two_puts_interval(first: DataPoint, second: DataPoint, lower: int, upper: int)
    requires
        first.date < second.date,
        second.date - first.date <= DATA_RETENTION_PERIOD_MS,
    ensures
        in_interval(after_put(after_put(Seq::empty(), first), second), lower, upper) == (if lower <= first.date < upper {
            seq![first]
        } else {
            Seq::empty()
        }) + (if lower <= second.date < upper {
            seq![second]
        } else {
            Seq::empty()
        }),
{
    let s1 = after_put(Seq::empty(), first);
    let e = Seq::<DataPoint>::empty();
    assert(e.push(first).drop_last() =~= e);
    assert(keep_recent(e, first.date as int) == e);
    assert(e.push(first).last() == first);
    assert(s1 == e.push(first));
    assert(s1 =~= seq![first]);
    let t = seq![first].push(second);
    assert(t.drop_last() =~= seq![first]);
    assert(seq![first].drop_last() =~= Seq::<DataPoint>::empty());
    assert(keep_recent(e, second.date as int) == e);
    assert(keep_recent(seq![first], second.date as int) == e.push(first));
    assert(after_put(s1, second) == e.push(first).push(second));
    assert(after_put(s1, second) =~= seq![first, second]);
    assert(seq![first, second].drop_last() =~= seq![first]);
    assert(seq![first].drop_last() =~= e);
    assert(in_interval(e, lower, upper) == e);
    let i1 = in_interval(seq![first], lower, upper);
    assert(i1 == if lower <= first.date < upper { e.push(first) } else { e });
    assert(in_interval(seq![first, second], lower, upper) == if lower <= second.date < upper { i1.push(second) } else { i1 });
    assert(in_interval(seq![first, second], lower, upper) =~= (if lower <= first.date < upper {
        seq![first]
    } else {
        Seq::empty()
    }) + (if lower <= second.date < upper {
        seq![second]
    } else {
        Seq::empty()
    }));
}

} // verus!
