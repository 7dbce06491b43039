//! The aggregation engine: flattens every provider's history for a key
//! into one collection of raw payloads and reduces it with the key's
//! configured operation (the arithmetic mean, truncating, computed in the
//! value's own integer or fixed-point domain).

use vstd::prelude::*;
use crate::types::{DataType, Error, NumberType, Operations, RING_BUF_LEN, spec_inner, spec_make};
use crate::feed::{DataFeed, ProviderData, find_entry, find_entry_index};

verus! {

/// Raw payloads of one history, in slot order.
pub open spec fn inner_seq(s: Seq<DataType>) -> Seq<u128> {
    s.map_values(|v: DataType| spec_inner(v))
}

/// Raw payloads stored for a key across every history, in storage order.
pub open spec fn gathered_feeds(s: Seq<ProviderData>) -> Seq<u128>
    decreases s.len(),
{
    if s.len() == 0 {
        Seq::empty()
    } else {
        inner_seq(s[0].data.slots@) + gathered_feeds(s.drop_first())
    }
}

/// Sum of raw payloads, in the unbounded integers.
pub open spec fn sum_seq(s: Seq<u128>) -> int
    decreases s.len(),
{
    if s.len() == 0 {
        0
    } else {
        s[0] + sum_seq(s.drop_first())
    }
}

/// All raw payloads the engine aggregates for key `k`: the flattened
/// histories of every provider that has fed the key — membership in the
/// current whitelist is not consulted, so values fed before a provider's
/// removal keep contributing until overwritten or cascaded away.
pub open spec fn spec_gathered(f: DataFeed, k: Seq<u8>) -> Seq<u128> {
    match find_entry(f.entries@, k) {
        Some(e) => gathered_feeds(e.feeds@),
        None => Seq::empty(),
    }
}

/// Aggregation yields a value exactly when the key is registered, at
/// least one payload is stored, and the sum fits the numeric domain.
pub open spec fn spec_agg_ok(f: DataFeed, k: Seq<u8>) -> bool {
    &&& f.spec_registered(k)
    &&& spec_gathered(f, k).len() > 0
    &&& sum_seq(spec_gathered(f, k)) <= u128::MAX
}

/// The reduction each operation performs on the gathered raw payloads.
/// New reducers plug in here without touching the store or the registry.
pub open spec fn spec_reduce(op: Operations, g: Seq<u128>) -> u128 {
    match op {
        Operations::Average => (sum_seq(g) / (g.len() as int)) as u128,
    }
}

/// The consensus value: the key's configured reduction of all stored
/// payloads — for `Average`, their truncating mean — tagged with the
/// key's declared representation.
pub open spec fn spec_agg_value(f: DataFeed, k: Seq<u8>) -> DataType {
    let g = spec_gathered(f, k);
    let (nt, op) = match f.spec_data_info(k) {
        Some(info) => (info.number_type, info.operation),
        None => (NumberType::U128, Operations::Average),
    };
    spec_make(nt, spec_reduce(op, g))
}

/// Sums split over concatenation.
pub proof fn lemma_sum_append(a: Seq<u128>, b: Seq<u128>)
    ensures
        sum_seq(a + b) == sum_seq(a) + sum_seq(b),
    decreases a.len(),
{
    if a.len() == 0 {
        assert(a + b =~= b);
    } else {
        assert((a + b)[0] == a[0]);
        assert((a + b).drop_first() =~= a.drop_first() + b);
        lemma_sum_append(a.drop_first(), b);
    }
}

/// A sum of unsigned payloads is never negative.
pub proof fn lemma_sum_nonneg(s: Seq<u128>)
    ensures
        sum_seq(s) >= 0,
    decreases s.len(),
{
    if s.len() > 0 {
        lemma_sum_nonneg(s.drop_first());
    }
}

/// Flattening splits over concatenation.
pub proof fn lemma_gathered_append(a: Seq<ProviderData>, b: Seq<ProviderData>)
    ensures
        gathered_feeds(a + b) == gathered_feeds(a) + gathered_feeds(b),
    decreases a.len(),
{
    if a.len() == 0 {
        assert(a + b =~= b);
        assert(gathered_feeds(a) + gathered_feeds(b) =~= gathered_feeds(b));
    } else {
        assert((a + b)[0] == a[0]);
        assert((a + b).drop_first() =~= a.drop_first() + b);
        lemma_gathered_append(a.drop_first(), b);
        assert(inner_seq(a[0].data.slots@) + (gathered_feeds(a.drop_first()) + gathered_feeds(b))
            =~= (inner_seq(a[0].data.slots@) + gathered_feeds(a.drop_first()))
            + gathered_feeds(b));
    }
}

/// Each history contributes exactly its slots, so the flattened length
/// is the number of histories times the capacity.
pub proof fn lemma_gathered_len(s: Seq<ProviderData>)
    requires
        forall|i: int| 0 <= i < s.len() ==> (#[trigger] s[i]).data.wf(),
    ensures
        gathered_feeds(s).len() == s.len() * RING_BUF_LEN,
    decreases s.len(),
{
    if s.len() > 0 {
        assert forall|i: int|
            0 <= i < s.drop_first().len() implies (#[trigger] s.drop_first()[i]).data.wf() by {
            assert(s.drop_first()[i] == s[i + 1]);
        }
        lemma_gathered_len(s.drop_first());
    }
}

/// Flattening a prefix one history longer appends exactly that history's
/// payloads.
pub proof fn lemma_gathered_take_step(s: Seq<ProviderData>, j: int)
    requires
        0 <= j < s.len(),
    ensures
        gathered_feeds(s.take(j + 1)) == gathered_feeds(s.take(j)) + inner_seq(s[j].data.slots@),
{
    let single = seq![s[j]];
    assert(s.take(j + 1) =~= s.take(j) + single);
    lemma_gathered_append(s.take(j), single);
    assert(single[0] == s[j]);
    assert(single.drop_first() =~= Seq::<ProviderData>::empty());
    assert(gathered_feeds(Seq::<ProviderData>::empty()) =~= Seq::<u128>::empty());
    assert(gathered_feeds(single) =~= inner_seq(s[j].data.slots@));
}

/// Summing a prefix one payload longer adds exactly that payload.
pub proof fn lemma_sum_take_step(b: Seq<u128>, s: int)
    requires
        0 <= s < b.len(),
    ensures
        sum_seq(b.take(s + 1)) == sum_seq(b.take(s)) + b[s],
{
    let single = seq![b[s]];
    assert(b.take(s + 1) =~= b.take(s) + single);
    lemma_sum_append(b.take(s), single);
    assert(single[0] == b[s]);
    assert(single.drop_first() =~= Seq::<u128>::empty());
    assert(sum_seq(Seq::<u128>::empty()) == 0);
    assert(sum_seq(single) == b[s]);
}

/// The flattened collection splits around history `j`.
pub proof fn lemma_gathered_decompose(s: Seq<ProviderData>, j: int)
    requires
        0 <= j < s.len(),
    ensures
        gathered_feeds(s) == gathered_feeds(s.take(j)) + inner_seq(s[j].data.slots@)
            + gathered_feeds(s.skip(j + 1)),
{
    assert(s =~= s.take(j) + s.skip(j));
    lemma_gathered_append(s.take(j), s.skip(j));
    assert(s.skip(j)[0] == s[j]);
    assert(s.skip(j).drop_first() =~= s.skip(j + 1));
    assert(gathered_feeds(s.take(j)) + (inner_seq(s[j].data.slots@) + gathered_feeds(
        s.skip(j + 1),
    )) =~= gathered_feeds(s.take(j)) + inner_seq(s[j].data.slots@) + gathered_feeds(s.skip(j + 1)));
}

impl DataFeed {
    /// The consensus value for key `key`: `Ok(None)` when the key is
    /// unregistered or no provider has submitted anything, the reduced
    /// value otherwise, and `Err(Overflow)` when the payloads' sum leaves
    /// the numeric domain.  Read-only.
    #[verifier::loop_isolation(false)]
    pub fn aggregate(&self, key: &Vec<u8>) -> (r: Result<Option<DataType>, Error>)
        requires
            self.wf(),
        ensures
            r == (if self.spec_registered(key@) && spec_gathered(*self, key@).len() > 0 {
                if sum_seq(spec_gathered(*self, key@)) <= u128::MAX {
                    Ok::<Option<DataType>, Error>(Some(spec_agg_value(*self, key@)))
                } else {
                    Err::<Option<DataType>, Error>(Error::Overflow)
                }
            } else {
                Ok::<Option<DataType>, Error>(None::<DataType>)
            }),
    {
        let i = match find_entry_index(&self.entries, key) {
            Some(i) => i,
            None => {
                return Ok(None);
            },
        };
        let ghost feeds = self.entries@[i as int].feeds@;
        let ghost g = spec_gathered(*self, key@);
        proof {
            assert(g == gathered_feeds(feeds));
            lemma_gathered_len(feeds);
        }
        let n = self.entries[i].feeds.len();
        if n == 0 {
            proof {
                assert(g.len() == 0);
            }
            return Ok(None);
        }
        let count: u128 = (n as u128) * (RING_BUF_LEN as u128);
        proof {
            assert(count == g.len());
        }
        let mut acc: u128 = 0;
        let mut j: usize = 0;
        while j < n
            invariant
                j <= n,
                acc as int == sum_seq(gathered_feeds(feeds.take(j as int))),
            decreases n - j,
        {
            let ghost base = sum_seq(gathered_feeds(feeds.take(j as int)));
            let ghost inner = inner_seq(feeds[j as int].data.slots@);
            let mut s: usize = 0;
            while s < RING_BUF_LEN
                invariant
                    s <= RING_BUF_LEN,
                    j < n,
                    acc as int == base + sum_seq(inner.take(s as int)),
                decreases RING_BUF_LEN - s,
            {
                let v = self.entries[i].feeds[j].data.slot(s);
                let x = v.raw();
                proof {
                    assert(inner[s as int] == x);
                    lemma_sum_take_step(inner, s as int);
                }
                if x > u128::MAX - acc {
                    proof {
                        lemma_gathered_decompose(feeds, j as int);
                        lemma_sum_append(
                            gathered_feeds(feeds.take(j as int)) + inner,
                            gathered_feeds(feeds.skip(j as int + 1)),
                        );
                        lemma_sum_append(gathered_feeds(feeds.take(j as int)), inner);
                        assert(inner =~= inner.take(s as int) + inner.skip(s as int));
                        lemma_sum_append(inner.take(s as int), inner.skip(s as int));
                        assert(inner.skip(s as int)[0] == inner[s as int]);
                        assert(inner.skip(s as int).drop_first() =~= inner.skip(s as int + 1));
                        lemma_sum_nonneg(inner.skip(s as int + 1));
                        lemma_sum_nonneg(gathered_feeds(feeds.skip(j as int + 1)));
                        assert(sum_seq(g) >= acc as int + x);
                    }
                    return Err(Error::Overflow);
                }
                acc = acc + x;
                s = s + 1;
            }
            proof {
                assert(inner.take(RING_BUF_LEN as int) =~= inner);
                lemma_gathered_take_step(feeds, j as int);
                lemma_sum_append(gathered_feeds(feeds.take(j as int)), inner);
            }
            j = j + 1;
        }
        proof {
            assert(feeds.take(n as int) =~= feeds);
            assert(acc as int == sum_seq(g));
        }
        let reduced = match self.entries[i].info.operation {
            Operations::Average => acc / count,
        };
        Ok(Some(DataType::from_raw(self.entries[i].info.number_type, reduced)))
    }
}

} // verus!
