//! Properties that relate several operations of the engine, stated and
//! proved over the same spec functions the operations' own contracts
//! use.

use vstd::prelude::*;
use crate::types::RING_BUF_LEN;
use crate::feed::{
    DataFeed, ProviderData, find_entry, find_feed, lemma_find_entry_none, lemma_find_entry_self,
};
use crate::aggregate::{gathered_feeds, spec_agg_ok, spec_agg_value, spec_gathered};

verus! {

proof fn lemma_find_feed_some_index(s: Seq<ProviderData>, p: u64)
    requires
        find_feed(s, p) is Some,
    ensures
        exists|j: int|
            0 <= j < s.len() && (#[trigger] s[j]).provider == p && find_feed(s, p) == Some(
                s[j].data,
            ),
    decreases s.len(),
{
    if s[0].provider == p {
        assert(s[0].provider == p && find_feed(s, p) == Some(s[0].data));
    } else {
        lemma_find_feed_some_index(s.drop_first(), p);
        let j = choose|j: int|
            0 <= j < s.drop_first().len() && (#[trigger] s.drop_first()[j]).provider == p
                && find_feed(s.drop_first(), p) == Some(s.drop_first()[j].data);
        assert(s[j + 1] == s.drop_first()[j]);
        assert(s[j + 1].provider == p && find_feed(s, p) == Some(s[j + 1].data));
    }
}

/// Capacity invariant: in a well-formed state every stored history holds
/// exactly `RING_BUF_LEN` values, however many submissions went into it;
/// submissions past the capacity overwrite, they never grow it.
pub proof fn lemma_capacity_invariant(f: DataFeed, k: Seq<u8>, p: u64)
    requires
        f.wf(),
    ensures
        (match f.spec_feed(k, p) {
            Some(fd) => fd.slots@.len() == RING_BUF_LEN && fd.next < RING_BUF_LEN,
            None => true,
        }),
{
    match find_entry(f.entries@, k) {
        Some(e) => {
            lemma_find_entry_none(f.entries@, k);
            let i = choose|i: int| 0 <= i < f.entries@.len() && (#[trigger] f.entries@[i]).key@ == k;
            lemma_find_entry_self(f.entries@, i);
            assert(e == f.entries@[i]);
            assert(e.wf());
            if find_feed(e.feeds@, p) is Some {
                lemma_find_feed_some_index(e.feeds@, p);
                let j = choose|j: int|
                    0 <= j < e.feeds@.len() && (#[trigger] e.feeds@[j]).provider == p && find_feed(
                        e.feeds@,
                        p,
                    ) == Some(e.feeds@[j].data);
                assert(e.feeds@[j].data.wf());
            }
        },
        None => {},
    }
}

/// Aggregation emptiness: when no provider keeps a history for key `k`,
/// nothing is gathered and no consensus value exists — `aggregate`
/// returns nothing and the consumer accessor falls back to its default.
pub proof fn lemma_aggregate_empty(f: DataFeed, k: Seq<u8>)
    requires
        f.wf(),
        forall|p: u64| f.spec_feed(k, p) is None,
    ensures
        spec_gathered(f, k).len() == 0,
        !spec_agg_ok(f, k),
{
    match find_entry(f.entries@, k) {
        Some(e) => {
            if e.feeds@.len() > 0 {
                let p0 = e.feeds@[0].provider;
                assert(find_feed(e.feeds@, p0) is Some);
                assert(f.spec_feed(k, p0) is Some);
            }
            assert(e.feeds@.len() == 0);
            assert(gathered_feeds(e.feeds@).len() == 0);
        },
        None => {},
    }
}

/// Key removal cascades: once a key is unregistered — as
/// `remove_storage_key` leaves it — no consensus value exists for it,
/// and `feed_data`'s own contract refuses any further submission for it
/// with the unknown-key error.
pub proof fn lemma_key_removal_cascade(f: DataFeed, k: Seq<u8>)
    requires
        !f.spec_registered(k),
    ensures
        spec_gathered(f, k).len() == 0,
        !spec_agg_ok(f, k),
        f.spec_data_info(k) is None,
        forall|p: u64| f.spec_feed(k, p) is None,
{
}

/// Provider removal is not retroactive: `remove_provider` leaves the
/// entries untouched, and aggregation reads only the entries, so every
/// key still gathers the same payloads and aggregates to the same value.
/// Values a removed provider fed keep contributing until overwritten or
/// removed with their key.
pub proof fn lemma_provider_removal_keeps_aggregate(a: DataFeed, b: DataFeed, k: Seq<u8>)
    requires
        a.entries@ == b.entries@,
    ensures
        spec_gathered(a, k) == spec_gathered(b, k),
        spec_agg_ok(a, k) == spec_agg_ok(b, k),
        spec_agg_ok(a, k) ==> spec_agg_value(a, k) == spec_agg_value(b, k),
{
}

} // verus!
