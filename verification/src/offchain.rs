//! The offchain fetch scheduler's decision logic.  It runs outside the
//! deterministic pipeline and only observes state: given the engine and
//! the current block it says which keys are due for an external fetch
//! and with what request.  Fetching, parsing and submitting the signed
//! `feed_data` transaction are I/O and live with the caller; a failed
//! fetch leaves no trace here, so nothing is retried before the next
//! block that is a whole number of periods.

use vstd::prelude::*;
use vstd::arithmetic::div_mod::{
    lemma_fundamental_div_mod, lemma_mod_multiples_vanish, lemma_small_mod,
};
use crate::types::{BlockNumber, NumberType};
use crate::feed::{DataFeed, copy_bytes, find_entry, lemma_find_entry_none, lemma_find_entry_self};

verus! {

/// One fetch the scheduler asks for: where to fetch, which field to
/// read, and the representation the fetched number must be converted to
/// before it is submitted through `feed_data`.
pub struct FetchTask {
    pub key: Vec<u8>,
    pub url: Vec<u8>,
    pub key_str: Vec<u8>,
    pub number_type: NumberType,
}

/// The fetch period in force for key `k`: the governance override when
/// set, else the schedule declared at registration; zero when the key is
/// unregistered.
pub open spec fn spec_effective_period(f: DataFeed, k: Seq<u8>) -> BlockNumber {
    match find_entry(f.entries@, k) {
        Some(e) => match e.period {
            Some(p) => p,
            None => e.info.schedule,
        },
        None => 0,
    }
}

/// A fetch is due for key `k` at `block` exactly when the key is
/// registered with a request descriptor and `block` is a whole number of
/// (positive) periods.
pub open spec fn spec_due(f: DataFeed, k: Seq<u8>, block: BlockNumber) -> bool {
    &&& f.spec_registered(k)
    &&& f.spec_request(k) is Some
    &&& spec_effective_period(f, k) > 0
    &&& block as int % (spec_effective_period(f, k) as int) == 0
}

/// A task the scheduler may emit: due, and carrying exactly the stored
/// request and declared representation of its key.
pub open spec fn task_valid(f: DataFeed, t: FetchTask, block: BlockNumber) -> bool {
    &&& spec_due(f, t.key@, block)
    &&& f.spec_request(t.key@) == Some((t.url@, t.key_str@))
    &&& (match f.spec_data_info(t.key@) {
        Some(info) => t.number_type == info.number_type,
        None => false,
    })
}

/// Whether a fetch is due at `block` for period `period`.  A zero period
/// never schedules.
pub fn should_fetch(block: BlockNumber, period: BlockNumber) -> (r: bool)
    ensures
        r == (period > 0 && block as int % (period as int) == 0),
{
    period > 0 && block % period == 0
}

/// The fetches due at `block`: one task for every registered key that
/// has a request descriptor and whose period divides `block`.  Read-only
/// and deterministic in the state and the block, so a fetch that failed
/// at one due block is simply attempted again at the next one.
#[verifier::loop_isolation(false)]
pub fn offchain_tasks(f: &DataFeed, block: BlockNumber) -> (r: Vec<FetchTask>)
    requires
        f.wf(),
    ensures
        forall|t: int| 0 <= t < r@.len() ==> task_valid(*f, #[trigger] r@[t], block),
        forall|k: Seq<u8>| spec_due(*f, k, block) ==> exists|t: int|
            0 <= t < r@.len() && (#[trigger] r@[t]).key@ == k,
{
    let mut out: Vec<FetchTask> = Vec::new();
    let mut idx: usize = 0;
    while idx < f.entries.len()
        invariant
            idx <= f.entries@.len(),
            forall|t: int| 0 <= t < out@.len() ==> task_valid(*f, #[trigger] out@[t], block),
            forall|j: int| 0 <= j < idx ==> (spec_due(*f, (#[trigger] f.entries@[j]).key@, block)
                ==> exists|t: int| 0 <= t < out@.len()
                    && (#[trigger] out@[t]).key@ == f.entries@[j].key@),
        decreases f.entries@.len() - idx,
    {
        proof {
            lemma_find_entry_self(f.entries@, idx as int);
        }
        let e = &f.entries[idx];
        let eff: BlockNumber = match e.period {
            Some(p) => p,
            None => e.info.schedule,
        };
        let ghost old_out = out@;
        match &e.request {
            Some(q) => {
                if should_fetch(block, eff) {
                    let t = FetchTask {
                        key: copy_bytes(&e.key),
                        url: copy_bytes(&q.url),
                        key_str: copy_bytes(&q.key_str),
                        number_type: e.info.number_type,
                    };
                    out.push(t);
                    proof {
                        assert(out@[out@.len() - 1].key@ == f.entries@[idx as int].key@);
                        assert forall|j: int|
                            0 <= j < idx + 1 && spec_due(
                                *f,
                                (#[trigger] f.entries@[j]).key@,
                                block,
                            ) implies exists|t2: int|
                            0 <= t2 < out@.len() && (#[trigger] out@[t2]).key@
                                == f.entries@[j].key@ by {
                            if j < idx {
                                let t2 = choose|t2: int|
                                    0 <= t2 < old_out.len() && old_out[t2].key@
                                        == f.entries@[j].key@;
                                assert(out@[t2].key@ == f.entries@[j].key@);
                            } else {
                                assert(out@[out@.len() - 1].key@ == f.entries@[j].key@);
                            }
                        }
                    }
                }
            },
            None => {},
        }
        idx = idx + 1;
    }
    proof {
        assert forall|k: Seq<u8>| spec_due(*f, k, block) implies exists|t: int|
            0 <= t < out@.len() && (#[trigger] out@[t]).key@ == k by {
            lemma_find_entry_none(f.entries@, k);
            let j = choose|j: int| 0 <= j < f.entries@.len() && (#[trigger] f.entries@[j]).key@ == k;
            assert(spec_due(*f, f.entries@[j].key@, block));
        }
    }
    out
}

/// After a due block the scheduler stays quiet until the next whole
/// period: no block strictly between two consecutive multiples of the
/// period is due, so a fetch skipped at block `b` is next attempted at
/// `b + p` and not before.
pub proof fn lemma_no_retry_before_next_period(b: int, d: int, p: int)
    requires
        p > 0,
        b >= 0,
        b % p == 0,
        0 < d < p,
    ensures
        (b + d) % p != 0,
{
    lemma_fundamental_div_mod(b, p);
    lemma_mod_multiples_vanish(b / p, d, p);
    lemma_small_mod(d as nat, p as nat);
    assert(b + d == p * (b / p) + d);
}

} // verus!
