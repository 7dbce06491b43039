//! The oracle engine's state machine: the governance-controlled provider
//! whitelist, the key registry with its aggregation metadata, the offchain
//! request descriptors, and every provider's ring-buffer history.
//!
//! All state lives in one `DataFeed` value; every mutating operation is
//! atomic: a rejected call returns its error and leaves the state as it
//! was.

use vstd::prelude::*;
use crate::types::{
    AccountId, BlockNumber, DataType, Error, FeededDataInfo, OffchainRequestInfo, RawOrigin,
    RING_BUF_LEN, spec_tag,
};
use crate::ring::FeededData;

verus! {

/// One provider's history for the owning key.
#[derive(Clone, Debug)]
pub struct ProviderData {
    pub provider: AccountId,
    pub data: FeededData,
}

/// Everything stored for one registered data key.
#[derive(Clone, Debug)]
pub struct KeyEntry {
    /// The key itself: an opaque byte sequence.
    pub key: Vec<u8>,
    /// Aggregation metadata declared at registration.
    pub info: FeededDataInfo,
    /// Offchain fetch descriptor, when governance has set one.
    pub request: Option<OffchainRequestInfo>,
    /// Governance override of the fetch period.
    pub period: Option<BlockNumber>,
    /// One history per provider that has fed this key.
    pub feeds: Vec<ProviderData>,
}

/// No two entries share a key.
pub open spec fn keys_distinct(s: Seq<KeyEntry>) -> bool {
    forall|i: int, j: int|
        0 <= i < j < s.len() ==> (#[trigger] s[i]).key@ != (#[trigger] s[j]).key@
}

/// No two histories of one entry belong to the same provider.
pub open spec fn feeds_distinct(s: Seq<ProviderData>) -> bool {
    forall|i: int, j: int|
        0 <= i < j < s.len() ==> (#[trigger] s[i]).provider != (#[trigger] s[j]).provider
}

/// The entry stored for key `k`, scanning in storage order.
pub open spec fn find_entry(s: Seq<KeyEntry>, k: Seq<u8>) -> Option<KeyEntry>
    decreases s.len(),
{
    if s.len() == 0 {
        None
    } else if s[0].key@ == k {
        Some(s[0])
    } else {
        find_entry(s.drop_first(), k)
    }
}

/// The history stored for provider `p`, scanning in storage order.
pub open spec fn find_feed(s: Seq<ProviderData>, p: AccountId) -> Option<FeededData>
    decreases s.len(),
{
    if s.len() == 0 {
        None
    } else if s[0].provider == p {
        Some(s[0].data)
    } else {
        find_feed(s.drop_first(), p)
    }
}

impl KeyEntry {
    /// Well-formed: one history per provider, each history well-formed,
    /// and every stored value tagged with the entry's declared type.
    pub open spec fn wf(self) -> bool {
        &&& feeds_distinct(self.feeds@)
        &&& forall|i: int| 0 <= i < self.feeds@.len() ==> (#[trigger] self.feeds@[i]).data.wf()
        &&& forall|i: int, j: int|
                0 <= i < self.feeds@.len() && 0 <= j < self.feeds@[i].data.slots@.len()
                    ==> spec_tag(#[trigger] self.feeds@[i].data.slots@[j]) == self.info.number_type
    }
}

/// The engine's whole state.
pub struct DataFeed {
    /// Accounts currently allowed to feed data and register keys.
    pub providers: Vec<AccountId>,
    /// One entry per registered data key.
    pub entries: Vec<KeyEntry>,
}

impl DataFeed {
    /// Well-formed: no duplicate providers, no duplicate keys, and every
    /// entry well-formed.  Every operation preserves this.
    pub open spec fn wf(self) -> bool {
        &&& forall|i: int, j: int|
                0 <= i < j < self.providers@.len()
                    ==> self.providers@[i] != self.providers@[j]
        &&& keys_distinct(self.entries@)
        &&& forall|i: int| 0 <= i < self.entries@.len() ==> (#[trigger] self.entries@[i]).wf()
    }

    /// Whether `a` is a current provider.
    pub open spec fn spec_is_provider(self, a: AccountId) -> bool {
        self.providers@.contains(a)
    }

    /// The metadata registered for key `k`.
    pub open spec fn spec_data_info(self, k: Seq<u8>) -> Option<FeededDataInfo> {
        match find_entry(self.entries@, k) {
            Some(e) => Some(e.info),
            None => None,
        }
    }

    /// Whether key `k` is registered.
    pub open spec fn spec_registered(self, k: Seq<u8>) -> bool {
        find_entry(self.entries@, k) is Some
    }

    /// The offchain request descriptor of key `k`, as (url, field) views.
    pub open spec fn spec_request(self, k: Seq<u8>) -> Option<(Seq<u8>, Seq<u8>)> {
        match find_entry(self.entries@, k) {
            Some(e) => match e.request {
                Some(r) => Some((r.url@, r.key_str@)),
                None => None,
            },
            None => None,
        }
    }

    /// The governance override of key `k`'s fetch period.
    pub open spec fn spec_period(self, k: Seq<u8>) -> Option<BlockNumber> {
        match find_entry(self.entries@, k) {
            Some(e) => e.period,
            None => None,
        }
    }

    /// The history provider `p` keeps for key `k`.
    pub open spec fn spec_feed(self, k: Seq<u8>, p: AccountId) -> Option<FeededData> {
        match find_entry(self.entries@, k) {
            Some(e) => find_feed(e.feeds@, p),
            None => None,
        }
    }
}

/// The two states hold the same providers and the same entries.
pub open spec fn state_unchanged(a: DataFeed, b: DataFeed) -> bool {
    &&& a.providers@ == b.providers@
    &&& a.entries@ == b.entries@
}

/// Whether re-registration keeps the histories already fed: it does
/// exactly when the key was registered and its declared representation
/// does not change, so every stored value still carries the declared tag.
pub open spec fn kept_feeds(old_info: Option<FeededDataInfo>, new_info: FeededDataInfo) -> bool {
    match old_info {
        Some(oi) => oi.number_type == new_info.number_type,
        None => false,
    }
}

/// All observations of one key agree between two states.
pub open spec fn key_obs_unchanged(a: DataFeed, b: DataFeed, k: Seq<u8>) -> bool {
    &&& b.spec_data_info(k) == a.spec_data_info(k)
    &&& b.spec_request(k) == a.spec_request(k)
    &&& b.spec_period(k) == a.spec_period(k)
    &&& forall|p: AccountId| b.spec_feed(k, p) == a.spec_feed(k, p)
}

proof fn lemma_keys_distinct_drop(s: Seq<KeyEntry>)
    requires
        keys_distinct(s),
        s.len() > 0,
    ensures
        keys_distinct(s.drop_first()),
{
    assert forall|i: int, j: int|
        0 <= i < j < s.drop_first().len() implies (#[trigger] s.drop_first()[i]).key@
        != (#[trigger] s.drop_first()[j]).key@ by {
        assert(s.drop_first()[i] == s[i + 1]);
        assert(s.drop_first()[j] == s[j + 1]);
    }
}

proof fn lemma_feeds_distinct_drop(s: Seq<ProviderData>)
    requires
        feeds_distinct(s),
        s.len() > 0,
    ensures
        feeds_distinct(s.drop_first()),
{
    assert forall|i: int, j: int|
        0 <= i < j < s.drop_first().len() implies (#[trigger] s.drop_first()[i]).provider
        != (#[trigger] s.drop_first()[j]).provider by {
        assert(s.drop_first()[i] == s[i + 1]);
        assert(s.drop_first()[j] == s[j + 1]);
    }
}

/// Replacing the entry at `i` by one with the same key changes the lookup
/// of that key alone.
pub proof fn lemma_find_entry_update(s: Seq<KeyEntry>, i: int, e: KeyEntry, k: Seq<u8>)
    requires
        keys_distinct(s),
        0 <= i < s.len(),
        e.key@ == s[i].key@,
    ensures
        find_entry(s.update(i, e), k) == if k == e.key@ {
            Some(e)
        } else {
            find_entry(s, k)
        },
    decreases s.len(),
{
    let s2 = s.update(i, e);
    if i == 0 {
        assert(s2[0] == e);
        if k != e.key@ {
            assert(s2.drop_first() =~= s.drop_first());
        }
    } else {
        assert(s2[0] == s[0]);
        assert(s[0].key@ != s[i].key@);
        if s[0].key@ == k {
        } else {
            assert(s2.drop_first() =~= s.drop_first().update(i - 1, e));
            lemma_keys_distinct_drop(s);
            assert(s.drop_first()[i - 1] == s[i]);
            lemma_find_entry_update(s.drop_first(), i - 1, e, k);
        }
    }
}

/// Appending an entry leaves every present key's lookup as it was and
/// makes the new key found.
pub proof fn lemma_find_entry_push(s: Seq<KeyEntry>, e: KeyEntry, k: Seq<u8>)
    ensures
        find_entry(s.push(e), k) == if find_entry(s, k) is Some {
            find_entry(s, k)
        } else if e.key@ == k {
            Some(e)
        } else {
            None::<KeyEntry>
        },
    decreases s.len(),
{
    let s2 = s.push(e);
    if s.len() == 0 {
        assert(s2[0] == e);
        assert(s2.drop_first() =~= Seq::<KeyEntry>::empty());
        assert(find_entry(Seq::<KeyEntry>::empty(), k) is None);
    } else {
        assert(s2[0] == s[0]);
        if s[0].key@ == k {
        } else {
            assert(s2.drop_first() =~= s.drop_first().push(e));
            lemma_find_entry_push(s.drop_first(), e, k);
        }
    }
}

/// A key is unfound exactly when no entry holds it.
pub proof fn lemma_find_entry_none(s: Seq<KeyEntry>, k: Seq<u8>)
    ensures
        (find_entry(s, k) is None) <==> (forall|j: int|
            0 <= j < s.len() ==> (#[trigger] s[j]).key@ != k),
    decreases s.len(),
{
    if s.len() == 0 {
    } else {
        lemma_find_entry_none(s.drop_first(), k);
        if s[0].key@ == k {
        } else {
            if find_entry(s, k) is None {
                assert forall|j: int| 0 <= j < s.len() implies (#[trigger] s[j]).key@ != k by {
                    if j > 0 {
                        assert(s[j] == s.drop_first()[j - 1]);
                    }
                }
            } else {
                if forall|j: int| 0 <= j < s.len() ==> (#[trigger] s[j]).key@ != k {
                    assert forall|m: int|
                        0 <= m < s.drop_first().len() implies (#[trigger] s.drop_first()[m]).key@
                        != k by {
                        assert(s.drop_first()[m] == s[m + 1]);
                    }
                    assert(find_entry(s.drop_first(), k) is None);
                }
            }
        }
    }
}

/// Removing the entry at `i` makes its key unfound and changes no other
/// key's lookup.
pub proof fn lemma_find_entry_remove(s: Seq<KeyEntry>, i: int, k: Seq<u8>)
    requires
        keys_distinct(s),
        0 <= i < s.len(),
    ensures
        find_entry(s.remove(i), k) == if s[i].key@ == k {
            None::<KeyEntry>
        } else {
            find_entry(s, k)
        },
    decreases s.len(),
{
    let s2 = s.remove(i);
    if i == 0 {
        assert(s2 =~= s.drop_first());
        if s[0].key@ == k {
            assert forall|j: int| 0 <= j < s2.len() implies (#[trigger] s2[j]).key@ != k by {
                assert(s2[j] == s[j + 1]);
            }
            lemma_find_entry_none(s2, k);
        }
    } else {
        assert(s2[0] == s[0]);
        if s[0].key@ == k {
            assert(s[0].key@ != s[i].key@);
        } else {
            assert(s2.drop_first() =~= s.drop_first().remove(i - 1));
            lemma_keys_distinct_drop(s);
            assert(s.drop_first()[i - 1] == s[i]);
            lemma_find_entry_remove(s.drop_first(), i - 1, k);
        }
    }
}

/// Every stored entry is found under its own key.
pub proof fn lemma_find_entry_self(s: Seq<KeyEntry>, j: int)
    requires
        keys_distinct(s),
        0 <= j < s.len(),
    ensures
        find_entry(s, s[j].key@) == Some(s[j]),
    decreases s.len(),
{
    if j == 0 {
    } else {
        assert(s[0].key@ != s[j].key@);
        lemma_keys_distinct_drop(s);
        assert(s.drop_first()[j - 1] == s[j]);
        lemma_find_entry_self(s.drop_first(), j - 1);
    }
}

/// Replacing the history at `j` by one of the same provider changes that
/// provider's lookup alone.
pub proof fn lemma_find_feed_update(s: Seq<ProviderData>, i: int, pd: ProviderData, p: AccountId)
    requires
        feeds_distinct(s),
        0 <= i < s.len(),
        pd.provider == s[i].provider,
    ensures
        find_feed(s.update(i, pd), p) == if p == pd.provider {
            Some(pd.data)
        } else {
            find_feed(s, p)
        },
    decreases s.len(),
{
    let s2 = s.update(i, pd);
    if i == 0 {
        assert(s2[0] == pd);
        if p != pd.provider {
            assert(s2.drop_first() =~= s.drop_first());
        }
    } else {
        assert(s2[0] == s[0]);
        assert(s[0].provider != s[i].provider);
        if s[0].provider == p {
        } else {
            assert(s2.drop_first() =~= s.drop_first().update(i - 1, pd));
            lemma_feeds_distinct_drop(s);
            assert(s.drop_first()[i - 1] == s[i]);
            lemma_find_feed_update(s.drop_first(), i - 1, pd, p);
        }
    }
}

/// Appending a history leaves every present provider's lookup as it was
/// and makes the new provider found.
pub proof fn lemma_find_feed_push(s: Seq<ProviderData>, pd: ProviderData, p: AccountId)
    ensures
        find_feed(s.push(pd), p) == if find_feed(s, p) is Some {
            find_feed(s, p)
        } else if pd.provider == p {
            Some(pd.data)
        } else {
            None::<FeededData>
        },
    decreases s.len(),
{
    let s2 = s.push(pd);
    if s.len() == 0 {
        assert(s2[0] == pd);
        assert(s2.drop_first() =~= Seq::<ProviderData>::empty());
        assert(find_feed(Seq::<ProviderData>::empty(), p) is None);
    } else {
        assert(s2[0] == s[0]);
        if s[0].provider == p {
        } else {
            assert(s2.drop_first() =~= s.drop_first().push(pd));
            lemma_find_feed_push(s.drop_first(), pd, p);
        }
    }
}

/// A provider is unfound exactly when no history belongs to it.
pub proof fn lemma_find_feed_none(s: Seq<ProviderData>, p: AccountId)
    ensures
        (find_feed(s, p) is None) <==> (forall|j: int|
            0 <= j < s.len() ==> (#[trigger] s[j]).provider != p),
    decreases s.len(),
{
    if s.len() == 0 {
    } else {
        lemma_find_feed_none(s.drop_first(), p);
        if s[0].provider == p {
        } else {
            if find_feed(s, p) is None {
                assert forall|j: int| 0 <= j < s.len() implies (#[trigger] s[j]).provider != p by {
                    if j > 0 {
                        assert(s[j] == s.drop_first()[j - 1]);
                    }
                }
            } else {
                if forall|j: int| 0 <= j < s.len() ==> (#[trigger] s[j]).provider != p {
                    assert forall|m: int|
                        0 <= m < s.drop_first().len() implies (#[trigger] s.drop_first()[m]).provider
                        != p by {
                        assert(s.drop_first()[m] == s[m + 1]);
                    }
                    assert(find_feed(s.drop_first(), p) is None);
                }
            }
        }
    }
}

/// Byte-sequence equality of two keys.
fn bytes_eq(a: &Vec<u8>, b: &Vec<u8>) -> (r: bool)
    ensures
        r == (a@ == b@),
{
    if a.len() != b.len() {
        proof {
            if a@ == b@ {
                assert(a@.len() == b@.len());
            }
        }
        return false;
    }
    let mut i: usize = 0;
    while i < a.len()
        invariant
            a@.len() == b@.len(),
            i <= a@.len(),
            forall|j: int| 0 <= j < i ==> a@[j] == b@[j],
        decreases a@.len() - i,
    {
        if a[i] != b[i] {
            proof {
                if a@ == b@ {
                    assert(a@[i as int] == b@[i as int]);
                }
            }
            return false;
        }
        i = i + 1;
    }
    proof {
        assert(a@ =~= b@);
    }
    true
}

/// A copy of a byte key.
pub fn copy_bytes(a: &Vec<u8>) -> (r: Vec<u8>)
    ensures
        r@ == a@,
{
    let mut out: Vec<u8> = Vec::new();
    let mut i: usize = 0;
    while i < a.len()
        invariant
            i <= a@.len(),
            out@ =~= a@.take(i as int),
        decreases a@.len() - i,
    {
        out.push(a[i]);
        i = i + 1;
    }
    proof {
        assert(out@ =~= a@);
    }
    out
}

/// Position of key `key` among the entries, when registered.
pub(crate) fn find_entry_index(entries: &Vec<KeyEntry>, key: &Vec<u8>) -> (r: Option<usize>)
    ensures
        match r {
            Some(i) => i < entries@.len() && entries@[i as int].key@ == key@
                && find_entry(entries@, key@) == Some(entries@[i as int]),
            None => find_entry(entries@, key@) is None,
        },
{
    proof {
        assert(entries@.skip(0) =~= entries@);
    }
    let mut i: usize = 0;
    while i < entries.len()
        invariant
            i <= entries@.len(),
            find_entry(entries@, key@) == find_entry(entries@.skip(i as int), key@),
        decreases entries@.len() - i,
    {
        proof {
            assert(entries@.skip(i as int)[0] == entries@[i as int]);
        }
        if bytes_eq(&entries[i].key, key) {
            return Some(i);
        }
        proof {
            assert(entries@.skip(i as int).drop_first() =~= entries@.skip(i as int + 1));
        }
        i = i + 1;
    }
    proof {
        assert(entries@.skip(i as int) =~= Seq::<KeyEntry>::empty());
    }
    None
}

/// Position of provider `p` among an entry's histories, when present.
pub(crate) fn find_feed_index(feeds: &Vec<ProviderData>, p: AccountId) -> (r: Option<usize>)
    ensures
        match r {
            Some(i) => i < feeds@.len() && feeds@[i as int].provider == p
                && find_feed(feeds@, p) == Some(feeds@[i as int].data),
            None => find_feed(feeds@, p) is None,
        },
{
    proof {
        assert(feeds@.skip(0) =~= feeds@);
    }
    let mut i: usize = 0;
    while i < feeds.len()
        invariant
            i <= feeds@.len(),
            find_feed(feeds@, p) == find_feed(feeds@.skip(i as int), p),
        decreases feeds@.len() - i,
    {
        proof {
            assert(feeds@.skip(i as int)[0] == feeds@[i as int]);
        }
        if feeds[i].provider == p {
            return Some(i);
        }
        proof {
            assert(feeds@.skip(i as int).drop_first() =~= feeds@.skip(i as int + 1));
        }
        i = i + 1;
    }
    proof {
        assert(feeds@.skip(i as int) =~= Seq::<ProviderData>::empty());
    }
    None
}

impl DataFeed {
    /// The empty engine: no providers, no keys.
    pub fn new() -> (r: DataFeed)
        ensures
            r.wf(),
            r.providers@ =~= Seq::<AccountId>::empty(),
            r.entries@ =~= Seq::<KeyEntry>::empty(),
    {
        DataFeed { providers: Vec::new(), entries: Vec::new() }
    }

    /// Whether `who` is a current provider.
    pub fn is_provider(&self, who: AccountId) -> (r: bool)
        ensures
            r == self.spec_is_provider(who),
    {
        let mut i: usize = 0;
        while i < self.providers.len()
            invariant
                i <= self.providers@.len(),
                forall|j: int| 0 <= j < i ==> self.providers@[j] != who,
            decreases self.providers@.len() - i,
        {
            if self.providers[i] == who {
                proof {
                    assert(self.providers@[i as int] == who);
                }
                return true;
            }
            i = i + 1;
        }
        proof {
            if self.providers@.contains(who) {
                let j = choose|j: int|
                    0 <= j < self.providers@.len() && self.providers@[j] == who;
                assert(false);
            }
        }
        false
    }

    /// A copy of the provider whitelist.
    pub fn all_providers(&self) -> (r: Vec<AccountId>)
        ensures
            r@ == self.providers@,
    {
        let mut out: Vec<AccountId> = Vec::new();
        let mut i: usize = 0;
        while i < self.providers.len()
            invariant
                i <= self.providers@.len(),
                out@ =~= self.providers@.take(i as int),
            decreases self.providers@.len() - i,
        {
            out.push(self.providers[i]);
            i = i + 1;
        }
        proof {
            assert(out@ =~= self.providers@);
        }
        out
    }

    /// Governance adds `who` to the provider whitelist.  Adding a present
    /// account is a no-op, not an error.
    pub fn add_provider(&mut self, origin: RawOrigin, who: AccountId) -> (r: Result<(), Error>)
        requires
            old(self).wf(),
        ensures
            final(self).wf(),
            origin != RawOrigin::Root ==> r == Err::<(), Error>(Error::BadOrigin)
                && state_unchanged(*old(self), *final(self)),
            origin == RawOrigin::Root ==> r == Ok::<(), Error>(())
                && final(self).spec_is_provider(who)
                && (forall|a: AccountId| a != who
                    ==> final(self).spec_is_provider(a) == old(self).spec_is_provider(a))
                && (old(self).spec_is_provider(who)
                    ==> final(self).providers@ == old(self).providers@)
                && (!old(self).spec_is_provider(who)
                    ==> final(self).providers@ == old(self).providers@.push(who))
                && final(self).entries@ == old(self).entries@,
    {
        match origin {
            RawOrigin::Root => {
                if !self.is_provider(who) {
                    self.providers.push(who);
                    proof {
                        assert(self.providers@[self.providers@.len() - 1] == who);
                        assert(self.spec_is_provider(who));
                        assert forall|a: AccountId|
                            a != who implies self.spec_is_provider(a)
                            == old(self).spec_is_provider(a) by {
                            if old(self).spec_is_provider(a) {
                                let j = choose|j: int|
                                    0 <= j < old(self).providers@.len()
                                        && old(self).providers@[j] == a;
                                assert(self.providers@[j] == a);
                            } else if self.spec_is_provider(a) {
                                let j = choose|j: int|
                                    0 <= j < self.providers@.len() && self.providers@[j] == a;
                                assert(j < old(self).providers@.len());
                                assert(old(self).providers@[j] == a);
                            }
                        }
                    }
                }
                Ok(())
            },
            RawOrigin::Signed(_) => Err(Error::BadOrigin),
        }
    }

    /// Governance removes `who` from the provider whitelist.  Removing an
    /// absent account is a no-op.  Histories `who` already fed stay as
    /// they are: they age out through the circular overwrite alone.
    #[verifier::loop_isolation(false)]
    pub fn remove_provider(&mut self, origin: RawOrigin, who: AccountId) -> (r: Result<(), Error>)
        requires
            old(self).wf(),
        ensures
            final(self).wf(),
            origin != RawOrigin::Root ==> r == Err::<(), Error>(Error::BadOrigin)
                && state_unchanged(*old(self), *final(self)),
            origin == RawOrigin::Root ==> r == Ok::<(), Error>(())
                && !final(self).spec_is_provider(who)
                && (forall|a: AccountId| a != who
                    ==> final(self).spec_is_provider(a) == old(self).spec_is_provider(a))
                && (!old(self).spec_is_provider(who)
                    ==> final(self).providers@ == old(self).providers@)
                && final(self).entries@ == old(self).entries@,
    {
        match origin {
            RawOrigin::Root => {
                let mut i: usize = 0;
                while i < self.providers.len()
                    invariant
                        i <= self.providers@.len(),
                        self.providers@ == old(self).providers@,
                        self.entries@ == old(self).entries@,
                        forall|j: int| 0 <= j < i ==> self.providers@[j] != who,
                    decreases self.providers@.len() - i,
                {
                    if self.providers[i] == who {
                        let ghost oldp = self.providers@;
                        self.providers.remove(i);
                        proof {
                            assert forall|j: int|
                                0 <= j < self.providers@.len() implies self.providers@[j]
                                != who by {
                                if j < i {
                                    assert(self.providers@[j] == oldp[j]);
                                } else {
                                    assert(self.providers@[j] == oldp[j + 1]);
                                    assert(oldp[i as int] == who);
                                }
                            }
                            if self.spec_is_provider(who) {
                                let j = choose|j: int|
                                    0 <= j < self.providers@.len() && self.providers@[j] == who;
                                assert(false);
                            }
                            assert forall|a: AccountId|
                                a != who implies self.spec_is_provider(a)
                                == old(self).spec_is_provider(a) by {
                                if old(self).spec_is_provider(a) {
                                    let j = choose|j: int|
                                        0 <= j < oldp.len() && oldp[j] == a;
                                    if j < i {
                                        assert(self.providers@[j] == a);
                                    } else {
                                        assert(oldp[i as int] == who);
                                        assert(j != i);
                                        assert(self.providers@[j - 1] == a);
                                    }
                                } else if self.spec_is_provider(a) {
                                    let j = choose|j: int|
                                        0 <= j < self.providers@.len()
                                            && self.providers@[j] == a;
                                    if j < i {
                                        assert(oldp[j] == a);
                                    } else {
                                        assert(oldp[j + 1] == a);
                                    }
                                }
                            }
                        }
                        return Ok(());
                    }
                    i = i + 1;
                }
                proof {
                    if self.spec_is_provider(who) {
                        let j = choose|j: int|
                            0 <= j < self.providers@.len() && self.providers@[j] == who;
                        assert(false);
                    }
                }
                Ok(())
            },
            RawOrigin::Signed(_) => Err(Error::BadOrigin),
        }
    }

    /// A provider registers (or re-registers) key `key` with metadata
    /// `info`.  Re-registration overwrites the metadata; the histories
    /// already fed are kept only while the declared representation stays
    /// the same, else they are cleared so every stored value still
    /// matches the declared tag.
    pub fn register_storage_key(
        &mut self,
        origin: RawOrigin,
        key: Vec<u8>,
        info: FeededDataInfo,
    ) -> (r: Result<(), Error>)
        requires
            old(self).wf(),
        ensures
            final(self).wf(),
            (match origin {
                RawOrigin::Root => r == Err::<(), Error>(Error::BadOrigin)
                    && state_unchanged(*old(self), *final(self)),
                RawOrigin::Signed(who) => {
                    if !old(self).spec_is_provider(who) {
                        r == Err::<(), Error>(Error::NotAuthorized)
                            && state_unchanged(*old(self), *final(self))
                    } else {
                        r == Ok::<(), Error>(())
                            && final(self).providers@ == old(self).providers@
                            && final(self).spec_data_info(key@) == Some(info)
                            && final(self).spec_request(key@) == old(self).spec_request(key@)
                            && final(self).spec_period(key@) == old(self).spec_period(key@)
                            && (forall|p: AccountId| final(self).spec_feed(key@, p) == (
                                if kept_feeds(old(self).spec_data_info(key@), info) {
                                    old(self).spec_feed(key@, p)
                                } else {
                                    None::<FeededData>
                                }))
                            && (forall|k2: Seq<u8>| k2 != key@
                                ==> key_obs_unchanged(*old(self), *final(self), k2))
                    }
                },
            }),
    {
        let who = match origin {
            RawOrigin::Signed(w) => w,
            RawOrigin::Root => {
                return Err(Error::BadOrigin);
            },
        };
        if !self.is_provider(who) {
            return Err(Error::NotAuthorized);
        }
        match find_entry_index(&self.entries, &key) {
            Some(i) => {
                let mut e = self.entries.remove(i);
                if e.info.number_type != info.number_type {
                    e.feeds = Vec::new();
                }
                e.info = info;
                let ghost e2 = e;
                self.entries.insert(i, e);
                proof {
                    let olde = old(self).entries@;
                    assert(self.entries@ =~= olde.update(i as int, e2));
                    assert forall|k2: Seq<u8>|
                        find_entry(self.entries@, k2) == (if k2 == e2.key@ {
                            Some(e2)
                        } else {
                            find_entry(olde, k2)
                        }) by {
                        lemma_find_entry_update(olde, i as int, e2, k2);
                    }
                    assert forall|a: int, b: int|
                        0 <= a < b < self.entries@.len() implies (#[trigger] self.entries@[a]).key@
                        != (#[trigger] self.entries@[b]).key@ by {
                        assert(olde[a].key@ != olde[b].key@);
                    }
                    assert forall|j: int|
                        0 <= j < self.entries@.len() implies (#[trigger] self.entries@[j]).wf() by {
                        if j != i {
                            assert(self.entries@[j] == olde[j]);
                        } else {
                            assert(olde[i as int].wf());
                            if !kept_feeds(old(self).spec_data_info(key@), info) {
                                assert(e2.feeds@ =~= Seq::<ProviderData>::empty());
                            }
                        }
                    }
                    assert forall|p: AccountId|
                        self.spec_feed(key@, p) == (if kept_feeds(
                            old(self).spec_data_info(key@),
                            info,
                        ) {
                            old(self).spec_feed(key@, p)
                        } else {
                            None::<FeededData>
                        }) by {
                        if !kept_feeds(old(self).spec_data_info(key@), info) {
                            assert(e2.feeds@ =~= Seq::<ProviderData>::empty());
                            assert(find_feed(Seq::<ProviderData>::empty(), p) is None);
                        }
                    }
                }
                Ok(())
            },
            None => {
                let e = KeyEntry {
                    key,
                    info,
                    request: None,
                    period: None,
                    feeds: Vec::new(),
                };
                let ghost e2 = e;
                let ghost olde = self.entries@;
                self.entries.push(e);
                proof {
                    assert(self.entries@ =~= olde.push(e2));
                    assert forall|k2: Seq<u8>|
                        find_entry(self.entries@, k2) == (if find_entry(olde, k2) is Some {
                            find_entry(olde, k2)
                        } else if e2.key@ == k2 {
                            Some(e2)
                        } else {
                            None::<KeyEntry>
                        }) by {
                        lemma_find_entry_push(olde, e2, k2);
                    }
                    lemma_find_entry_none(olde, e2.key@);
                    assert forall|a: int, b: int|
                        0 <= a < b < self.entries@.len() implies (#[trigger] self.entries@[a]).key@
                        != (#[trigger] self.entries@[b]).key@ by {
                        if b == olde.len() {
                            assert(self.entries@[a] == olde[a]);
                            assert(self.entries@[b] == e2);
                        } else {
                            assert(olde[a].key@ != olde[b].key@);
                        }
                    }
                    assert forall|j: int|
                        0 <= j < self.entries@.len() implies (#[trigger] self.entries@[j]).wf() by {
                        if j < olde.len() {
                            assert(self.entries@[j] == olde[j]);
                            assert(olde[j].wf());
                        } else {
                            assert(e2.feeds@ =~= Seq::<ProviderData>::empty());
                        }
                    }
                    assert forall|p: AccountId|
                        self.spec_feed(key@, p) == None::<FeededData> by {
                        assert(e2.feeds@ =~= Seq::<ProviderData>::empty());
                        assert(find_feed(Seq::<ProviderData>::empty(), p) is None);
                    }
                }
                Ok(())
            },
        }
    }

    /// A provider removes key `key`.  The cascade deletes the metadata,
    /// every provider's history for the key, and the offchain descriptor
    /// and period override.
    pub fn remove_storage_key(&mut self, origin: RawOrigin, key: Vec<u8>) -> (r: Result<(), Error>)
        requires
            old(self).wf(),
        ensures
            final(self).wf(),
            (match origin {
                RawOrigin::Root => r == Err::<(), Error>(Error::BadOrigin)
                    && state_unchanged(*old(self), *final(self)),
                RawOrigin::Signed(who) => {
                    if !old(self).spec_is_provider(who) {
                        r == Err::<(), Error>(Error::NotAuthorized)
                            && state_unchanged(*old(self), *final(self))
                    } else if !old(self).spec_registered(key@) {
                        r == Err::<(), Error>(Error::UnknownKey)
                            && state_unchanged(*old(self), *final(self))
                    } else {
                        r == Ok::<(), Error>(())
                            && final(self).providers@ == old(self).providers@
                            && !final(self).spec_registered(key@)
                            && final(self).spec_data_info(key@) is None
                            && final(self).spec_request(key@) is None
                            && final(self).spec_period(key@) is None
                            && (forall|p: AccountId| final(self).spec_feed(key@, p) is None)
                            && (forall|k2: Seq<u8>| k2 != key@
                                ==> key_obs_unchanged(*old(self), *final(self), k2))
                    }
                },
            }),
    {
        let who = match origin {
            RawOrigin::Signed(w) => w,
            RawOrigin::Root => {
                return Err(Error::BadOrigin);
            },
        };
        if !self.is_provider(who) {
            return Err(Error::NotAuthorized);
        }
        match find_entry_index(&self.entries, &key) {
            Some(i) => {
                let ghost olde = self.entries@;
                self.entries.remove(i);
                proof {
                    assert forall|k2: Seq<u8>|
                        find_entry(self.entries@, k2) == (if olde[i as int].key@ == k2 {
                            None::<KeyEntry>
                        } else {
                            find_entry(olde, k2)
                        }) by {
                        lemma_find_entry_remove(olde, i as int, k2);
                    }
                    assert forall|a: int, b: int|
                        0 <= a < b < self.entries@.len() implies (#[trigger] self.entries@[a]).key@
                        != (#[trigger] self.entries@[b]).key@ by {
                        let a2: int = if a < i { a } else { a + 1 };
                        let b2: int = if b < i { b } else { b + 1 };
                        assert(self.entries@[a] == olde[a2]);
                        assert(self.entries@[b] == olde[b2]);
                        assert(olde[a2].key@ != olde[b2].key@);
                    }
                    assert forall|j: int|
                        0 <= j < self.entries@.len() implies (#[trigger] self.entries@[j]).wf() by {
                        let j2: int = if j < i { j } else { j + 1 };
                        assert(self.entries@[j] == olde[j2]);
                        assert(olde[j2].wf());
                    }
                }
                Ok(())
            },
            None => Err(Error::UnknownKey),
        }
    }

    /// Governance sets where and how the offchain scheduler fetches key
    /// `key`'s external value.
    pub fn set_offchain_request_info(
        &mut self,
        origin: RawOrigin,
        key: Vec<u8>,
        info: OffchainRequestInfo,
    ) -> (r: Result<(), Error>)
        requires
            old(self).wf(),
        ensures
            final(self).wf(),
            (match origin {
                RawOrigin::Signed(_) => r == Err::<(), Error>(Error::BadOrigin)
                    && state_unchanged(*old(self), *final(self)),
                RawOrigin::Root => {
                    if !old(self).spec_registered(key@) {
                        r == Err::<(), Error>(Error::UnknownKey)
                            && state_unchanged(*old(self), *final(self))
                    } else {
                        r == Ok::<(), Error>(())
                            && final(self).providers@ == old(self).providers@
                            && final(self).spec_request(key@) == Some((info.url@, info.key_str@))
                            && final(self).spec_data_info(key@) == old(self).spec_data_info(key@)
                            && final(self).spec_period(key@) == old(self).spec_period(key@)
                            && (forall|p: AccountId|
                                final(self).spec_feed(key@, p) == old(self).spec_feed(key@, p))
                            && (forall|k2: Seq<u8>| k2 != key@
                                ==> key_obs_unchanged(*old(self), *final(self), k2))
                    }
                },
            }),
    {
        match origin {
            RawOrigin::Root => {},
            RawOrigin::Signed(_) => {
                return Err(Error::BadOrigin);
            },
        }
        match find_entry_index(&self.entries, &key) {
            Some(i) => {
                let mut e = self.entries.remove(i);
                e.request = Some(info);
                let ghost e2 = e;
                self.entries.insert(i, e);
                proof {
                    let olde = old(self).entries@;
                    assert(self.entries@ =~= olde.update(i as int, e2));
                    assert forall|k2: Seq<u8>|
                        find_entry(self.entries@, k2) == (if k2 == e2.key@ {
                            Some(e2)
                        } else {
                            find_entry(olde, k2)
                        }) by {
                        lemma_find_entry_update(olde, i as int, e2, k2);
                    }
                    assert forall|a: int, b: int|
                        0 <= a < b < self.entries@.len() implies (#[trigger] self.entries@[a]).key@
                        != (#[trigger] self.entries@[b]).key@ by {
                        assert(olde[a].key@ != olde[b].key@);
                    }
                    assert forall|j: int|
                        0 <= j < self.entries@.len() implies (#[trigger] self.entries@[j]).wf() by {
                        if j != i {
                            assert(self.entries@[j] == olde[j]);
                        } else {
                            assert(olde[i as int].wf());
                        }
                    }
                }
                Ok(())
            },
            None => Err(Error::UnknownKey),
        }
    }

    /// Governance overrides (with `Some`) or clears (with `None`) the
    /// fetch period of key `key`.
    pub fn set_offchain_period(
        &mut self,
        origin: RawOrigin,
        key: Vec<u8>,
        period: Option<BlockNumber>,
    ) -> (r: Result<(), Error>)
        requires
            old(self).wf(),
        ensures
            final(self).wf(),
            (match origin {
                RawOrigin::Signed(_) => r == Err::<(), Error>(Error::BadOrigin)
                    && state_unchanged(*old(self), *final(self)),
                RawOrigin::Root => {
                    if !old(self).spec_registered(key@) {
                        r == Err::<(), Error>(Error::UnknownKey)
                            && state_unchanged(*old(self), *final(self))
                    } else {
                        r == Ok::<(), Error>(())
                            && final(self).providers@ == old(self).providers@
                            && final(self).spec_period(key@) == period
                            && final(self).spec_data_info(key@) == old(self).spec_data_info(key@)
                            && final(self).spec_request(key@) == old(self).spec_request(key@)
                            && (forall|p: AccountId|
                                final(self).spec_feed(key@, p) == old(self).spec_feed(key@, p))
                            && (forall|k2: Seq<u8>| k2 != key@
                                ==> key_obs_unchanged(*old(self), *final(self), k2))
                    }
                },
            }),
    {
        match origin {
            RawOrigin::Root => {},
            RawOrigin::Signed(_) => {
                return Err(Error::BadOrigin);
            },
        }
        match find_entry_index(&self.entries, &key) {
            Some(i) => {
                let mut e = self.entries.remove(i);
                e.period = period;
                let ghost e2 = e;
                self.entries.insert(i, e);
                proof {
                    let olde = old(self).entries@;
                    assert(self.entries@ =~= olde.update(i as int, e2));
                    assert forall|k2: Seq<u8>|
                        find_entry(self.entries@, k2) == (if k2 == e2.key@ {
                            Some(e2)
                        } else {
                            find_entry(olde, k2)
                        }) by {
                        lemma_find_entry_update(olde, i as int, e2, k2);
                    }
                    assert forall|a: int, b: int|
                        0 <= a < b < self.entries@.len() implies (#[trigger] self.entries@[a]).key@
                        != (#[trigger] self.entries@[b]).key@ by {
                        assert(olde[a].key@ != olde[b].key@);
                    }
                    assert forall|j: int|
                        0 <= j < self.entries@.len() implies (#[trigger] self.entries@[j]).wf() by {
                        if j != i {
                            assert(self.entries@[j] == olde[j]);
                        } else {
                            assert(olde[i as int].wf());
                        }
                    }
                }
                Ok(())
            },
            None => Err(Error::UnknownKey),
        }
    }

    /// A provider submits `value` for key `key`.  The caller must be a
    /// current provider, the key must be registered, and the value's tag
    /// must match the key's declared representation; the first submission
    /// pre-fills the caller's ring buffer, every later one overwrites the
    /// slot at the circular write index.
    pub fn feed_data(
        &mut self,
        origin: RawOrigin,
        key: Vec<u8>,
        value: DataType,
    ) -> (r: Result<(), Error>)
        requires
            old(self).wf(),
        ensures
            final(self).wf(),
            (match origin {
                RawOrigin::Root => r == Err::<(), Error>(Error::BadOrigin)
                    && state_unchanged(*old(self), *final(self)),
                RawOrigin::Signed(who) => {
                    if !old(self).spec_is_provider(who) {
                        r == Err::<(), Error>(Error::NotAuthorized)
                            && state_unchanged(*old(self), *final(self))
                    } else {
                        match old(self).spec_data_info(key@) {
                            None => r == Err::<(), Error>(Error::UnknownKey)
                                && state_unchanged(*old(self), *final(self)),
                            Some(info) => {
                                if spec_tag(value) != info.number_type {
                                    r == Err::<(), Error>(Error::TypeMismatch)
                                        && state_unchanged(*old(self), *final(self))
                                } else {
                                    r == Ok::<(), Error>(())
                                        && final(self).providers@ == old(self).providers@
                                        && final(self).spec_data_info(key@)
                                            == old(self).spec_data_info(key@)
                                        && final(self).spec_request(key@)
                                            == old(self).spec_request(key@)
                                        && final(self).spec_period(key@)
                                            == old(self).spec_period(key@)
                                        && (forall|p: AccountId| p != who
                                            ==> final(self).spec_feed(key@, p)
                                                == old(self).spec_feed(key@, p))
                                        && (match old(self).spec_feed(key@, who) {
                                            Some(fd) => (match final(self).spec_feed(key@, who) {
                                                Some(nfd) => nfd.slots@
                                                    == fd.slots@.update(fd.next as int, value)
                                                    && nfd.next
                                                        == (fd.next + 1) % (RING_BUF_LEN as int),
                                                None => false,
                                            }),
                                            None => (match final(self).spec_feed(key@, who) {
                                                Some(nfd) => nfd.slots@
                                                    =~= Seq::new(RING_BUF_LEN as nat, |x: int| value)
                                                    && nfd.next == 1usize % RING_BUF_LEN,
                                                None => false,
                                            }),
                                        })
                                        && (forall|k2: Seq<u8>| k2 != key@
                                            ==> key_obs_unchanged(*old(self), *final(self), k2))
                                }
                            },
                        }
                    }
                },
            }),
    {
        let who = match origin {
            RawOrigin::Signed(w) => w,
            RawOrigin::Root => {
                return Err(Error::BadOrigin);
            },
        };
        if !self.is_provider(who) {
            return Err(Error::NotAuthorized);
        }
        match find_entry_index(&self.entries, &key) {
            Some(i) => {
                if value.number_type() != self.entries[i].info.number_type {
                    return Err(Error::TypeMismatch);
                }
                let mut e = self.entries.remove(i);
                let ghost oldfeeds = e.feeds@;
                match find_feed_index(&e.feeds, who) {
                    Some(j) => {
                        let mut pd = e.feeds.remove(j);
                        pd.data.push(value);
                        let ghost pd2 = pd;
                        e.feeds.insert(j, pd);
                        proof {
                            assert(e.feeds@ =~= oldfeeds.update(j as int, pd2));
                            assert forall|p: AccountId|
                                find_feed(e.feeds@, p) == (if p == pd2.provider {
                                    Some(pd2.data)
                                } else {
                                    find_feed(oldfeeds, p)
                                }) by {
                                lemma_find_feed_update(oldfeeds, j as int, pd2, p);
                            }
                            assert forall|a: int, b: int|
                                0 <= a < b < e.feeds@.len() implies (#[trigger] e.feeds@[a]).provider
                                != (#[trigger] e.feeds@[b]).provider by {
                                assert(oldfeeds[a].provider != oldfeeds[b].provider);
                            }
                        }
                    },
                    None => {
                        let pd = ProviderData { provider: who, data: FeededData::first(value) };
                        let ghost pd2 = pd;
                        e.feeds.push(pd);
                        proof {
                            assert(e.feeds@ =~= oldfeeds.push(pd2));
                            assert forall|p: AccountId|
                                find_feed(e.feeds@, p) == (if find_feed(oldfeeds, p) is Some {
                                    find_feed(oldfeeds, p)
                                } else if pd2.provider == p {
                                    Some(pd2.data)
                                } else {
                                    None::<FeededData>
                                }) by {
                                lemma_find_feed_push(oldfeeds, pd2, p);
                            }
                            lemma_find_feed_none(oldfeeds, who);
                            assert forall|a: int, b: int|
                                0 <= a < b < e.feeds@.len() implies (#[trigger] e.feeds@[a]).provider
                                != (#[trigger] e.feeds@[b]).provider by {
                                if b == oldfeeds.len() {
                                    assert(e.feeds@[a] == oldfeeds[a]);
                                    assert(e.feeds@[b] == pd2);
                                } else {
                                    assert(oldfeeds[a].provider != oldfeeds[b].provider);
                                }
                            }
                        }
                    },
                }
                let ghost e2 = e;
                self.entries.insert(i, e);
                proof {
                    let olde = old(self).entries@;
                    assert(self.entries@ =~= olde.update(i as int, e2));
                    assert forall|k2: Seq<u8>|
                        find_entry(self.entries@, k2) == (if k2 == e2.key@ {
                            Some(e2)
                        } else {
                            find_entry(olde, k2)
                        }) by {
                        lemma_find_entry_update(olde, i as int, e2, k2);
                    }
                    assert forall|a: int, b: int|
                        0 <= a < b < self.entries@.len() implies (#[trigger] self.entries@[a]).key@
                        != (#[trigger] self.entries@[b]).key@ by {
                        assert(olde[a].key@ != olde[b].key@);
                    }
                    assert(olde[i as int].wf());
                    assert forall|a: int, b: int|
                        0 <= a < e2.feeds@.len() && 0 <= b < e2.feeds@[a].data.slots@.len()
                            implies spec_tag(#[trigger] e2.feeds@[a].data.slots@[b])
                            == e2.info.number_type by {
                        if find_feed(oldfeeds, who) is Some {
                        } else {
                        }
                    }
                    assert forall|j: int|
                        0 <= j < self.entries@.len() implies (#[trigger] self.entries@[j]).wf() by {
                        if j != i {
                            assert(self.entries@[j] == olde[j]);
                        }
                    }
                }
                Ok(())
            },
            None => Err(Error::UnknownKey),
        }
    }

    /// The metadata registered for key `key`.
    pub fn data_info(&self, key: &Vec<u8>) -> (r: Option<FeededDataInfo>)
        ensures
            r == self.spec_data_info(key@),
    {
        match find_entry_index(&self.entries, key) {
            Some(i) => Some(self.entries[i].info),
            None => None,
        }
    }

    /// The offchain request descriptor of key `key`, as a copy.
    pub fn offchain_request_info(&self, key: &Vec<u8>) -> (r: Option<OffchainRequestInfo>)
        ensures
            (match r {
                Some(x) => self.spec_request(key@) == Some((x.url@, x.key_str@)),
                None => self.spec_request(key@) is None,
            }),
    {
        match find_entry_index(&self.entries, key) {
            Some(i) => match &self.entries[i].request {
                Some(q) => Some(
                    OffchainRequestInfo { url: copy_bytes(&q.url), key_str: copy_bytes(&q.key_str) },
                ),
                None => None,
            },
            None => None,
        }
    }

    /// The governance override of key `key`'s fetch period.
    pub fn offchain_period(&self, key: &Vec<u8>) -> (r: Option<BlockNumber>)
        ensures
            r == self.spec_period(key@),
    {
        match find_entry_index(&self.entries, key) {
            Some(i) => self.entries[i].period,
            None => None,
        }
    }

    /// A copy of the history provider `provider` keeps for key `key`.
    pub fn feeded_data(&self, key: &Vec<u8>, provider: AccountId) -> (r: Option<Vec<DataType>>)
        ensures
            (match r {
                Some(v) => (match self.spec_feed(key@, provider) {
                    Some(fd) => v@ == fd.slots@,
                    None => false,
                }),
                None => self.spec_feed(key@, provider) is None,
            }),
    {
        match find_entry_index(&self.entries, key) {
            Some(i) => match find_feed_index(&self.entries[i].feeds, provider) {
                Some(j) => Some(self.entries[i].feeds[j].data.slots_vec()),
                None => None,
            },
            None => None,
        }
    }
}

} // verus!
