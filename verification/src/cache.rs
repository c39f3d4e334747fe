//! A caching decorator for remote object stores: a local blob cache plus a
//! negative cache of confirmed-absent checksums with an expiry.

use vstd::prelude::*;

use crate::checksum::Checksum;
use crate::errors::RepoError;
use crate::objects::FileObjects;

verus! {

broadcast use vstd::seq::group_seq_axioms, vstd::std_specs::vec::group_vec_axioms;

/// The negative cache as a map from digest bytes to the time the miss was
/// recorded, in milliseconds.
pub open spec fn negative_map(s: Seq<(Checksum, u64)>) -> Map<Seq<u8>, u64>
    decreases s.len(),
{
    if s.len() == 0 {
        Map::empty()
    } else {
        negative_map(s.drop_last()).insert(s.last().0@, s.last().1)
    }
}

/// A key is recorded exactly when some entry carries it.
pub broadcast proof fn lemma_negative_map_dom(s: Seq<(Checksum, u64)>, k: Seq<u8>)
    ensures
        #[trigger] negative_map(s).contains_key(k) <==> exists|i: int|
            0 <= i < s.len() && s[i].0@ == k,
    decreases s.len(),
{
    if s.len() > 0 {
        lemma_negative_map_dom(s.drop_last(), k);
        if negative_map(s).contains_key(k) {
            if s.last().0@ == k {
                assert(s[s.len() - 1].0@ == k);
            } else {
                let i = choose|i: int| 0 <= i < s.drop_last().len() && s.drop_last()[i].0@ == k;
                assert(s[i].0@ == k);
            }
        }
        if exists|i: int| 0 <= i < s.len() && s[i].0@ == k {
            let i = choose|i: int| 0 <= i < s.len() && s[i].0@ == k;
            if i < s.len() - 1 {
                assert(s.drop_last()[i].0@ == k);
            }
        }
    }
}

/// With unique keys, the map returns each entry's own timestamp.
pub broadcast proof fn lemma_negative_map_at(s: Seq<(Checksum, u64)>, i: int)
    requires
        0 <= i < s.len(),
        forall|a: int, b: int| 0 <= a < b < s.len() ==> s[a].0@ != s[b].0@,
    ensures
        #[trigger] negative_map(s)[s[i].0@] == s[i].1,
    decreases s.len(),
{
    if i == s.len() - 1 {
    } else {
        lemma_negative_map_at(s.drop_last(), i);
        assert(s.drop_last()[i] == s[i]);
        assert(s.last().0@ != s[i].0@);
    }
}

/// What a cache lookup decides without contacting the inner store.
#[derive(Debug)]
pub enum CacheLookup {
    /// The blob is cached locally; its content is returned as it stands.
    Hit(Vec<u8>),
    /// A fresh negative-cache entry confirms the blob absent: answer
    /// "absent" without querying the inner store.
    AbsentFresh,
    /// Nothing local answers the question: the inner store must be asked.
    QueryInner,
}

/// Whether a negative-cache record made at `recorded` is still trusted at
/// `now`, given the configured expiry.
pub open spec fn negative_fresh(recorded: u64, now: u64, ttl: u64) -> bool {
    (now as int) - (recorded as int) < ttl as int
}

/// The decision a cached store takes for checksum `c` at time `now`: the
/// local cache wins; otherwise a fresh negative entry answers "absent";
/// otherwise the inner store must be queried.
pub open spec fn cache_decision(
    cache: Map<Seq<u8>, Seq<u8>>,
    negative: Map<Seq<u8>, u64>,
    ttl: u64,
    c: Seq<u8>,
    now: u64,
) -> CacheStep {
    if cache.contains_key(c) {
        CacheStep::Hit(cache[c])
    } else if negative.contains_key(c) && negative_fresh(negative[c], now, ttl) {
        CacheStep::AbsentFresh
    } else {
        CacheStep::QueryInner
    }
}

/// The mathematical content of a cache decision.
#[verifier::ext_equal]
pub ghost enum CacheStep {
    Hit(Seq<u8>),
    AbsentFresh,
    QueryInner,
}

/// A caching decorator state: a local blob cache, the negative cache, and
/// the configured expiry. The inner (typically remote) store is driven by
/// the caller, which reports fetch outcomes back through `record_hit` and
/// `record_miss`.
#[derive(Debug)]
pub struct CachedObjects {
    cache: FileObjects,
    negative: Vec<(Checksum, u64)>,
    missing_cache_time: u64,
}

impl CachedObjects {
    /// The locally cached blobs.
    pub closed spec fn cache_view(&self) -> Map<Seq<u8>, Seq<u8>> {
        self.cache@
    }

    /// The recorded misses.
    pub closed spec fn negative_view(&self) -> Map<Seq<u8>, u64> {
        negative_map(self.negative@)
    }

    /// The configured expiry for negative entries.
    pub closed spec fn ttl(&self) -> u64 {
        self.missing_cache_time
    }

    /// Unique keys on both caches.
    pub closed spec fn wf(&self) -> bool {
        self.cache.wf() && forall|a: int, b: int|
            0 <= a < b < self.negative@.len() ==> self.negative@[a].0@ != self.negative@[b].0@
    }

    /// An empty cache over the given local store and expiry.
    pub fn new(cache: FileObjects, missing_cache_time: u64) -> (r: CachedObjects)
        requires
            cache.wf(),
        ensures
            r.cache_view() == cache@,
            r.negative_view() == Map::<Seq<u8>, u64>::empty(),
            r.ttl() == missing_cache_time,
            r.wf(),
    {
        let r = CachedObjects { cache, negative: Vec::new(), missing_cache_time };
        proof {
            assert(r.negative_view() =~= Map::<Seq<u8>, u64>::empty());
        }
        r
    }

    fn find_negative(&self, checksum: &Checksum) -> (r: Option<usize>)
        requires
            self.wf(),
        ensures
            match r {
                Some(i) => i < self.negative@.len() && self.negative@[i as int].0@ == checksum@
                    && self.negative_view().contains_key(checksum@) && self.negative_view()[
                    checksum@] == self.negative@[i as int].1,
                None => !self.negative_view().contains_key(checksum@),
            },
    {
        let mut i: usize = 0;
        while i < self.negative.len()
            invariant
                self.wf(),
                i <= self.negative@.len(),
                forall|j: int| 0 <= j < i ==> self.negative@[j].0@ != checksum@,
            decreases self.negative@.len() - i,
        {
            if self.negative[i].0.matches(checksum) {
                proof {
                    lemma_negative_map_dom(self.negative@, checksum@);
                    lemma_negative_map_at(self.negative@, i as int);
                }
                return Some(i);
            }
            i = i + 1;
        }
        proof {
            lemma_negative_map_dom(self.negative@, checksum@);
        }
        None
    }

    /// Decide how to answer a lookup at time `now` without contacting the
    /// inner store: a cached blob is returned as it stands, a fresh negative
    /// entry answers "absent", and anything else requires a query.
    pub fn lookup(&self, checksum: &Checksum, now: u64) -> (r: CacheLookup)
        requires
            self.wf(),
        ensures
            match cache_decision(self.cache_view(), self.negative_view(), self.ttl(), checksum@, now) {
                CacheStep::Hit(b) => r matches CacheLookup::Hit(v) && v@ == b,
                CacheStep::AbsentFresh => r is AbsentFresh,
                CacheStep::QueryInner => r is QueryInner,
            },
    {
        match self.cache.get_object(checksum) {
            Some(v) => CacheLookup::Hit(v),
            None => {
                match self.find_negative(checksum) {
                    Some(i) => {
                        let recorded = self.negative[i].1;
                        if now < recorded || now - recorded < self.missing_cache_time {
                            CacheLookup::AbsentFresh
                        } else {
                            CacheLookup::QueryInner
                        }
                    },
                    None => CacheLookup::QueryInner,
                }
            },
        }
    }

    /// Record a successful fetch from the inner store: the blob enters the
    /// local cache and later lookups return it without a query.
    pub fn record_hit(&mut self, checksum: &Checksum, bytes: &Vec<u8>) -> (r: Result<(), RepoError>)
        requires
            old(self).wf(),
        ensures
            final(self).wf(),
            final(self).ttl() == old(self).ttl(),
            final(self).negative_view() == old(self).negative_view(),
            match r {
                Ok(u) => (!old(self).cache_view().contains_key(checksum@)
                    || old(self).cache_view()[checksum@] == bytes@) && final(self).cache_view()
                    == old(self).cache_view().insert(checksum@, bytes@),
                Err(e) => e == RepoError::StoreInconsistency && old(self).cache_view().contains_key(
                    checksum@,
                ) && old(self).cache_view()[checksum@] != bytes@ && final(self).cache_view() == old(
                    self,
                ).cache_view(),
            },
    {
        self.cache.put_object(checksum, bytes, false)
    }

    /// Record a miss from the inner store at time `now`: the negative cache
    /// holds (or refreshes) the checksum's timestamp.
    pub fn record_miss(&mut self, checksum: &Checksum, now: u64)
        requires
            old(self).wf(),
        ensures
            final(self).wf(),
            final(self).ttl() == old(self).ttl(),
            final(self).cache_view() == old(self).cache_view(),
            final(self).negative_view() == old(self).negative_view().insert(checksum@, now),
    {
        match self.find_negative(checksum) {
            Some(i) => {
                let ghost pre = self.negative@;
                let c = checksum.duplicate();
                self.negative.remove(i);
                let ghost mid = self.negative@;
                self.negative.push((c, now));
                proof {
                    assert(forall|a: int, b: int|
                        0 <= a < b < mid.len() ==> mid[a].0@ != mid[b].0@) by {
                        assert(forall|a: int|
                            0 <= a < mid.len() ==> mid[a] == (if a < i {
                                pre[a]
                            } else {
                                pre[a + 1]
                            }));
                    };
                    assert(forall|a: int|
                        0 <= a < mid.len() ==> mid[a].0@ != checksum@) by {
                        assert(forall|a: int|
                            0 <= a < mid.len() ==> mid[a] == (if a < i {
                                pre[a]
                            } else {
                                pre[a + 1]
                            }));
                        assert(forall|a: int|
                            0 <= a < pre.len() && a != i ==> pre[a].0@ != checksum@);
                    };
                    assert(self.negative@.drop_last() =~= mid);
                    assert(forall|a: int|
                        0 <= a < mid.len() ==> #[trigger] mid[a] == (if a < i {
                            pre[a]
                        } else {
                            pre[a + 1]
                        }));
                    assert forall|k2: Seq<u8>| k2 != checksum@ implies ((#[trigger] negative_map(
                        mid,
                    ).contains_key(k2)) <==> negative_map(pre).contains_key(k2)) by {
                        lemma_negative_map_dom(mid, k2);
                        lemma_negative_map_dom(pre, k2);
                        if exists|a: int| 0 <= a < mid.len() && mid[a].0@ == k2 {
                            let a = choose|a: int| 0 <= a < mid.len() && mid[a].0@ == k2;
                            if a < i {
                                assert(pre[a].0@ == k2);
                            } else {
                                assert(pre[a + 1].0@ == k2);
                            }
                        }
                        if exists|j: int| 0 <= j < pre.len() && pre[j].0@ == k2 {
                            let j = choose|j: int| 0 <= j < pre.len() && pre[j].0@ == k2;
                            assert(j != i);
                            if j < i {
                                assert(mid[j].0@ == k2);
                            } else {
                                assert(mid[j - 1].0@ == k2);
                            }
                        }
                    };
                    assert forall|a: int|
                        0 <= a < mid.len() implies exists|j: int|
                        0 <= j < pre.len() && pre[j] == #[trigger] mid[a] by {
                        if a < i {
                            assert(pre[a] == mid[a]);
                        } else {
                            assert(pre[a + 1] == mid[a]);
                        }
                    };
                    lemma_negative_maps_agree(mid, pre, checksum@);
                    assert(self.negative_view() =~= old(self).negative_view().insert(
                        checksum@,
                        now,
                    )) by {
                        assert(self.negative_view() == negative_map(mid).insert(checksum@, now));
                        assert forall|k2: Seq<u8>|
                            #[trigger] self.negative_view().contains_key(k2) <==> old(
                            self,
                        ).negative_view().insert(checksum@, now).contains_key(k2) by {
                            lemma_negative_map_dom(mid, k2);
                            lemma_negative_map_dom(pre, k2);
                        };
                    };
                }
            },
            None => {
                let ghost pre = self.negative@;
                self.negative.push((checksum.duplicate(), now));
                proof {
                    assert(self.negative@.drop_last() =~= pre);
                    assert(forall|a: int, b: int|
                        0 <= a < b < self.negative@.len() ==> self.negative@[a].0@
                            != self.negative@[b].0@) by {
                        assert(forall|a: int| 0 <= a < pre.len() ==> self.negative@[a] == pre[a]);
                        if exists|a: int| 0 <= a < pre.len() && pre[a].0@ == checksum@ {
                            let a = choose|a: int| 0 <= a < pre.len() && pre[a].0@ == checksum@;
                            lemma_negative_map_dom(pre, checksum@);
                            assert(false);
                        }
                    };
                    assert(self.negative_view() =~= old(self).negative_view().insert(
                        checksum@,
                        now,
                    ));
                }
            },
        }
    }
}

/// Removing a key's entry and re-adding it equals inserting over the
/// original map: entry lists that agree off one key have views that agree
/// off that key.
proof fn lemma_negative_maps_agree(mid: Seq<(Checksum, u64)>, pre: Seq<(Checksum, u64)>, k: Seq<u8>)
    requires
        forall|a: int, b: int| 0 <= a < b < pre.len() ==> pre[a].0@ != pre[b].0@,
        forall|a: int, b: int| 0 <= a < b < mid.len() ==> mid[a].0@ != mid[b].0@,
        forall|a: int| 0 <= a < mid.len() ==> mid[a].0@ != k,
        forall|k2: Seq<u8>|
            k2 != k ==> ((#[trigger] negative_map(mid).contains_key(k2)) <==> negative_map(
                pre,
            ).contains_key(k2)),
        forall|i: int|
            0 <= i < mid.len() ==> exists|j: int| 0 <= j < pre.len() && pre[j] == #[trigger] mid[i],
    ensures
        forall|k2: Seq<u8>|
            k2 != k && negative_map(mid).contains_key(k2) ==> #[trigger] negative_map(mid)[k2]
                == negative_map(pre)[k2],
{
    assert forall|k2: Seq<u8>|
        k2 != k && negative_map(mid).contains_key(k2) implies #[trigger] negative_map(mid)[k2]
        == negative_map(pre)[k2] by {
        lemma_negative_map_dom(mid, k2);
        let i = choose|i: int| 0 <= i < mid.len() && mid[i].0@ == k2;
        lemma_negative_map_at(mid, i);
        let j = choose|j: int| 0 <= j < pre.len() && pre[j] == mid[i];
        lemma_negative_map_at(pre, j);
    };
}

/// The negative cache expires: immediately after a miss is recorded at
/// `t0`, a lookup before the expiry answers "absent" without querying the
/// inner store, and a lookup at or after the expiry queries it again.
pub proof fn lemma_negative_cache_ttl(
    cache: Map<Seq<u8>, Seq<u8>>,
    negative: Map<Seq<u8>, u64>,
    ttl: u64,
    c: Seq<u8>,
    t0: u64,
    t1: u64,
)
    requires
        !cache.contains_key(c),
    ensures
        (t1 as int) - (t0 as int) < ttl as int ==> cache_decision(
            cache,
            negative.insert(c, t0),
            ttl,
            c,
            t1,
        ) is AbsentFresh,
        (t1 as int) - (t0 as int) >= ttl as int ==> cache_decision(
            cache,
            negative.insert(c, t0),
            ttl,
            c,
            t1,
        ) is QueryInner,
{
}

/// An unknown checksum queries the inner store: with no local blob and no
/// negative record, the decision is always to ask.
pub proof fn lemma_unknown_queries_inner(
    cache: Map<Seq<u8>, Seq<u8>>,
    negative: Map<Seq<u8>, u64>,
    ttl: u64,
    c: Seq<u8>,
    now: u64,
)
    requires
        !cache.contains_key(c),
        !negative.contains_key(c),
    ensures
        cache_decision(cache, negative, ttl, c, now) is QueryInner,
{
}

} // verus!
