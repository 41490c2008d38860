//! The read-through-cache orchestration: requests are served from the cache
//! while fresh; only what is missing or stale is asked of the gateway, and
//! every response is stored back. The HTTP transfer itself happens outside;
//! this module decides what to fetch, under which path, and what each
//! response means.

use vstd::prelude::*;
use vstd::string::StringExecFns;
use vstd::utf8::encode_utf8;

use crate::api::Achievement;
use crate::api::AchievementModel;
use crate::api::AllAccountAchievements;
use crate::api::AllAchievementIDs;
use crate::api::Dailies;
use crate::cache::Cache;
use crate::cache::CachedItem;
use crate::cache::ach_lookup;
use crate::cache::sat_add;
use crate::cache::spec_account_ttl;
use crate::codec::StoreModel;
use crate::endpoints::Endpoint;
use crate::response::response_accounts;
use crate::response::response_achievements;
use crate::response::response_dailies;
use crate::response::response_ids;

verus! {

/// Why a request could not produce a value.
#[derive(Debug, PartialEq, Eq)]
pub enum Error {
    /// An authenticated resource was requested but no credential is
    /// configured; no network request is made.
    MissingApiKey,
    /// Transport-level or HTTP-level failure, with the transport's message.
    Request(String),
    /// The response body did not match the expected shape of the resource.
    Json,
}

/// The first move of a cached request: either the cache already answers it,
/// or the given path must be fetched from the gateway.
pub enum RequestStep<T> {
    Cached(T),
    Fetch(String),
}

/// Whether the cache answers for this achievement id at this time.
pub open spec fn fresh_hit(
    s: Seq<CachedItem<AchievementModel>>,
    now: u64,
    id: usize,
) -> bool {
    &&& ach_lookup(s, id) is Some
    &&& now <= ach_lookup(s, id)->0.expires
}

/// The requested ids that the cache cannot answer, in request order.
pub open spec fn spec_misses(
    s: Seq<CachedItem<AchievementModel>>,
    now: u64,
    ids: Seq<usize>,
) -> Seq<usize>
    decreases ids.len(),
{
    if ids.len() == 0 {
        Seq::empty()
    } else {
        (if fresh_hit(s, now, ids[0]) {
            Seq::<usize>::empty()
        } else {
            seq![ids[0]]
        }) + spec_misses(s, now, ids.drop_first())
    }
}

/// The cached values for the requested ids the cache can answer, in request
/// order.
pub open spec fn spec_hits(
    s: Seq<CachedItem<AchievementModel>>,
    now: u64,
    ids: Seq<usize>,
) -> Seq<AchievementModel>
    decreases ids.len(),
{
    if ids.len() == 0 {
        Seq::empty()
    } else {
        (if fresh_hit(s, now, ids[0]) {
            seq![ach_lookup(s, ids[0])->0.inner]
        } else {
            Seq::<AchievementModel>::empty()
        }) + spec_hits(s, now, ids.drop_first())
    }
}

proof fn lemma_misses_snoc(s: Seq<CachedItem<AchievementModel>>, now: u64, ids: Seq<usize>, x: usize)
    ensures
        spec_misses(s, now, ids.push(x)) == spec_misses(s, now, ids) + (if fresh_hit(s, now, x) {
            Seq::<usize>::empty()
        } else {
            seq![x]
        }),
        spec_hits(s, now, ids.push(x)) == spec_hits(s, now, ids) + (if fresh_hit(s, now, x) {
            seq![ach_lookup(s, x)->0.inner]
        } else {
            Seq::<AchievementModel>::empty()
        }),
    decreases ids.len(),
{
    if ids.len() == 0 {
        assert(ids.push(x)[0] == x);
        assert(ids.push(x).drop_first() =~= Seq::<usize>::empty());
        assert(spec_misses(s, now, Seq::<usize>::empty()) =~= Seq::<usize>::empty());
        assert(spec_hits(s, now, Seq::<usize>::empty()) =~= Seq::<AchievementModel>::empty());
        assert(spec_misses(s, now, ids.push(x)) =~= (if fresh_hit(s, now, x) {
            Seq::<usize>::empty()
        } else {
            seq![x]
        }));
        assert(spec_hits(s, now, ids.push(x)) =~= (if fresh_hit(s, now, x) {
            seq![ach_lookup(s, x)->0.inner]
        } else {
            Seq::<AchievementModel>::empty()
        }));
    } else {
        assert(ids.push(x)[0] == ids[0]);
        assert(ids.push(x).drop_first() =~= ids.drop_first().push(x));
        lemma_misses_snoc(s, now, ids.drop_first(), x);
        assert(spec_misses(s, now, ids.push(x)) =~= spec_misses(s, now, ids) + (if fresh_hit(
            s,
            now,
            x,
        ) {
            Seq::<usize>::empty()
        } else {
            seq![x]
        }));
        assert(spec_hits(s, now, ids.push(x)) =~= spec_hits(s, now, ids) + (if fresh_hit(
            s,
            now,
            x,
        ) {
            seq![ach_lookup(s, x)->0.inner]
        } else {
            Seq::<AchievementModel>::empty()
        }));
    }
}

/// When nothing is missing, nothing is fetched: the misses are empty
/// exactly when every requested id is answered by a fresh cache entry.
pub proof fn lemma_zero_miss(s: Seq<CachedItem<AchievementModel>>, now: u64, ids: Seq<usize>)
    ensures
        spec_misses(s, now, ids).len() == 0 <==> (forall|i: int|
            0 <= i < ids.len() ==> fresh_hit(s, now, #[trigger] ids[i])),
    decreases ids.len(),
{
    if ids.len() > 0 {
        let tail = ids.drop_first();
        lemma_zero_miss(s, now, tail);
        assert(forall|i: int| 0 <= i < tail.len() ==> #[trigger] tail[i] == ids[i + 1]);
        if spec_misses(s, now, ids).len() == 0 {
            assert(fresh_hit(s, now, ids[0]));
            assert(spec_misses(s, now, tail).len() == 0);
            assert forall|i: int| 0 <= i < ids.len() implies fresh_hit(
                s,
                now,
                #[trigger] ids[i],
            ) by {
                if i > 0 {
                    assert(tail[i - 1] == ids[i]);
                }
            }
        }
        if forall|i: int| 0 <= i < ids.len() ==> fresh_hit(s, now, #[trigger] ids[i]) {
            assert(fresh_hit(s, now, ids[0]));
            assert forall|i: int| 0 <= i < tail.len() implies fresh_hit(
                s,
                now,
                #[trigger] tail[i],
            ) by {
                assert(tail[i] == ids[i + 1]);
            }
            assert(spec_misses(s, now, tail).len() == 0);
            assert(spec_misses(s, now, ids) =~= spec_misses(s, now, tail));
        }
    }
}

/// The result of looking an id up after a batch of stores: the last stored
/// value for the id wins; ids not in the batch keep their prior answer.
pub open spec fn batch_lookup(
    base: Option<CachedItem<AchievementModel>>,
    vs: Seq<AchievementModel>,
    exp: u64,
    id: usize,
) -> Option<CachedItem<AchievementModel>>
    decreases vs.len(),
{
    if vs.len() == 0 {
        base
    } else if vs.last().id == id {
        Some(CachedItem { inner: vs.last(), expires: exp })
    } else {
        batch_lookup(base, vs.drop_last(), exp, id)
    }
}

/// Tries to answer requests from the cache before reaching out to the
/// gateway; owns the cache and the optional account credential.
pub struct CachedClient {
    cache: Cache,
    apikey: Option<String>,
}

impl CachedClient {
    pub closed spec fn store_model(&self) -> StoreModel {
        self.cache.store_model()
    }

    pub closed spec fn wf(&self) -> bool {
        self.cache.wf()
    }

    pub closed spec fn spec_dirty(&self) -> bool {
        self.cache.spec_dirty()
    }

    pub closed spec fn spec_max_age(&self) -> u64 {
        self.cache.spec_max_age()
    }

    pub closed spec fn spec_has_apikey(&self) -> bool {
        self.apikey is Some
    }

    pub fn new(cache: Cache, apikey: Option<String>) -> (r: CachedClient)
        requires
            cache.wf(),
        ensures
            r.store_model() == cache.store_model(),
            r.wf(),
            r.spec_dirty() == cache.spec_dirty(),
            r.spec_max_age() == cache.spec_max_age(),
            r.spec_has_apikey() == (apikey is Some),
    {
        CachedClient { cache, apikey }
    }

    /// The characters of the configured credential.
    pub closed spec fn spec_apikey_chars(&self) -> Seq<char> {
        self.apikey->0@
    }

    /// The headers every request carries: the fixed schema-version pair the
    /// gateway expects, and the bearer credential exactly where the
    /// resource demands one. An authenticated request without a credential
    /// is refused here, before any transfer.
    pub fn request_headers(&self, authenticated: bool) -> (r: Result<
        Vec<(String, String)>,
        Error,
    >)
        ensures
            match r {
                Ok(hs) => {
                    &&& authenticated ==> self.spec_has_apikey()
                    &&& hs@.len() == (if authenticated {
                        2int
                    } else {
                        1int
                    })
                    &&& hs@[0].0@ == "X-Schema-Version"@
                    &&& hs@[0].1@ == "2019-05-16T00:00:00.000Z"@
                    &&& authenticated ==> hs@[1].0@ == "Authorization"@ && hs@[1].1@ == "Bearer "@
                        + self.spec_apikey_chars()
                },
                Err(e) => {
                    &&& e == Error::MissingApiKey
                    &&& authenticated
                    &&& !self.spec_has_apikey()
                },
            },
    {
        let mut hs: Vec<(String, String)> = Vec::new();
        hs.push(
            (
                String::from_str("X-Schema-Version"),
                String::from_str("2019-05-16T00:00:00.000Z"),
            ),
        );
        if authenticated {
            match &self.apikey {
                None => {
                    return Err(Error::MissingApiKey);
                },
                Some(key) => {
                    let value = String::from_str("Bearer ").concat(key.as_str());
                    hs.push((String::from_str("Authorization"), value));
                },
            }
        }
        Ok(hs)
    }

    /// Begin a catalog request: answer from the cache while fresh, else name
    /// the path to fetch. A public resource: never refused.
    pub fn begin_achievement_ids(&self, now: u64) -> (r: RequestStep<AllAchievementIDs>)
        requires
            self.wf(),
        ensures
            match r {
                RequestStep::Cached(v) => {
                    &&& self.store_model().all_achievement_ids matches Some(c)
                    &&& now <= c.expires
                    &&& v.deep_view() == c.inner
                },
                RequestStep::Fetch(path) => {
                    &&& !(self.store_model().all_achievement_ids matches Some(c) && now
                        <= c.expires)
                    &&& encode_utf8(path@) == AllAchievementIDs::spec_path(Seq::empty())
                },
            },
    {
        match self.cache.get_achievement_ids(now) {
            Some(v) => RequestStep::Cached(v),
            None => {
                let empty: Vec<usize> = Vec::new();
                assert(empty@ =~= Seq::<usize>::empty());
                RequestStep::Fetch(AllAchievementIDs::get_path(&empty))
            },
        }
    }

    /// Absorb a catalog response body: decode it, store it with the long
    /// lifetime, and hand it back; a body of the wrong shape is a decode
    /// failure and leaves the cache untouched.
    pub fn finish_achievement_ids(&mut self, now: u64, body: &Vec<u8>) -> (r: Result<
        AllAchievementIDs,
        Error,
    >)
        requires
            old(self).wf(),
        ensures
            final(self).wf(),
            final(self).spec_has_apikey() == old(self).spec_has_apikey(),
            match response_ids(body@) {
                Some(v) => {
                    &&& r matches Ok(ids)
                    &&& ids.deep_view() == v
                    &&& final(self).store_model().all_achievement_ids == Some(
                        CachedItem { inner: v, expires: sat_add(now, old(self).spec_max_age()) },
                    )
                    &&& final(self).store_model().achievements == old(
                        self,
                    ).store_model().achievements
                    &&& final(self).store_model().account_achievements == old(
                        self,
                    ).store_model().account_achievements
                    &&& final(self).store_model().dailies == old(self).store_model().dailies
                    &&& final(self).spec_dirty()
                },
                None => r == Err::<AllAchievementIDs, Error>(Error::Json) && *final(self) == *old(
                    self,
                ),
            },
    {
        match crate::response::scan_response_ids(body) {
            Some(v) => {
                let ids = AllAchievementIDs(v);
                let out = ids.duplicate();
                self.cache.put_achievement_ids(now, ids);
                Ok(out)
            },
            None => Err(Error::Json),
        }
    }

    /// Begin a daily-set request; a public resource: never refused.
    pub fn begin_dailies(&self, now: u64) -> (r: RequestStep<Dailies>)
        requires
            self.wf(),
        ensures
            match r {
                RequestStep::Cached(v) => {
                    &&& self.store_model().dailies matches Some(c)
                    &&& now <= c.expires
                    &&& v.deep_view() == c.inner
                },
                RequestStep::Fetch(path) => {
                    &&& !(self.store_model().dailies matches Some(c) && now <= c.expires)
                    &&& encode_utf8(path@) == Dailies::spec_path(Seq::empty())
                },
            },
    {
        match self.cache.get_dailies(now) {
            Some(v) => RequestStep::Cached(v),
            None => {
                let empty: Vec<usize> = Vec::new();
                assert(empty@ =~= Seq::<usize>::empty());
                RequestStep::Fetch(Dailies::get_path(&empty))
            },
        }
    }

    /// Absorb a daily-set response body.
    pub fn finish_dailies(&mut self, now: u64, body: &Vec<u8>) -> (r: Result<Dailies, Error>)
        requires
            old(self).wf(),
        ensures
            final(self).wf(),
            final(self).spec_has_apikey() == old(self).spec_has_apikey(),
            match response_dailies(body@) {
                Some(v) => {
                    &&& r matches Ok(d)
                    &&& d.deep_view() == v
                    &&& final(self).store_model().dailies == Some(
                        CachedItem { inner: v, expires: sat_add(now, old(self).spec_max_age()) },
                    )
                    &&& final(self).store_model().all_achievement_ids == old(
                        self,
                    ).store_model().all_achievement_ids
                    &&& final(self).store_model().achievements == old(
                        self,
                    ).store_model().achievements
                    &&& final(self).store_model().account_achievements == old(
                        self,
                    ).store_model().account_achievements
                    &&& final(self).spec_dirty()
                },
                None => r == Err::<Dailies, Error>(Error::Json) && *final(self) == *old(self),
            },
    {
        match crate::response::scan_response_dailies(body) {
            Some(v) => {
                let out = v.duplicate();
                self.cache.put_dailies(now, v);
                Ok(out)
            },
            None => Err(Error::Json),
        }
    }

    /// Begin an account-progress request. Fails fast with `MissingApiKey`
    /// when no credential is configured, before any network attempt; a fresh
    /// cached set still answers without the credential.
    pub fn begin_account_achievements(&self, now: u64) -> (r: Result<
        RequestStep<AllAccountAchievements>,
        Error,
    >)
        requires
            self.wf(),
        ensures
            match r {
                Ok(RequestStep::Cached(v)) => {
                    &&& self.store_model().account_achievements matches Some(c)
                    &&& now <= c.expires
                    &&& v.deep_view() == c.inner
                },
                Ok(RequestStep::Fetch(path)) => {
                    &&& !(self.store_model().account_achievements matches Some(c) && now
                        <= c.expires)
                    &&& self.spec_has_apikey()
                    &&& encode_utf8(path@) == AllAccountAchievements::spec_path(Seq::empty())
                },
                Err(e) => {
                    &&& e == Error::MissingApiKey
                    &&& !self.spec_has_apikey()
                    &&& !(self.store_model().account_achievements matches Some(c) && now
                        <= c.expires)
                },
            },
    {
        match self.cache.get_account_achievements(now) {
            Some(v) => Ok(RequestStep::Cached(v)),
            None => {
                if self.apikey.is_none() {
                    return Err(Error::MissingApiKey);
                }
                let empty: Vec<usize> = Vec::new();
                assert(empty@ =~= Seq::<usize>::empty());
                Ok(RequestStep::Fetch(AllAccountAchievements::get_path(&empty)))
            },
        }
    }

    /// Absorb an account-progress response body: the whole set is stored
    /// under one short lifetime, expiring as a unit.
    pub fn finish_account_achievements(&mut self, now: u64, body: &Vec<u8>) -> (r: Result<
        AllAccountAchievements,
        Error,
    >)
        requires
            old(self).wf(),
        ensures
            final(self).wf(),
            final(self).spec_has_apikey() == old(self).spec_has_apikey(),
            match response_accounts(body@) {
                Some(v) => {
                    &&& r matches Ok(a)
                    &&& a.deep_view() == v
                    &&& final(self).store_model().account_achievements == Some(
                        CachedItem { inner: v, expires: sat_add(now, spec_account_ttl()) },
                    )
                    &&& final(self).store_model().all_achievement_ids == old(
                        self,
                    ).store_model().all_achievement_ids
                    &&& final(self).store_model().achievements == old(
                        self,
                    ).store_model().achievements
                    &&& final(self).store_model().dailies == old(self).store_model().dailies
                    &&& final(self).spec_dirty()
                },
                None => r == Err::<AllAccountAchievements, Error>(Error::Json) && *final(self)
                    == *old(self),
            },
    {
        match crate::response::scan_response_accounts(body) {
            Some(v) => {
                let set = AllAccountAchievements(v);
                let out = set.duplicate();
                self.cache.put_account_achievements(now, set);
                Ok(out)
            },
            None => Err(Error::Json),
        }
    }

    /// Partition a batch of achievement ids into cached hits and misses,
    /// naming a fetch path exactly when something is missing. The path asks
    /// for exactly the missing ids, and no request is made when every id is
    /// already answered from the cache.
    #[verifier::loop_isolation(false)]
    pub fn begin_achievements(&self, now: u64, ids: &Vec<usize>) -> (r: (
        Vec<Achievement>,
        Vec<usize>,
        Option<String>,
    ))
        requires
            self.wf(),
        ensures
            ({
                let (hits, misses, plan) = r;
                &&& misses@ == spec_misses(self.store_model().achievements, now, ids@)
                &&& hits.deep_view() == spec_hits(self.store_model().achievements, now, ids@)
                &&& plan is Some <==> misses@.len() > 0
                &&& plan matches Some(path) ==> encode_utf8(path@) == Achievement::spec_path(
                    misses@,
                )
            }),
    {
        let ghost s = self.store_model().achievements;
        let mut hits: Vec<Achievement> = Vec::new();
        let mut misses: Vec<usize> = Vec::new();
        let n = ids.len();
        let mut k: usize = 0;
        proof {
            assert(ids@.take(0) =~= Seq::<usize>::empty());
            assert(hits.deep_view() =~= Seq::<AchievementModel>::empty());
        }
        while k < n
            invariant
                0 <= k <= n,
                misses@ == spec_misses(s, now, ids@.take(k as int)),
                hits.deep_view() == spec_hits(s, now, ids@.take(k as int)),
            decreases n - k,
        {
            let id = ids[k];
            proof {
                lemma_misses_snoc(s, now, ids@.take(k as int), id);
                assert(ids@.take(k + 1) =~= ids@.take(k as int).push(id));
            }
            match self.cache.get_achievement(now, id) {
                Some(a) => {
                    let ghost pre = hits.deep_view();
                    hits.push(a);
                    proof {
                        assert(hits.deep_view() =~= pre.push(ach_lookup(s, id)->0.inner));
                        assert(pre.push(ach_lookup(s, id)->0.inner) =~= pre + seq![
                            ach_lookup(s, id)->0.inner,
                        ]);
                    }
                },
                None => {
                    misses.push(id);
                    proof {
                        assert(misses@ =~= spec_misses(s, now, ids@.take(k as int)) + seq![id]);
                    }
                },
            }
            k += 1;
        }
        proof {
            assert(ids@.take(n as int) =~= ids@);
        }
        if misses.len() == 0 {
            (hits, misses, None)
        } else {
            let path = Achievement::get_path(&misses);
            (hits, misses, Some(path))
        }
    }

    /// Absorb a batch response: store each returned achievement under its
    /// own id so that later overlapping batches get partial hits, and return
    /// the cached hits followed by the fetched items. A bad body fails the
    /// whole batch and leaves the cache untouched.
    #[verifier::loop_isolation(false)]
    pub fn finish_achievements(&mut self, now: u64, hits: Vec<Achievement>, body: &Vec<u8>) -> (r:
        Result<Vec<Achievement>, Error>)
        requires
            old(self).wf(),
        ensures
            final(self).wf(),
            final(self).spec_has_apikey() == old(self).spec_has_apikey(),
            match response_achievements(body@) {
                Some(vs) => {
                    &&& r matches Ok(out)
                    &&& out.deep_view() == hits.deep_view() + vs
                    &&& forall|id: usize|
                        ach_lookup(final(self).store_model().achievements, id) == batch_lookup(
                            ach_lookup(old(self).store_model().achievements, id),
                            vs,
                            sat_add(now, old(self).spec_max_age()),
                            id,
                        )
                    &&& final(self).store_model().all_achievement_ids == old(
                        self,
                    ).store_model().all_achievement_ids
                    &&& final(self).store_model().account_achievements == old(
                        self,
                    ).store_model().account_achievements
                    &&& final(self).store_model().dailies == old(self).store_model().dailies
                    &&& vs.len() > 0 ==> final(self).spec_dirty()
                },
                None => r == Err::<Vec<Achievement>, Error>(Error::Json) && *final(self) == *old(
                    self,
                ),
            },
    {
        let fetched = match crate::response::scan_response_achievements(body) {
            Some(v) => v,
            None => {
                return Err(Error::Json);
            },
        };
        let ghost vs = fetched.deep_view();
        let ghost exp = sat_add(now, self.spec_max_age());
        let mut out = hits;
        let ghost hm = out.deep_view();
        let n = fetched.len();
        let mut k: usize = 0;
        proof {
            assert(vs.take(0) =~= Seq::<AchievementModel>::empty());
            assert forall|id: usize|
                ach_lookup(self.store_model().achievements, id) == batch_lookup(
                    ach_lookup(old(self).store_model().achievements, id),
                    vs.take(0),
                    exp,
                    id,
                ) by {}
        }
        while k < n
            invariant
                0 <= k <= n == fetched.len(),
                vs == fetched.deep_view(),
                exp == sat_add(now, old(self).spec_max_age()),
                self.wf(),
                self.spec_max_age() == old(self).spec_max_age(),
                self.spec_has_apikey() == old(self).spec_has_apikey(),
                self.store_model().all_achievement_ids == old(
                    self,
                ).store_model().all_achievement_ids,
                self.store_model().account_achievements == old(
                    self,
                ).store_model().account_achievements,
                self.store_model().dailies == old(self).store_model().dailies,
                k > 0 ==> self.spec_dirty(),
                out.deep_view() == hm + vs.take(k as int),
                forall|id: usize|
                    ach_lookup(self.store_model().achievements, id) == batch_lookup(
                        ach_lookup(old(self).store_model().achievements, id),
                        vs.take(k as int),
                        exp,
                        id,
                    ),
            decreases n - k,
        {
            let a = fetched[k].duplicate();
            let ghost am = vs[k as int];
            proof {
                assert(a.deep_view() == am);
            }
            let ghost pre = self.store_model().achievements;
            let ghost pre_out = out.deep_view();
            out.push(a);
            proof {
                assert(out.deep_view() =~= pre_out.push(am));
                assert(vs.take(k + 1) =~= vs.take(k as int).push(am));
                assert(pre_out.push(am) =~= hm + vs.take(k + 1));
            }
            let b = fetched[k].duplicate();
            self.cache.put_achievement(now, b);
            proof {
                assert(vs.take(k + 1).drop_last() =~= vs.take(k as int));
                assert(vs.take(k + 1).last() == am);
                assert forall|id: usize|
                    ach_lookup(self.store_model().achievements, id) == batch_lookup(
                        ach_lookup(old(self).store_model().achievements, id),
                        vs.take(k + 1),
                        exp,
                        id,
                    ) by {
                    if id == am.id {
                        assert(ach_lookup(self.store_model().achievements, id) == Some(
                            CachedItem { inner: am, expires: exp },
                        ));
                    } else {
                        assert(ach_lookup(self.store_model().achievements, id) == ach_lookup(
                            pre,
                            id,
                        ));
                    }
                }
            }
            k += 1;
        }
        proof {
            assert(vs.take(n as int) =~= vs);
        }
        Ok(out)
    }

    /// Hand the dirty cache to the caller as a file payload; a payload comes
    /// back exactly when something changed. Flushing clears the dirty flag,
    /// so two flushes in a row perform at most one disk write.
    pub fn write_cache(&mut self) -> (r: Option<Vec<u8>>)
        requires
            old(self).wf(),
        ensures
            final(self).wf(),
            final(self).spec_has_apikey() == old(self).spec_has_apikey(),
            final(self).store_model() == old(self).store_model(),
            final(self).spec_max_age() == old(self).spec_max_age(),
            r is Some <==> old(self).spec_dirty(),
            r is None ==> final(self).spec_dirty() == old(self).spec_dirty(),
            r is Some ==> {
                &&& old(self).spec_dirty()
                &&& !final(self).spec_dirty()
                &&& crate::cache::decode_payload(r->0@, old(self).spec_compression()) == Some(
                    old(self).store_model(),
                )
            },
    {
        self.cache.persist_payload()
    }

    pub closed spec fn spec_compression(&self) -> bool {
        self.cache.spec_compression()
    }

    /// Mark the store dirty so the next flush writes even without new data.
    pub fn invalidate_cache(&mut self)
        ensures
            final(self).wf() == old(self).wf(),
            final(self).store_model() == old(self).store_model(),
            final(self).spec_dirty(),
            final(self).spec_max_age() == old(self).spec_max_age(),
            final(self).spec_has_apikey() == old(self).spec_has_apikey(),
    {
        self.cache.invalidate()
    }
}

} // verus!
