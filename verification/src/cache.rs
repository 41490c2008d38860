use vstd::prelude::*;

use crate::api::AccountAchievement;
use crate::api::AccountAchievementModel;
use crate::api::Achievement;
use crate::api::AchievementModel;
use crate::api::AllAccountAchievements;
use crate::api::AllAchievementIDs;
use crate::api::Dailies;
use crate::codec::StoreModel;
use crate::codec::lemma_store_round_trip;
use crate::codec::parse_store;
use crate::codec::ser_store;
use crate::ext::gunzip_of;
use crate::writer::emit_store;

verus! {

/// A single cached value together with the Unix time (in seconds) at which it
/// stops being served from the cache.
pub struct CachedItem<T> {
    pub inner: T,
    pub expires: u64,
}

impl<T: DeepView> DeepView for CachedItem<T> {
    type V = CachedItem<T::V>;

    open spec fn deep_view(&self) -> CachedItem<T::V> {
        CachedItem { inner: self.inner.deep_view(), expires: self.expires }
    }
}

impl<T> CachedItem<T> {
    /// A cached value is fresh while the current time has not passed its expiry.
    pub open spec fn spec_fresh(&self, now: u64) -> bool {
        now <= self.expires
    }

    pub fn new(item: T, now: u64, life: u64) -> (r: Self)
        requires
            now + life <= u64::MAX,
        ensures
            r.inner == item,
            r.expires == now + life,
    {
        CachedItem { inner: item, expires: now + life }
    }

    /// Whether the entry has passed its expiry and must no longer be returned.
    pub fn expired(&self, now: u64) -> (r: bool)
        ensures
            r == !self.spec_fresh(now),
    {
        now > self.expires
    }
}

/// Saturating addition, used to compute expiry times that can never wrap.
pub open spec fn sat_add(a: u64, b: u64) -> u64 {
    if a + b > u64::MAX {
        u64::MAX
    } else {
        (a + b) as u64
    }
}

/// First entry whose achievement id is `id`.
pub open spec fn ach_lookup(
    s: Seq<CachedItem<AchievementModel>>,
    id: usize,
) -> Option<CachedItem<AchievementModel>>
    decreases s.len(),
{
    if s.len() == 0 {
        None
    } else if s[0].inner.id == id {
        Some(s[0])
    } else {
        ach_lookup(s.drop_first(), id)
    }
}

/// First account record whose achievement id is `id`.
pub open spec fn acct_lookup(
    s: Seq<AccountAchievementModel>,
    id: usize,
) -> Option<AccountAchievementModel>
    decreases s.len(),
{
    if s.len() == 0 {
        None
    } else if s[0].id == id {
        Some(s[0])
    } else {
        acct_lookup(s.drop_first(), id)
    }
}

/// No two entries of the achievement slot share an id.
pub open spec fn unique_ids(s: Seq<CachedItem<AchievementModel>>) -> bool {
    forall|i: int, j: int|
        0 <= i < j < s.len() ==> (#[trigger] s[i]).inner.id != (#[trigger] s[j]).inner.id
}

/// The whole document parses, is fully consumed, and respects the key
/// invariant of the achievement slot.
pub open spec fn decode_payload(b: Seq<u8>, compressed: bool) -> Option<StoreModel> {
    let doc = if compressed {
        gunzip_of(b)
    } else {
        Some(b)
    };
    match doc {
        None => None,
        Some(d) => match parse_store(d) {
            Some((m, rest)) => if rest.len() == 0 && unique_ids(m.achievements) {
                Some(m)
            } else {
                None
            },
            None => None,
        },
    }
}

pub open spec fn empty_store() -> StoreModel {
    StoreModel {
        all_achievement_ids: None,
        achievements: Seq::empty(),
        account_achievements: None,
        dailies: None,
    }
}

proof fn lemma_ach_lookup_update(
    s: Seq<CachedItem<AchievementModel>>,
    k: int,
    e: CachedItem<AchievementModel>,
    id: usize,
)
    requires
        unique_ids(s),
        0 <= k < s.len(),
        s[k].inner.id == id,
        e.inner.id == id,
    ensures
        ach_lookup(s.update(k, e), id) == Some(e),
        forall|other: usize|
            other != id ==> ach_lookup(s.update(k, e), other) == ach_lookup(s, other),
        unique_ids(s.update(k, e)),
    decreases s.len(),
{
    let s2 = s.update(k, e);
    assert forall|other: usize|
        other != id implies ach_lookup(s2, other) == ach_lookup(s, other) by {
        lemma_ach_lookup_update_other(s, k, e, other);
    }
    if k == 0 {
        assert(s2[0] == e);
    } else {
        assert(s2[0] == s[0]);
        assert(s[0].inner.id != id);
        assert(s2.drop_first() =~= s.drop_first().update(k - 1, e));
        assert(unique_ids(s.drop_first()));
        lemma_ach_lookup_update(s.drop_first(), k - 1, e, id);
    }
}

proof fn lemma_ach_lookup_update_other(
    s: Seq<CachedItem<AchievementModel>>,
    k: int,
    e: CachedItem<AchievementModel>,
    other: usize,
)
    requires
        0 <= k < s.len(),
        e.inner.id != other,
        s[k].inner.id != other,
    ensures
        ach_lookup(s.update(k, e), other) == ach_lookup(s, other),
    decreases s.len(),
{
    let s2 = s.update(k, e);
    if k == 0 {
        assert(s2[0] == e);
        assert(s2.drop_first() =~= s.drop_first());
    } else {
        assert(s2[0] == s[0]);
        if s[0].inner.id != other {
            assert(s2.drop_first() =~= s.drop_first().update(k - 1, e));
            lemma_ach_lookup_update_other(s.drop_first(), k - 1, e, other);
        }
    }
}

proof fn lemma_ach_lookup_push(
    s: Seq<CachedItem<AchievementModel>>,
    e: CachedItem<AchievementModel>,
)
    requires
        ach_lookup(s, e.inner.id) is None,
    ensures
        ach_lookup(s.push(e), e.inner.id) == Some(e),
        forall|other: usize|
            other != e.inner.id ==> ach_lookup(s.push(e), other) == ach_lookup(s, other),
    decreases s.len(),
{
    let s2 = s.push(e);
    if s.len() == 0 {
        assert(s2[0] == e);
        assert forall|other: usize|
            other != e.inner.id implies ach_lookup(s2, other) == ach_lookup(s, other) by {
            assert(s2.drop_first() =~= Seq::<CachedItem<AchievementModel>>::empty());
            assert(ach_lookup(Seq::<CachedItem<AchievementModel>>::empty(), other) is None);
        }
    } else {
        assert(s2[0] == s[0]);
        assert(s[0].inner.id != e.inner.id);
        assert(s2.drop_first() =~= s.drop_first().push(e));
        lemma_ach_lookup_push(s.drop_first(), e);
        assert forall|other: usize|
            other != e.inner.id implies ach_lookup(s2, other) == ach_lookup(s, other) by {
            if s[0].inner.id != other {
                assert(ach_lookup(s.drop_first().push(e), other) == ach_lookup(
                    s.drop_first(),
                    other,
                ));
            }
        }
    }
}

proof fn lemma_ach_lookup_none_unique(
    s: Seq<CachedItem<AchievementModel>>,
    e: CachedItem<AchievementModel>,
)
    requires
        unique_ids(s),
        ach_lookup(s, e.inner.id) is None,
    ensures
        unique_ids(s.push(e)),
{
    lemma_ach_lookup_covers(s, e.inner.id);
    let s2 = s.push(e);
    assert forall|i: int, j: int|
        0 <= i < j < s2.len() implies (#[trigger] s2[i]).inner.id != (
    #[trigger] s2[j]).inner.id by {
        if j == s.len() as int {
            assert(s2[i] == s[i]);
        }
    }
}

/// A `None` lookup means no entry at all carries the id.
/// A successful lookup names an entry actually in the sequence.
proof fn lemma_ach_lookup_some_witness(s: Seq<CachedItem<AchievementModel>>, id: usize)
    requires
        ach_lookup(s, id) is Some,
    ensures
        exists|i: int|
            0 <= i < s.len() && (#[trigger] s[i]).inner.id == id && ach_lookup(s, id) == Some(
                s[i],
            ),
    decreases s.len(),
{
    if s.len() > 0 {
        if s[0].inner.id == id {
            assert(s[0].inner.id == id && ach_lookup(s, id) == Some(s[0]));
        } else {
            lemma_ach_lookup_some_witness(s.drop_first(), id);
            let i = choose|i: int|
                0 <= i < s.drop_first().len() && (#[trigger] s.drop_first()[i]).inner.id == id
                    && ach_lookup(s.drop_first(), id) == Some(s.drop_first()[i]);
            assert(s[i + 1] == s.drop_first()[i]);
        }
    }
}

proof fn lemma_ach_lookup_covers(s: Seq<CachedItem<AchievementModel>>, id: usize)
    requires
        ach_lookup(s, id) is None,
    ensures
        forall|i: int| 0 <= i < s.len() ==> (#[trigger] s[i]).inner.id != id,
    decreases s.len(),
{
    if s.len() > 0 {
        lemma_ach_lookup_covers(s.drop_first(), id);
        assert(forall|i: int|
            1 <= i < s.len() ==> (#[trigger] s[i]) == s.drop_first()[i - 1]);
    }
}

/// An entry found by index is what lookup returns, under uniqueness.
proof fn lemma_ach_lookup_at(s: Seq<CachedItem<AchievementModel>>, k: int)
    requires
        unique_ids(s),
        0 <= k < s.len(),
    ensures
        ach_lookup(s, s[k].inner.id) == Some(s[k]),
    decreases s.len(),
{
    if k == 0 {
    } else {
        assert(s[0].inner.id != s[k].inner.id);
        assert(s.drop_first()[k - 1] == s[k]);
        assert(unique_ids(s.drop_first()));
        lemma_ach_lookup_at(s.drop_first(), k - 1);
    }
}

proof fn lemma_acct_lookup_at(s: Seq<AccountAchievementModel>, k: int)
    requires
        0 <= k < s.len(),
        forall|i: int| 0 <= i < k ==> (#[trigger] s[i]).id != s[k].id,
    ensures
        acct_lookup(s, s[k].id) == Some(s[k]),
    decreases s.len(),
{
    if k == 0 {
    } else {
        assert(s.drop_first()[k - 1] == s[k]);
        assert(forall|i: int|
            0 <= i < k - 1 ==> (#[trigger] s.drop_first()[i]) == s[i + 1]);
        lemma_acct_lookup_at(s.drop_first(), k - 1);
    }
}

proof fn lemma_acct_lookup_none(s: Seq<AccountAchievementModel>, id: usize)
    requires
        forall|i: int| 0 <= i < s.len() ==> (#[trigger] s[i]).id != id,
    ensures
        acct_lookup(s, id) is None,
    decreases s.len(),
{
    if s.len() > 0 {
        assert(forall|i: int|
            0 <= i < s.drop_first().len() ==> (#[trigger] s.drop_first()[i]) == s[i + 1]);
        lemma_acct_lookup_none(s.drop_first(), id);
    }
}

/// Controls all cached content: one slot per resource kind, a dirty flag,
/// and the policy knobs.
pub struct Cache {
    all_achievement_ids: Option<CachedItem<AllAchievementIDs>>,
    achievements: Vec<CachedItem<Achievement>>,
    account_achievements: Option<CachedItem<AllAccountAchievements>>,
    dailies: Option<CachedItem<Dailies>>,
    invalid: bool,
    max_age: u64,
    compression: bool,
}

/// The fixed lifetime of the account-progress slot: it mirrors live player
/// state and is refetched every cycle anyway.
pub open spec fn spec_account_ttl() -> u64 {
    60
}

impl Cache {
    /// The mathematical content of the four slots.
    pub closed spec fn store_model(&self) -> StoreModel {
        StoreModel {
            all_achievement_ids: self.all_achievement_ids.deep_view(),
            achievements: self.achievements.deep_view(),
            account_achievements: self.account_achievements.deep_view(),
            dailies: self.dailies.deep_view(),
        }
    }

    /// Well-formed: achievement entries are keyed uniquely by their id.
    pub closed spec fn wf(&self) -> bool {
        unique_ids(self.store_model().achievements)
    }

    pub closed spec fn spec_dirty(&self) -> bool {
        self.invalid
    }

    pub closed spec fn spec_max_age(&self) -> u64 {
        self.max_age
    }

    pub closed spec fn spec_compression(&self) -> bool {
        self.compression
    }

    /// An empty store: nothing fetched yet, nothing to flush.
    pub fn new(max_age: u64, compression: bool) -> (r: Cache)
        ensures
            r.store_model() == empty_store(),
            !r.spec_dirty(),
            r.wf(),
            r.spec_max_age() == max_age,
            r.spec_compression() == compression,
    {
        let r = Cache {
            all_achievement_ids: None,
            achievements: Vec::new(),
            account_achievements: None,
            dailies: None,
            invalid: false,
            max_age,
            compression,
        };
        proof {
            assert(r.achievements.deep_view() =~= Seq::<CachedItem<AchievementModel>>::empty());
        }
        r
    }

    /// Read the catalog slot: a value comes back only while it is fresh.
    pub fn get_achievement_ids(&self, now: u64) -> (r: Option<AllAchievementIDs>)
        ensures
            r is Some <==> (self.store_model().all_achievement_ids matches Some(c)
                && now <= c.expires),
            r is Some ==> r->0.deep_view() == self.store_model().all_achievement_ids->0.inner,
    {
        match &self.all_achievement_ids {
            Some(c) => {
                if !c.expired(now) {
                    Some(c.inner.duplicate())
                } else {
                    None
                }
            },
            None => None,
        }
    }

    /// Store the catalog with the configured long lifetime; overwrites any
    /// prior entry, fresh or stale, and marks the store dirty.
    pub fn put_achievement_ids(&mut self, now: u64, v: AllAchievementIDs)
        requires
            old(self).wf(),
        ensures
            final(self).store_model().all_achievement_ids == Some(
                CachedItem { inner: v.deep_view(), expires: sat_add(now, old(self).spec_max_age()) },
            ),
            final(self).store_model().achievements == old(self).store_model().achievements,
            final(self).store_model().account_achievements == old(
                self,
            ).store_model().account_achievements,
            final(self).store_model().dailies == old(self).store_model().dailies,
            final(self).spec_dirty(),
            final(self).wf(),
            final(self).spec_max_age() == old(self).spec_max_age(),
            final(self).spec_compression() == old(self).spec_compression(),
    {
        let expires = if now > u64::MAX - self.max_age {
            u64::MAX
        } else {
            now + self.max_age
        };
        self.all_achievement_ids = Some(CachedItem { inner: v, expires });
        self.invalid = true;
    }

    /// Read one achievement by id: only a fresh entry is a hit; a stale one
    /// reads as missing but is kept for a later overwrite.
    #[verifier::loop_isolation(false)]
    pub fn get_achievement(&self, now: u64, id: usize) -> (r: Option<Achievement>)
        requires
            self.wf(),
        ensures
            r is Some <==> (ach_lookup(self.store_model().achievements, id) matches Some(c)
                && now <= c.expires),
            r is Some ==> r->0.deep_view() == ach_lookup(
                self.store_model().achievements,
                id,
            )->0.inner,
    {
        let ghost dv = self.store_model().achievements;
        let n = self.achievements.len();
        let mut k: usize = 0;
        while k < n
            invariant
                self.wf(),
                dv == self.store_model().achievements,
                n == dv.len() == self.achievements.len(),
                0 <= k <= n,
                forall|i: int| 0 <= i < k ==> (#[trigger] dv[i]).inner.id != id,
            decreases n - k,
        {
            if self.achievements[k].inner.id == id {
                proof {
                    assert(dv[k as int].inner.id == id);
                    lemma_ach_lookup_at(dv, k as int);
                }
                if !self.achievements[k].expired(now) {
                    return Some(self.achievements[k].inner.duplicate());
                } else {
                    return None;
                }
            }
            k += 1;
        }
        proof {
            assert(ach_lookup(dv, id) is None) by {
                if ach_lookup(dv, id) matches Some(c) {
                    lemma_ach_lookup_some_witness(dv, id);
                }
            }
        }
        None
    }

    /// Store one achievement under its own id with the configured long
    /// lifetime; replaces the entry for that id or adds a new one.
    #[verifier::loop_isolation(false)]
    pub fn put_achievement(&mut self, now: u64, a: Achievement)
        requires
            old(self).wf(),
        ensures
            ach_lookup(final(self).store_model().achievements, a.id) == Some(
                CachedItem {
                    inner: a.deep_view(),
                    expires: sat_add(now, old(self).spec_max_age()),
                },
            ),
            forall|other: usize|
                other != a.id ==> ach_lookup(final(self).store_model().achievements, other)
                    == ach_lookup(old(self).store_model().achievements, other),
            final(self).store_model().all_achievement_ids == old(
                self,
            ).store_model().all_achievement_ids,
            final(self).store_model().account_achievements == old(
                self,
            ).store_model().account_achievements,
            final(self).store_model().dailies == old(self).store_model().dailies,
            final(self).spec_dirty(),
            final(self).wf(),
            final(self).spec_max_age() == old(self).spec_max_age(),
            final(self).spec_compression() == old(self).spec_compression(),
    {
        let ghost dv = self.store_model().achievements;
        let expires = if now > u64::MAX - self.max_age {
            u64::MAX
        } else {
            now + self.max_age
        };
        let ghost em = CachedItem { inner: a.deep_view(), expires: expires };
        let id = a.id;
        let n = self.achievements.len();
        let mut k: usize = 0;
        while k < n
            invariant
                old(self).wf(),
                dv == old(self).store_model().achievements,
                n == dv.len() == self.achievements.len(),
                0 <= k <= n,
                forall|i: int| 0 <= i < k ==> (#[trigger] dv[i]).inner.id != id,
                self == old(self),
            decreases n - k,
        {
            if self.achievements[k].inner.id == id {
                let e = CachedItem { inner: a, expires };
                self.achievements.set(k, e);
                self.invalid = true;
                proof {
                    assert(dv[k as int].inner.id == id);
                    assert(self.store_model().achievements =~= dv.update(k as int, em));
                    lemma_ach_lookup_update(dv, k as int, em, id);
                }
                return ;
            }
            k += 1;
        }
        let e = CachedItem { inner: a, expires };
        self.achievements.push(e);
        self.invalid = true;
        proof {
            assert(ach_lookup(dv, id) is None) by {
                if ach_lookup(dv, id) matches Some(c) {
                    lemma_ach_lookup_some_witness(dv, id);
                }
            }
            assert(self.store_model().achievements =~= dv.push(em));
            lemma_ach_lookup_push(dv, em);
            lemma_ach_lookup_none_unique(dv, em);
        }
    }

    /// Read one account record out of the single account-progress slot; the
    /// whole slot must be fresh, as it expires as one unit.
    #[verifier::loop_isolation(false)]
    pub fn get_account_achievement(&self, now: u64, id: usize) -> (r: Option<AccountAchievement>)
        ensures
            r is Some <==> (self.store_model().account_achievements matches Some(c)
                && now <= c.expires && acct_lookup(c.inner, id) is Some),
            r is Some ==> Some(r->0.deep_view()) == acct_lookup(
                self.store_model().account_achievements->0.inner,
                id,
            ),
    {
        match &self.account_achievements {
            None => None,
            Some(c) => {
                if c.expired(now) {
                    return None;
                }
                let ghost dv = c.inner.0.deep_view();
                let n = c.inner.0.len();
                let mut k: usize = 0;
                while k < n
                    invariant
                        dv == c.inner.0.deep_view(),
                        n == dv.len() == c.inner.0.len(),
                        0 <= k <= n,
                        forall|i: int| 0 <= i < k ==> (#[trigger] dv[i]).id != id,
                    decreases n - k,
                {
                    if c.inner.0[k].id == id {
                        proof {
                            assert(dv[k as int].id == id);
                            lemma_acct_lookup_at(dv, k as int);
                        }
                        return Some(c.inner.0[k].duplicate());
                    }
                    k += 1;
                }
                proof {
                    lemma_acct_lookup_none(dv, id);
                }
                None
            },
        }
    }

    /// Read the whole account-progress slot while fresh.
    pub fn get_account_achievements(&self, now: u64) -> (r: Option<AllAccountAchievements>)
        ensures
            r is Some <==> (self.store_model().account_achievements matches Some(c)
                && now <= c.expires),
            r is Some ==> r->0.deep_view() == self.store_model().account_achievements->0.inner,
    {
        match &self.account_achievements {
            Some(c) => {
                if !c.expired(now) {
                    Some(c.inner.duplicate())
                } else {
                    None
                }
            },
            None => None,
        }
    }

    /// Store the whole account-progress set under the short fixed lifetime.
    pub fn put_account_achievements(&mut self, now: u64, v: AllAccountAchievements)
        requires
            old(self).wf(),
        ensures
            final(self).store_model().account_achievements == Some(
                CachedItem { inner: v.deep_view(), expires: sat_add(now, spec_account_ttl()) },
            ),
            final(self).store_model().all_achievement_ids == old(
                self,
            ).store_model().all_achievement_ids,
            final(self).store_model().achievements == old(self).store_model().achievements,
            final(self).store_model().dailies == old(self).store_model().dailies,
            final(self).spec_dirty(),
            final(self).wf(),
            final(self).spec_max_age() == old(self).spec_max_age(),
            final(self).spec_compression() == old(self).spec_compression(),
    {
        let expires = if now > u64::MAX - 60 {
            u64::MAX
        } else {
            now + 60
        };
        self.account_achievements = Some(CachedItem { inner: v, expires });
        self.invalid = true;
    }

    /// Read the daily slot while fresh.
    pub fn get_dailies(&self, now: u64) -> (r: Option<Dailies>)
        ensures
            r is Some <==> (self.store_model().dailies matches Some(c) && now <= c.expires),
            r is Some ==> r->0.deep_view() == self.store_model().dailies->0.inner,
    {
        match &self.dailies {
            Some(c) => {
                if !c.expired(now) {
                    Some(c.inner.duplicate())
                } else {
                    None
                }
            },
            None => None,
        }
    }

    /// Store the daily set with the configured long lifetime.
    pub fn put_dailies(&mut self, now: u64, v: Dailies)
        requires
            old(self).wf(),
        ensures
            final(self).store_model().dailies == Some(
                CachedItem { inner: v.deep_view(), expires: sat_add(now, old(self).spec_max_age()) },
            ),
            final(self).store_model().all_achievement_ids == old(
                self,
            ).store_model().all_achievement_ids,
            final(self).store_model().achievements == old(self).store_model().achievements,
            final(self).store_model().account_achievements == old(
                self,
            ).store_model().account_achievements,
            final(self).spec_dirty(),
            final(self).wf(),
            final(self).spec_max_age() == old(self).spec_max_age(),
            final(self).spec_compression() == old(self).spec_compression(),
    {
        let expires = if now > u64::MAX - self.max_age {
            u64::MAX
        } else {
            now + self.max_age
        };
        self.dailies = Some(CachedItem { inner: v, expires });
        self.invalid = true;
    }

    /// Force the next flush even without new writes.
    pub fn invalidate(&mut self)
        ensures
            final(self).store_model() == old(self).store_model(),
            final(self).spec_dirty(),
            final(self).wf() == old(self).wf(),
            final(self).spec_max_age() == old(self).spec_max_age(),
            final(self).spec_compression() == old(self).spec_compression(),
    {
        self.invalid = true;
    }

    pub fn is_dirty(&self) -> (r: bool)
        ensures
            r == self.spec_dirty(),
    {
        self.invalid
    }

    /// Serialize the store; the parser maps the bytes back to this store.
    pub fn to_bytes(&self) -> (r: Vec<u8>)
        ensures
            parse_store(r@) == Some((self.store_model(), Seq::<u8>::empty())),
    {
        let mut buf: Vec<u8> = Vec::new();
        emit_store(
            &mut buf,
            &self.all_achievement_ids,
            &self.achievements,
            &self.account_achievements,
            &self.dailies,
        );
        proof {
            lemma_store_round_trip(self.store_model(), Seq::<u8>::empty());
            assert(buf@ =~= ser_store(self.store_model()) + Seq::<u8>::empty());
        }
        buf
    }

    /// Rebuild a store from the bytes of a cache file. A missing, corrupt or
    /// truncated document, or one breaking the key invariant, yields an
    /// empty store: losing the cache must never block startup.
    pub fn from_bytes(data: Option<&Vec<u8>>, compressed: bool, max_age: u64) -> (r: Cache)
        ensures
            r.store_model() == (match data {
                Some(b) => match decode_payload(b@, compressed) {
                    Some(m) => m,
                    None => empty_store(),
                },
                None => empty_store(),
            }),
            !r.spec_dirty(),
            r.wf(),
            r.spec_max_age() == max_age,
            r.spec_compression() == compressed,
    {
        let bytes = match data {
            None => {
                return Cache::new(max_age, compressed);
            },
            Some(b) => b,
        };
        if compressed {
            match crate::ext::gzip_decompress(bytes) {
                None => Cache::new(max_age, compressed),
                Some(doc) => Cache::from_document(&doc, compressed, max_age),
            }
        } else {
            Cache::from_document(bytes, compressed, max_age)
        }
    }

    fn from_document(doc: &Vec<u8>, compressed: bool, max_age: u64) -> (r: Cache)
        ensures
            r.store_model() == (match parse_store(doc@) {
                Some((m, rest)) => if rest.len() == 0 && unique_ids(m.achievements) {
                    m
                } else {
                    empty_store()
                },
                None => empty_store(),
            }),
            !r.spec_dirty(),
            r.wf(),
            r.spec_max_age() == max_age,
            r.spec_compression() == compressed,
    {
        assert(doc@.skip(0) =~= doc@);
        match crate::reader::scan_store(doc, 0) {
            None => Cache::new(max_age, compressed),
            Some(((ids, achs, accts, dailies), j)) => {
                if j != doc.len() {
                    return Cache::new(max_age, compressed);
                }
                assert(doc@.skip(j as int).len() == 0);
                if !Cache::ids_unique(&achs) {
                    return Cache::new(max_age, compressed);
                }
                Cache {
                    all_achievement_ids: ids,
                    achievements: achs,
                    account_achievements: accts,
                    dailies,
                    invalid: false,
                    max_age,
                    compression: compressed,
                }
            },
        }
    }

    #[verifier::loop_isolation(false)]
    fn ids_unique(v: &Vec<CachedItem<Achievement>>) -> (r: bool)
        ensures
            r == unique_ids(v.deep_view()),
    {
        let ghost dv = v.deep_view();
        let n = v.len();
        let mut k: usize = 0;
        while k < n
            invariant
                dv == v.deep_view(),
                n == dv.len() == v.len(),
                0 <= k <= n,
                forall|i: int, j: int|
                    0 <= i < j < dv.len() && j < k ==> (#[trigger] dv[i]).inner.id != (
                    #[trigger] dv[j]).inner.id,
            decreases n - k,
        {
            let mut m: usize = 0;
            while m < k
                invariant
                    dv == v.deep_view(),
                    n == dv.len() == v.len(),
                    0 <= m <= k < n,
                    forall|i: int| 0 <= i < m ==> (#[trigger] dv[i]).inner.id != dv[k as int].inner.id,
                decreases k - m,
            {
                if v[m].inner.id == v[k].inner.id {
                    assert(dv[m as int].inner.id == dv[k as int].inner.id);
                    return false;
                }
                m += 1;
            }
            k += 1;
        }
        true
    }

    /// The payload to flush: a payload comes back exactly when the store is
    /// dirty, so a second flush in a row performs no disk write. Flushing
    /// clears the dirty flag, and the bytes decode back to exactly this
    /// store.
    pub fn persist_payload(&mut self) -> (r: Option<Vec<u8>>)
        requires
            old(self).wf(),
        ensures
            r is Some <==> old(self).spec_dirty(),
            r is None ==> *final(self) == *old(self),
            r is Some ==> {
                &&& old(self).spec_dirty()
                &&& !final(self).spec_dirty()
                &&& final(self).store_model() == old(self).store_model()
                &&& final(self).wf()
                &&& final(self).spec_max_age() == old(self).spec_max_age()
                &&& final(self).spec_compression() == old(self).spec_compression()
                &&& decode_payload(r->0@, old(self).spec_compression()) == Some(
                    old(self).store_model(),
                )
            },
    {
        if !self.invalid {
            return None;
        }
        let bytes = self.to_bytes();
        if self.compression {
            match crate::ext::gzip_compress(&bytes) {
                None => {
                    proof {
                        assert(false);
                    }
                    None
                },
                Some(z) => {
                    self.invalid = false;
                    Some(z)
                },
            }
        } else {
            self.invalid = false;
            Some(bytes)
        }
    }
}

/// A fresh lookup after two writes to the same key always yields the second
/// value: storing overwrites regardless of the old entry's staleness, and
/// the new entry is fresh at the time it was written.
pub proof fn lemma_write_overwrite(
    s: Seq<CachedItem<AchievementModel>>,
    k: int,
    e1: CachedItem<AchievementModel>,
    e2: CachedItem<AchievementModel>,
    id: usize,
    now: u64,
    ttl: u64,
)
    requires
        unique_ids(s),
        0 <= k < s.len(),
        s[k].inner.id == id,
        e1.inner.id == id,
        e2.inner.id == id,
        e2.expires == sat_add(now, ttl),
    ensures
        ach_lookup(s.update(k, e1).update(k, e2), id) == Some(e2),
        now <= e2.expires,
{
    lemma_ach_lookup_update(s, k, e1, id);
    assert(s.update(k, e1)[k] == e1);
    lemma_ach_lookup_update(s.update(k, e1), k, e2, id);
}

/// Persisting and loading reproduce an equivalent store: the document
/// written for a well-formed store parses back to the same model.
pub proof fn lemma_persist_load_round_trip(m: StoreModel, compressed: bool, z: Seq<u8>)
    requires
        unique_ids(m.achievements),
        compressed ==> gunzip_of(z) == Some(ser_store(m)),
        !compressed ==> z == ser_store(m),
    ensures
        decode_payload(z, compressed) == Some(m),
{
    lemma_store_round_trip(m, Seq::<u8>::empty());
    assert(ser_store(m) + Seq::<u8>::empty() =~= ser_store(m));
}

} // verus!
