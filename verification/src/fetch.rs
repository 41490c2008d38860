//! The background fetch loop's brain: a linear phase machine that decides
//! what to request next and folds each outcome into events for the
//! interface. The waiting and the transfer itself happen outside; given the
//! same outcomes, the decisions here are the same.

use vstd::prelude::*;
use vstd::utf8::encode_utf8;

use crate::api::Achievement;
use crate::api::AchievementModel;
use crate::api::AllAccountAchievements;
use crate::api::AllAchievementIDs;
use crate::api::Dailies;
use crate::client::Error;
use crate::endpoints::ascii_to_string;
use crate::events::Event;
use crate::json::dec_digits;
use crate::json::emit_lit;
use crate::json::emit_u64;
use crate::json::is_digit;
use crate::json::lemma_dec_digits_props;
use crate::json::lit_bytes;

verus! {

/// The phases of one run of the loop, in order; the account phase repeats
/// forever on the caller's tick.
#[derive(Clone, Copy, Debug, PartialEq, Eq)]
pub enum FetchPhase {
    Catalog,
    Sweep,
    Dailies,
    Account,
}

/// What the loop asks its caller to do next.
pub enum FetchAction {
    FetchCatalog,
    FetchPage(Vec<usize>),
    FetchDailies,
    FetchAccount,
}

/// How many pages a catalog of `n` ids takes.
pub open spec fn spec_pages(n: int) -> int {
    (n + 99) / 100
}

/// The ids of page `p`.
pub open spec fn spec_page(ids: Seq<usize>, p: int) -> Seq<usize> {
    ids.subrange(
        p * 100,
        if p * 100 + 100 <= ids.len() {
            p * 100 + 100
        } else {
            ids.len() as int
        },
    )
}

/// The status line shown while the sweep runs.
pub open spec fn spec_progress_text(msg: Seq<char>, page: int, total: int) -> bool {
    encode_utf8(msg) == lit_bytes("Loading achievements... "@) + dec_digits(
        spec_percent(page, total) as u64,
    ) + lit_bytes("%"@)
}

/// Progress after finishing page `page` of `total`, in whole percent.
pub open spec fn spec_percent(page: int, total: int) -> int {
    if total <= 1 {
        100
    } else {
        page * 100 / (total - 1)
    }
}

/// Whether the accumulated sweep already holds this achievement id.
pub open spec fn has_ach_id(s: Seq<AchievementModel>, id: usize) -> bool {
    exists|i: int| 0 <= i < s.len() && (#[trigger] s[i]).id == id
}

/// Fold one page into the accumulated sweep: one entry per id, the first
/// arrival winning, as a set keyed by the achievement id collects them.
pub open spec fn merge_page(
    acc: Seq<AchievementModel>,
    items: Seq<AchievementModel>,
) -> Seq<AchievementModel>
    decreases items.len(),
{
    if items.len() == 0 {
        acc
    } else {
        merge_page(
            if has_ach_id(acc, items[0].id) {
                acc
            } else {
                acc.push(items[0])
            },
            items.drop_first(),
        )
    }
}

proof fn lemma_merge_page_snoc(
    acc: Seq<AchievementModel>,
    items: Seq<AchievementModel>,
    x: AchievementModel,
)
    ensures
        merge_page(acc, items.push(x)) == (if has_ach_id(merge_page(acc, items), x.id) {
            merge_page(acc, items)
        } else {
            merge_page(acc, items).push(x)
        }),
    decreases items.len(),
{
    if items.len() == 0 {
        assert(items.push(x)[0] == x);
        assert(items.push(x).drop_first() =~= Seq::<AchievementModel>::empty());
        let stepped = if has_ach_id(acc, x.id) {
            acc
        } else {
            acc.push(x)
        };
        assert(merge_page(stepped, Seq::<AchievementModel>::empty()) == stepped);
    } else {
        assert(items.push(x)[0] == items[0]);
        assert(items.push(x).drop_first() =~= items.drop_first().push(x));
        let stepped = if has_ach_id(acc, items[0].id) {
            acc
        } else {
            acc.push(items[0])
        };
        lemma_merge_page_snoc(stepped, items.drop_first(), x);
    }
}

/// Whether the accumulated sweep already holds this id.
fn contains_ach_id(v: &Vec<Achievement>, id: usize) -> (r: bool)
    ensures
        r == has_ach_id(v.deep_view(), id),
{
    let ghost dv = v.deep_view();
    let n = v.len();
    let mut k: usize = 0;
    while k < n
        invariant
            0 <= k <= n,
            n == dv.len() == v.len(),
            dv == v.deep_view(),
            forall|i: int| 0 <= i < k ==> (#[trigger] dv[i]).id != id,
        decreases n - k,
    {
        if v[k].id == id {
            assert(dv[k as int].id == id);
            return true;
        }
        k += 1;
    }
    false
}

pub struct Fetch {
    phase: FetchPhase,
    all_achievement_ids: Vec<usize>,
    page: usize,
    collected: Vec<Achievement>,
}

impl Fetch {
    pub closed spec fn spec_phase(&self) -> FetchPhase {
        self.phase
    }

    pub closed spec fn spec_ids(&self) -> Seq<usize> {
        self.all_achievement_ids@
    }

    pub closed spec fn spec_page_index(&self) -> int {
        self.page as int
    }

    pub closed spec fn spec_collected(&self) -> Seq<crate::api::AchievementModel> {
        self.collected.deep_view()
    }

    /// During the sweep the page index points at a real page.
    pub closed spec fn wf(&self) -> bool {
        self.phase is Sweep ==> self.page * 100 < self.all_achievement_ids@.len()
    }

    pub fn new() -> (r: Fetch)
        ensures
            r.spec_phase() == FetchPhase::Catalog,
            r.spec_ids() == Seq::<usize>::empty(),
            r.spec_collected() == Seq::<crate::api::AchievementModel>::empty(),
            r.wf(),
    {
        let r = Fetch {
            phase: FetchPhase::Catalog,
            all_achievement_ids: Vec::new(),
            page: 0,
            collected: Vec::new(),
        };
        proof {
            assert(r.spec_collected() =~= Seq::<crate::api::AchievementModel>::empty());
        }
        r
    }

    /// What to do next, given the phase: the initial catalog fetch, one page
    /// of the detail sweep, the one-shot daily fetch, or the steady account
    /// poll.
    pub fn next_action(&self) -> (r: FetchAction)
        requires
            self.wf(),
        ensures
            match r {
                FetchAction::FetchCatalog => self.spec_phase() == FetchPhase::Catalog,
                FetchAction::FetchPage(p) => self.spec_phase() == FetchPhase::Sweep && p@
                    == spec_page(self.spec_ids(), self.spec_page_index()),
                FetchAction::FetchDailies => self.spec_phase() == FetchPhase::Dailies,
                FetchAction::FetchAccount => self.spec_phase() == FetchPhase::Account,
            },
    {
        match self.phase {
            FetchPhase::Catalog => FetchAction::FetchCatalog,
            FetchPhase::Sweep => {
                let len = self.all_achievement_ids.len();
                assert(self.page * 100 < len);
                let start = self.page * 100;
                let end = if len - start > 100 {
                    start + 100
                } else {
                    len
                };
                let mut p: Vec<usize> = Vec::new();
                let mut k = start;
                while k < end
                    invariant
                        start <= k <= end <= self.all_achievement_ids.len(),
                        p@ == self.all_achievement_ids@.subrange(start as int, k as int),
                    decreases end - k,
                {
                    p.push(self.all_achievement_ids[k]);
                    assert(p@ =~= self.all_achievement_ids@.subrange(start as int, k + 1));
                    k += 1;
                }
                assert(p@ =~= spec_page(self.spec_ids(), self.spec_page_index()));
                FetchAction::FetchPage(p)
            },
            FetchPhase::Dailies => FetchAction::FetchDailies,
            FetchPhase::Account => FetchAction::FetchAccount,
        }
    }

    /// Fold in the catalog outcome. A failure is not fatal: the sweep simply
    /// runs over an empty catalog, which completes at once.
    pub fn apply_catalog(&mut self, r: Option<AllAchievementIDs>) -> (evs: Vec<Event>)
        requires
            old(self).spec_phase() == FetchPhase::Catalog,
            old(self).wf(),
        ensures
            final(self).wf(),
            final(self).spec_ids() == (match r {
                Some(v) => v.deep_view(),
                None => Seq::<usize>::empty(),
            }),
            final(self).spec_collected() == old(self).spec_collected(),
            final(self).spec_ids().len() > 0 ==> final(self).spec_phase() == FetchPhase::Sweep
                && final(self).spec_page_index() == 0 && evs@.len() == 0,
            final(self).spec_ids().len() == 0 ==> final(self).spec_phase() == FetchPhase::Dailies
                && evs@.len() == 2 && (evs@[0] matches Event::AchievementsLoaded(all) && all@.len()
                == 0) && (evs@[1] matches Event::StatusMessage(m) && encode_utf8(m@) == lit_bytes(
                "Done loading achievements..."@,
            )),
    {
        match r {
            Some(v) => {
                self.all_achievement_ids = v.0;
            },
            None => {
                self.all_achievement_ids = Vec::new();
            },
        }
        self.page = 0;
        if self.all_achievement_ids.len() > 0 {
            self.phase = FetchPhase::Sweep;
            Vec::new()
        } else {
            self.phase = FetchPhase::Dailies;
            let mut evs: Vec<Event> = Vec::new();
            evs.push(Event::AchievementsLoaded(Vec::new()));
            evs.push(Event::StatusMessage(done_message()));
            evs
        }
    }

    /// Fold in one page of the detail sweep: collect what arrived, one
    /// entry per id, report progress, and when the last page is done hand
    /// the whole accumulated set over and move on to the dailies. A failed
    /// page is skipped; the next tick of the loop is its retry.
    #[verifier::loop_isolation(false)]
    #[verifier::rlimit(50)]
    pub fn apply_page(&mut self, r: Result<Vec<Achievement>, Error>) -> (evs: Vec<Event>)
        requires
            old(self).spec_phase() == FetchPhase::Sweep,
            old(self).wf(),
        ensures
            final(self).wf(),
            final(self).spec_ids() == old(self).spec_ids(),
            ({
                let merged = match r {
                    Ok(items) => merge_page(old(self).spec_collected(), items.deep_view()),
                    Err(e) => old(self).spec_collected(),
                };
                let total = spec_pages(old(self).spec_ids().len() as int);
                let last = !((old(self).spec_page_index() + 1) * 100 < old(
                    self,
                ).spec_ids().len());
                &&& !last ==> {
                    &&& final(self).spec_phase() == FetchPhase::Sweep
                    &&& final(self).spec_page_index() == old(self).spec_page_index() + 1
                    &&& final(self).spec_collected() == merged
                    &&& r is Ok ==> evs@.len() == 1 && (evs@[0] matches Event::StatusMessage(m)
                        && spec_progress_text(m@, old(self).spec_page_index(), total))
                    &&& r is Err ==> evs@.len() == 0
                }
                &&& last ==> {
                    &&& final(self).spec_phase() == FetchPhase::Dailies
                    &&& final(self).spec_collected() == Seq::<AchievementModel>::empty()
                    &&& r is Ok ==> evs@.len() == 3 && (evs@[0] matches Event::StatusMessage(m)
                        && spec_progress_text(m@, old(self).spec_page_index(), total)) && (
                    evs@[1] matches Event::AchievementsLoaded(all) && all.deep_view() == merged)
                        && (evs@[2] matches Event::StatusMessage(m) && encode_utf8(m@)
                        == lit_bytes("Done loading achievements..."@))
                    &&& r is Err ==> evs@.len() == 2 && (evs@[0] matches Event::AchievementsLoaded(
                        all,
                    ) && all.deep_view() == merged) && (evs@[1] matches Event::StatusMessage(m)
                        && encode_utf8(m@) == lit_bytes("Done loading achievements..."@))
                }
            }),
    {
        let ghost merged = if r is Ok {
            merge_page(old(self).spec_collected(), r->Ok_0.deep_view())
        } else {
            old(self).spec_collected()
        };
        let mut evs: Vec<Event> = Vec::new();
        match r {
            Ok(items) => {
                let ghost pre = self.collected.deep_view();
                let ghost got = items.deep_view();
                let n = items.len();
                let mut k: usize = 0;
                proof {
                    assert(got.take(0) =~= Seq::<AchievementModel>::empty());
                }
                while k < n
                    invariant
                        0 <= k <= n,
                        n == items.len(),
                        got == items.deep_view(),
                        self.collected.deep_view() == merge_page(pre, got.take(k as int)),
                        self.phase == old(self).phase,
                        self.page == old(self).page,
                        self.all_achievement_ids == old(self).all_achievement_ids,
                    decreases n - k,
                {
                    let ghost c0 = self.collected.deep_view();
                    proof {
                        lemma_merge_page_snoc(pre, got.take(k as int), got[k as int]);
                        assert(got.take(k + 1) =~= got.take(k as int).push(got[k as int]));
                    }
                    if !contains_ach_id(&self.collected, items[k].id) {
                        let a = items[k].duplicate();
                        self.collected.push(a);
                        proof {
                            assert(self.collected.deep_view() =~= c0.push(got[k as int]));
                        }
                    }
                    k += 1;
                }
                proof {
                    assert(got.take(n as int) =~= got);
                }
                let len0 = self.all_achievement_ids.len();
                let total = len0 / 100 + (if len0 % 100 == 0 {
                    0
                } else {
                    1
                });
                proof {
                    assert(self.page * 100 < len0);
                    assert(total == spec_pages(len0 as int)) by {
                        let q = len0 as int / 100;
                        let rm = len0 as int % 100;
                        assert(len0 as int == 100 * q + rm);
                        assert((len0 as int + 99) / 100 == q + (rm + 99) / 100) by (nonlinear_arith)
                            requires
                                len0 as int == 100 * q + rm,
                                0 <= rm < 100,
                        ;
                    }
                }
                evs.push(Event::StatusMessage(progress_message(self.page, total)));
            },
            Err(e) => {},
        }
        proof {
            assert(self.collected.deep_view() == merged);
        }
        let len1 = self.all_achievement_ids.len();
        assert(self.page * 100 < len1);
        let start1 = self.page * 100;
        if len1 - start1 > 100 {
            assert((self.page + 1) * 100 < len1);
            self.page = self.page + 1;
        } else {
            assert(!((old(self).spec_page_index() + 1) * 100 < old(self).spec_ids().len()));
            self.phase = FetchPhase::Dailies;
            let n2 = self.collected.len();
            let mut done: Vec<Achievement> = Vec::new();
            let mut m: usize = 0;
            while m < n2
                invariant
                    0 <= m <= n2,
                    n2 == self.collected.len(),
                    done@.len() == m,
                    forall|i: int|
                        0 <= i < m ==> done@[i].deep_view() == self.collected.deep_view()[i],
                decreases n2 - m,
            {
                let a = self.collected[m].duplicate();
                done.push(a);
                m += 1;
            }
            proof {
                assert(done.deep_view() =~= self.collected.deep_view());
            }
            self.collected = Vec::new();
            evs.push(Event::AchievementsLoaded(done));
            evs.push(Event::StatusMessage(done_message()));
            proof {
                assert(self.collected.deep_view() =~= Seq::<AchievementModel>::empty());
            }
        }
        evs
    }

    /// Fold in the daily outcome and move to the steady phase; a failure is
    /// skipped.
    pub fn apply_dailies(&mut self, r: Option<Dailies>) -> (evs: Vec<Event>)
        requires
            old(self).spec_phase() == FetchPhase::Dailies,
            old(self).wf(),
        ensures
            final(self).wf(),
            final(self).spec_phase() == FetchPhase::Account,
            final(self).spec_ids() == old(self).spec_ids(),
            r matches Some(d) ==> evs@.len() == 1 && (evs@[0] matches Event::FetchedDailies(x)
                && x == d),
            r is None ==> evs@.len() == 0,
    {
        self.phase = FetchPhase::Account;
        let mut evs: Vec<Event> = Vec::new();
        match r {
            Some(d) => {
                evs.push(Event::FetchedDailies(d));
            },
            None => {},
        }
        evs
    }

    /// Fold in one steady-state account poll; the phase stays put, so the
    /// next scheduled tick asks again.
    pub fn apply_account(&mut self, r: Option<AllAccountAchievements>) -> (evs: Vec<Event>)
        requires
            old(self).spec_phase() == FetchPhase::Account,
            old(self).wf(),
        ensures
            final(self).wf(),
            final(self).spec_phase() == FetchPhase::Account,
            final(self).spec_ids() == old(self).spec_ids(),
            r matches Some(a) ==> evs@.len() == 2 && (evs@[0]
                matches Event::AccountAchievementsLoaded(x) && x == a) && (evs@[1]
                matches Event::StatusMessage(m) && encode_utf8(m@) == lit_bytes(
                "Updated achievement progress"@,
            )),
            r is None ==> evs@.len() == 0,
    {
        let mut evs: Vec<Event> = Vec::new();
        match r {
            Some(a) => {
                evs.push(Event::AccountAchievementsLoaded(a));
                evs.push(Event::StatusMessage(updated_message()));
            },
            None => {},
        }
        evs
    }
}

/// The progress line after finishing page `page` of `total`.
fn progress_message(page: usize, total: usize) -> (r: String)
    requires
        (page as int) * 100 <= u64::MAX,
    ensures
        spec_progress_text(r@, page as int, total as int),
{
    let pct: u64 = if total <= 1 {
        100
    } else {
        (page as u64) * 100 / ((total - 1) as u64)
    };
    assert(pct == spec_percent(page as int, total as int));
    let mut buf: Vec<u8> = Vec::new();
    emit_lit(&mut buf, "Loading achievements... ");
    emit_u64(&mut buf, pct);
    emit_lit(&mut buf, "%");
    proof {
        reveal(lit_bytes);
        reveal_strlit("Loading achievements... ");
        reveal_strlit("%");
        assert(vstd::utf8::is_ascii_chars("Loading achievements... "@));
        assert(vstd::utf8::is_ascii_chars("%"@));
        vstd::utf8::is_ascii_chars_encode_utf8("Loading achievements... "@);
        vstd::utf8::is_ascii_chars_encode_utf8("%"@);
        lemma_dec_digits_props(pct);
        assert(forall|i: int| 0 <= i < buf@.len() ==> buf@[i] < 0x80);
    }
    ascii_to_string(buf)
}

/// The line shown when the sweep completes.
fn done_message() -> (r: String)
    ensures
        encode_utf8(r@) == lit_bytes("Done loading achievements..."@),
{
    let mut buf: Vec<u8> = Vec::new();
    emit_lit(&mut buf, "Done loading achievements...");
    proof {
        reveal(lit_bytes);
        reveal_strlit("Done loading achievements...");
        assert(vstd::utf8::is_ascii_chars("Done loading achievements..."@));
        vstd::utf8::is_ascii_chars_encode_utf8("Done loading achievements..."@);
        assert(forall|i: int| 0 <= i < buf@.len() ==> buf@[i] < 0x80);
    }
    ascii_to_string(buf)
}

/// The line shown after each successful account poll.
fn updated_message() -> (r: String)
    ensures
        encode_utf8(r@) == lit_bytes("Updated achievement progress"@),
{
    let mut buf: Vec<u8> = Vec::new();
    emit_lit(&mut buf, "Updated achievement progress");
    proof {
        reveal(lit_bytes);
        reveal_strlit("Updated achievement progress");
        assert(vstd::utf8::is_ascii_chars("Updated achievement progress"@));
        vstd::utf8::is_ascii_chars_encode_utf8("Updated achievement progress"@);
        assert(forall|i: int| 0 <= i < buf@.len() ==> buf@[i] < 0x80);
    }
    ascii_to_string(buf)
}

} // verus!
