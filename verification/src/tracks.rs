//! Tracked items: achievements or free-text goals the user follows. A set
//! keyed by the whole value.

use vstd::prelude::*;

verus! {

#[derive(Debug)]
pub enum Track {
    Achievement(usize),
    Custom(String),
}

pub enum TrackModel {
    Achievement(usize),
    Custom(Seq<char>),
}

impl DeepView for Track {
    type V = TrackModel;

    open spec fn deep_view(&self) -> TrackModel {
        match self {
            Track::Achievement(id) => TrackModel::Achievement(*id),
            Track::Custom(s) => TrackModel::Custom(s@),
        }
    }
}

impl Track {
    pub fn duplicate(&self) -> (r: Track)
        ensures
            r.deep_view() == self.deep_view(),
    {
        match self {
            Track::Achievement(id) => Track::Achievement(*id),
            Track::Custom(s) => Track::Custom(s.clone()),
        }
    }

    /// Two tracks are the same item when they are the same variant with the
    /// same content.
    pub fn same(&self, other: &Track) -> (r: bool)
        ensures
            r == (self.deep_view() == other.deep_view()),
    {
        match self {
            Track::Achievement(a) => match other {
                Track::Achievement(b) => {
                    let r = *a == *b;
                    proof {
                        assert(self.deep_view() == TrackModel::Achievement(*a));
                        assert(other.deep_view() == TrackModel::Achievement(*b));
                        if *a == *b {
                            assert(self.deep_view() == other.deep_view());
                        } else {
                            assert(self.deep_view() != other.deep_view());
                        }
                    }
                    r
                },
                Track::Custom(_) => {
                    assert(self.deep_view() is Achievement);
                    assert(other.deep_view() is Custom);
                    false
                },
            },
            Track::Custom(sa) => match other {
                Track::Custom(sb) => {
                    let r = sa.eq(sb);
                    proof {
                        assert(self.deep_view() == TrackModel::Custom(sa@));
                        assert(other.deep_view() == TrackModel::Custom(sb@));
                        if sa@ == sb@ {
                            assert(self.deep_view() == other.deep_view());
                        } else {
                            assert(self.deep_view() != other.deep_view());
                        }
                    }
                    r
                },
                Track::Achievement(_) => {
                    assert(self.deep_view() is Custom);
                    assert(other.deep_view() is Achievement);
                    false
                },
            },
        }
    }
}

/// Whether the sequence holds the item.
pub open spec fn spec_has_track(s: Seq<TrackModel>, t: TrackModel) -> bool {
    exists|i: int| 0 <= i < s.len() && s[i] == t
}

/// The set of items currently tracked; each item appears once.
#[derive(Debug)]
pub struct Tracks(Vec<Track>);

impl DeepView for Tracks {
    type V = Seq<TrackModel>;

    closed spec fn deep_view(&self) -> Seq<TrackModel> {
        self.0.deep_view()
    }
}

impl Tracks {
    pub open spec fn wf(&self) -> bool {
        forall|i: int, j: int|
            0 <= i < j < self.deep_view().len() ==> self.deep_view()[i] != self.deep_view()[j]
    }

    pub fn new() -> (r: Tracks)
        ensures
            r.deep_view() == Seq::<TrackModel>::empty(),
            r.wf(),
    {
        let r = Tracks(Vec::new());
        proof {
            assert(r.deep_view() =~= Seq::<TrackModel>::empty());
        }
        r
    }

    pub fn items(&self) -> (r: &Vec<Track>)
        ensures
            r.deep_view() == self.deep_view(),
    {
        &self.0
    }

    pub fn contains(&self, t: &Track) -> (r: bool)
        ensures
            r == spec_has_track(self.deep_view(), t.deep_view()),
    {
        let n = self.0.len();
        let ghost dv = self.deep_view();
        let mut k: usize = 0;
        while k < n
            invariant
                0 <= k <= n,
                n == dv.len() == self.0.len(),
                dv == self.deep_view(),
                forall|i: int| 0 <= i < k ==> dv[i] != t.deep_view(),
            decreases n - k,
        {
            if self.0[k].same(t) {
                assert(dv[k as int] == t.deep_view());
                return true;
            }
            k += 1;
        }
        false
    }

    /// Add the item unless it is already tracked; reports whether the set
    /// changed.
    pub fn insert(&mut self, t: Track) -> (r: bool)
        requires
            old(self).wf(),
        ensures
            final(self).wf(),
            r == !spec_has_track(old(self).deep_view(), t.deep_view()),
            r ==> final(self).deep_view() == old(self).deep_view().push(t.deep_view()),
            !r ==> final(self).deep_view() == old(self).deep_view(),
            spec_has_track(final(self).deep_view(), t.deep_view()),
    {
        if self.contains(&t) {
            assert(spec_has_track(self.deep_view(), t.deep_view()));
            return false;
        }
        let ghost pre = self.deep_view();
        let ghost tm = t.deep_view();
        self.0.push(t);
        proof {
            assert(self.deep_view() =~= pre.push(tm));
            assert(self.deep_view()[pre.len() as int] == tm);
        }
        true
    }

    /// Remove the item if it is tracked; reports whether the set changed.
    #[verifier::loop_isolation(false)]
    pub fn remove(&mut self, t: &Track) -> (r: bool)
        requires
            old(self).wf(),
        ensures
            final(self).wf(),
            r == spec_has_track(old(self).deep_view(), t.deep_view()),
            !spec_has_track(final(self).deep_view(), t.deep_view()),
            forall|m: TrackModel|
                m != t.deep_view() ==> (spec_has_track(final(self).deep_view(), m)
                    == spec_has_track(old(self).deep_view(), m)),
    {
        let ghost dv = self.deep_view();
        let ghost tm = t.deep_view();
        let n = self.0.len();
        let mut k: usize = 0;
        while k < n
            invariant
                0 <= k <= n,
                forall|i: int| 0 <= i < k ==> dv[i] != tm,
                self == old(self),
            decreases n - k,
        {
            if self.0[k].same(t) {
                let ghost removed = dv.remove(k as int);
                self.0.remove(k);
                proof {
                    assert(self.deep_view() =~= removed);
                    assert(dv[k as int] == tm);
                    assert(spec_has_track(dv, tm));
                    assert forall|m: TrackModel| m != tm implies (spec_has_track(
                        self.deep_view(),
                        m,
                    ) == spec_has_track(dv, m)) by {
                        if spec_has_track(dv, m) {
                            let i = choose|i: int| 0 <= i < dv.len() && dv[i] == m;
                            if i < k {
                                assert(removed[i] == m);
                            } else {
                                assert(removed[i - 1] == m);
                            }
                        }
                        if spec_has_track(removed, m) {
                            let i = choose|i: int| 0 <= i < removed.len() && removed[i] == m;
                            if i < k {
                                assert(dv[i] == m);
                            } else {
                                assert(dv[i + 1] == m);
                            }
                        }
                    }
                    assert(!spec_has_track(self.deep_view(), tm)) by {
                        if spec_has_track(removed, tm) {
                            let i = choose|i: int| 0 <= i < removed.len() && removed[i] == tm;
                            if i < k {
                                assert(dv[i] == tm);
                            } else {
                                assert(dv[i + 1] == tm);
                            }
                        }
                    }
                }
                return true;
            }
            k += 1;
        }
        proof {
            assert(!spec_has_track(dv, tm));
        }
        false
    }
}

} // verus!
