//! Bookmarks the user saves: named links, keyed by name.

use vstd::prelude::*;

verus! {

#[derive(Clone, Copy, Debug, PartialEq, Eq)]
pub enum BookmarkKind {
    Waypoint,
}

#[derive(Debug)]
pub struct Bookmark {
    pub kind: BookmarkKind,
    pub name: String,
    pub link: String,
}

pub struct BookmarkModel {
    pub kind: BookmarkKind,
    pub name: Seq<char>,
    pub link: Seq<char>,
}

impl DeepView for Bookmark {
    type V = BookmarkModel;

    open spec fn deep_view(&self) -> BookmarkModel {
        BookmarkModel { kind: self.kind, name: self.name@, link: self.link@ }
    }
}

impl Bookmark {
    pub fn duplicate(&self) -> (r: Bookmark)
        ensures
            r.deep_view() == self.deep_view(),
    {
        Bookmark { kind: self.kind, name: self.name.clone(), link: self.link.clone() }
    }
}

/// Whether the sequence holds a bookmark of this name: a bookmark's
/// identity is its name alone.
pub open spec fn spec_has_bookmark(s: Seq<BookmarkModel>, name: Seq<char>) -> bool {
    exists|i: int| 0 <= i < s.len() && (#[trigger] s[i]).name == name
}

/// The saved bookmarks; names are unique.
#[derive(Debug)]
pub struct Bookmarks(Vec<Bookmark>);

impl DeepView for Bookmarks {
    type V = Seq<BookmarkModel>;

    closed spec fn deep_view(&self) -> Seq<BookmarkModel> {
        self.0.deep_view()
    }
}

impl Bookmarks {
    pub open spec fn wf(&self) -> bool {
        forall|i: int, j: int|
            0 <= i < j < self.deep_view().len() ==> (#[trigger] self.deep_view()[i]).name != (
            #[trigger] self.deep_view()[j]).name
    }

    pub fn new() -> (r: Bookmarks)
        ensures
            r.deep_view() == Seq::<BookmarkModel>::empty(),
            r.wf(),
    {
        let r = Bookmarks(Vec::new());
        proof {
            assert(r.deep_view() =~= Seq::<BookmarkModel>::empty());
        }
        r
    }

    pub fn items(&self) -> (r: &Vec<Bookmark>)
        ensures
            r.deep_view() == self.deep_view(),
    {
        &self.0
    }

    pub fn contains_name(&self, name: &String) -> (r: bool)
        ensures
            r == spec_has_bookmark(self.deep_view(), name@),
    {
        let n = self.0.len();
        let ghost dv = self.deep_view();
        let mut k: usize = 0;
        while k < n
            invariant
                0 <= k <= n,
                n == dv.len() == self.0.len(),
                dv == self.deep_view(),
                forall|i: int| 0 <= i < k ==> (#[trigger] dv[i]).name != name@,
            decreases n - k,
        {
            if self.0[k].name == *name {
                assert(dv[k as int].name == name@);
                return true;
            }
            k += 1;
        }
        false
    }

    /// Add the bookmark unless one of the same name exists; reports whether
    /// the set changed.
    pub fn insert(&mut self, b: Bookmark) -> (r: bool)
        requires
            old(self).wf(),
        ensures
            final(self).wf(),
            r == !spec_has_bookmark(old(self).deep_view(), b.deep_view().name),
            r ==> final(self).deep_view() == old(self).deep_view().push(b.deep_view()),
            !r ==> final(self).deep_view() == old(self).deep_view(),
            spec_has_bookmark(final(self).deep_view(), b.deep_view().name),
    {
        if self.contains_name(&b.name) {
            return false;
        }
        let ghost pre = self.deep_view();
        let ghost bm = b.deep_view();
        self.0.push(b);
        proof {
            assert(self.deep_view() =~= pre.push(bm));
            assert(self.deep_view()[pre.len() as int].name == bm.name);
        }
        true
    }

    /// Remove the bookmark of this name, if saved; reports whether the set
    /// changed.
    #[verifier::loop_isolation(false)]
    pub fn remove(&mut self, b: &Bookmark) -> (r: bool)
        requires
            old(self).wf(),
        ensures
            final(self).wf(),
            r == spec_has_bookmark(old(self).deep_view(), b.deep_view().name),
            !spec_has_bookmark(final(self).deep_view(), b.deep_view().name),
            forall|name: Seq<char>|
                name != b.deep_view().name ==> (spec_has_bookmark(final(self).deep_view(), name)
                    == spec_has_bookmark(old(self).deep_view(), name)),
    {
        let ghost dv = self.deep_view();
        let ghost nm = b.deep_view().name;
        let n = self.0.len();
        let mut k: usize = 0;
        while k < n
            invariant
                0 <= k <= n,
                forall|i: int| 0 <= i < k ==> (#[trigger] dv[i]).name != nm,
                self == old(self),
            decreases n - k,
        {
            if self.0[k].name == b.name {
                let ghost removed = dv.remove(k as int);
                self.0.remove(k);
                proof {
                    assert(self.deep_view() =~= removed);
                    assert(dv[k as int].name == nm);
                    assert(spec_has_bookmark(dv, nm));
                    assert forall|name: Seq<char>| name != nm implies (spec_has_bookmark(
                        self.deep_view(),
                        name,
                    ) == spec_has_bookmark(dv, name)) by {
                        if spec_has_bookmark(dv, name) {
                            let i = choose|i: int| 0 <= i < dv.len() && (#[trigger] dv[i]).name
                                == name;
                            if i < k {
                                assert(removed[i].name == name);
                            } else {
                                assert(removed[i - 1].name == name);
                            }
                        }
                        if spec_has_bookmark(removed, name) {
                            let i = choose|i: int|
                                0 <= i < removed.len() && (#[trigger] removed[i]).name == name;
                            if i < k {
                                assert(dv[i].name == name);
                            } else {
                                assert(dv[i + 1].name == name);
                            }
                        }
                    }
                    assert(!spec_has_bookmark(self.deep_view(), nm)) by {
                        if spec_has_bookmark(removed, nm) {
                            let i = choose|i: int|
                                0 <= i < removed.len() && (#[trigger] removed[i]).name == nm;
                            if i < k {
                                assert(dv[i].name == nm);
                            } else {
                                assert(dv[i + 1].name == nm);
                            }
                        }
                    }
                }
                return true;
            }
            k += 1;
        }
        false
    }
}

} // verus!
