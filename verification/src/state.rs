//! The user's durable application state: tracked items and bookmarks, with
//! a dirty marker so the surrounding program knows when to write it out.

use vstd::prelude::*;

use crate::bookmarks::Bookmark;
use crate::bookmarks::BookmarkModel;
use crate::bookmarks::Bookmarks;
use crate::bookmarks::spec_has_bookmark;
use crate::tracks::Track;
use crate::tracks::TrackModel;
use crate::tracks::Tracks;
use crate::tracks::spec_has_track;

verus! {

pub struct AppState {
    tracks: Tracks,
    bookmarks: Bookmarks,
    invalidated: bool,
}

impl AppState {
    pub closed spec fn spec_tracks(&self) -> Seq<TrackModel> {
        self.tracks.deep_view()
    }

    pub closed spec fn spec_bookmarks(&self) -> Seq<BookmarkModel> {
        self.bookmarks.deep_view()
    }

    pub closed spec fn spec_invalidated(&self) -> bool {
        self.invalidated
    }

    pub closed spec fn wf(&self) -> bool {
        self.tracks.wf() && self.bookmarks.wf()
    }

    pub fn new() -> (r: AppState)
        ensures
            r.spec_tracks() == Seq::<TrackModel>::empty(),
            r.spec_bookmarks() == Seq::<BookmarkModel>::empty(),
            !r.spec_invalidated(),
            r.wf(),
    {
        AppState { tracks: Tracks::new(), bookmarks: Bookmarks::new(), invalidated: false }
    }

    /// Rebuild state from what the state file held.
    pub fn from_parts(tracks: Tracks, bookmarks: Bookmarks) -> (r: AppState)
        requires
            tracks.wf(),
            bookmarks.wf(),
        ensures
            r.spec_tracks() == tracks.deep_view(),
            r.spec_bookmarks() == bookmarks.deep_view(),
            !r.spec_invalidated(),
            r.wf(),
    {
        AppState { tracks, bookmarks, invalidated: false }
    }

    /// Save a bookmark; an already-saved name leaves the state untouched.
    pub fn add_bookmark(&mut self, bookmark: Bookmark)
        requires
            old(self).wf(),
        ensures
            final(self).wf(),
            spec_has_bookmark(final(self).spec_bookmarks(), bookmark.deep_view().name),
            !spec_has_bookmark(old(self).spec_bookmarks(), bookmark.deep_view().name)
                ==> final(self).spec_bookmarks() == old(self).spec_bookmarks().push(
                bookmark.deep_view(),
            ) && final(self).spec_invalidated(),
            spec_has_bookmark(old(self).spec_bookmarks(), bookmark.deep_view().name)
                ==> final(self).spec_bookmarks() == old(self).spec_bookmarks()
                && final(self).spec_invalidated() == old(self).spec_invalidated(),
            final(self).spec_tracks() == old(self).spec_tracks(),
    {
        if self.bookmarks.insert(bookmark) {
            self.invalidated = true;
        }
    }

    /// Forget the bookmark of this name, if saved.
    pub fn remove_bookmark(&mut self, bookmark: Bookmark)
        requires
            old(self).wf(),
        ensures
            final(self).wf(),
            !spec_has_bookmark(final(self).spec_bookmarks(), bookmark.deep_view().name),
            forall|name: Seq<char>|
                name != bookmark.deep_view().name ==> (spec_has_bookmark(
                    final(self).spec_bookmarks(),
                    name,
                ) == spec_has_bookmark(old(self).spec_bookmarks(), name)),
            spec_has_bookmark(old(self).spec_bookmarks(), bookmark.deep_view().name)
                ==> final(self).spec_invalidated(),
            final(self).spec_tracks() == old(self).spec_tracks(),
    {
        if self.bookmarks.remove(&bookmark) {
            self.invalidated = true;
        }
    }

    /// The saved bookmarks, as owned copies.
    pub fn bookmarks(&self) -> (r: Vec<Bookmark>)
        ensures
            r.deep_view() == self.spec_bookmarks(),
    {
        let src = self.bookmarks.items();
        let n = src.len();
        let mut r: Vec<Bookmark> = Vec::new();
        let mut k: usize = 0;
        while k < n
            invariant
                0 <= k <= n,
                n == src.len() == src.deep_view().len(),
                src.deep_view() == self.spec_bookmarks(),
                r@.len() == k,
                forall|i: int| 0 <= i < k ==> r@[i].deep_view() == src.deep_view()[i],
            decreases n - k,
        {
            let b = src[k].duplicate();
            r.push(b);
            k += 1;
        }
        proof {
            assert(r.deep_view() =~= self.spec_bookmarks());
        }
        r
    }

    /// Track the item if untracked, untrack it if tracked; either way the
    /// state is marked for writing.
    pub fn toggle_track(&mut self, track: &Track)
        requires
            old(self).wf(),
        ensures
            final(self).wf(),
            spec_has_track(final(self).spec_tracks(), track.deep_view())
                == !spec_has_track(old(self).spec_tracks(), track.deep_view()),
            forall|m: TrackModel|
                m != track.deep_view() ==> (spec_has_track(final(self).spec_tracks(), m)
                    == spec_has_track(old(self).spec_tracks(), m)),
            final(self).spec_invalidated(),
            final(self).spec_bookmarks() == old(self).spec_bookmarks(),
    {
        if !self.tracks.remove(track) {
            let ghost pre = self.tracks.deep_view();
            let t = track.duplicate();
            let ghost tm = t.deep_view();
            let _ = self.tracks.insert(t);
            proof {
                assert forall|m: TrackModel|
                    m != track.deep_view() implies (spec_has_track(self.tracks.deep_view(), m)
                    == spec_has_track(pre, m)) by {
                    if self.tracks.deep_view() == pre.push(tm) {
                        if spec_has_track(pre.push(tm), m) {
                            let i = choose|i: int|
                                0 <= i < pre.push(tm).len() && pre.push(tm)[i] == m;
                            if i < pre.len() {
                                assert(pre[i] == m);
                            }
                        }
                        if spec_has_track(pre, m) {
                            let i = choose|i: int| 0 <= i < pre.len() && pre[i] == m;
                            assert(pre.push(tm)[i] == m);
                        }
                    }
                }
            }
        }
        self.invalidated = true;
    }

    /// The tracked items, as owned copies.
    pub fn tracked_items(&self) -> (r: Vec<Track>)
        ensures
            r.deep_view() == self.spec_tracks(),
    {
        let src = self.tracks.items();
        let n = src.len();
        let mut r: Vec<Track> = Vec::new();
        let mut k: usize = 0;
        while k < n
            invariant
                0 <= k <= n,
                n == src.len() == src.deep_view().len(),
                src.deep_view() == self.spec_tracks(),
                r@.len() == k,
                forall|i: int| 0 <= i < k ==> r@[i].deep_view() == src.deep_view()[i],
            decreases n - k,
        {
            let t = src[k].duplicate();
            r.push(t);
            k += 1;
        }
        proof {
            assert(r.deep_view() =~= self.spec_tracks());
        }
        r
    }

    pub fn is_tracked(&self, track: &Track) -> (r: bool)
        ensures
            r == spec_has_track(self.spec_tracks(), track.deep_view()),
    {
        self.tracks.contains(track)
    }

    /// Whether the state must be written out, clearing the marker: the
    /// caller owns the write.
    pub fn take_invalidated(&mut self) -> (r: bool)
        ensures
            r == old(self).spec_invalidated(),
            !final(self).spec_invalidated(),
            final(self).spec_tracks() == old(self).spec_tracks(),
            final(self).spec_bookmarks() == old(self).spec_bookmarks(),
            final(self).wf() == old(self).wf(),
    {
        let r = self.invalidated;
        self.invalidated = false;
        r
    }
}

} // verus!
