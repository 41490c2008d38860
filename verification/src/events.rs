//! The events the background fetch loop publishes for the interface, and the
//! cursor movements the widgets consume.

use vstd::prelude::*;

use crate::api::Achievement;
use crate::api::AllAccountAchievements;
use crate::api::Dailies;
use crate::bookmarks::Bookmark;
use crate::tracks::Track;

verus! {

/// What the fetch loop tells the rest of the program.
pub enum Event {
    Quit,
    AddTrack(Track),
    AddBookmark(Bookmark),
    ToggleTrack(Track),
    AccountAchievementsLoaded(AllAccountAchievements),
    AchievementsLoaded(Vec<Achievement>),
    FetchedDailies(Dailies),
    StatusMessage(String),
}

/// A cursor step in a list or a text box.
#[derive(Clone, Copy, Debug, PartialEq, Eq)]
pub enum CursorMovement {
    Left(u16),
    Right(u16),
    Up(u16),
    Down(u16),
    Stay,
}

} // verus!
