//! The data each view holds; drawing happens outside.

use vstd::prelude::*;

use crate::api::Achievement;
use crate::api::Dailies;

verus! {

/// The daily tab: the loaded catalog details and today's sets.
pub struct DailiesView {
    achievements: Vec<Achievement>,
    dailies: Option<Dailies>,
    header_style: tui::style::Style,
}

impl DailiesView {
    pub closed spec fn spec_achievements(&self) -> Seq<crate::api::AchievementModel> {
        self.achievements.deep_view()
    }

    pub closed spec fn spec_dailies(&self) -> Option<crate::api::DailiesModel> {
        self.dailies.deep_view()
    }

    pub fn new() -> (r: DailiesView)
        ensures
            r.spec_achievements() == Seq::<crate::api::AchievementModel>::empty(),
            r.spec_dailies() is None,
    {
        let r = DailiesView {
            achievements: Vec::new(),
            dailies: None,
            header_style: crate::ext::bold_style(),
        };
        proof {
            assert(r.spec_achievements() =~= Seq::<crate::api::AchievementModel>::empty());
        }
        r
    }

    pub fn set_dailies(&mut self, d: Dailies)
        ensures
            final(self).spec_dailies() == Some(d.deep_view()),
            final(self).spec_achievements() == old(self).spec_achievements(),
    {
        self.dailies = Some(d);
    }

    pub fn set_achievements(&mut self, a: Vec<Achievement>)
        ensures
            final(self).spec_achievements() == a.deep_view(),
            final(self).spec_dailies() == old(self).spec_dailies(),
    {
        self.achievements = a;
    }
}

/// The timer tab: fixed column widths for the schedule table.
pub struct TimerView {
    pub heading_width: u16,
    pub event_width: u16,
}

impl TimerView {
    pub fn new() -> (r: TimerView)
        ensures
            r.heading_width == 19,
            r.event_width == 40,
    {
        TimerView { heading_width: 19, event_width: 40 }
    }
}

/// The detail table of one achievement; holds no state of its own.
pub struct AchievementInfo;

/// The tier progress gauges of one achievement; holds no state of its own.
pub struct AchievementProgressInfo;

} // verus!
