use orrient::api::Achievement;
use orrient::api::AllAchievementIDs;
use orrient::bookmarks::Bookmark;
use orrient::bookmarks::BookmarkKind;
use orrient::events::CursorMovement;
use orrient::events::Event;
use orrient::fetch::Fetch;
use orrient::fetch::FetchAction;
use orrient::list_selection::next_selection;
use orrient::state::AppState;
use orrient::text_box::TextboxState;
use orrient::checkbox::CheckboxState;
use orrient::tracks::Track;

fn tiny_achievement(id: usize) -> Achievement {
    Achievement {
        id,
        icon: None,
        name: format!("a{}", id),
        description: String::new(),
        requirement: String::new(),
        locked_text: String::new(),
        achievement_type: String::from("Default"),
        flags: vec![],
        tiers: vec![],
        prerequisites: None,
        rewards: None,
        bits: None,
        point_cap: None,
    }
}

#[test]
fn fetch_loop_phases() {
    let mut f = Fetch::new();
    assert!(matches!(f.next_action(), FetchAction::FetchCatalog));
    let ids: Vec<usize> = (0..250).collect();
    let evs = f.apply_catalog(Some(AllAchievementIDs(ids.clone())));
    assert!(evs.is_empty());
    // page 0: the first hundred ids
    match f.next_action() {
        FetchAction::FetchPage(p) => assert_eq!(p, (0..100).collect::<Vec<usize>>()),
        _ => panic!("sweeping"),
    }
    let evs = f.apply_page(Ok(vec![tiny_achievement(1)]));
    assert!(matches!(&evs[0], Event::StatusMessage(s) if s == "Loading achievements... 0%"));
    match f.next_action() {
        FetchAction::FetchPage(p) => assert_eq!(p, (100..200).collect::<Vec<usize>>()),
        _ => panic!("sweeping"),
    }
    let evs = f.apply_page(Ok(vec![tiny_achievement(2)]));
    assert!(matches!(&evs[0], Event::StatusMessage(s) if s == "Loading achievements... 50%"));
    match f.next_action() {
        FetchAction::FetchPage(p) => assert_eq!(p, (200..250).collect::<Vec<usize>>()),
        _ => panic!("sweeping"),
    }
    // a failed page is skipped; the sweep still completes
    let evs = f.apply_page(Err(orrient::client::Error::Json));
    assert_eq!(evs.len(), 2);
    match &evs[0] {
        Event::AchievementsLoaded(all) => {
            assert_eq!(all.len(), 2);
            assert_eq!(all[0].name, "a1");
        },
        _ => panic!("the sweep hands over everything collected"),
    }
    assert!(matches!(&evs[1], Event::StatusMessage(s) if s == "Done loading achievements..."));
    assert!(matches!(f.next_action(), FetchAction::FetchDailies));
    let evs = f.apply_dailies(None);
    assert!(evs.is_empty());
    assert!(matches!(f.next_action(), FetchAction::FetchAccount));
    let evs = f.apply_account(None);
    assert!(evs.is_empty());
    // steady state: the account poll repeats forever
    assert!(matches!(f.next_action(), FetchAction::FetchAccount));
}

#[test]
fn fetch_loop_empty_catalog() {
    let mut f = Fetch::new();
    let evs = f.apply_catalog(None);
    assert_eq!(evs.len(), 2);
    match &evs[0] {
        Event::AchievementsLoaded(all) => assert!(all.is_empty()),
        _ => panic!("an empty sweep completes at once"),
    }
    assert!(matches!(f.next_action(), FetchAction::FetchDailies));
}

#[test]
fn textbox_editing() {
    let mut t = TextboxState::new();
    t.insert_character('h');
    t.insert_character('i');
    assert_eq!(t.content(), "hi");
    assert_eq!(t.cursor_position(), 2);
    t.move_cursor(CursorMovement::Left(1));
    t.insert_character('!');
    assert_eq!(t.content(), "h!i");
    t.move_cursor(CursorMovement::Right(9));
    assert_eq!(t.cursor_position(), 3);
    t.remove_character();
    assert_eq!(t.content(), "h!");
    let taken = t.take();
    assert_eq!(taken, "h!");
    assert_eq!(t.content(), "");
    assert_eq!(t.cursor_position(), 0);
    t.remove_character();
    assert_eq!(t.content(), "");
    t.clear();
    assert_eq!(t.cursor_position(), 0);
}

#[test]
fn textbox_multibyte_editing() {
    // the cursor counts bytes: a two-byte character advances it one step,
    // exactly as the surrounding program indexes the content
    let mut t = TextboxState::new();
    t.insert_character('\u{e9}');
    assert_eq!(t.content(), "\u{e9}");
    assert_eq!(t.cursor_position(), 1);
    // removing demands a character start at the position before the cursor
    t.remove_character();
    assert_eq!(t.content(), "");
    assert_eq!(t.cursor_position(), 0);
    t.insert_character('a');
    t.insert_character('\u{1F600}');
    assert_eq!(t.content(), "a\u{1F600}");
    assert_eq!(t.cursor_position(), 2);
}

#[test]
fn fetch_sweep_dedups_by_id() {
    // two pages carrying the same id: the loaded set holds it once, the
    // first arrival winning, as a set keyed by id collects them
    let mut f = Fetch::new();
    let _ = f.apply_catalog(Some(AllAchievementIDs((0..150).collect())));
    let mut first = tiny_achievement(7);
    first.name = String::from("first");
    let _ = f.apply_page(Ok(vec![first, tiny_achievement(8)]));
    let mut second = tiny_achievement(7);
    second.name = String::from("second");
    let evs = f.apply_page(Ok(vec![second, tiny_achievement(9)]));
    match &evs[1] {
        Event::AchievementsLoaded(all) => {
            let names: Vec<&str> = all.iter().map(|a| a.name.as_str()).collect();
            assert_eq!(names, vec!["first", "a8", "a9"]);
        }
        _ => panic!("the sweep hands over the deduped set"),
    }
}

#[test]
fn checkbox_toggling() {
    let mut c = CheckboxState::new();
    assert!(!c.checked());
    assert!(c.toggle());
    assert!(c.checked());
    assert!(!c.toggle());
    assert!(!c.checked());
}

#[test]
fn list_cursor_movement() {
    assert_eq!(next_selection(Some(3), 0, CursorMovement::Down(1)), None);
    assert_eq!(next_selection(None, 5, CursorMovement::Down(2)), Some(2));
    assert_eq!(next_selection(Some(4), 5, CursorMovement::Down(2)), Some(4));
    assert_eq!(next_selection(Some(3), 5, CursorMovement::Up(1)), Some(2));
    assert_eq!(next_selection(Some(1), 5, CursorMovement::Up(7)), Some(0));
    assert_eq!(next_selection(Some(9), 5, CursorMovement::Stay), Some(4));
}

#[test]
fn app_state_tracks_and_bookmarks() {
    let mut st = AppState::new();
    let track = Track::Achievement(5);
    assert!(!st.is_tracked(&track));
    st.toggle_track(&track);
    assert!(st.is_tracked(&track));
    st.toggle_track(&Track::Custom(String::from("daily crafting")));
    assert_eq!(st.tracked_items().len(), 2);
    st.toggle_track(&track);
    assert!(!st.is_tracked(&track));
    assert_eq!(st.tracked_items().len(), 1);
    assert!(st.take_invalidated());
    assert!(!st.take_invalidated());

    let mark = Bookmark {
        kind: BookmarkKind::Waypoint,
        name: String::from("vista"),
        link: String::from("[&BEgAAAA=]"),
    };
    st.add_bookmark(mark.duplicate());
    // a second bookmark under the same name is not a new entry
    st.add_bookmark(Bookmark { link: String::from("other"), ..mark.duplicate() });
    assert_eq!(st.bookmarks().len(), 1);
    assert!(st.take_invalidated());
    st.remove_bookmark(mark);
    assert!(st.bookmarks().is_empty());
}
