//! Cursor movement over a list of a known size.

use vstd::prelude::*;

use crate::events::CursorMovement;

verus! {

/// What a list cursor becomes after a movement: `None` on an empty list,
/// otherwise stepped and clamped into the list.
pub open spec fn spec_next_selection(
    selected: Option<usize>,
    total_items: usize,
    movement: CursorMovement,
) -> Option<usize> {
    if total_items == 0 {
        None
    } else {
        let cur = match selected {
            Some(s) => s as int,
            None => 0,
        };
        let stepped = match movement {
            CursorMovement::Up(n) => if cur > n {
                cur - n
            } else {
                0
            },
            CursorMovement::Down(n) => cur + n,
            _ => cur,
        };
        if stepped <= total_items - 1 {
            Some(stepped as usize)
        } else {
            Some((total_items - 1) as usize)
        }
    }
}

/// Step a selection and clamp it to the list.
pub fn next_selection(selected: Option<usize>, total_items: usize, movement: CursorMovement) -> (r:
    Option<usize>)
    ensures
        r == spec_next_selection(selected, total_items, movement),
{
    if total_items == 0 {
        return None;
    }
    let cur: usize = match selected {
        Some(s) => s,
        None => 0,
    };
    let stepped: usize = match movement {
        CursorMovement::Up(n) => {
            if cur > n as usize {
                cur - n as usize
            } else {
                0
            }
        },
        CursorMovement::Down(n) => {
            if cur <= usize::MAX - n as usize {
                cur + n as usize
            } else {
                usize::MAX
            }
        },
        _ => cur,
    };
    if stepped <= total_items - 1 {
        Some(stepped)
    } else {
        Some(total_items - 1)
    }
}

/// A widget whose cursor can be stepped over its items.
pub trait ListSelection {
    fn move_cursor(&mut self, total_items: usize, movement: CursorMovement);
}

} // verus!
