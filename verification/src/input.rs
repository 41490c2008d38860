//! The decoded meaning of a key press, independent of the key that carried
//! it.

use vstd::prelude::*;

verus! {

#[derive(Clone, Copy, Debug, PartialEq, Eq)]
pub enum InputKind {
    MoveLeft(u16),
    MoveRight(u16),
    MoveUp(u16),
    MoveDown(u16),
    Top,
    Bottom,
    Confirm,
    Select,
    Back,
    Quit,
    New,
    Search,
    SwitchTab(usize),
    Unhandled,
}

} // verus!
