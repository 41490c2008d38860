//! A labelled checkbox: how it looks, and whether it is checked.

use vstd::prelude::*;

verus! {

/// The drawable widget: label, styling, and the marks for either state.
pub struct Checkbox<'a> {
    style: tui::style::Style,
    block: Option<tui::widgets::Block<'a>>,
    content: &'a str,
    unchecked_symbol: Option<&'a str>,
    checked_symbol: Option<&'a str>,
}

impl<'a> Checkbox<'a> {
    pub closed spec fn spec_content(&self) -> Seq<char> {
        self.content@
    }

    pub closed spec fn spec_block(&self) -> Option<tui::widgets::Block<'a>> {
        self.block
    }

    pub closed spec fn spec_style(&self) -> tui::style::Style {
        self.style
    }

    pub closed spec fn spec_checked_symbol(&self) -> Option<Seq<char>> {
        match self.checked_symbol {
            Some(s) => Some(s@),
            None => None,
        }
    }

    pub closed spec fn spec_unchecked_symbol(&self) -> Option<Seq<char>> {
        match self.unchecked_symbol {
            Some(s) => Some(s@),
            None => None,
        }
    }

    pub fn new(content: &'a str) -> (r: Self)
        ensures
            r.spec_content() == content@,
            r.spec_block() is None,
            r.spec_checked_symbol() is None,
            r.spec_unchecked_symbol() is None,
    {
        Checkbox {
            content,
            style: crate::ext::default_style(),
            block: None,
            unchecked_symbol: None,
            checked_symbol: None,
        }
    }

    pub fn block(self, block: tui::widgets::Block<'a>) -> (r: Self)
        ensures
            r.spec_block() == Some(block),
            r.spec_content() == self.spec_content(),
            r.spec_style() == self.spec_style(),
            r.spec_checked_symbol() == self.spec_checked_symbol(),
            r.spec_unchecked_symbol() == self.spec_unchecked_symbol(),
    {
        Checkbox { block: Some(block), ..self }
    }

    pub fn style(self, style: tui::style::Style) -> (r: Self)
        ensures
            r.spec_style() == style,
            r.spec_content() == self.spec_content(),
            r.spec_block() == self.spec_block(),
            r.spec_checked_symbol() == self.spec_checked_symbol(),
            r.spec_unchecked_symbol() == self.spec_unchecked_symbol(),
    {
        Checkbox { style, ..self }
    }

    pub fn checked_symbol(self, symbol: &'a str) -> (r: Self)
        ensures
            r.spec_checked_symbol() == Some(symbol@),
            r.spec_content() == self.spec_content(),
            r.spec_block() == self.spec_block(),
            r.spec_style() == self.spec_style(),
            r.spec_unchecked_symbol() == self.spec_unchecked_symbol(),
    {
        Checkbox { checked_symbol: Some(symbol), ..self }
    }

    pub fn unchecked_symbol(self, symbol: &'a str) -> (r: Self)
        ensures
            r.spec_unchecked_symbol() == Some(symbol@),
            r.spec_content() == self.spec_content(),
            r.spec_block() == self.spec_block(),
            r.spec_style() == self.spec_style(),
            r.spec_checked_symbol() == self.spec_checked_symbol(),
    {
        Checkbox { unchecked_symbol: Some(symbol), ..self }
    }
}

/// Whether the box is ticked.
pub struct CheckboxState {
    checked: bool,
}

impl CheckboxState {
    pub closed spec fn spec_checked(&self) -> bool {
        self.checked
    }

    pub fn new() -> (r: CheckboxState)
        ensures
            !r.spec_checked(),
    {
        CheckboxState { checked: false }
    }

    pub fn checked(&self) -> (r: bool)
        ensures
            r == self.spec_checked(),
    {
        self.checked
    }

    /// Toggles the checkbox and returns the new state.
    pub fn toggle(&mut self) -> (r: bool)
        ensures
            final(self).spec_checked() == !old(self).spec_checked(),
            r == final(self).spec_checked(),
    {
        self.checked = !self.checked;
        self.checked
    }
}

} // verus!
