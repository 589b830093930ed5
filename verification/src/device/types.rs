//! Selectors and swipe directions of the device interface.

use vstd::prelude::*;
use crate::model::opt_text;
use crate::text::string_from;

verus! {

/// Finds an element by its text (exact, or a regular expression between
/// slashes) or by the suffix of its resource id; `index` picks the n-th
/// match.
#[derive(Debug, Clone)]
pub struct Selector {
    pub text: Option<String>,
    pub id: Option<String>,
    pub index: u32,
}

pub struct DeviceSelectorView {
    pub text: Option<Seq<char>>,
    pub id: Option<Seq<char>>,
    pub index: u32,
}

impl View for Selector {
    type V = DeviceSelectorView;

    open spec fn view(&self) -> DeviceSelectorView {
        DeviceSelectorView { text: opt_text(self.text), id: opt_text(self.id), index: self.index }
    }
}

impl Selector {
    /// Selects by text.
    pub fn text(t: &str) -> (r: Self)
        ensures
            r@ == (DeviceSelectorView { text: Some(t@), id: None, index: 0 }),
    {
        Selector { text: Some(string_from(t)), id: None, index: 0 }
    }

    /// Selects by resource id.
    pub fn id(id: &str) -> (r: Self)
        ensures
            r@ == (DeviceSelectorView { text: None, id: Some(id@), index: 0 }),
    {
        Selector { text: None, id: Some(string_from(id)), index: 0 }
    }

    /// Picks the `i`-th match (from 0).
    pub fn index(self, i: u32) -> (r: Self)
        ensures
            r@ == (DeviceSelectorView { index: i, ..self@ }),
    {
        Selector { text: self.text, id: self.id, index: i }
    }
}

#[derive(Debug, Clone, Copy, PartialEq, Eq, Structural)]
pub enum Direction {
    Up,
    Down,
    Left,
    Right,
}

} // verus!
