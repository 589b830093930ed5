//! The flow model: a flow is an app id and a list of commands; commands
//! address elements through selectors.

use vstd::prelude::*;
use crate::text::{chars_of, slice_chars, string_of};

verus! {

/// The view of an optional string.
pub open spec fn opt_text(o: Option<String>) -> Option<Seq<char>> {
    match o {
        Some(s) => Some(s@),
        None => None,
    }
}

/// Finds an element by its text (exact, or a regular expression when written
/// between slashes) or by the suffix of its resource id; `index` picks the
/// n-th match.
#[derive(Debug, Clone)]
pub struct Selector {
    pub text: Option<String>,
    pub id: Option<String>,
    pub index: u32,
}

pub struct SelectorView {
    pub text: Option<Seq<char>>,
    pub id: Option<Seq<char>>,
    pub index: u32,
}

impl View for Selector {
    type V = SelectorView;

    open spec fn view(&self) -> SelectorView {
        SelectorView { text: opt_text(self.text), id: opt_text(self.id), index: self.index }
    }
}

#[derive(Debug, Clone, Copy, PartialEq, Eq, Structural)]
pub enum Direction {
    Up,
    Down,
    Left,
    Right,
}

/// The commands a flow is made of.
#[derive(Debug, Clone)]
pub enum Command {
    LaunchApp { app_id: Option<String>, clear_state: bool },
    TapOn { selector: Selector },
    InputText { text: String },
    AssertVisible { selector: Selector, timeout_ms: u64 },
    AssertNotVisible { selector: Selector, timeout_ms: u64 },
    ScrollUntilVisible { selector: Selector, max_swipes: u32 },
    Back,
    WaitForAnimationToEnd { timeout_ms: u64 },
    Swipe { direction: Direction },
    TakeScreenshot { name: String },
    HideKeyboard,
}

pub enum CommandView {
    LaunchApp { app_id: Option<Seq<char>>, clear_state: bool },
    TapOn { selector: SelectorView },
    InputText { text: Seq<char> },
    AssertVisible { selector: SelectorView, timeout_ms: u64 },
    AssertNotVisible { selector: SelectorView, timeout_ms: u64 },
    ScrollUntilVisible { selector: SelectorView, max_swipes: u32 },
    Back,
    WaitForAnimationToEnd { timeout_ms: u64 },
    Swipe { direction: Direction },
    TakeScreenshot { name: Seq<char> },
    HideKeyboard,
}

impl View for Command {
    type V = CommandView;

    open spec fn view(&self) -> CommandView {
        match self {
            Command::LaunchApp { app_id, clear_state } => CommandView::LaunchApp {
                app_id: opt_text(*app_id),
                clear_state: *clear_state,
            },
            Command::TapOn { selector } => CommandView::TapOn { selector: selector@ },
            Command::InputText { text } => CommandView::InputText { text: text@ },
            Command::AssertVisible { selector, timeout_ms } => CommandView::AssertVisible {
                selector: selector@,
                timeout_ms: *timeout_ms,
            },
            Command::AssertNotVisible { selector, timeout_ms } => CommandView::AssertNotVisible {
                selector: selector@,
                timeout_ms: *timeout_ms,
            },
            Command::ScrollUntilVisible { selector, max_swipes } =>
                CommandView::ScrollUntilVisible { selector: selector@, max_swipes: *max_swipes },
            Command::Back => CommandView::Back,
            Command::WaitForAnimationToEnd { timeout_ms } => CommandView::WaitForAnimationToEnd {
                timeout_ms: *timeout_ms,
            },
            Command::Swipe { direction } => CommandView::Swipe { direction: *direction },
            Command::TakeScreenshot { name } => CommandView::TakeScreenshot { name: name@ },
            Command::HideKeyboard => CommandView::HideKeyboard,
        }
    }
}

/// A parsed flow: the app under test and the commands to run on it.
#[derive(Debug, Clone)]
pub struct Flow {
    pub app_id: String,
    pub commands: Vec<Command>,
}

pub struct FlowView {
    pub app_id: Seq<char>,
    pub commands: Seq<CommandView>,
}

impl View for Flow {
    type V = FlowView;

    open spec fn view(&self) -> FlowView {
        FlowView { app_id: self.app_id@, commands: self.commands@.map_values(|c: Command| c@) }
    }
}

/// The timeout, in milliseconds, of an assertion that sets none.
pub const DEFAULT_TIMEOUT_MS: u64 = 10_000;

/// The number of swipes a scroll makes at most when it sets none.
pub const DEFAULT_MAX_SWIPES: u32 = 20;

pub fn default_timeout() -> (r: u64)
    ensures
        r == DEFAULT_TIMEOUT_MS,
{
    DEFAULT_TIMEOUT_MS
}

pub fn default_max_swipes() -> (r: u32)
    ensures
        r == DEFAULT_MAX_SWIPES,
{
    DEFAULT_MAX_SWIPES
}

/// A selector text is a regular expression when it starts and ends with `/`.
pub open spec fn is_regex_text(t: Seq<char>) -> bool {
    t.len() > 0 && t[0] == '/' && t.last() == '/'
}

/// The text a selector matches: the expression between the slashes for a
/// regular expression, the text itself otherwise.
pub open spec fn pattern_of(t: Seq<char>) -> Seq<char> {
    if is_regex_text(t) {
        t.subrange(1, t.len() - 1)
    } else {
        t
    }
}

/// A copy of an optional string.
pub fn copy_text(o: &Option<String>) -> (r: Option<String>)
    ensures
        opt_text(r) == opt_text(*o),
{
    match o {
        Some(t) => Some(t.clone()),
        None => None,
    }
}

impl Selector {
    /// A copy of the selector.
    pub fn copy(&self) -> (r: Selector)
        ensures
            r@ == self@,
    {
        Selector { text: copy_text(&self.text), id: copy_text(&self.id), index: self.index }
    }

    pub fn is_regex(&self) -> (r: bool)
        ensures
            r == (self@.text matches Some(t) && is_regex_text(t)),
    {
        match &self.text {
            Some(t) => {
                let cs = chars_of(t.as_str());
                cs.len() > 0 && cs[0] == '/' && cs[cs.len() - 1] == '/'
            },
            None => false,
        }
    }

    /// The pattern of the text selector. A text of a single `/` is left
    /// out: it reads as a regular expression whose slashes overlap.
    pub fn text_pattern(&self) -> (r: Option<String>)
        requires
            self@.text != Some(seq!['/']),
        ensures
            match self@.text {
                Some(t) => r matches Some(p) && p@ == pattern_of(t),
                None => r is None,
            },
    {
        match &self.text {
            Some(t) => {
                let cs = chars_of(t.as_str());
                if self.is_regex() {
                    assert(cs@.len() >= 2) by {
                        if cs@.len() == 1 {
                            assert(cs@ =~= seq!['/']);
                        }
                    }
                    let inner = slice_chars(&cs, 1, cs.len() - 1);
                    Some(string_of(&inner))
                } else {
                    Some(string_of(&cs))
                }
            },
            None => None,
        }
    }
}

} // verus!
