//! The driver seam: a platform driver (UIAutomator, XCUITest, a test
//! double) performs device operations; all timing and retry decisions stay in
//! the engine.

use vstd::prelude::*;
use vstd::string::StringExecFns;
use crate::model::{Direction, Selector, SelectorView};
use crate::text::string_from;
use std::sync::Arc;

verus! {

/// What a driver reports when an operation fails.
#[derive(Debug)]
pub enum DriverError {
    ElementNotFound { reason: String },
    OperationFailed { reason: String },
    Timeout { reason: String },
}

/// The message of a driver error.
pub open spec fn driver_error_text(e: DriverError) -> Seq<char> {
    match e {
        DriverError::ElementNotFound { reason } => "Element not found: "@ + reason@,
        DriverError::OperationFailed { reason } => "Operation failed: "@ + reason@,
        DriverError::Timeout { reason } => "Timeout: "@ + reason@,
    }
}

impl DriverError {
    /// The text shown for this error.
    pub fn message(&self) -> (r: String)
        ensures
            r@ == driver_error_text(*self),
    {
        match self {
            DriverError::ElementNotFound { reason } => {
                let mut s = string_from("Element not found: ");
                s.append(reason.as_str());
                s
            },
            DriverError::OperationFailed { reason } => {
                let mut s = string_from("Operation failed: ");
                s.append(reason.as_str());
                s
            },
            DriverError::Timeout { reason } => {
                let mut s = string_from("Timeout: ");
                s.append(reason.as_str());
                s
            },
        }
    }
}

/// A platform driver. Implementations perform one device operation per
/// call and never wait for elements themselves; the engine owns polling,
/// and reads time through `now_ms` and waits through `sleep_ms`.
pub trait Driver: Send + Sync {
    /// Launches an app by package or bundle id.
    fn launch_app(&self, app_id: String, clear_state: bool) -> Result<(), DriverError>;

    /// Whether an element matching the selector is visible now.
    fn is_visible(&self, selector: Selector) -> Result<bool, DriverError>;

    /// Taps an element matching the selector.
    fn tap(&self, selector: Selector) -> Result<(), DriverError>;

    /// Types text into the focused field.
    fn input_text(&self, text: String) -> Result<(), DriverError>;

    /// Dismisses the soft keyboard.
    fn hide_keyboard(&self) -> Result<(), DriverError>;

    /// Swipes in a direction.
    fn swipe(&self, direction: Direction) -> Result<(), DriverError>;

    /// Presses the back button.
    fn back(&self) -> Result<(), DriverError>;

    /// Waits until the UI is idle, for at most `timeout_ms`.
    fn wait_for_idle(&self, timeout_ms: u64) -> Result<(), DriverError>;

    /// Takes a screenshot saved under the given name.
    fn take_screenshot(&self, name: String) -> Result<(), DriverError>;

    /// The current time in milliseconds.
    fn now_ms(&self) -> u64;

    /// Sleeps for the given number of milliseconds.
    fn sleep_ms(&self, ms: u64);
}

/// A shared driver drives as the driver it points to.
impl<D: Driver + ?Sized> Driver for Arc<D> {
    fn launch_app(&self, app_id: String, clear_state: bool) -> Result<(), DriverError> {
        (**self).launch_app(app_id, clear_state)
    }

    fn is_visible(&self, selector: Selector) -> Result<bool, DriverError> {
        (**self).is_visible(selector)
    }

    fn tap(&self, selector: Selector) -> Result<(), DriverError> {
        (**self).tap(selector)
    }

    fn input_text(&self, text: String) -> Result<(), DriverError> {
        (**self).input_text(text)
    }

    fn hide_keyboard(&self) -> Result<(), DriverError> {
        (**self).hide_keyboard()
    }

    fn swipe(&self, direction: Direction) -> Result<(), DriverError> {
        (**self).swipe(direction)
    }

    fn back(&self) -> Result<(), DriverError> {
        (**self).back()
    }

    fn wait_for_idle(&self, timeout_ms: u64) -> Result<(), DriverError> {
        (**self).wait_for_idle(timeout_ms)
    }

    fn take_screenshot(&self, name: String) -> Result<(), DriverError> {
        (**self).take_screenshot(name)
    }

    fn now_ms(&self) -> u64 {
        (**self).now_ms()
    }

    fn sleep_ms(&self, ms: u64) {
        (**self).sleep_ms(ms)
    }
}

/// A driver call as a run made it: what was handed to the driver and what
/// came back.
pub enum CallView {
    LaunchApp(Seq<char>, bool, Result<(), DriverError>),
    IsVisible(SelectorView, Result<bool, DriverError>),
    Tap(SelectorView, Result<(), DriverError>),
    InputText(Seq<char>, Result<(), DriverError>),
    HideKeyboard(Result<(), DriverError>),
    Swipe(Direction, Result<(), DriverError>),
    Back(Result<(), DriverError>),
    WaitForIdle(u64, Result<(), DriverError>),
    TakeScreenshot(Seq<char>, Result<(), DriverError>),
    Now(u64),
    Sleep(u64),
}

/// A driver together with the record of the calls made through it. The
/// record is ghost: it costs nothing at run time, and lets contracts say
/// what was asked of the driver and what it answered.
pub struct Recorder<'a, D: Driver> {
    driver: &'a D,
    log: Ghost<Seq<CallView>>,
}

impl<'a, D: Driver> Recorder<'a, D> {
    /// The calls made so far, in order.
    pub closed spec fn calls(&self) -> Seq<CallView> {
        self.log@
    }

    /// The calls made since the record was `earlier`.
    pub open spec fn calls_since(&self, earlier: Seq<CallView>) -> Seq<CallView> {
        self.calls().subrange(earlier.len() as int, self.calls().len() as int)
    }

    /// The record goes on from `earlier`.
    pub open spec fn extends(&self, earlier: Seq<CallView>) -> bool {
        &&& earlier.len() <= self.calls().len()
        &&& self.calls().subrange(0, earlier.len() as int) == earlier
    }

    pub fn new(driver: &'a D) -> (r: Self)
        ensures
            r.calls() == Seq::<CallView>::empty(),
    {
        Recorder { driver, log: Ghost(Seq::empty()) }
    }

    pub fn launch_app(&mut self, app_id: String, clear_state: bool) -> (r: Result<(), DriverError>)
        ensures
            final(self).calls() == old(self).calls().push(CallView::LaunchApp(app_id@, clear_state, r)),
    {
        let ghost a = app_id@;
        let r = self.driver.launch_app(app_id, clear_state);
        proof {
            self.log@ = self.log@.push(CallView::LaunchApp(a, clear_state, r));
        }
        r
    }

    pub fn is_visible(&mut self, selector: Selector) -> (r: Result<bool, DriverError>)
        ensures
            final(self).calls() == old(self).calls().push(CallView::IsVisible(selector@, r)),
    {
        let ghost s = selector@;
        let r = self.driver.is_visible(selector);
        proof {
            self.log@ = self.log@.push(CallView::IsVisible(s, r));
        }
        r
    }

    pub fn tap(&mut self, selector: Selector) -> (r: Result<(), DriverError>)
        ensures
            final(self).calls() == old(self).calls().push(CallView::Tap(selector@, r)),
    {
        let ghost s = selector@;
        let r = self.driver.tap(selector);
        proof {
            self.log@ = self.log@.push(CallView::Tap(s, r));
        }
        r
    }

    pub fn input_text(&mut self, text: String) -> (r: Result<(), DriverError>)
        ensures
            final(self).calls() == old(self).calls().push(CallView::InputText(text@, r)),
    {
        let ghost t = text@;
        let r = self.driver.input_text(text);
        proof {
            self.log@ = self.log@.push(CallView::InputText(t, r));
        }
        r
    }

    pub fn hide_keyboard(&mut self) -> (r: Result<(), DriverError>)
        ensures
            final(self).calls() == old(self).calls().push(CallView::HideKeyboard(r)),
    {
        let r = self.driver.hide_keyboard();
        proof {
            self.log@ = self.log@.push(CallView::HideKeyboard(r));
        }
        r
    }

    pub fn swipe(&mut self, direction: Direction) -> (r: Result<(), DriverError>)
        ensures
            final(self).calls() == old(self).calls().push(CallView::Swipe(direction, r)),
    {
        let r = self.driver.swipe(direction);
        proof {
            self.log@ = self.log@.push(CallView::Swipe(direction, r));
        }
        r
    }

    pub fn back(&mut self) -> (r: Result<(), DriverError>)
        ensures
            final(self).calls() == old(self).calls().push(CallView::Back(r)),
    {
        let r = self.driver.back();
        proof {
            self.log@ = self.log@.push(CallView::Back(r));
        }
        r
    }

    pub fn wait_for_idle(&mut self, timeout_ms: u64) -> (r: Result<(), DriverError>)
        ensures
            final(self).calls() == old(self).calls().push(CallView::WaitForIdle(timeout_ms, r)),
    {
        let r = self.driver.wait_for_idle(timeout_ms);
        proof {
            self.log@ = self.log@.push(CallView::WaitForIdle(timeout_ms, r));
        }
        r
    }

    pub fn take_screenshot(&mut self, name: String) -> (r: Result<(), DriverError>)
        ensures
            final(self).calls() == old(self).calls().push(CallView::TakeScreenshot(name@, r)),
    {
        let ghost n = name@;
        let r = self.driver.take_screenshot(name);
        proof {
            self.log@ = self.log@.push(CallView::TakeScreenshot(n, r));
        }
        r
    }

    pub fn now_ms(&mut self) -> (r: u64)
        ensures
            final(self).calls() == old(self).calls().push(CallView::Now(r)),
    {
        let r = self.driver.now_ms();
        proof {
            self.log@ = self.log@.push(CallView::Now(r));
        }
        r
    }

    pub fn sleep_ms(&mut self, ms: u64)
        ensures
            final(self).calls() == old(self).calls().push(CallView::Sleep(ms)),
    {
        self.driver.sleep_ms(ms);
        proof {
            self.log@ = self.log@.push(CallView::Sleep(ms));
        }
    }
}

} // verus!
