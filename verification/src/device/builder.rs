//! Choosing the platform a device is driven on, and the polling rules of
//! the device's waits.

use vstd::prelude::*;
use vstd::string::StringExecFns;
use crate::device::error::PodiumError;
use crate::device::types::{DeviceSelectorView, Direction, Selector};
use crate::engine::{append_selector_fields_debug, selector_fields_debug};
use crate::model::opt_text;
use crate::text::{append_chars, decimal, decimal_chars, string_from};

verus! {

/// The platform of a device; a missing serial or udid picks the only
/// connected device.
#[derive(Debug, Clone)]
pub enum Platform {
    Android { serial: Option<String> },
    Ios { udid: Option<String> },
}

/// Builds a `PodiumDevice`; the platform must be set.
#[derive(Debug)]
pub struct DeviceBuilder {
    platform: Option<Platform>,
}

/// A device on a chosen platform.
#[derive(Debug)]
pub struct PodiumDevice {
    platform: Platform,
}

impl DeviceBuilder {
    pub closed spec fn chosen(&self) -> Option<Platform> {
        self.platform
    }

    /// Sets the platform.
    pub fn platform(self, p: Platform) -> (r: Self)
        ensures
            r.chosen() == Some(p),
    {
        DeviceBuilder { platform: Some(p) }
    }

    /// The device on the chosen platform; without a platform, a transport
    /// error `platform not set`.
    pub fn build(self) -> (r: Result<PodiumDevice, PodiumError>)
        ensures
            match self.chosen() {
                Some(p) => r matches Ok(d) && d.platform_of() == p,
                None => r matches Err(PodiumError::Transport { reason }) && reason@
                    == "platform not set"@,
            },
    {
        match self.platform {
            Some(p) => Ok(PodiumDevice { platform: p }),
            None => Err(PodiumError::Transport { reason: string_from("platform not set") }),
        }
    }
}

impl Default for DeviceBuilder {
    fn default() -> (r: Self)
        ensures
            r.chosen() is None,
    {
        DeviceBuilder { platform: None }
    }
}

impl PodiumDevice {
    pub closed spec fn platform_of(&self) -> Platform {
        self.platform
    }

    /// A builder with no platform set.
    pub fn builder() -> (r: DeviceBuilder)
        ensures
            r.chosen() is None,
    {
        DeviceBuilder { platform: None }
    }

    /// The platform the device is on.
    pub fn platform(&self) -> (r: &Platform)
        ensures
            *r == self.platform_of(),
    {
        &self.platform
    }
}

/// How long the device's visibility assertions wait.
pub const ASSERT_TIMEOUT_MS: u64 = 10_000;

/// How many checks the device's scroll makes at most.
pub const SCROLL_MAX_SWIPES: u32 = 20;

/// How long `wait_for_animation` waits for the UI to settle.
pub const ANIMATION_TIMEOUT_MS: u64 = 10_000;

/// The error of a visibility assertion that timed out.
pub open spec fn wait_timeout_error_spec(s: DeviceSelectorView, timeout_ms: u64, want_visible: bool) -> (
    u64,
    Seq<char>,
) {
    (
        timeout_ms,
        if want_visible {
            "element not visible: "@
        } else {
            "element still visible: "@
        } + selector_fields_debug(s.text, s.id, s.index),
    )
}

/// The error of a visibility assertion that timed out.
pub fn wait_timeout_error(selector: &Selector, timeout_ms: u64, want_visible: bool) -> (r:
    PodiumError)
    ensures
        r matches PodiumError::Timeout { timeout_ms: t, reason } && (t, reason@)
            == wait_timeout_error_spec(selector@, timeout_ms, want_visible),
{
    let mut reason = if want_visible {
        string_from("element not visible: ")
    } else {
        string_from("element still visible: ")
    };
    append_selector_fields_debug(&mut reason, &selector.text, &selector.id, selector.index);
    PodiumError::Timeout { timeout_ms, reason }
}

/// The message of a scroll that gave up.
pub open spec fn scroll_error_reason(s: DeviceSelectorView, max_swipes: u32) -> Seq<char> {
    "element not found after "@ + decimal(max_swipes as nat) + " swipes: "@
        + selector_fields_debug(s.text, s.id, s.index)
}

/// The error of a scroll that gave up.
pub fn scroll_not_found_error(selector: &Selector, max_swipes: u32) -> (r: PodiumError)
    ensures
        r matches PodiumError::ElementNotFound { reason } && reason@ == scroll_error_reason(
            selector@,
            max_swipes,
        ),
{
    let mut reason = string_from("element not found after ");
    append_chars(&mut reason, &decimal_chars(max_swipes as u64));
    reason.append(" swipes: ");
    append_selector_fields_debug(&mut reason, &selector.text, &selector.id, selector.index);
    PodiumError::ElementNotFound { reason }
}

/// The swipe gesture for a direction on a 1080x2400 screen: start x, start
/// y, end x, end y, and the duration in milliseconds.
pub open spec fn swipe_gesture_spec(d: Direction) -> (u32, u32, u32, u32, u32) {
    match d {
        Direction::Up => (540, 1400, 540, 400, 300),
        Direction::Down => (540, 400, 540, 1400, 300),
        Direction::Left => (900, 800, 180, 800, 300),
        Direction::Right => (180, 800, 900, 800, 300),
    }
}

pub fn swipe_gesture(d: Direction) -> (r: (u32, u32, u32, u32, u32))
    ensures
        r == swipe_gesture_spec(d),
{
    match d {
        Direction::Up => (540, 1400, 540, 400, 300),
        Direction::Down => (540, 400, 540, 1400, 300),
        Direction::Left => (900, 800, 180, 800, 300),
        Direction::Right => (180, 800, 900, 800, 300),
    }
}

} // verus!
