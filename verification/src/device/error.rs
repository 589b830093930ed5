//! Errors of the device interface, and how transport errors map to them.

use vstd::prelude::*;
use vstd::string::StringExecFns;
use crate::text::{append_chars, decimal, decimal_chars, string_from};

verus! {

/// What a device operation reports when it fails.
#[derive(Debug)]
pub enum PodiumError {
    ElementNotFound { reason: String },
    Timeout { timeout_ms: u64, reason: String },
    Transport { reason: String },
    NotSupported { reason: String },
    DeviceNotFound,
}

/// What a transport reports when it fails.
#[derive(Debug)]
pub enum TransportError {
    ElementNotFound { reason: String },
    OperationFailed { reason: String },
    NotSupported { reason: String },
    DeviceNotFound,
}

/// The message of a device error.
pub open spec fn podium_error_text(e: PodiumError) -> Seq<char> {
    match e {
        PodiumError::ElementNotFound { reason } => "Element not found: "@ + reason@,
        PodiumError::Timeout { timeout_ms, reason } => "Assertion timed out after "@ + decimal(
            timeout_ms as nat,
        ) + "ms: "@ + reason@,
        PodiumError::Transport { reason } => "Transport error: "@ + reason@,
        PodiumError::NotSupported { reason } => "Not supported on this platform: "@ + reason@,
        PodiumError::DeviceNotFound => "Device not found"@,
    }
}

impl PodiumError {
    /// The text shown for this error.
    pub fn message(&self) -> (r: String)
        ensures
            r@ == podium_error_text(*self),
    {
        match self {
            PodiumError::ElementNotFound { reason } => {
                let mut s = string_from("Element not found: ");
                s.append(reason.as_str());
                s
            },
            PodiumError::Timeout { timeout_ms, reason } => {
                let mut s = string_from("Assertion timed out after ");
                let digits = decimal_chars(*timeout_ms);
                append_chars(&mut s, &digits);
                s.append("ms: ");
                s.append(reason.as_str());
                s
            },
            PodiumError::Transport { reason } => {
                let mut s = string_from("Transport error: ");
                s.append(reason.as_str());
                s
            },
            PodiumError::NotSupported { reason } => {
                let mut s = string_from("Not supported on this platform: ");
                s.append(reason.as_str());
                s
            },
            PodiumError::DeviceNotFound => string_from("Device not found"),
        }
    }
}

/// A transport error as the device reports it: a failed operation becomes
/// a transport error; the others keep their kind and reason.
pub open spec fn device_error_of(e: TransportError) -> PodiumError {
    match e {
        TransportError::ElementNotFound { reason } => PodiumError::ElementNotFound { reason },
        TransportError::OperationFailed { reason } => PodiumError::Transport { reason },
        TransportError::NotSupported { reason } => PodiumError::NotSupported { reason },
        TransportError::DeviceNotFound => PodiumError::DeviceNotFound,
    }
}

impl From<TransportError> for PodiumError {
    fn from(e: TransportError) -> (r: PodiumError) {
        match e {
            TransportError::ElementNotFound { reason } => PodiumError::ElementNotFound { reason },
            TransportError::OperationFailed { reason } => PodiumError::Transport { reason },
            TransportError::NotSupported { reason } => PodiumError::NotSupported { reason },
            TransportError::DeviceNotFound => PodiumError::DeviceNotFound,
        }
    }
}

impl vstd::std_specs::convert::FromSpecImpl<TransportError> for PodiumError {
    open spec fn obeys_from_spec() -> bool {
        true
    }

    open spec fn from_spec(e: TransportError) -> PodiumError {
        device_error_of(e)
    }
}

} // verus!
