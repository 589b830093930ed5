//! The device interface for external tools: a `PodiumDevice` drives one
//! device through a transport; selectors are matched against the view
//! hierarchy the device reports.

pub mod error;
pub mod types;
pub mod hierarchy;
pub mod mock;
pub mod builder;
pub mod adb;
