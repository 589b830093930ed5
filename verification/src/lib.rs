//! Podium: a flow interpreter for driving mobile devices in tests.

pub mod text;
pub mod model;
pub mod driver;
pub mod engine;
pub mod yaml;
pub mod text_map;
pub mod parser;
pub mod core_api;
pub mod cli;
pub mod report;
pub mod session;
pub mod device;
