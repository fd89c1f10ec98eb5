//! Locating installed Java runtimes: reading their release descriptors,
//! ordering and matching their version strings, and selecting the best one.

pub mod text;
pub mod version;
pub mod jvm;
pub mod select;
pub mod release;
pub mod platform;
pub mod locate;
pub mod config;
pub mod report;
