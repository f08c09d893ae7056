//! OOM-killer forensics for Linux: the verified core.
//!
//! Kernel log text goes in; reconstructed OOM-kill events, their diagnosis,
//! and the text shown for them come out.

pub mod container;
pub mod model;
pub mod text;
pub mod analysis;
pub mod parser;
pub mod tasks;
pub mod source;
pub mod system;
pub mod timestamp;
pub mod app;
pub mod report;
pub mod console;
pub mod clipboard;
