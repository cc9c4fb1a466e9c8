//! `pbuild` — a parallel, hash-based build engine.

pub mod actions;
pub mod checks;
pub mod cli;
pub mod config;
pub mod depfile;
pub mod download;
pub mod engine;
pub mod graph;
pub mod hash;
pub mod import;
pub mod json;
pub mod report;
pub mod strmap;
pub mod templates;
pub mod text;
pub mod types;
pub mod ui;
