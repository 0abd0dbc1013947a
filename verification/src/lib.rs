//! Verified core of kondo, a tool that sorts files from source
//! directories into destination directories by extension.

pub mod text;
pub mod fmt;
pub mod cron;
pub mod cli;
pub mod report;
pub mod strmap;
pub mod cache;
pub mod config;
pub mod pattern;
pub mod organize;
