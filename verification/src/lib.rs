//! Verified core of a terminal system-monitor dashboard: the parsers for the
//! kernel and tool outputs it reads, the health derivations, and the small
//! layout and input rules of the dashboard.

pub mod text;
pub mod sources;
pub mod config;
pub mod health;
pub mod history;
pub mod select;
pub mod procs;
pub mod cli;
pub mod ui;
