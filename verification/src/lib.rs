//! The verified core of a system-tray monitor for background jobs: the
//! configuration and its rules, the check of a target, the monitor's state,
//! the tray's menu model, and the text handling they rest on.
use vstd::prelude::*;

pub mod app_icon;
pub mod appdata;
pub mod autostart;
pub mod config;
pub mod monitor;
pub mod process;
pub mod status;
pub mod text;
pub mod ui;

verus! {

} // verus!
