//! gh-monitor core library: the verified logic behind a GitHub-activity
//! overlay. Events are grouped by repo, compressed into timeline nodes,
//! labelled with humanized time ranges and diffed between polls to drive
//! animations.
use vstd::prelude::*;

pub mod text;
pub mod time;
pub mod humanize;
pub mod order;
pub mod events;
pub mod group;
pub mod compress;
pub mod snapshot;
pub mod json;
pub mod config;
pub mod auth;
pub mod client;
pub mod polling;
pub mod status;
pub mod present;
pub mod doctor;
pub mod notify;
pub mod link;
pub mod setup;
pub mod settings;
pub mod demo;
pub mod overlay;
pub mod cli;

verus! {

} // verus!
