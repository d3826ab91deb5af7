//! Prism: a resilience layer and remote desktop for a Linux workstation.

use vstd::prelude::*;

pub mod action;
pub mod api;
pub mod auth;
pub mod bind;
pub mod clock;
pub mod config;
pub mod discover;
pub mod enrol;
pub mod events;
pub mod facets_api;
pub mod figures;
pub mod files;
pub mod files_api;
pub mod gate;
pub mod governor;
pub mod graceful;
pub mod graceful_config;
pub mod json;
pub mod media;
pub mod monitor;
pub mod open;
pub mod order;
pub mod platform;
pub mod proxy;
pub mod rescue;
pub mod safety;
pub mod sensors;
pub mod setup;
pub mod supervisor;
pub mod term;
pub mod term_api;
pub mod text;
pub mod ui;
pub mod watchdog;
pub mod workspace;

verus! {

} // verus!
