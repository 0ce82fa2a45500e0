//! The decision logic of a tiling window manager.
//!
//! Everything the manager decides from what the system reports is here as
//! functions on plain values; what talks to the system stands outside.

pub mod arrange;
pub mod clock;
pub mod commands;
pub mod departure;
pub mod desktop_match;
pub mod desktops;
pub mod discovery;
pub mod display_archive;
pub mod display_record;
pub mod displays;
pub mod drag;
pub mod drop_overlay;
pub mod events;
pub mod focus;
pub mod fullscreen_slots;
pub mod homing;
pub mod ids;
pub mod layout;
pub mod legacy;
pub mod lists;
pub mod managers;
pub mod membership;
pub mod native_spaces;
pub mod order;
pub mod outcome;
pub mod reactor;
pub mod reconcile;
pub mod record_pass;
pub mod replay;
pub mod reports;
pub mod screens;
pub mod settle;
pub mod snapshot;
pub mod table;
pub mod text;
pub mod tile_halo;
pub mod topology;
pub mod trace;
pub mod transaction_manager;
pub mod version;
pub mod walk;
pub mod workflows;
