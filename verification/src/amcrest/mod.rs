//! A single Amcrest camera: its configuration, capabilities, events and
//! snapshots.

pub mod capabilities;
pub mod client;
pub mod config;
pub mod event;
pub mod live;
pub mod overlay;
pub mod plan;
pub mod profile;
pub mod profile_keys;
pub mod profile_values;
pub mod readback;
pub mod rpc;
pub mod snapshot;
pub mod table;
pub mod update;
