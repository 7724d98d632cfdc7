//! Live streams: their negotiation with a controller, and the way of their packets
//! from FFmpeg to it.

pub mod config;
pub mod h264;
pub mod manager;
pub mod proxy;
pub mod selection;
