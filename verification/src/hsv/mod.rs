//! HomeKit Secure Video: the data stream protocol and its payloads.

pub mod codec;
pub mod data_send;
pub mod float;
pub mod fmp4;
pub mod frame;
pub mod hds;
pub mod recording;
pub mod show;
