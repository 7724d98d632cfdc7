//! HomeKit bridge for Amcrest cameras: the protocol and decision logic.

pub mod accessory;
pub mod amcrest;
pub mod crypto;
pub mod hap;
pub mod hsv;
pub mod jpeg;
pub mod metrics;
pub mod motion;
pub mod setup;
pub mod srtp;
pub mod stream;
pub mod text;
pub mod tlv8;
pub mod wire;
