//! The accessory protocol's transport: encrypted records, ordered output and the
//! announced host name.

pub mod mdns;
pub mod pointer;
pub mod record;
pub mod tcp;
