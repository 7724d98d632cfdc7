//! What the HAP server and the accessory hand each other.

use vstd::prelude::*;
use crate::amcrest::snapshot::SnapshotImage;
use crate::setup::{gate_snapshot, printable, printable_name, snapshot_allowed};

verus! {

/// Outcome of a snapshot request.
#[derive(Debug)]
pub enum SnapshotResult {
    /// Serve the image.
    Jpeg {
        image: Vec<u8>,
        camera_name: String,
        source_generation: u64,
        output_fingerprint: u64,
    },
    /// Reject with `207 Multi-Status` and this HAP status code.
    HapStatus(i32),
}

/// The outcome of a snapshot that was made.
pub fn snapshot_result(image: SnapshotImage, camera_name: &str) -> (r: SnapshotResult)
    ensures
        r matches SnapshotResult::Jpeg {
            image: bytes,
            camera_name: shown,
            source_generation,
            output_fingerprint,
        } && bytes@ == image.bytes@ && shown@ == printable(camera_name@) && source_generation
            == image.source_generation && output_fingerprint == image.output_fingerprint,
{
    SnapshotResult::Jpeg {
        camera_name: printable_name(camera_name),
        source_generation: image.source_generation,
        output_fingerprint: image.output_fingerprint,
        image: image.bytes,
    }
}

/// The outcome of a snapshot that may not be served; `None` where it may.
pub fn refused_snapshot(reason: Option<i64>, periodic_ok: bool, event_ok: bool) -> (r: Option<
    SnapshotResult,
>)
    ensures
        (r is None) == snapshot_allowed(reason, periodic_ok, event_ok),
        r matches Some(refusal) ==> refusal == SnapshotResult::HapStatus(
            if reason is None {
                -70401i32
            } else {
                -70412i32
            },
        ),
{
    match gate_snapshot(reason, periodic_ok, event_ok) {
        Ok(_) => None,
        Err(status) => Some(SnapshotResult::HapStatus(status)),
    }
}

} // verus!
