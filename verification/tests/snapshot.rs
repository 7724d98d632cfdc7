use amcrust::amcrest::snapshot::{
    check_scaled, ffmpeg_detected_black_frame, fingerprint, scale_arguments,
    validate_jpeg_envelope, ScaledLookup, SnapshotCache, SnapshotError,
};
use amcrust::hap::pointer::{refused_snapshot, snapshot_result, SnapshotResult};

fn jpeg(n: u8) -> Vec<u8> {
    vec![0xff, 0xd8, n, 0xff, 0xd9]
}

#[test]
fn rejects_malformed_snapshot_envelopes() {
    assert!(validate_jpeg_envelope(&[0xff, 0xd8, 1, 2, 0xff, 0xd9]).is_ok());
    assert!(validate_jpeg_envelope(b"").is_err());
    assert!(validate_jpeg_envelope(b"camera busy").is_err());
    assert!(validate_jpeg_envelope(&[0xff, 0xd8, 1, 2]).is_err());
}

#[test]
fn recognizes_ffmpeg_blackframe_diagnostic() {
    assert!(ffmpeg_detected_black_frame(
        b"[Parsed_blackframe_1] frame:0 pblack:100 pts:0"
    ));
    assert!(!ffmpeg_detected_black_frame(
        b"Input #0, image2pipe, from 'pipe:0'"
    ));
}

#[test]
fn scaling_is_checked() {
    assert_eq!(check_scaled(false, jpeg(1), b""), Err(SnapshotError::ScaleFailed));
    assert_eq!(check_scaled(true, vec![], b""), Err(SnapshotError::ScaleFailed));
    assert_eq!(check_scaled(true, vec![1, 2, 3], b""), Err(SnapshotError::InvalidOutput));
    assert_eq!(check_scaled(true, jpeg(1), b" pblack:99"), Err(SnapshotError::BlackFrame));
    assert_eq!(check_scaled(true, jpeg(1), b""), Ok(jpeg(1)));
    let args = scale_arguments(640, 360);
    assert!(args.iter().any(|a| a.starts_with("scale='min(640,iw)':'min(360,ih)'")));
}

#[test]
fn frames_are_served_until_they_are_too_old() {
    let mut cache = SnapshotCache::new();
    assert!(cache.get(0).is_none());
    assert_eq!(cache.refresh(vec![1], 0).err(), Some(SnapshotError::InvalidJpeg));
    let frame = cache.refresh(jpeg(1), 1000).unwrap();
    assert_eq!(frame.generation, 1);
    assert_eq!(frame.fingerprint, fingerprint(&jpeg(1)));
    assert!(cache.recent(2000).is_some());
    assert!(cache.recent(2001).is_none());
    assert!(cache.get(121_000).is_some());
    assert!(cache.get(121_001).is_none());
    assert_eq!(cache.refresh(jpeg(2), 130_000).unwrap().generation, 2);
}

#[test]
fn scaled_frames_are_used_again() {
    let mut cache = SnapshotCache::new();
    let first = cache.refresh(jpeg(1), 0).unwrap();
    assert!(matches!(cache.lookup_scaled(&first, 640, 360, 10), ScaledLookup::Miss(None)));
    let image = cache.finish_scaled(&first, 640, 360, None, Ok(jpeg(9)), 10).unwrap();
    assert_eq!(image.bytes, jpeg(9));
    assert_eq!((image.source_generation, image.source_age), (1, 10));
    assert!(matches!(cache.lookup_scaled(&first, 640, 360, 20), ScaledLookup::Hit(_)));
    let second = cache.refresh(jpeg(2), 5000).unwrap();
    match cache.lookup_scaled(&second, 640, 360, 6000) {
        ScaledLookup::Miss(Some(stale)) => {
            let served = cache
                .finish_scaled(&second, 640, 360, Some(stale), Err(SnapshotError::BlackFrame), 6000)
                .unwrap();
            assert_eq!(served.bytes, jpeg(9));
            assert_eq!(served.source_age, 6000);
        }
        _ => panic!("an earlier frame stands in"),
    }
    assert!(matches!(cache.lookup_scaled(&second, 640, 360, 200_000), ScaledLookup::Miss(None)));
    assert_eq!(
        cache.finish_scaled(&second, 640, 360, None, Err(SnapshotError::ScaleFailed), 1).err(),
        Some(SnapshotError::ScaleFailed)
    );
}

#[test]
fn snapshots_go_to_the_server() {
    let mut cache = SnapshotCache::new();
    let frame = cache.refresh(jpeg(1), 0).unwrap();
    let image = cache.finish_scaled(&frame, 1, 1, None, Ok(jpeg(3)), 0).unwrap();
    let output = image.output_fingerprint;
    match snapshot_result(image, "Caf\u{e9}") {
        SnapshotResult::Jpeg { image, camera_name, source_generation, output_fingerprint } => {
            assert_eq!(image, jpeg(3));
            assert_eq!(camera_name, "Caf_");
            assert_eq!(source_generation, 1);
            assert_eq!(output_fingerprint, output);
        }
        SnapshotResult::HapStatus(_) => panic!("an image is served"),
    }
    assert!(refused_snapshot(Some(0), true, false).is_none());
    assert!(matches!(
        refused_snapshot(None, true, false),
        Some(SnapshotResult::HapStatus(-70401))
    ));
}

#[test]
fn snapshot_errors_have_words() {
    assert_eq!(
        SnapshotError::InvalidJpeg.message(),
        "camera returned an invalid JPEG snapshot"
    );
    assert_eq!(
        SnapshotError::InvalidOutput.message(),
        "ffmpeg snapshot scaling produced an invalid JPEG"
    );
    assert_eq!(
        SnapshotError::BlackFrame.message(),
        "camera produced a nearly all-black snapshot"
    );
    assert_eq!(SnapshotError::FetchFailed.message(), "camera snapshot failed");
    assert_eq!(SnapshotError::ScaleFailed.message(), "ffmpeg snapshot scaling failed");
}
