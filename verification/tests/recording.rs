use amcrust::amcrest::capabilities::EncoderCapabilities;
use amcrust::hsv::recording::{
    parse_selected, supported_audio_recording_config, supported_camera_recording_config,
    supported_hash, supported_video_recording_config, video_recording_config, HsvState,
    PersistedState, SelectedWrite, RECORDING_ATTRIBUTES,
};
use amcrust::tlv8::{find, find_u16, find_u8, parse, Writer};

fn selected(prebuffer: u32, width: u16, fps: u8, iframe: u32, rate: u8) -> Vec<u8> {
    let container_params = Writer::new().u32(0x01, 4000).build();
    let container = Writer::new().u8(0x01, 0).bytes(0x02, &container_params).build();
    let general = Writer::new()
        .u32(0x01, prebuffer)
        .bytes(0x02, &1u64.to_le_bytes())
        .bytes(0x03, &container)
        .build();
    let vparams = Writer::new()
        .u8(0x01, 1)
        .u8(0x02, 2)
        .u32(0x03, 2000)
        .u32(0x04, iframe)
        .build();
    let vattrs = Writer::new().u16(0x01, width).u16(0x02, 1080).u8(0x03, fps).build();
    let video = Writer::new().u8(0x01, 0).bytes(0x02, &vparams).bytes(0x03, &vattrs).build();
    let aparams = Writer::new().u8(0x01, 1).u8(0x02, 0).u8(0x03, rate).u32(0x04, 96).build();
    let acodec = Writer::new().u8(0x01, 0).bytes(0x02, &aparams).build();
    let audio = Writer::new().bytes(0x01, &acodec).build();
    Writer::new().bytes(0x01, &general).bytes(0x02, &video).bytes(0x03, &audio).build()
}

#[test]
fn selected_config_roundtrip() {
    // Build a selected config the way a controller would.
    let container_params = Writer::new().u32(0x01, 4000).build();
    let container = Writer::new().u8(0x01, 0).bytes(0x02, &container_params).build();
    let general = Writer::new()
        .u32(0x01, 8000)
        .bytes(0x02, &1u64.to_le_bytes())
        .bytes(0x03, &container)
        .build();

    let vparams = Writer::new()
        .u8(0x01, 1)
        .u8(0x02, 2)
        .u32(0x03, 2000)
        .u32(0x04, 4000)
        .build();
    let vattrs = Writer::new().u16(0x01, 1920).u16(0x02, 1080).u8(0x03, 15).build();
    let video = Writer::new().u8(0x01, 0).bytes(0x02, &vparams).bytes(0x03, &vattrs).build();

    let aparams = Writer::new().u8(0x01, 1).u8(0x02, 0).u8(0x03, 5).u32(0x04, 96).build();
    let acodec = Writer::new().u8(0x01, 0).bytes(0x02, &aparams).build();
    let audio = Writer::new().bytes(0x01, &acodec).build();

    let raw = Writer::new()
        .bytes(0x01, &general)
        .bytes(0x02, &video)
        .bytes(0x03, &audio)
        .build();

    let parsed = parse_selected(&raw).unwrap();
    assert_eq!(parsed.prebuffer_ms, 8000);
    assert_eq!(parsed.fragment_ms, 4000);
    assert_eq!(parsed.width, 1920);
    assert_eq!(parsed.height, 1080);
    assert_eq!(parsed.fps, 15);
    assert_eq!(parsed.video_bitrate_kbps, 2000);
    assert_eq!(parsed.iframe_interval_ms, 4000);
    assert_eq!(parsed.audio_sample_rate, 5);
    assert_eq!(parsed.audio_bitrate_kbps, 96);
}

#[test]
fn supported_configs_are_well_formed() {
    let rec = parse(&supported_camera_recording_config());
    assert!(find(&rec, 0x01).is_some());
    assert_eq!(find(&rec, 0x02).map(|v| v.len()), Some(8));

    let video = parse(&supported_video_recording_config());
    let codec = parse(find(&video, 0x01).unwrap());
    assert_eq!(find_u8(&codec, 0x01), Some(0));

    let audio = parse(&supported_audio_recording_config());
    assert!(find(&audio, 0x01).is_some());
}

#[test]
fn offered_modes_follow_the_camera() {
    let capabilities = EncoderCapabilities {
        main_resolutions: vec![(1920, 1080), (1280, 720)],
        extra_resolutions: vec![],
        snapshot_resolutions: vec![],
        main_bitrate_range: None,
        extra_bitrate_range: None,
        main_fps_max: None,
        extra_fps_max: None,
    };
    let config = parse(&video_recording_config(&capabilities.recording_attributes()));
    let codec = parse(find(&config, 0x01).unwrap());
    let modes: Vec<(u16, u16, u8)> = codec
        .iter()
        .filter(|i| i.tag == 0x03)
        .map(|i| {
            let mode = parse(&i.value);
            (
                find_u16(&mode, 1).unwrap(),
                find_u16(&mode, 2).unwrap(),
                find_u8(&mode, 3).unwrap(),
            )
        })
        .collect();
    assert_eq!(modes, vec![(1920, 1080, 15), (1280, 720, 15)]);
}

#[test]
fn supported_camera_recording_bytes() {
    assert_eq!(
        supported_camera_recording_config(),
        vec![
            1, 4, 0xA0, 0x0F, 0, 0, 2, 8, 1, 0, 0, 0, 0, 0, 0, 0, 3, 11, 1, 1, 0, 2, 6, 1, 4, 0xA0,
            0x0F, 0, 0
        ]
    );
    assert_eq!(
        supported_audio_recording_config(),
        vec![1, 19, 1, 1, 0, 2, 14, 1, 1, 1, 2, 1, 0, 3, 1, 3, 0, 0, 3, 1, 5]
    );
}

#[test]
fn a_selection_has_defaults() {
    let general = Writer::new().build();
    let raw = Writer::new().bytes(0x01, &general).bytes(0x02, &[]).build();
    let parsed = parse_selected(&raw).unwrap();
    assert_eq!(parsed.raw, raw);
    assert_eq!(parsed.prebuffer_ms, 4000);
    assert_eq!(parsed.fragment_ms, 4000);
    assert_eq!((parsed.width, parsed.height, parsed.fps), (1920, 1080, 15));
    assert_eq!(parsed.video_bitrate_kbps, 2000);
    assert_eq!(parsed.iframe_interval_ms, 4000);
    assert_eq!(parsed.audio_channels, 1);
    assert_eq!(parsed.audio_sample_rate, 5);
    assert_eq!(parsed.audio_bitrate_kbps, 64);
    assert!(parse_selected(&[1, 0]).is_none());
    assert!(parse_selected(&[2, 0]).is_none());
}

#[test]
fn numbers_may_be_shorter_than_their_field() {
    let general = Writer::new().u16(0x01, 500).build();
    let raw = Writer::new().bytes(0x01, &general).bytes(0x02, &[]).build();
    assert_eq!(parse_selected(&raw).unwrap().prebuffer_ms, 500);
}

#[test]
fn state_survives_a_restart_while_the_offer_is_unchanged() {
    let hash = supported_hash(&RECORDING_ATTRIBUTES);
    let mut state = HsvState::load(None, hash);
    assert!(!state.recording_active && state.audio_active && state.homekit_active);
    assert!(state.event_snapshots && state.periodic_snapshots);
    let raw = selected(8000, 1280, 15, 4000, 3);
    assert_eq!(state.handle_selected_write(&[], &raw), SelectedWrite::Selected);
    state.set_recording_active(1);
    state.set_audio_active(0);
    let kept = state.persist(hash);
    assert_ne!(kept.selected_b64.as_ref().unwrap().as_bytes(), &raw[..]);
    let again = HsvState::load(
        Some(PersistedState {
            selected_b64: kept.selected_b64.clone(),
            supported_hash: kept.supported_hash,
            recording_active: kept.recording_active,
            audio_active: kept.audio_active,
            event_snapshots: kept.event_snapshots,
            periodic_snapshots: kept.periodic_snapshots,
            homekit_active: kept.homekit_active,
        }),
        hash,
    );
    assert!(again.recording_active && !again.audio_active);
    assert_eq!(again.selected_read(), Some(raw));
    assert_eq!(again.selected.as_ref().unwrap().width, 1280);
    let other = HsvState::load(Some(kept), hash ^ 1);
    assert!(other.selected_read().is_none());
    assert!(other.recording_active);
}

#[test]
fn kept_selection_is_base64() {
    let hash = supported_hash(&RECORDING_ATTRIBUTES);
    let mut state = HsvState::load(None, hash);
    state.handle_selected_write(&[], &[1, 0, 2, 0]);
    assert_eq!(state.persist(hash).selected_b64, Some("AQACAA==".to_string()));
    let damaged = PersistedState {
        selected_b64: Some("AQA!".to_string()),
        supported_hash: Some(hash),
        recording_active: true,
        audio_active: true,
        event_snapshots: true,
        periodic_snapshots: true,
        homekit_active: true,
    };
    assert!(HsvState::load(Some(damaged), hash).selected.is_none());
}

#[test]
fn the_offer_has_a_hash_of_its_own() {
    let all = supported_hash(&RECORDING_ATTRIBUTES);
    assert_ne!(all, supported_hash(&RECORDING_ATTRIBUTES[1..]));
    assert_eq!(all, supported_hash(&RECORDING_ATTRIBUTES));
}

#[test]
fn selected_writes_are_told_apart() {
    let mut state = HsvState::load(None, 0);
    let raw = selected(4000, 1920, 15, 4000, 5);
    assert_eq!(state.handle_selected_write(&[], &[]), SelectedWrite::Ignored);
    assert_eq!(state.handle_selected_write(&raw, &raw), SelectedWrite::Ignored);
    assert!(state.selected_read().is_none());
    assert_eq!(state.handle_selected_write(&[], &[9, 0]), SelectedWrite::Unparsable);
    assert_eq!(state.handle_selected_write(&[], &raw), SelectedWrite::Selected);
    assert_eq!(state.selected_read(), Some(raw));
}

#[test]
fn recording_needs_a_selection_and_its_switches() {
    let mut state = HsvState::load(None, 0);
    assert_eq!(state.recording_allowed(), Err(9));
    assert!(state.sync_recorder("rtsp://camera").is_none());
    state.handle_selected_write(&[], &selected(8000, 1920, 15, 4000, 5));
    assert_eq!(state.recording_allowed(), Err(1));
    state.set_recording_active(1);
    assert_eq!(state.recording_allowed(), Ok(()));
    let config = state.sync_recorder("rtsp://camera").unwrap();
    assert_eq!(config.rtsp_url, "rtsp://camera");
    assert!(config.audio);
    assert_eq!((config.fragment_ms, config.prebuffer_ms), (4000, 8000));
    state.homekit_active = false;
    assert_eq!(state.recording_allowed(), Err(1));
    assert!(state.sync_recorder("rtsp://camera").is_none());
}

#[test]
fn camera_settings_match_the_selection() {
    let config = parse_selected(&selected(4000, 1920, 15, 4000, 3)).unwrap();
    assert!(config.distance_fits());
    assert_eq!(config.key_frame_distance(), 60);
    assert_eq!(config.audio_hz(), 32000);
    let params = config.camera_settings();
    assert!(params.contains("Video.resolution=1920x1080&"));
    assert!(params.contains("Video.Width=1920&Encode[0].MainFormat[0].Video.Height=1080&"));
    assert!(params.contains("Video.FPS=15&Encode[0].MainFormat[0].Video.GOP=60&"));
    assert!(params.contains("Video.BitRate=2000&"));
    assert!(params.contains("Audio.Frequency=32000&"));
    assert!(params.ends_with("AudioEnable=true"));
    let odd = parse_selected(&selected(4000, 1920, 255, u32::MAX, 0)).unwrap();
    assert!(!odd.distance_fits());
    let slow = parse_selected(&selected(4000, 1920, 15, 4000, 0)).unwrap();
    assert!(slow.camera_settings().contains("Audio.Frequency=8000&"));
}
