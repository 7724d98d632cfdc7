use std::collections::HashSet;

use amcrust::amcrest::capabilities::{parse_encoder_capabilities, EncoderCapabilities, VideoProfile};
use amcrust::amcrest::client::{login_challenge, AmcrestClient, HttpStep, LoginError};
use amcrust::amcrest::config::{config_key_pointer, config_name, settings};
use amcrust::amcrest::event::{event_stream_path, EventBuffer};
use amcrust::amcrest::live::{
    ai_gop_params, live_config_matches, live_profile_from_config, live_profile_params,
    LiveNegotiation, LiveStep,
};
use amcrust::amcrest::overlay::overlay_requests;
use amcrust::amcrest::plan::media_tables;
use amcrust::amcrest::profile::{
    motion_profile, recording_encoder_settings, smart_motion_profile, snapshot_settings,
    standard_media_profile, TableSettings,
};
use amcrust::amcrest::table::{
    apply_settings, config_table, config_value_like, unapplied_rpc_settings, SettingValue, Table,
};
use amcrust::amcrest::update::{judge_readback, table_step, TableStep};

#[test]
fn converts_flat_config_keys_to_json_pointers() {
    assert_eq!(config_name("AudioInputVolume[0]").as_deref(), Some("AudioInputVolume"));
    assert_eq!(config_name("TwoRefEncode.Enable").as_deref(), Some("TwoRefEncode"));
    assert_eq!(
        config_key_pointer(
            "MotionDetect",
            "MotionDetect[0].EventHandler.TimeSection[6][5]"
        ),
        Some("/0/EventHandler/TimeSection/6/5".to_string())
    );
    assert_eq!(
        config_key_pointer(
            "VideoAnalyseRule",
            "VideoAnalyseRule[0][0].Config.DuplicateRemoval.Enable"
        ),
        Some("/0/0/Config/DuplicateRemoval/Enable".to_string())
    );
    assert_eq!(
        config_key_pointer("MotionDetect", "SmartMotionDetect[0].Enable"),
        None
    );
}

#[test]
fn converts_desired_strings_to_the_existing_json_type() {
    assert_eq!(
        config_value_like(&SettingValue::Bool(true), "false"),
        Some(SettingValue::Bool(false))
    );
    assert_eq!(config_value_like(&SettingValue::Int(30), "5"), Some(SettingValue::Int(5)));
    assert_eq!(
        config_value_like(&SettingValue::Text("Middle".into()), "High"),
        Some(SettingValue::Text("High".into()))
    );
    assert_eq!(config_value_like(&SettingValue::Array, "false"), None);
}

#[test]
fn reports_only_supported_rpc_settings_that_still_differ() {
    let table = Table::from_text("[{\"Video\": {\"FPS\": 15, \"Profile\": \"Main\"}}]").unwrap();
    let desired = vec![
        ("Encode[0].Video.FPS".to_string(), "10".to_string()),
        ("Encode[0].Video.Profile".to_string(), "Main".to_string()),
        (
            "Encode[0].Video.Unsupported".to_string(),
            "true".to_string(),
        ),
    ];
    assert_eq!(
        unapplied_rpc_settings("Encode", &table, &desired),
        vec!["Encode[0].Video.FPS"]
    );
}

#[test]
fn standard_media_profile_is_complete_and_has_unique_keys() {
    let profile = standard_media_profile(true);
    let entries: Vec<_> = profile.iter().flatten().collect();
    let keys: HashSet<_> = entries.iter().map(|(key, _)| key).collect();
    assert_eq!(keys.len(), entries.len());

    let expected = [
        ("AudioInDenoise[0].enable", "false"),
        ("SmartEncode[0].Enable", "false"),
        ("VideoInMode[0].Mode", "0"),
        ("VideoInOptions[0].ExposureMode", "0"),
        ("VideoEncodeROI[0].Main", "false"),
        ("VideoInDenoise[0][2].3DType", "Auto"),
        ("Lighting[0][2].Mode", "Auto"),
    ];
    for (key, value) in expected {
        assert!(
            entries
                .iter()
                .any(|entry| entry.0 == key && entry.1 == value),
            "missing {key}={value}"
        );
    }
}

#[test]
fn infrared_override_disables_illuminator_in_every_profile() {
    let profile = standard_media_profile(false);
    let entries: Vec<_> = profile.iter().flatten().collect();
    assert!(
        entries.iter().any(|entry| {
            entry.0 == "VideoInOptions[0].SmartIRExposure" && entry.1 == "false"
        })
    );
    for config in 0..=2 {
        let key = format!("Lighting[0][{config}].Mode");
        assert!(
            entries
                .iter()
                .any(|entry| entry.0 == key && entry.1 == "Off"),
            "missing {key}=Off"
        );
    }
}

#[test]
fn readback_flags_fields_that_were_reported_but_disappeared() {
    let desired = settings(&[("VideoInMode[0].Mode", "0")]);
    let refused =
        AmcrestClient::unapplied_reported_settings("table.VideoInMode[0].Mode=2", "", &desired);
    assert_eq!(refused, ["VideoInMode[0].Mode"]);
}

#[test]
fn parses_documented_encoder_capabilities_and_orders_best_first() {
    let capabilities = parse_encoder_capabilities(
        "headMain.Video.BitRateOptions=3,8192\n\
         headMain.Video.FPSMax=15\n\
         headMain.Video.ResolutionTypes=720P,1080P,2688x1520,QFHD\n\
         headExtra.Video.BitRateOptions=768,4352\n\
         headExtra.Video.FPSMax=15\n\
         headExtra.Video.ResolutionTypes=720P,1080P\n\
         headSnap.Video.ResolutionTypes=1080P,3840*2160(3840x2160)",
    );
    assert_eq!(capabilities.main_bitrate_range, Some((3, 8192)));
    assert_eq!(capabilities.extra_bitrate_range, Some((768, 4352)));
    assert_eq!(
        capabilities.recording_attributes(),
        vec![
            (3840, 2160, 15),
            (2688, 1520, 15),
            (1920, 1080, 15),
            (1280, 720, 15),
        ]
    );
    assert_eq!(capabilities.best_snapshot_resolution(), Some((3840, 2160)));
}

#[test]
fn parses_indexed_firmware_capability_keys() {
    let capabilities = parse_encoder_capabilities(
        "caps[0].MainFormat[0].Video.ResolutionTypes[0]=3840x2160\n\
         caps[0].MainFormat[0].Video.ResolutionTypes[1]=1920x1080\n\
         caps[0].ExtraFormat[1].Video.ResolutionTypes[0]=1920x1080\n\
         caps[0].ExtraFormat[1].Video.ResolutionTypes[1]=1280x720\n\
         caps[0].SnapFormat[0].Video.ResolutionTypes=3840x2160",
    );
    assert_eq!(capabilities.main_resolutions[0], (3840, 2160));
    assert_eq!(capabilities.main_resolutions[1], (1920, 1080));
    assert_eq!(capabilities.extra_resolutions[0], (1920, 1080));
    assert_eq!(capabilities.snapshot_resolutions[0], (3840, 2160));
}

const LIVE_BODY: &str = "table.Encode[0].ExtraFormat[1].VideoEnable=true\n\
                         table.Encode[0].ExtraFormat[1].Video.Compression=H.264\n\
                         table.Encode[0].ExtraFormat[1].Video.Width=1920\n\
                         table.Encode[0].ExtraFormat[1].Video.Height=1080\n\
                         table.Encode[0].ExtraFormat[1].Video.FPS=15\n\
                         table.Encode[0].ExtraFormat[1].Video.GOP=15\n\
                         table.Encode[0].ExtraFormat[1].Video.BitRate=4096\n\
                         table.Encode[0].ExtraFormat[1].Video.BitRateControl=VBR\n\
                         table.Encode[0].ExtraFormat[1].Video.Profile=High\n\
                         table.Encode[0].ExtraFormat[1].Video.Quality=6";

#[test]
fn verifies_exact_packet_copy_live_profile() {
    assert!(live_config_matches(LIVE_BODY, 1, VideoProfile::live_1080p()));
    assert!(!live_config_matches(LIVE_BODY, 1, VideoProfile::live_720p()));
}

#[test]
fn live_profiles_are_negotiated() {
    let (negotiation, step) = LiveNegotiation::start(2, LIVE_BODY).unwrap();
    assert_eq!(step, LiveStep::Use(VideoProfile::live_1080p()));
    assert_eq!(negotiation.finish(""), Some(VideoProfile::live_1080p()));
    assert!(LiveNegotiation::start(0, LIVE_BODY).is_none());

    let (mut negotiation, step) = LiveNegotiation::start(2, "").unwrap();
    assert_eq!(step, LiveStep::Apply(VideoProfile::live_1080p()));
    assert_eq!(negotiation.applied(None), LiveStep::Apply(VideoProfile::live_720p()));
    assert_eq!(negotiation.applied(Some("")), LiveStep::ReadFinal);
    assert_eq!(negotiation.finish(""), None);

    let (mut negotiation, _) = LiveNegotiation::start(2, "").unwrap();
    assert_eq!(
        negotiation.applied(Some(LIVE_BODY)),
        LiveStep::Use(VideoProfile::live_1080p())
    );
    let (_, step) = LiveNegotiation::start(1, "").unwrap();
    assert_eq!(step, LiveStep::Apply(VideoProfile::live_720p()));
}

#[test]
fn live_profiles_are_read_and_written() {
    let profile = live_profile_from_config(LIVE_BODY, 1).unwrap();
    assert_eq!((profile.width, profile.height, profile.fps), (1920, 1080, 15));
    assert!(live_profile_from_config(LIVE_BODY, 0).is_none());
    let params = live_profile_params(1, VideoProfile::live_720p());
    assert!(params.starts_with("Encode%5B0%5D.ExtraFormat%5B1%5D.VideoEnable=true&"));
    assert!(params.contains("&Encode%5B0%5D.ExtraFormat%5B1%5D.Video.resolution=1280x720&"));
    assert!(params.contains("&Encode%5B0%5D.ExtraFormat%5B1%5D.Video.Width=1280&"));
    assert!(ai_gop_params("", 1, 15).is_none());
    assert_eq!(
        ai_gop_params("table.Encode[0].ExtraFormat[1].Video.AiGOP=30", 1, 15).as_deref(),
        Some("Encode%5B0%5D.ExtraFormat%5B1%5D.Video.AiGOP=15")
    );
}

#[test]
fn recording_modes_follow_the_camera() {
    let camera = EncoderCapabilities {
        main_resolutions: vec![(1280, 720)],
        extra_resolutions: vec![],
        snapshot_resolutions: vec![(1280, 720), (1920, 1080)],
        main_bitrate_range: None,
        extra_bitrate_range: None,
        main_fps_max: Some(15),
        extra_fps_max: None,
    };
    assert_eq!(camera.recording_attributes(), vec![(1280, 720, 15)]);
    assert_eq!(camera.best_snapshot_resolution(), Some((1920, 1080)));
    assert_eq!(parse_encoder_capabilities("").best_snapshot_resolution(), None);
}

#[test]
fn settings_are_applied_and_kept() {
    let text = "[{\"Video\":{\"FPS\":15,\"Profile\":\"Main\"},\"On\":true}]";
    let mut table = Table::from_text(text).unwrap();
    let desired = settings(&[
        ("Encode[0].Video.FPS", "10"),
        ("Encode[0].Video.Profile", "Main"),
        ("Encode[0].On", "false"),
        ("Encode[0].Missing", "1"),
    ]);
    assert_eq!(apply_settings(&mut table, "Encode", &desired), 2);
    assert_eq!(table.get("/0/Video/FPS"), Some(SettingValue::Int(10)));
    assert_eq!(table.get("/0/On"), Some(SettingValue::Bool(false)));
    assert_eq!(table.get("/0/Missing"), None);
    assert!(unapplied_rpc_settings("Encode", &table, &desired).is_empty());
    assert_eq!(apply_settings(&mut table, "Encode", &desired), 0);
    let written = table.to_text();
    assert!(written.contains("\"FPS\":10"));
    assert_eq!(
        Table::from_text(&written).unwrap().get("/0/Video/Profile"),
        Some(SettingValue::Text("Main".into()))
    );
    assert!(Table::from_text("{").is_none());
}

#[test]
fn every_kind_of_value_is_told_apart() {
    let table =
        Table::from_text("{\"n\":null,\"u\":18446744073709551615,\"f\":1.5,\"a\":[],\"o\":{}}")
            .unwrap();
    assert_eq!(table.get("/n"), Some(SettingValue::Null));
    assert_eq!(table.get("/u"), Some(SettingValue::UInt(u64::MAX)));
    assert_eq!(table.get("/f"), Some(SettingValue::Float(1.5f64.to_bits())));
    assert_eq!(table.get("/a"), Some(SettingValue::Array));
    assert_eq!(table.get("/o"), Some(SettingValue::Object));
    assert_eq!(
        config_value_like(&SettingValue::Float(1.5f64.to_bits()), "2.5"),
        Some(SettingValue::Float(2.5f64.to_bits()))
    );
    assert_eq!(config_value_like(&SettingValue::Bool(true), "yes"), None);
    assert_eq!(config_value_like(&SettingValue::Int(1), "x"), None);
}

#[test]
fn media_settings_are_grouped_by_table() {
    for ir in [true, false] {
        let tables = media_tables(ir);
        let names: Vec<&str> = tables.iter().map(|t| t.name.as_str()).collect();
        let mut sorted = names.clone();
        sorted.sort();
        assert_eq!(names, sorted);
        let count: usize = tables.iter().map(|t| t.settings.len()).sum();
        assert_eq!(count, standard_media_profile(ir).iter().flatten().count());
        for t in &tables {
            assert!(t.settings.iter().all(|s| config_name(&s.0).as_deref() == Some(t.name.as_str())));
        }
        let keys: HashSet<_> =
            tables.iter().flat_map(|t| t.settings.iter().map(|s| s.0.clone())).collect();
        assert_eq!(keys.len(), count);
    }
}

#[test]
fn detection_profile_has_every_region_and_window() {
    let motion = motion_profile();
    assert_eq!(motion.len(), 22 + 42 + 90 + 24);
    let value = |key: &str| motion.iter().find(|s| s.0 == key).map(|s| s.1.as_str());
    assert_eq!(
        value("MotionDetect[0].EventHandler.TimeSection[6][0]"),
        Some("1 00:00:00-23:59:59")
    );
    assert_eq!(
        value("MotionDetect[0].EventHandler.TimeSection[6][5]"),
        Some("0 00:00:00-23:59:59")
    );
    assert_eq!(value("MotionDetect[0].Region[17]"), Some("4194303"));
    assert_eq!(value("MotionDetect[0].MotionDetectWindow[0].Region[17]"), Some("4194303"));
    assert_eq!(value("MotionDetect[0].MotionDetectWindow[3].Region[0]"), Some("0"));
    assert_eq!(value("MotionDetect[0].MotionDetectWindow[0].Window[2]"), Some("8191"));
    assert_eq!(value("MotionDetect[0].MotionDetectWindow[1].Window[2]"), Some("0"));
    let tables = smart_motion_profile();
    let names: Vec<&str> = tables.iter().map(|t| t.name.as_str()).collect();
    assert_eq!(names, ["VideoAnalyseRule", "SmartMotionDetect", "MotionDetect"]);
}

#[test]
fn refused_detection_settings_are_named() {
    let refused = AmcrestClient::refused_smart_motion(
        "table.VideoAnalyseRule[0][0].Enable=true",
        "table.SmartMotionDetect[0].Enable=true",
        "table.MotionDetect[0].Level=6",
    );
    assert_eq!(refused, ["VideoAnalyseRule[0][0].Enable", "MotionDetect[0].Level"]);
}

#[test]
fn encoder_settings_hold_the_selection() {
    let desired = recording_encoder_settings(1920, 1080, 15, 60, 2000, 32000);
    let value = |key: &str| desired.iter().find(|s| s.0 == key).map(|s| s.1.as_str());
    assert_eq!(value("Encode[0].MainFormat[0].Video.Width"), Some("1920"));
    assert_eq!(value("Encode[0].MainFormat[0].Video.GOP"), Some("60"));
    assert_eq!(value("Encode[0].MainFormat[0].Video.Profile"), Some("High"));
    assert_eq!(value("Encode[0].MainFormat[0].Audio.Frequency"), Some("32000"));
    assert_eq!(desired.len(), 22);
    assert_eq!(snapshot_settings()[2].1, "6");
}

#[test]
fn urls_and_steps_of_requests() {
    let client = AmcrestClient::new("cam".into(), "user".into(), "p@ss".into());
    assert_eq!(client.url("/cgi-bin/x"), "http://cam/cgi-bin/x");
    assert!(client.rtsp_url(2).contains("subtype=2"));
    assert_eq!(AmcrestClient::http_step(200, false), HttpStep::Use);
    assert_eq!(AmcrestClient::http_step(401, false), HttpStep::Authenticate);
    assert_eq!(AmcrestClient::http_step(401, true), HttpStep::Fail);
    assert_eq!(AmcrestClient::http_step(500, false), HttpStep::Fail);
    assert_eq!(AmcrestClient::parse_device_type("type=IP8M-2796E-AI\r\n"), "IP8M-2796E-AI");
    assert_eq!(AmcrestClient::parse_device_type(" plain "), "plain");
    assert_eq!(
        AmcrestClient::set_config_path("A=1"),
        "/cgi-bin/configManager.cgi?action=setConfig&A=1"
    );
    assert!(AmcrestClient::config_accepted("OK\r\n"));
    assert!(!AmcrestClient::config_accepted("Error"));
    assert_eq!(
        event_stream_path(),
        "/cgi-bin/eventManager.cgi?action=attach&codes=[SmartMotionHuman,SmartMotionVehicle,CrossLineDetection,CrossRegionDetection]"
    );
}

#[test]
fn digest_challenges_are_answered() {
    let client = AmcrestClient::new("cam".into(), "Mufasa".into(), "Circle Of Life".into());
    let challenge = "Digest realm=\"testrealm@host.com\", qop=\"auth\", nonce=\"dcd98b7102dd2f0e8b11d0f600bfb0c093\", opaque=\"5ccc069c403ebaf9f0171e9517f40e41\"";
    let answer = client.authorization(challenge, "/dir/index.html", "0a4f113b").unwrap();
    assert!(answer.starts_with("Digest username=\"Mufasa\""));
    assert!(answer.contains("response=\"6629fae49393a05397450978507c4ef1\""));
    assert!(client.authorization("Basic realm=x", "/", "00").is_none());
}

#[test]
fn logins_answer_the_camera() {
    let client = AmcrestClient::new("cam".into(), "admin".into(), "secret".into());
    let answer = Table::from_text(
        "{\"session\":\"s1\",\"params\":{\"realm\":\"Login to X\",\"random\":\"42\"}}",
    )
    .unwrap();
    let challenge = login_challenge(&answer).unwrap();
    assert_eq!(challenge.session, "s1");
    let hash = client.login_hash(&challenge.realm, &challenge.random);
    assert_eq!(hash.len(), 32);
    assert!(hash.chars().all(|c| c.is_ascii_hexdigit() && !c.is_ascii_lowercase()));
    assert_ne!(hash, client.login_hash(&challenge.realm, "43"));
    let fault = |text: &str| login_challenge(&Table::from_text(text).unwrap()).unwrap_err();
    assert_eq!(fault("{}"), LoginError::NoSession);
    assert_eq!(fault("{\"session\":\"s\"}"), LoginError::NoParams);
    assert_eq!(fault("{\"session\":\"s\",\"params\":{}}"), LoginError::NoRealm);
    assert_eq!(
        fault("{\"session\":\"s\",\"params\":{\"realm\":\"r\"}}"),
        LoginError::NoRandom
    );
}

#[test]
fn rpc_answers_are_checked() {
    let ok = Table::from_text("{\"result\":true}").unwrap();
    let not = Table::from_text("{\"result\":false}").unwrap();
    assert!(AmcrestClient::require_rpc_success(&ok));
    assert!(!AmcrestClient::require_rpc_success(&not));
    assert!(AmcrestClient::rpc_retry_delay(1).is_some());
    assert!(AmcrestClient::rpc_retry_delay(200).is_none());
}

#[test]
fn events_come_out_of_the_stream_however_it_is_cut() {
    let stream = b"--myboundary\r\nContent-Type: text/plain\r\n\r\nCode=SmartMotionHuman;action=Start;index=3;data={\n\"a\": 1}\r\nCode=CrossLineDetection;action=Stop;index=0;data={\"o\": \"Vehicle\"}\r\n";
    let mut whole = EventBuffer::new();
    let events = whole.feed(stream, 5);
    assert_eq!(events.len(), 2);
    assert_eq!(events[0].code, "SmartMotionHuman");
    assert_eq!(events[0].action, "Start");
    assert_eq!(events[0].index, 3);
    assert_eq!(events[0].data, "null");
    assert_eq!(events[0].timestamp, 5);
    assert_eq!(events[1].data, "{\"o\":\"Vehicle\"}");
    for cut in 0..stream.len() {
        let mut buffer = EventBuffer::new();
        let mut parts = buffer.feed(&stream[..cut], 5);
        parts.extend(buffer.feed(&stream[cut..], 5));
        assert_eq!(parts.len(), 2);
        assert_eq!(parts[1].clone().data, "{\"o\":\"Vehicle\"}");
    }
}

#[test]
fn event_lines_need_a_code_and_an_action() {
    let mut buffer = EventBuffer::new();
    assert!(buffer.feed(b"Code=X;index=1\nHeartbeat\n", 0).is_empty());
    assert_eq!(buffer.feed(b"Code=X;action=Start;index=no\n", 0)[0].index, 0);
}

#[test]
fn overlays_are_changed_only_where_they_differ() {
    assert!(overlay_requests("").is_empty());
    let body = "table.VideoWidget[0].FontSize=36\n\
                table.VideoWidget[0].FontBorder=false\n\
                table.VideoWidget[0].TimeTitle.FrontColor[0]=1\n\
                table.VideoWidget[0].CustomTitle[1].EncodeBlend=true\n\
                table.VideoWidget[0].CustomTitle[1].PreviewBlend=false\n\
                table.VideoWidget[0].PTZZoom.EncodeBlend=false\n\
                table.VideoWidget[0].PTZZoom.PreviewBlend=false\n";
    assert_eq!(
        overlay_requests(body),
        [
            "VideoWidget%5B0%5D.FontBorder=true&VideoWidget%5B0%5D.TimeTitle.FrontColor%5B0%5D=255",
            "VideoWidget%5B0%5D.CustomTitle%5B1%5D.EncodeBlend=false&VideoWidget%5B0%5D.CustomTitle%5B1%5D.PreviewBlend=false",
        ]
    );
}

#[test]
fn week_positions_follow_the_camera() {
    let words = "table.VideoWidget[0].TimeTitle.WeekPosition=Left\n";
    assert_eq!(
        overlay_requests(words),
        ["VideoWidget%5B0%5D.TimeTitle.WeekPosition=Right"]
    );
    let numbers = "table.VideoWidget[0].TimeTitle.WeekPosition=1\n";
    assert_eq!(overlay_requests(numbers), ["VideoWidget%5B0%5D.TimeTitle.WeekPosition=0"]);
    assert!(overlay_requests("table.VideoWidget[0].FontSizeScale=1.000000\n").is_empty());
}

#[test]
fn unreadable_event_data_is_null() {
    let mut buffer = EventBuffer::new();
    let events = buffer.feed(b"Code=X;action=Start;index=1;data={\"a\": \nCode=Y;action=Start\n", 0);
    assert_eq!(events[0].data, "null");
    assert_eq!(events[1].data, "null");
    let events = buffer.feed(b"Code=X;action=Start;data={ \"b\" : [ 1, 2 ] }\n", 0);
    assert_eq!(events[0].data, "{\"b\":[1,2]}");
}

#[test]
fn the_illuminator_changes_four_settings() {
    let with = standard_media_profile(true);
    let without = standard_media_profile(false);
    let with: Vec<_> = with.iter().flatten().collect();
    let without: Vec<_> = without.iter().flatten().collect();
    assert_eq!(with.len(), without.len());
    let mut changed = Vec::new();
    for (a, b) in with.iter().zip(&without) {
        assert_eq!(a.0, b.0);
        if a.1 != b.1 {
            changed.push((a.0.as_str(), a.1.as_str(), b.1.as_str()));
        }
    }
    assert_eq!(
        changed,
        [
            ("VideoInOptions[0].SmartIRExposure", "true", "false"),
            ("Lighting[0][0].Mode", "Auto", "Off"),
            ("Lighting[0][1].Mode", "Auto", "Off"),
            ("Lighting[0][2].Mode", "Auto", "Off"),
        ]
    );
}

#[test]
fn tables_are_taken_out_of_their_answers() {
    let answer = Table::from_text("{\"params\":{\"table\":[{\"On\":true}]},\"result\":true}").unwrap();
    let table = config_table(&answer).unwrap();
    assert_eq!(table.get("/0/On"), Some(SettingValue::Bool(true)));
    assert_eq!(table.get("/params"), None);
    assert_eq!(table.to_text(), "[{\"On\":true}]");
    for text in ["{\"params\":{}}", "{\"table\":1}", "{\"params\":[1]}", "[]", "null"] {
        assert!(config_table(&Table::from_text(text).unwrap()).is_none());
    }
}

#[test]
fn tables_are_written_where_they_differ_and_judged_afterwards() {
    let wanted = TableSettings {
        name: "Encode".into(),
        settings: settings(&[("Encode[0].FPS", "10"), ("Encode[0].On", "true"), ("Encode[0].No", "1")]),
    };
    let text = "[{\"FPS\":15,\"On\":true}]";
    let mut table = Table::from_text(text).unwrap();
    assert_eq!(judge_readback(&table, &wanted), Err(vec!["Encode[0].FPS".to_string()]));
    assert_eq!(table_step(&mut table, &wanted, true), (1, TableStep::Write));
    assert_eq!(table.to_text(), "[{\"FPS\":10,\"On\":true}]");
    assert_eq!(judge_readback(&table, &wanted), Ok(()));
    assert_eq!(table_step(&mut table, &wanted, true), (0, TableStep::Keep));
    let mut table = Table::from_text(text).unwrap();
    assert_eq!(table_step(&mut table, &wanted, false), (1, TableStep::Keep));
}

#[test]
fn rpc_requests_are_json() {
    let client = AmcrestClient::new("10.0.0.2".into(), "ad\"min".into(), "secret".into());
    assert_eq!(
        client.challenge_request(),
        "{\"id\":1,\"method\":\"global.login\",\"params\":{\"clientType\":\"Web3.0\",\
         \"password\":\"\",\"userName\":\"ad\\\"min\"}}"
    );
    let login = Table::from_text(&client.login_request("ABC", "s\\1")).unwrap();
    assert_eq!(login.get("/id"), Some(SettingValue::Int(2)));
    assert_eq!(login.get("/session"), Some(SettingValue::Text("s\\1".into())));
    assert_eq!(login.get("/params/password"), Some(SettingValue::Text("ABC".into())));
    assert_eq!(login.get("/params/userName"), Some(SettingValue::Text("ad\"min".into())));
    assert_eq!(login.get("/params/authorityType"), Some(SettingValue::Text("Default".into())));
    assert_eq!(login.get("/params/passwordType"), Some(SettingValue::Text("Default".into())));
    assert_eq!(
        AmcrestClient::get_config_request("Encode", 3, "77"),
        "{\"id\":3,\"method\":\"configManager.getConfig\",\"params\":{\"name\":\"Encode\"},\
         \"session\":\"77\"}"
    );
    let table = Table::from_text("[{\"On\":true}]").unwrap();
    assert_eq!(
        AmcrestClient::set_config_request("Encode", &table, 4, "77"),
        "{\"id\":4,\"method\":\"configManager.setConfig\",\"params\":{\"name\":\"Encode\",\
         \"options\":[],\"table\":[{\"On\":true}]},\"session\":\"77\"}"
    );
}

#[test]
fn an_incomplete_challenge_is_named() {
    for (text, words) in [
        ("{}", "RPC2 login challenge omitted session"),
        ("{\"session\":\"1\"}", "RPC2 login challenge omitted params"),
        ("{\"session\":\"1\",\"params\":{}}", "RPC2 login challenge omitted realm"),
        (
            "{\"session\":\"1\",\"params\":{\"realm\":\"r\"}}",
            "RPC2 login challenge omitted random",
        ),
    ] {
        let answer = Table::from_text(text).unwrap();
        assert_eq!(login_challenge(&answer).err().unwrap().message(), words);
    }
}
