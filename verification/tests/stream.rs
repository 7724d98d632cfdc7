use amcrust::metrics::Metrics;
use amcrust::stream::config::{supported_audio_config, supported_rtp_config, supported_video_config};
use amcrust::stream::h264::h264_contains_idr;
use amcrust::stream::manager::{parse_setup, SetupRequest, SetupWrite, StreamManager};
use amcrust::stream::selection::{
    audio_arguments, clock_ratio, parse_command, video_arguments, StreamCommand,
};
use amcrust::tlv8::{find, find_u16, find_u32, find_u8, parse, Writer};

#[test]
fn detects_single_and_fragmented_h264_idr_packets() {
    let mut single = vec![0x80, 99, 0, 1, 0, 0, 0, 1, 0, 0, 0, 42];
    single.extend_from_slice(&[0x65, 1, 2, 3]);
    assert!(h264_contains_idr(&single));

    let mut fua = vec![0x80, 99, 0, 2, 0, 0, 0, 2, 0, 0, 0, 42];
    fua.extend_from_slice(&[0x7c, 0x85, 1, 2, 3]);
    assert!(h264_contains_idr(&fua));
    fua[13] = 0x05;
    assert!(!h264_contains_idr(&fua));
}

#[test]
fn finds_key_frames_behind_longer_headers_and_in_aggregates() {
    let mut extended = vec![0x91, 99, 0, 1, 0, 0, 0, 1, 0, 0, 0, 42];
    extended.extend_from_slice(&[0, 0, 0, 7]);
    extended.extend_from_slice(&[0xab, 0xcd, 0, 1, 9, 9, 9, 9]);
    extended.push(0x65);
    assert!(h264_contains_idr(&extended));
    assert!(!h264_contains_idr(&extended[..18]));

    let mut stap = vec![0x80, 99, 0, 1, 0, 0, 0, 1, 0, 0, 0, 42];
    stap.extend_from_slice(&[24, 0, 2, 0x67, 1, 0, 1, 0x65]);
    assert!(h264_contains_idr(&stap));
    let last = stap.len() - 1;
    stap[last] = 0x68;
    assert!(!h264_contains_idr(&stap));
    stap[14] = 0;
    assert!(!h264_contains_idr(&stap));
    assert!(!h264_contains_idr(&[0x40; 20]));
    assert!(!h264_contains_idr(&[0x80; 12]));
}

fn setup_payload(id: &[u8]) -> Vec<u8> {
    let address = Writer::new()
        .u8(0x01, 0)
        .bytes(0x02, b"192.168.1.9")
        .u16(0x03, 5000)
        .u16(0x04, 5002)
        .build();
    let srtp = Writer::new().u8(0x01, 0).bytes(0x02, &[1; 16]).bytes(0x03, &[2; 14]).build();
    Writer::new()
        .bytes(0x01, id)
        .bytes(0x03, &address)
        .bytes(0x04, &srtp)
        .bytes(0x05, &srtp)
        .build()
}

fn request(id: &[u8]) -> SetupRequest {
    match parse_setup(&setup_payload(id)) {
        SetupWrite::Request(request) => request,
        _ => panic!("a request"),
    }
}

fn manager() -> StreamManager {
    StreamManager::new(
        "rtsp://video".into(),
        "rtsp://audio".into(),
        true,
        "10.0.0.5".into(),
        false,
    )
}

#[test]
fn setup_writes_are_told_apart() {
    let r = request(&[7; 16]);
    assert_eq!(r.session_id, vec![7; 16]);
    assert_eq!(r.controller_ip, "192.168.1.9");
    assert_eq!((r.video_port, r.audio_port), (5000, 5002));
    let echo = Writer::new().bytes(0x01, &[7; 16]).u8(0x02, 0).build();
    assert!(matches!(parse_setup(&echo), SetupWrite::Echo));
    assert!(matches!(parse_setup(&[]), SetupWrite::NoSessionId));
}

#[test]
fn setup_is_answered_with_our_address() {
    let mut m = manager();
    assert!(m.setup_read().is_none());
    let (video_ssrc, audio_ssrc) = m.finish_setup(request(&[7; 16]), 6000, 6002);
    let answer = m.setup_read().unwrap();
    let items = parse(&answer);
    assert_eq!(find(&items, 0x01).unwrap(), &[7; 16]);
    assert_eq!(find_u8(&items, 0x02), Some(0));
    assert_eq!(find(&items, 0x04), find(&parse(&setup_payload(&[7; 16])), 0x04));
    assert_eq!(find_u32(&items, 0x06), Some(video_ssrc));
    assert_eq!(find_u32(&items, 0x07), Some(audio_ssrc));
    let address = parse(find(&items, 0x03).unwrap());
    assert_eq!(find_u8(&address, 0x01), Some(0));
    assert_eq!(find(&address, 0x02).unwrap(), b"10.0.0.5");
    assert_eq!(find_u16(&address, 0x03), Some(6000));
    assert_eq!(find_u16(&address, 0x04), Some(6002));
    assert!(matches!(parse_setup(&answer), SetupWrite::Echo));
    assert_eq!(m.streaming_status(), vec![1, 1, 0]);
}

#[test]
fn drawn_ssrcs_are_positive_and_differ() {
    let mut m = manager();
    let mut seen = Vec::new();
    for i in 0..8u8 {
        let (v, a) = m.finish_setup(request(&[i; 16]), 1, 2);
        assert!(v >= 1 && v < 0x7fff_ffff && a >= 1 && a < 0x7fff_ffff);
        seen.push(v);
        seen.push(a);
    }
    assert!(seen.iter().any(|n| n != &seen[0]));
}

#[test]
fn streams_are_counted_while_they_run() {
    let mut metrics = Metrics::new();
    let mut m = manager();
    m.accept_setup(request(&[1; 16]), 1, 2, 11, 12);
    m.accept_setup(request(&[2; 16]), 1, 2, 21, 22);
    assert!(m.start_stream(None, &mut metrics).is_none());
    assert!(m.start_stream(Some(&[3; 16]), &mut metrics).is_none());
    let first = m.start_stream(Some(&[1; 16]), &mut metrics).unwrap();
    assert_eq!((first.video_ssrc, first.audio_ssrc), (11, 12));
    let mut key = vec![1; 16];
    key.extend_from_slice(&[2; 14]);
    assert_eq!(first.video_key, key);
    assert!(m.plays_audio(&first));
    m.video_started(first.id.clone(), &mut metrics);
    assert_eq!(metrics.counters().live_connections, 1);
    assert!(m.start_stream(Some(&[1; 16]), &mut metrics).is_none());
    let second = m.start_stream(None, &mut metrics).unwrap();
    m.video_started(second.id.clone(), &mut metrics);
    m.video_started(second.id.clone(), &mut metrics);
    assert_eq!(metrics.counters().live_connections, 2);
    m.end_session(Some(&[1; 16]), &mut metrics);
    assert_eq!(metrics.counters().live_connections, 1);
    m.end_session(None, &mut metrics);
    assert_eq!(metrics.counters().live_connections, 0);
    assert_eq!(metrics.counters().live_stream_starts, 3);
}

#[test]
fn a_session_is_replaced_by_one_with_its_id() {
    let mut metrics = Metrics::new();
    let mut m = manager();
    m.accept_setup(request(&[1; 16]), 1, 2, 11, 12);
    m.accept_setup(request(&[1; 16]), 1, 2, 31, 32);
    assert_eq!(m.start_stream(None, &mut metrics).unwrap().video_ssrc, 31);
    m.accept_setup(request(&[1; 16]), 1, 2, 41, 42);
    m.stop_stream(&mut metrics);
    assert!(m.setup_read().is_none());
    assert!(m.start_stream(None, &mut metrics).is_none());
    assert!(m.audio_enabled());
    assert_eq!((m.rtsp_url(), m.audio_rtsp_url()), ("rtsp://video", "rtsp://audio"));
}

fn command(code: u8) -> Vec<u8> {
    let control = Writer::new().bytes(0x01, &[7; 16]).u8(0x02, code).build();
    let rtp = Writer::new().u8(0x01, 98).u16(0x05, 1200).build();
    let video = Writer::new().bytes(0x04, &rtp).build();
    let codec = Writer::new().u8(0x03, 2).u8(0x04, 30).build();
    let audio_rtp =
        Writer::new().u8(0x01, 111).u16(0x03, 24).bytes(0x04, &0.25f32.to_le_bytes()).build();
    let audio = Writer::new().bytes(0x02, &codec).bytes(0x03, &audio_rtp).build();
    Writer::new().bytes(0x01, &control).bytes(0x02, &video).bytes(0x03, &audio).build()
}

#[test]
fn commands_are_read() {
    match parse_command(&command(1)) {
        StreamCommand::Start(id, s) => {
            assert_eq!(id, Some(vec![7; 16]));
            assert_eq!((s.payload_type, s.max_mtu), (98, 1200));
            assert_eq!((s.audio_payload_type, s.audio_rate_hz), (111, 24000));
            assert_eq!((s.audio_packet_time, s.audio_max_bitrate), (30, 24));
            assert_eq!(s.audio_rtcp_interval, 0.25f32.to_bits());
        }
        _ => panic!("a start"),
    }
    assert!(matches!(parse_command(&command(0)), StreamCommand::End(Some(_))));
    assert!(matches!(parse_command(&command(2)), StreamCommand::End(Some(_))));
    assert!(matches!(parse_command(&command(3)), StreamCommand::Ignored));
    assert!(matches!(parse_command(&command(4)), StreamCommand::Ignored));
    assert!(matches!(parse_command(&command(9)), StreamCommand::Unknown(Some(9))));
    assert!(matches!(parse_command(&[]), StreamCommand::Unknown(None)));
}

#[test]
fn a_start_has_defaults() {
    let control = Writer::new().u8(0x02, 1).build();
    match parse_command(&Writer::new().bytes(0x01, &control).build()) {
        StreamCommand::Start(id, s) => {
            assert!(id.is_none());
            assert_eq!((s.payload_type, s.max_mtu, s.audio_payload_type), (99, 1316, 110));
            assert_eq!((s.audio_rate_hz, s.audio_packet_time, s.audio_max_bitrate), (16000, 20, 32));
            assert_eq!(s.audio_rtcp_interval, 0.5f32.to_bits());
        }
        _ => panic!("a start"),
    }
}

#[test]
fn ffmpeg_arguments_hold_the_selection() {
    let video = video_arguments("rtsp://cam", 99, 1234, 6000, 6001, 9000);
    assert_eq!(video.last().unwrap(), "rtp://127.0.0.1:6000?rtcpport=6001&pkt_size=1378");
    assert_eq!(video.len(), 29);
    assert_eq!(&video[22..26], ["-payload_type", "99", "-ssrc", "1234"]);
    assert!(video_arguments("", 0, 0, 0, 0, 1).last().unwrap().ends_with("pkt_size=188"));
    let selection = match parse_command(&command(1)) {
        StreamCommand::Start(_, s) => s,
        _ => panic!("a start"),
    };
    let audio = audio_arguments("rtsp://cam", &selection, 77, 7000, 7001);
    assert_eq!(audio.last().unwrap(), "rtp://127.0.0.1:7000?rtcpport=7001");
    let after = |flag: &str| {
        let i = audio.iter().position(|a| a == flag).unwrap();
        audio[i + 1].clone()
    };
    assert_eq!(after("-frame_duration:a"), "20");
    assert_eq!(after("-ar"), "24000");
    assert_eq!(after("-b:a"), "24k");
    assert_eq!(after("-payload_type"), "111");
    assert_eq!(after("-ssrc"), "77");
    assert_eq!(clock_ratio(16000), 3);
    assert_eq!(clock_ratio(24000), 2);
    assert_eq!(clock_ratio(0), 48000);
}

#[test]
fn offered_live_streams() {
    let codec = parse(find(&parse(&supported_video_config()), 0x01).unwrap());
    assert_eq!(find_u8(&codec, 0x01), Some(0));
    let modes: Vec<u16> = codec
        .iter()
        .filter(|i| i.tag == 0x03)
        .map(|i| find_u16(&parse(&i.value), 0x01).unwrap())
        .collect();
    assert_eq!(modes, vec![1280, 640, 480, 320]);
    let params = parse(find(&codec, 0x02).unwrap());
    assert_eq!(params.iter().filter(|i| i.tag == 0x01).count(), 3);
    assert_eq!(find_u8(&params, 0x03), Some(0));
    assert_eq!(
        supported_audio_config(),
        vec![1, 14, 1, 1, 3, 2, 9, 1, 1, 1, 2, 1, 0, 3, 1, 1, 2, 1, 0]
    );
    assert_eq!(supported_rtp_config(), vec![2, 1, 0]);
}
