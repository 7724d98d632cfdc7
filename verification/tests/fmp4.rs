use amcrust::hsv::fmp4::{Fragment, Recorder, RecorderConfig, Splitter, StreamFault};
use amcrust::metrics::Metrics;

fn mp4_box(kind: &[u8; 4], body: &[u8]) -> Vec<u8> {
    let mut b = ((8 + body.len()) as u32).to_be_bytes().to_vec();
    b.extend_from_slice(kind);
    b.extend_from_slice(body);
    b
}

fn large_box(kind: &[u8; 4], body: &[u8]) -> Vec<u8> {
    let mut b = 1u32.to_be_bytes().to_vec();
    b.extend_from_slice(kind);
    b.extend_from_slice(&((16 + body.len()) as u64).to_be_bytes());
    b.extend_from_slice(body);
    b
}

#[test]
fn output_is_split_however_it_is_cut() {
    let mut init = mp4_box(b"ftyp", b"isom");
    init.extend(mp4_box(b"moov", b"tracks"));
    let mut first = mp4_box(b"moof", b"one");
    first.extend(mp4_box(b"mdat", b"frame"));
    let mut second = mp4_box(b"moof", b"two");
    second.extend(large_box(b"mdat", b"more"));
    let mut stream = init.clone();
    stream.extend(&first);
    stream.extend(mp4_box(b"free", b"ignored"));
    stream.extend(&second);
    for cut in 0..stream.len() {
        let mut splitter = Splitter::new();
        let mut fragments = splitter.feed(&stream[..cut]);
        fragments.extend(splitter.feed(&stream[cut..]));
        assert_eq!(fragments, vec![first.clone(), second.clone()]);
        assert_eq!(splitter.init(), &init[..]);
        assert_eq!(splitter.fault(), None);
    }
}

#[test]
fn boxes_without_a_size_end_the_stream() {
    let mut splitter = Splitter::new();
    assert!(splitter.feed(&[0, 0, 0, 0, b'f', b'r', b'e', b'e']).is_empty());
    assert_eq!(splitter.fault(), Some(StreamFault::SizeZero));
    assert!(splitter.feed(&mp4_box(b"moof", b"")).is_empty());
    let mut splitter = Splitter::new();
    splitter.feed(&[0, 0, 0, 7, b'f', b'r', b'e', b'e']);
    assert_eq!(splitter.fault(), Some(StreamFault::InvalidSize(7)));
    let mut splitter = Splitter::new();
    splitter.feed(&[0, 0, 0, 1, b'f', b'r', b'e', b'e', 0, 0, 0, 0, 0, 0, 0, 15]);
    assert_eq!(splitter.fault(), Some(StreamFault::InvalidSize(15)));
}

fn config(audio: bool) -> RecorderConfig {
    RecorderConfig {
        rtsp_url: "rtsp://cam".into(),
        audio,
        fragment_ms: 4000,
        prebuffer_ms: 4000,
    }
}

#[test]
fn recorders_start_over_only_for_other_settings() {
    let mut recorder = Recorder::new();
    let start = recorder.start(config(true)).unwrap();
    assert_eq!(start.generation, 1);
    assert!(start.arguments.windows(2).any(|a| a == ["-c:a", "copy"]));
    assert!(!recorder.is_running());
    recorder.spawned();
    assert!(recorder.is_running());
    assert!(recorder.start(config(true)).is_none());
    let again = recorder.start(config(false)).unwrap();
    assert_eq!(again.generation, 2);
    assert!(again.arguments.iter().any(|a| a == "-an"));
    assert_eq!(again.arguments.last().unwrap(), "pipe:1");
    recorder.spawned();
    assert!(recorder.stop());
    assert!(!recorder.stop());
    assert_eq!(recorder.generation(), 4);
}

#[test]
fn the_prebuffer_holds_the_latest_fragments() {
    let mut metrics = Metrics::new();
    let mut recorder = Recorder::new();
    let generation = recorder.start(config(true)).unwrap().generation;
    let fragment = |n: u8, at: u64| Fragment { data: vec![n; 10], at };
    assert!(recorder.snapshot().0.is_none());
    for n in 0..4u8 {
        let at = n as u64 * 2000;
        assert!(recorder.fragment_complete(generation, 4000, b"init", fragment(n, at), at, &mut metrics));
    }
    let (init, kept) = recorder.snapshot();
    assert_eq!(init.unwrap(), b"init");
    let numbers: Vec<u8> = kept.iter().map(|f| f.data[0]).collect();
    assert_eq!(numbers, vec![1, 2, 3]);
    for n in 10..30u8 {
        recorder.fragment_complete(generation, 4000, b"other", fragment(n, 6000), 6000, &mut metrics);
    }
    let (init, kept) = recorder.snapshot();
    assert_eq!(init.unwrap(), b"init");
    let numbers: Vec<u8> = kept.iter().map(|f| f.data[0]).collect();
    assert_eq!(numbers, (22..30).collect::<Vec<u8>>());
    assert_eq!(metrics.counters().recording_fragments, 24);
    assert_eq!(metrics.counters().recording_bytes, 240);
}

#[test]
fn replaced_processes_are_not_heard() {
    let mut metrics = Metrics::new();
    let mut recorder = Recorder::new();
    let old = recorder.start(config(true)).unwrap().generation;
    let new = recorder.start(config(false)).unwrap().generation;
    let fragment = Fragment { data: vec![1], at: 0 };
    assert!(!recorder.fragment_complete(old, 4000, b"", fragment.clone(), 0, &mut metrics));
    assert!(recorder.snapshot().1.is_empty());
    assert!(!recorder.stream_ended(old, &mut metrics));
    assert_eq!(metrics.counters().errors_recording, 0);
    assert!(recorder.stream_ended(new, &mut metrics));
    assert_eq!(metrics.counters().errors_recording, 1);
    assert_eq!(metrics.counters().recording_fragments, 0);
}

#[test]
fn stream_faults_have_words() {
    assert_eq!(amcrust::hsv::fmp4::StreamFault::SizeZero.message(), "box with size 0");
    assert_eq!(
        amcrust::hsv::fmp4::StreamFault::InvalidSize(7).message(),
        "invalid box size 7"
    );
}
