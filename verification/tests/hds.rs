use amcrust::hsv::codec::{encode_to_vec, Decoder, Value};
use amcrust::hsv::data_send::{
    close_header, close_message, close_reason, data_header, data_messages, Recording,
    RecordingFault, FRAGMENT_TIMEOUT, MAX_CHUNK,
};
use amcrust::hsv::frame::{decrypt_frame, derive_keys, encrypt_frame, FrameError};
use amcrust::hsv::hds::{take_frame, Accepted, Connection, FrameWriter, HdsError, HdsServer};

const SECRET: [u8; 32] = [5; 32];
const CONTROLLER_SALT: [u8; 32] = [1; 32];

fn message(entries: Vec<(&str, Value)>, body: Value) -> Vec<u8> {
    let header = encode_to_vec(&Value::dict(entries));
    let mut payload = vec![header.len() as u8];
    payload.extend(header);
    payload.extend(encode_to_vec(&body));
    payload
}

fn text(s: &str) -> Value {
    Value::String(s.into())
}

fn hello() -> Vec<u8> {
    message(
        vec![("protocol", text("control")), ("request", text("hello")), ("id", Value::Int(9))],
        Value::Dict(vec![]),
    )
}

fn open(stream: i64) -> Vec<u8> {
    message(
        vec![("protocol", text("dataSend")), ("request", text("open")), ("id", Value::Int(4))],
        Value::dict(vec![
            ("streamId", Value::Int(stream)),
            ("type", text("ipcamera.recording")),
        ]),
    )
}

fn event(topic: &str, stream: Option<i64>) -> Vec<u8> {
    let body = match stream {
        Some(id) => Value::dict(vec![("streamId", Value::Int(id))]),
        None => Value::Dict(vec![]),
    };
    message(vec![("protocol", text("dataSend")), ("event", text(topic))], body)
}

fn connect(server: &mut HdsServer, salt: &[u8; 32]) -> Accepted {
    server.prepare(&SECRET, &CONTROLLER_SALT, salt, 5, 0);
    let keys = derive_keys(&SECRET, &CONTROLLER_SALT, salt);
    let mut counter = 0;
    let mut buffer =
        encrypt_frame(&keys.controller_to_accessory, &mut counter, &hello()).unwrap();
    let number = server.connected();
    Connection::accept(server, number, &mut buffer, 100).unwrap().unwrap()
}

fn greeted(server: &mut HdsServer, salt: &[u8; 32]) -> Connection {
    let mut accepted = connect(server, salt);
    accepted.connection.handle_payload(server, &accepted.payload, Ok(())).unwrap();
    accepted.connection
}

fn status(reply: &(Value, Value)) -> (i64, Option<i64>) {
    (
        reply.0.get("status").unwrap().as_i64().unwrap(),
        reply.1.get("status").and_then(|v| v.as_i64()),
    )
}

#[test]
fn sessions_are_found_by_trial() {
    let mut server = HdsServer::new();
    server.prepare(&SECRET, &CONTROLLER_SALT, &[2; 32], 5, 0);
    server.prepare(&SECRET, &CONTROLLER_SALT, &[3; 32], 5, 0);
    let keys = derive_keys(&SECRET, &CONTROLLER_SALT, &[3; 32]);
    let mut counter = 0;
    let frame = encrypt_frame(&keys.controller_to_accessory, &mut counter, &hello()).unwrap();
    let (found, controller, payload) = server.identify(&frame, 9_999).unwrap();
    assert_eq!(controller, 5);
    assert_eq!(found.accessory_to_controller, keys.accessory_to_controller);
    assert_eq!(payload, hello());
    assert!(server.identify(&frame, 9_999).is_none());
}

#[test]
fn prepared_sessions_expire() {
    let mut server = HdsServer::new();
    server.prepare(&SECRET, &CONTROLLER_SALT, &[2; 32], 5, 0);
    let keys = derive_keys(&SECRET, &CONTROLLER_SALT, &[2; 32]);
    let mut counter = 0;
    let frame = encrypt_frame(&keys.controller_to_accessory, &mut counter, &hello()).unwrap();
    let mut buffer = frame.clone();
    assert_eq!(
        Connection::accept(&mut server, 0, &mut buffer, 10_000).err(),
        Some(HdsError::NoSession)
    );
}

#[test]
fn drawn_salts_differ_and_give_the_session() {
    let mut server = HdsServer::new();
    assert_eq!(server.port(), None);
    server.bound(4711);
    assert_eq!(server.port(), Some(4711));
    let first = server.setup(&SECRET, &CONTROLLER_SALT, 5, 0);
    let second = server.setup(&SECRET, &CONTROLLER_SALT, 5, 0);
    assert_ne!(first, second);
    let keys = derive_keys(&SECRET, &CONTROLLER_SALT, &first);
    let mut counter = 0;
    let frame = encrypt_frame(&keys.controller_to_accessory, &mut counter, &hello()).unwrap();
    assert!(server.identify(&frame, 1).is_some());
}

#[test]
fn hello_comes_first_and_is_answered() {
    let mut server = HdsServer::new();
    let mut accepted = connect(&mut server, &[2; 32]);
    assert_eq!(
        accepted.connection.handle_payload(&mut server, &open(1), Ok(())).err(),
        Some(HdsError::NotHello)
    );
    let reaction =
        accepted.connection.handle_payload(&mut server, &accepted.payload, Ok(())).unwrap();
    let (header, body) = reaction.reply.unwrap();
    assert_eq!(header.get("protocol").unwrap().as_str(), Some("control"));
    assert_eq!(header.get("response").unwrap().as_str(), Some("hello"));
    assert_eq!(header.get("id").unwrap().as_i64(), Some(9));
    assert_eq!(body, Value::Dict(vec![]));
    let frame = accepted.writer.frame(&header, &body).unwrap();
    let keys = derive_keys(&SECRET, &CONTROLLER_SALT, &[2; 32]);
    let mut counter = 0;
    let payload = decrypt_frame(&keys.accessory_to_controller, &mut counter, &frame).unwrap();
    let mut decoder = Decoder::new(&payload[1..]);
    let read = decoder.decode().unwrap().unwrap();
    assert_eq!(read.get("status").unwrap().as_i64(), Some(0));
    assert_eq!(payload[0] as usize, encode_to_vec(&header).len());
}

#[test]
fn frames_follow_in_their_order() {
    let mut server = HdsServer::new();
    let mut connection = connect(&mut server, &[2; 32]).connection;
    let keys = derive_keys(&SECRET, &CONTROLLER_SALT, &[2; 32]);
    let mut counter = 1;
    let first = encrypt_frame(&keys.controller_to_accessory, &mut counter, b"one").unwrap();
    let second = encrypt_frame(&keys.controller_to_accessory, &mut counter, b"two").unwrap();
    connection.receive(&first[..5]);
    assert!(connection.can_open());
    assert_eq!(connection.next_payload(), Ok(None));
    connection.receive(&first[5..]);
    connection.receive(&[2, 0, 0, 1]);
    connection.receive(&[0; 17]);
    connection.receive(&second);
    assert_eq!(connection.next_payload(), Ok(Some(b"one".to_vec())));
    assert_eq!(connection.next_payload(), Ok(Some(b"two".to_vec())));
    connection.receive(&first);
    assert_eq!(
        connection.next_payload(),
        Err(HdsError::Frame(FrameError::DecryptFailed))
    );
}

#[test]
fn frames_of_another_type_are_passed_over() {
    let mut buffer = vec![9, 0, 0, 0];
    buffer.extend_from_slice(&[0; 16]);
    buffer.extend_from_slice(&[1, 0, 0, 1]);
    buffer.extend_from_slice(&[7; 17]);
    buffer.push(1);
    let frame = take_frame(&mut buffer).unwrap().unwrap();
    assert_eq!(&frame[..4], &[1, 0, 0, 1]);
    assert_eq!(buffer, vec![1]);
    assert_eq!(take_frame(&mut buffer), Ok(None));
    let mut long = vec![9, 0, 0, 0];
    long.extend_from_slice(&[0; 16]);
    long.extend_from_slice(&[1, 0xff, 0xff, 0xff, 4]);
    assert_eq!(
        take_frame(&mut long),
        Err(HdsError::Frame(FrameError::FrameTooLarge(0xff_ffff)))
    );
    assert_eq!(long, vec![1, 0xff, 0xff, 0xff, 4]);
}

#[test]
fn one_recording_at_a_time() {
    let mut server = HdsServer::new();
    let mut first = greeted(&mut server, &[2; 32]);
    let mut second = greeted(&mut server, &[3; 32]);
    let opened = first.handle_payload(&mut server, &open(7), Ok(())).unwrap();
    assert_eq!(status(opened.reply.as_ref().unwrap()), (0, Some(0)));
    let (id, stream) = opened.start.unwrap();
    assert_eq!(id, 7);
    assert!(server.delivering(stream));
    let refused = second.handle_payload(&mut server, &open(8), Ok(())).unwrap();
    assert_eq!(status(refused.reply.as_ref().unwrap()), (6, Some(2)));
    assert!(refused.start.is_none());
    second.closed(&mut server);
    assert!(server.delivering(stream));
    first.closed(&mut server);
    assert!(!server.delivering(stream));
    let mut third = greeted(&mut server, &[4; 32]);
    let again = third.handle_payload(&mut server, &open(9), Ok(())).unwrap();
    let (_, later) = again.start.unwrap();
    server.release(stream);
    assert!(server.delivering(later));
    server.release(later);
    assert!(!server.delivering(later));
}

#[test]
fn recordings_are_refused_with_a_reason() {
    let mut server = HdsServer::new();
    let mut c = greeted(&mut server, &[2; 32]);
    let refused = c.handle_payload(&mut server, &open(1), Err(9)).unwrap();
    assert_eq!(status(refused.reply.as_ref().unwrap()), (6, Some(9)));
    let other = message(
        vec![("protocol", text("dataSend")), ("request", text("open"))],
        Value::dict(vec![("type", text("other"))]),
    );
    let refused = c.handle_payload(&mut server, &other, Ok(())).unwrap();
    assert_eq!(status(refused.reply.as_ref().unwrap()), (6, Some(5)));
    let unknown = message(
        vec![("protocol", text("dataSend")), ("request", text("pause"))],
        Value::Dict(vec![]),
    );
    let refused = c.handle_payload(&mut server, &unknown, Ok(())).unwrap();
    assert_eq!(status(refused.reply.as_ref().unwrap()), (4, None));
    let ignored = message(vec![("protocol", text("siri"))], Value::Dict(vec![]));
    assert!(c.handle_payload(&mut server, &ignored, Ok(())).unwrap().reply.is_none());
}

#[test]
fn close_and_ack_stop_a_recording() {
    for (end, stops) in [
        (event("close", Some(7)), true),
        (event("close", None), true),
        (event("close", Some(8)), false),
        (event("ack", Some(7)), true),
        (event("other", Some(7)), false),
    ] {
        let mut server = HdsServer::new();
        let mut c = greeted(&mut server, &[2; 32]);
        let (_, stream) =
            c.handle_payload(&mut server, &open(7), Ok(())).unwrap().start.unwrap();
        let reaction = c.handle_payload(&mut server, &end, Ok(())).unwrap();
        assert!(reaction.reply.is_none());
        assert_eq!(server.delivering(stream), !stops);
    }
}

#[test]
fn damaged_messages_end_the_connection() {
    let mut server = HdsServer::new();
    let mut c = greeted(&mut server, &[2; 32]);
    assert_eq!(c.handle_payload(&mut server, &[], Ok(())).err(), Some(HdsError::EmptyPayload));
    assert_eq!(
        c.handle_payload(&mut server, &[9, 1], Ok(())).err(),
        Some(HdsError::TruncatedHeader)
    );
    assert_eq!(
        c.handle_payload(&mut server, &[1, 0x03, 0xE0], Ok(())).err(),
        Some(HdsError::MissingHeader)
    );
    assert!(matches!(
        c.handle_payload(&mut server, &[1, 0x00, 0xE0], Ok(())).err(),
        Some(HdsError::Decode(_))
    ));
}

#[test]
fn long_headers_are_refused() {
    let mut writer = FrameWriter { key: [1; 32], counter: 0 };
    let header = Value::dict(vec![("x", Value::Data(vec![0; 300]))]);
    assert_eq!(writer.frame(&header, &Value::Null), Err(HdsError::HeaderTooLong));
    let body = Value::Data(vec![0; 0x10_0000]);
    assert!(matches!(
        writer.frame(&Value::Null, &body),
        Err(HdsError::Frame(FrameError::PayloadTooLarge(_)))
    ));
    assert_eq!(writer.counter, 0);
}

fn packet(message: &Value) -> (&[u8], Option<i64>, i64, bool, Option<bool>) {
    let packets = match message.get("packets").unwrap() {
        Value::Array(items) => items,
        _ => panic!("packets are a list"),
    };
    let metadata = packets[0].get("metadata").unwrap();
    (
        packets[0].get("data").unwrap().as_data().unwrap(),
        metadata.get("dataTotalSize").and_then(|v| v.as_i64()),
        metadata.get("dataChunkSequenceNumber").unwrap().as_i64().unwrap(),
        metadata.get("isLastDataChunk").unwrap().as_bool().unwrap(),
        message.get("endOfStream").and_then(|v| v.as_bool()),
    )
}

#[test]
fn fragments_are_sent_in_chunks() {
    let data: Vec<u8> = (0..MAX_CHUNK * 2 + 5).map(|i| (i % 251) as u8).collect();
    let messages = data_messages(3, &data, "mediaFragment", 2, true);
    assert_eq!(messages.len(), 3);
    let mut joined = Vec::new();
    for (i, m) in messages.iter().enumerate() {
        let (chunk, total, number, last, end) = packet(m);
        joined.extend_from_slice(chunk);
        assert_eq!(total, if i == 0 { Some(data.len() as i64) } else { None });
        assert_eq!(number, i as i64 + 1);
        assert_eq!(last, i == 2);
        assert_eq!(end, if i == 2 { Some(true) } else { None });
        assert_eq!(m.get("streamId").unwrap().as_i64(), Some(3));
        let mut writer = FrameWriter { key: [1; 32], counter: 0 };
        assert!(writer.frame(&data_header(), m).is_ok());
    }
    assert_eq!(joined, data);
    let empty = data_messages(3, &[], "mediaFragment", 2, false);
    assert_eq!(empty.len(), 1);
    assert_eq!(packet(&empty[0]), (&[][..], Some(0), 1, true, Some(false)));
    assert_eq!(data_messages(3, &data[..MAX_CHUNK], "mediaFragment", 2, false).len(), 1);
}

fn number(message: &Value) -> i64 {
    let packets = match message.get("packets").unwrap() {
        Value::Array(items) => items,
        _ => panic!("packets are a list"),
    };
    packets[0].get("metadata").unwrap().get("dataSequenceNumber").unwrap().as_i64().unwrap()
}

#[test]
fn recordings_end_after_a_tail_without_motion() {
    let (mut recording, messages) = Recording::start(3, b"init");
    assert_eq!(number(&messages[0]), 1);
    assert_eq!(number(&recording.prebuffered(b"a")[0]), 2);
    assert_eq!(number(&recording.live(b"b", true, 1000).0[0]), 3);
    assert!(!recording.live(b"c", false, 2000).1);
    assert!(!recording.live(b"d", false, 9999).1);
    assert!(!recording.live(b"e", true, 10_000).1);
    assert!(!recording.live(b"f", false, 11_000).1);
    let (messages, ended) = recording.live(b"g", false, 19_000);
    assert!(ended);
    assert_eq!(packet(&messages[0]).4, Some(true));
    assert_eq!(number(&messages[0]), 8);
}

#[test]
fn closes_have_a_reason() {
    assert_eq!(
        close_header(),
        Value::dict(vec![("protocol", text("dataSend")), ("event", text("close"))])
    );
    assert_eq!(
        close_message(3, 6),
        Value::dict(vec![("streamId", Value::Int64(3)), ("reason", Value::Int64(6))])
    );
}

#[test]
fn recordings_are_closed_with_a_reason() {
    assert_eq!(close_reason(RecordingFault::NothingBuffered), 6);
    assert_eq!(close_reason(RecordingFault::TimedOut), 6);
    assert_eq!(close_reason(RecordingFault::RecorderGone), 5);
    assert_eq!(FRAGMENT_TIMEOUT, 30_000);
}

#[test]
fn the_listener_closes_with_its_last_connection() {
    let mut server = HdsServer::new();
    server.bound(4711);
    let first = server.connected();
    let second = server.connected();
    assert_ne!(first, second);
    assert!(!server.disconnected(first, 0));
    assert!(!server.is_open(first));
    assert!(server.is_open(second));
    server.prepare(&SECRET, &CONTROLLER_SALT, &[2; 32], 5, 0);
    assert!(!server.disconnected(second, 9_999));
    assert_eq!(server.port(), Some(4711));
    let third = server.connected();
    assert!(server.disconnected(third, 10_000));
    assert_eq!(server.port(), None);
    let fourth = server.connected();
    assert!(!server.disconnected(fourth, 10_000));
}

#[test]
fn connections_end_with_their_controller() {
    let mut server = HdsServer::new();
    server.bound(4711);
    greeted(&mut server, &[2; 32]);
    server.prepare(&SECRET, &CONTROLLER_SALT, &[3; 32], 5, 0);
    let other = server.connected();
    assert!(!server.controller_closed(6, 0));
    assert!(server.is_open(0));
    assert!(!server.controller_closed(5, 0));
    assert!(!server.is_open(0));
    assert!(server.is_open(other));
    let keys = derive_keys(&SECRET, &CONTROLLER_SALT, &[3; 32]);
    let mut counter = 0;
    let frame = encrypt_frame(&keys.controller_to_accessory, &mut counter, &hello()).unwrap();
    assert!(server.identify(&frame, 1).is_none());
    assert!(server.disconnected(other, 1));
}

#[test]
fn errors_have_words() {
    assert_eq!(HdsError::NoSession.message(), "no prepared session matched first frame");
    assert_eq!(
        HdsError::Frame(FrameError::DecryptFailed).message(),
        "HDS decrypt failed"
    );
    let mut server = HdsServer::new();
    let mut c = greeted(&mut server, &[2; 32]);
    assert_eq!(
        c.handle_payload(&mut server, &[1, 0x00, 0xE0], Ok(())).err().unwrap().message(),
        "HDS decode error: zero tag"
    );
    assert_eq!(HdsError::EmptyPayload.message(), "empty HDS payload");
    assert_eq!(HdsError::TruncatedHeader.message(), "truncated HDS header");
    assert_eq!(HdsError::MissingHeader.message(), "missing header dict");
    assert_eq!(HdsError::NotHello.message(), "first HDS message was not control.hello");
    assert_eq!(HdsError::HeaderTooLong.message(), "HDS header too long");
}
