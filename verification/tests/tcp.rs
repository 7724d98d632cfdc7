use amcrust::hap::record::{
    compute_read_key, compute_write_key, decrypt_chunk, encrypt_chunk, encrypt_records, RecordError,
};
use amcrust::hap::tcp::{
    snapshot_body_len, EncryptedStream, FlushOutcome, OutgoingNext, ReadStep, SerializedOutput,
    Session, SnapshotDelivery, StreamWrapper, WriteOutcome, WriteStep,
};
use chacha20poly1305::aead::{Aead, KeyInit, Payload};
use chacha20poly1305::{ChaCha20Poly1305, Key, Nonce};

fn nonce(counter: u64) -> [u8; 12] {
    let mut nonce = [0u8; 12];
    nonce[4..].copy_from_slice(&counter.to_le_bytes());
    nonce
}

fn encrypt_controller_record(secret: &[u8; 32], plaintext: &[u8], counter: &mut u64) -> Vec<u8> {
    let key = compute_read_key(secret);
    let aead = ChaCha20Poly1305::new(Key::from_slice(&key));
    let aad = (plaintext.len() as u16).to_le_bytes();
    let sealed = aead
        .encrypt(Nonce::from_slice(&nonce(*counter)), Payload { msg: plaintext, aad: &aad })
        .unwrap();
    *counter += 1;
    [aad.as_slice(), sealed.as_slice()].concat()
}

fn decrypt_accessory_record(secret: &[u8; 32], wire: &[u8], counter: u64) -> Vec<u8> {
    let len = u16::from_le_bytes([wire[0], wire[1]]) as usize;
    assert_eq!(wire.len(), 2 + len + 16);
    let key = compute_write_key(secret);
    let aead = ChaCha20Poly1305::new(Key::from_slice(&key));
    aead.decrypt(Nonce::from_slice(&nonce(counter)), Payload { msg: &wire[2..], aad: &wire[..2] })
        .unwrap()
}

fn session(secret: [u8; 32]) -> Session {
    Session { controller_id: [0; 16], shared_secret: secret }
}

#[test]
fn reader_accepts_fragmented_and_coalesced_records() {
    let secret = [0x5a; 32];
    let first = b"first encrypted HAP request".to_vec();
    let second = vec![0x42; 1024];
    let mut counter = 0;
    let mut wire = encrypt_controller_record(&secret, &first, &mut counter);
    wire.extend_from_slice(&encrypt_controller_record(&secret, &second, &mut counter));
    let mut stream = EncryptedStream::new();
    assert!(matches!(stream.read(10), ReadStep::Plain));
    stream.establish(session(secret));
    stream.receive(&wire[..7]);
    assert!(matches!(stream.read(4096), ReadStep::NeedInput));
    assert_eq!(stream.end_of_input(), Err(RecordError::UnexpectedEof));
    stream.receive(&wire[7..]);
    let mut plaintext = Vec::new();
    while let ReadStep::Data(part) = stream.read(100) {
        plaintext.extend_from_slice(&part);
    }
    assert_eq!(&plaintext[..first.len()], &first[..]);
    assert_eq!(&plaintext[first.len()..], &second[..]);
    assert_eq!(stream.end_of_input(), Ok(()));
}

#[test]
fn damaged_and_long_records_fail() {
    let secret = [0x5a; 32];
    let mut counter = 0;
    let mut wire = encrypt_controller_record(&secret, b"abc", &mut counter);
    wire[3] ^= 1;
    let mut stream = EncryptedStream::new();
    stream.establish(session(secret));
    stream.receive(&wire);
    assert!(matches!(stream.read(100), ReadStep::Fail(RecordError::DecryptFailed)));
    let mut stream = EncryptedStream::new();
    stream.establish(session(secret));
    stream.receive(&[0xff, 0xff]);
    assert!(matches!(stream.read(100), ReadStep::Fail(RecordError::TooLong)));
}

#[test]
fn events_wait_for_the_response_being_written() {
    let mut output = SerializedOutput::new();
    output.append_http(b"HTTP/1.1 200 OK\r\nContent-Length: 4\r\n\r\n");
    assert!(output.send_event(b"EVENT".to_vec(), true));
    output.append_http(b"JPEG");
    assert_eq!(output.next_message(), None);
    assert_eq!(output.flush_http(true), FlushOutcome::Done);
    assert_eq!(
        output.next_message().unwrap(),
        b"HTTP/1.1 200 OK\r\nContent-Length: 4\r\n\r\nJPEG"
    );
    assert_eq!(output.next_message().unwrap(), b"EVENT");
    assert_eq!(output.next_message(), None);
    assert!(output.send_event(b"NEXT".to_vec(), true));
    assert_eq!(output.next_message().unwrap(), b"NEXT");
}

#[test]
fn a_lost_controller_is_told() {
    let mut output = SerializedOutput::new();
    output.append_http(b"HTTP/1.1 200 OK\r\n\r\n\xff\xd8\xff\xd9");
    assert_eq!(output.flush_http(false), FlushOutcome::Disconnected { snapshot: true });
    output.append_http(b"HTTP/1.1 204 No Content\r\n\r\n");
    assert_eq!(output.flush_http(false), FlushOutcome::Disconnected { snapshot: false });
    assert!(!output.send_event(b"EVENT".to_vec(), false));
}

#[test]
fn snapshots_are_reported_when_they_are_delivered() {
    let secret = [0x33; 32];
    let mut stream = EncryptedStream::new();
    let mut output = SerializedOutput::new();
    stream.establish(session(secret));
    let response = b"HTTP/1.1 200 OK\r\nContent-Type: image/jpeg\r\n\r\n\xff\xd8\xff\xd9";
    output.append_http(response);
    output.flush_http(true);
    assert!(stream.next_outgoing(&mut output));
    let message = response.to_vec();
    assert!(matches!(stream.start_write(&message), WriteStep::Send));
    let wire = stream.pending_write().to_vec();
    assert_eq!(decrypt_accessory_record(&secret, &wire, 0), response);
    let mut left = wire.len();
    assert!(matches!(stream.encrypted_written(WriteOutcome::Wrote(5)), WriteStep::Send));
    left -= 5;
    assert_eq!(stream.pending_write().len(), left);
    let step = stream.encrypted_written(WriteOutcome::Wrote(left));
    let taken = match step {
        WriteStep::Done(n) => n,
        _ => panic!("the response is written"),
    };
    assert_eq!(taken, message.len());
    let (next, delivery) = stream.outgoing_written(WriteOutcome::Wrote(taken));
    assert!(matches!(next, OutgoingNext::Continue));
    assert_eq!(delivery, Some(SnapshotDelivery::Delivered { bytes: 4 }));
}

#[test]
fn records_are_cut_and_numbered() {
    let secret = [0x11; 32];
    let data: Vec<u8> = (0..2500).map(|i| (i % 256) as u8).collect();
    let mut count = 0;
    let wire = encrypt_records(&secret, &data, &mut count);
    assert_eq!(count, 3);
    assert_eq!(wire.len(), 2500 + 3 * 18);
    let first = decrypt_accessory_record(&secret, &wire[..1042], 0);
    assert_eq!(first, &data[..1024]);
    let last = decrypt_accessory_record(&secret, &wire[2084..], 2);
    assert_eq!(last, &data[2048..]);
}

#[test]
fn chunks_are_opened_with_the_other_key() {
    let secret = [0x11; 32];
    let mut count = 0;
    let (aad, data, tag) = encrypt_chunk(&secret, b"abc", &mut count);
    assert_eq!(aad, [3, 0]);
    assert_ne!(&data[..], b"abc");
    let mut wire = aad.to_vec();
    wire.extend_from_slice(&data);
    wire.extend_from_slice(&tag);
    assert_eq!(decrypt_accessory_record(&secret, &wire, 0), b"abc");
    let mut counter = 0;
    let record = encrypt_controller_record(&secret, b"xyz", &mut counter);
    let mut read = 0;
    assert_eq!(
        decrypt_chunk(&secret, &record[..2], &record[2..5], &record[5..], &mut read).unwrap(),
        b"xyz"
    );
    assert_eq!(read, 1);
    assert!(decrypt_chunk(&secret, &record[..2], &record[2..5], &record[5..], &mut read).is_none());
}

#[test]
fn plain_bytes_pass_through() {
    let mut wrapper = StreamWrapper::new();
    wrapper.receive(b"hello");
    assert_eq!(wrapper.read(2), b"he");
    wrapper.receive(b"!");
    assert_eq!(wrapper.read(100), b"llo!");
    assert!(wrapper.read(100).is_empty());
    assert_eq!(snapshot_body_len(b"HTTP\r\n\r\n\xff\xd8\x01\xff\xd9"), Some(5));
    assert_eq!(snapshot_body_len(b"HTTP\r\n\r\ntext"), None);
    assert_eq!(snapshot_body_len(b"HTTP"), None);
}

#[test]
fn a_message_is_told_until_it_is_sent() {
    let mut stream = EncryptedStream::new();
    let mut output = SerializedOutput::new();
    assert!(stream.can_read());
    assert!(stream.can_write(100_000));
    assert!(!stream.next_outgoing(&mut output));
    assert_eq!(stream.outgoing(), None);
    assert!(output.send_event(b"EVENT".to_vec(), true));
    assert!(stream.next_outgoing(&mut output));
    assert_eq!(stream.outgoing(), Some(b"EVENT".as_slice()));
    assert_eq!(
        stream.outgoing_written(WriteOutcome::Wrote(2)),
        (OutgoingNext::Continue, None)
    );
    assert_eq!(stream.outgoing(), Some(b"ENT".as_slice()));
    assert_eq!(
        stream.outgoing_written(WriteOutcome::Wrote(3)),
        (OutgoingNext::Continue, None)
    );
    assert_eq!(stream.outgoing(), None);
}

#[test]
fn records_are_read_whole_however_they_are_cut() {
    let secret = [0x5a; 32];
    let mut counter = 0;
    let mut wire = Vec::new();
    let mut sent = Vec::new();
    for len in [1usize, 300, 0, 1024, 7] {
        let plain: Vec<u8> = (0..len).map(|i| (i % 251) as u8).collect();
        wire.extend_from_slice(&encrypt_controller_record(&secret, &plain, &mut counter));
        sent.extend_from_slice(&plain);
    }
    for (piece, limit) in [(1, 1), (3, 1000), (17, 5), (500, 64), (5000, 5000)] {
        let mut stream = EncryptedStream::new();
        stream.establish(session(secret));
        let mut got = Vec::new();
        for part in wire.chunks(piece) {
            stream.receive(part);
            while let ReadStep::Data(data) = stream.read(limit) {
                assert!(!data.is_empty() && data.len() <= limit);
                got.extend_from_slice(&data);
            }
        }
        assert_eq!(got, sent);
        assert_eq!(stream.end_of_input(), Ok(()));
    }
}

#[test]
fn record_errors_have_words() {
    assert_eq!(RecordError::TooLong.message(), "encrypted HAP record exceeds 1024 bytes");
    assert_eq!(RecordError::DecryptFailed.message(), "decryption failed");
    assert_eq!(
        RecordError::UnexpectedEof.message(),
        "controller closed during an encrypted HAP record"
    );
    let mut stream = EncryptedStream::new();
    stream.establish(session([3; 32]));
    assert!(matches!(stream.start_write(b"abc"), WriteStep::Send));
    match stream.encrypted_written(WriteOutcome::Wrote(0)) {
        WriteStep::Fail(e) => assert_eq!(e.message(), "could not write encrypted HAP data"),
        _ => panic!("nothing was written"),
    }
    assert_eq!(RecordError::WriteZero.message(), "could not write outgoing HAP data");
}
