use amcrust::hsv::frame::{complete_frame_len, decrypt_frame, derive_keys, encrypt_frame, FrameError, MAX_PAYLOAD};

#[test]
fn frame_roundtrip() {
    let keys = derive_keys(&[7u8; 32], &[1u8; 32], &[2u8; 32]);
    let mut tx = 0u64;
    let mut rx = 0u64;

    let payload = b"hello hds".to_vec();
    let frame = encrypt_frame(&keys.accessory_to_controller, &mut tx, &payload).unwrap();
    assert_eq!(tx, 1);
    assert_eq!(complete_frame_len(&frame).unwrap(), Some(frame.len()));

    let decrypted = decrypt_frame(&keys.accessory_to_controller, &mut rx, &frame).unwrap();
    assert_eq!(decrypted, payload);
    assert_eq!(rx, 1);
}

#[test]
fn failed_decrypt_does_not_advance_counter() {
    let keys = derive_keys(&[7u8; 32], &[1u8; 32], &[2u8; 32]);
    let wrong = derive_keys(&[8u8; 32], &[1u8; 32], &[2u8; 32]);
    let mut tx = 0u64;
    let frame = encrypt_frame(&keys.accessory_to_controller, &mut tx, b"x").unwrap();

    let mut rx = 0u64;
    assert!(decrypt_frame(&wrong.accessory_to_controller, &mut rx, &frame).is_err());
    assert_eq!(rx, 0);
    assert!(decrypt_frame(&keys.accessory_to_controller, &mut rx, &frame).is_ok());
    assert_eq!(rx, 1);
}

#[test]
fn direction_keys_differ() {
    let keys = derive_keys(&[7u8; 32], &[1u8; 32], &[2u8; 32]);
    assert_ne!(keys.accessory_to_controller, keys.controller_to_accessory);
}

#[test]
fn a_frame_has_a_header_and_a_tag() {
    let mut tx = 0u64;
    let frame = encrypt_frame(&[9; 32], &mut tx, b"abc").unwrap();
    assert_eq!(&frame[..4], &[0x01, 0, 0, 3]);
    assert_eq!(frame.len(), 4 + 3 + 16);
    assert_ne!(&frame[4..7], b"abc");
}

#[test]
fn salts_and_their_order_matter() {
    let a = derive_keys(&[7u8; 32], &[1u8; 32], &[2u8; 32]);
    let b = derive_keys(&[7u8; 32], &[2u8; 32], &[1u8; 32]);
    let c = derive_keys(&[7u8; 32], &[1u8; 32], &[2u8; 32]);
    assert_ne!(a.accessory_to_controller, b.accessory_to_controller);
    assert_eq!(a.accessory_to_controller, c.accessory_to_controller);
    assert_eq!(a.clone().controller_to_accessory, a.controller_to_accessory);
}

#[test]
fn frames_are_found_in_a_stream() {
    let mut tx = 0u64;
    let mut stream = encrypt_frame(&[9; 32], &mut tx, b"first").unwrap();
    let len = stream.len();
    stream.extend_from_slice(&encrypt_frame(&[9; 32], &mut tx, b"second").unwrap());
    assert_eq!(complete_frame_len(&stream[..3]), Ok(None));
    assert_eq!(complete_frame_len(&stream[..len - 1]), Ok(None));
    assert_eq!(complete_frame_len(&stream), Ok(Some(len)));
    let mut rx = 0u64;
    assert_eq!(decrypt_frame(&[9; 32], &mut rx, &stream[..len]).unwrap(), b"first");
    assert_eq!(decrypt_frame(&[9; 32], &mut rx, &stream[len..]).unwrap(), b"second");
}

#[test]
fn frames_over_the_limit_are_refused() {
    let mut tx = 0u64;
    let big = vec![0u8; MAX_PAYLOAD + 1];
    assert_eq!(encrypt_frame(&[9; 32], &mut tx, &big), Err(FrameError::PayloadTooLarge(MAX_PAYLOAD + 1)));
    assert_eq!(tx, 0);
    assert!(encrypt_frame(&[9; 32], &mut tx, &big[1..]).is_ok());
    assert_eq!(
        complete_frame_len(&[1, 0x10, 0, 0]),
        Err(FrameError::FrameTooLarge(0x10_0000))
    );
}

#[test]
fn short_and_changed_frames_are_refused() {
    let mut rx = 0u64;
    assert_eq!(decrypt_frame(&[9; 32], &mut rx, &[1, 0, 0]), Err(FrameError::TooShort));
    let mut tx = 0u64;
    let mut frame = encrypt_frame(&[9; 32], &mut tx, b"abc").unwrap();
    frame[5] ^= 1;
    assert_eq!(decrypt_frame(&[9; 32], &mut rx, &frame), Err(FrameError::DecryptFailed));
    assert_eq!(rx, 0);
}

#[test]
fn frame_errors_have_words() {
    assert_eq!(FrameError::PayloadTooLarge(1048576).message(), "HDS payload too large: 1048576");
    assert_eq!(FrameError::FrameTooLarge(1048577).message(), "HDS frame too large: 1048577");
    assert_eq!(FrameError::TooShort.message(), "frame too short");
    assert_eq!(FrameError::DecryptFailed.message(), "HDS decrypt failed");
}
