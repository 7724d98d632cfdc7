//! Frames of the HomeKit Data Stream connection: key derivation and
//! ChaCha20-Poly1305 framing.
//!
//! A frame is a payload type byte, the length of the ciphertext as a 24-bit
//! big-endian number, the ciphertext and its 16-byte tag. The four header bytes
//! are authenticated with it. Each direction numbers its frames from zero.

use vstd::prelude::*;
use vstd::string::*;
use vstd::utf8::encode_utf8;
use crate::crypto::{derive_key, hkdf_sha512, lemma_opened, nonce_for, nonce_of, open, opened, seal, sealed};
use crate::text::{decimal, push_decimal};
use crate::wire::{be_bytes, be_value, law_bytes_are_digits, lemma_be_bytes_len, lemma_be_roundtrip, lemma_be_value_bound, lemma_pow256_values, push_be, read_be};

verus! {

/// The longest payload a frame may carry.
pub const MAX_PAYLOAD: usize = 0xF_FFFF;

pub const FRAME_HEADER_LEN: usize = 4;

pub const TAG_LEN: usize = 16;

/// Why a frame cannot be written or read.
#[derive(Clone, Copy, Debug, PartialEq, Eq, Structural)]
pub enum FrameError {
    /// The payload to send is over the limit.
    PayloadTooLarge(usize),
    /// The payload that a header announces is over the limit.
    FrameTooLarge(usize),
    /// There are fewer bytes than a header and a tag take.
    TooShort,
    /// The tag does not match.
    DecryptFailed,
}

/// What an error is called.
pub open spec fn frame_error_text(e: FrameError) -> Seq<char> {
    match e {
        FrameError::PayloadTooLarge(n) => "HDS payload too large: "@ + decimal(n as nat),
        FrameError::FrameTooLarge(n) => "HDS frame too large: "@ + decimal(n as nat),
        FrameError::TooShort => "frame too short"@,
        FrameError::DecryptFailed => "HDS decrypt failed"@,
    }
}

impl FrameError {
    /// The error in words.
    pub fn message(&self) -> (s: String)
        ensures
            s@ == frame_error_text(*self),
            *self matches FrameError::PayloadTooLarge(n) ==> s@ == "HDS payload too large: "@
                + decimal(n as nat),
            *self matches FrameError::FrameTooLarge(n) ==> s@ == "HDS frame too large: "@ + decimal(
                n as nat,
            ),
            *self is TooShort ==> s@ == "frame too short"@,
            *self is DecryptFailed ==> s@ == "HDS decrypt failed"@,
    {
        match *self {
            FrameError::PayloadTooLarge(n) => {
                let mut s = String::from_str("HDS payload too large: ");
                push_decimal(&mut s, n as u64);
                s
            },
            FrameError::FrameTooLarge(n) => {
                let mut s = String::from_str("HDS frame too large: ");
                push_decimal(&mut s, n as u64);
                s
            },
            FrameError::TooShort => String::from_str("frame too short"),
            FrameError::DecryptFailed => String::from_str("HDS decrypt failed"),
        }
    }
}

/// The keys of a data stream session, one for each direction.
#[derive(Debug)]
pub struct SessionKeys {
    /// Accessory to controller.
    pub accessory_to_controller: [u8; 32],
    /// Controller to accessory.
    pub controller_to_accessory: [u8; 32],
}

impl Clone for SessionKeys {
    fn clone(&self) -> (r: Self)
        ensures
            r == *self,
    {
        SessionKeys {
            accessory_to_controller: self.accessory_to_controller,
            controller_to_accessory: self.controller_to_accessory,
        }
    }
}

/// The key that the pairing session's secret gives for one direction.
pub open spec fn session_key(
    shared_secret: Seq<u8>,
    controller_salt: Seq<u8>,
    accessory_salt: Seq<u8>,
    info: Seq<char>,
) -> Seq<u8> {
    hkdf_sha512(controller_salt + accessory_salt, shared_secret, encode_utf8(info))
}

/// Derives the keys of a session. The salt is the controller's followed by the
/// accessory's.
pub fn derive_keys(
    shared_secret: &[u8; 32],
    controller_salt: &[u8],
    accessory_salt: &[u8],
) -> (keys: SessionKeys)
    ensures
        keys.accessory_to_controller@ == session_key(
            shared_secret@,
            controller_salt@,
            accessory_salt@,
            "HDS-Read-Encryption-Key"@,
        ),
        keys.controller_to_accessory@ == session_key(
            shared_secret@,
            controller_salt@,
            accessory_salt@,
            "HDS-Write-Encryption-Key"@,
        ),
{
    let mut salt: Vec<u8> = Vec::new();
    salt.extend_from_slice(controller_salt);
    salt.extend_from_slice(accessory_salt);
    assert(salt@ =~= controller_salt@ + accessory_salt@);
    let read_info: &str = "HDS-Read-Encryption-Key";
    let write_info: &str = "HDS-Write-Encryption-Key";
    SessionKeys {
        accessory_to_controller: derive_key(
            salt.as_slice(),
            shared_secret.as_slice(),
            read_info.as_bytes(),
        ),
        controller_to_accessory: derive_key(
            salt.as_slice(),
            shared_secret.as_slice(),
            write_info.as_bytes(),
        ),
    }
}

/// The header of a frame whose payload has `len` bytes.
pub open spec fn frame_header(len: nat) -> Seq<u8> {
    seq![0x01u8] + be_bytes(len, 3)
}

/// The frame with number `counter` that carries `plaintext`.
pub open spec fn frame_of(key: Seq<u8>, counter: u64, plaintext: Seq<u8>) -> Seq<u8> {
    frame_header(plaintext.len()) + sealed(
        key,
        nonce_of(counter),
        frame_header(plaintext.len()),
        plaintext,
    )
}

/// Encrypts one frame and advances the counter. A payload over the limit is
/// refused, and the counter stays.
pub fn encrypt_frame(key: &[u8; 32], counter: &mut u64, plaintext: &[u8]) -> (r: Result<
    Vec<u8>,
    FrameError,
>)
    requires
        *old(counter) < u64::MAX,
    ensures
        match r {
            Ok(frame) => plaintext@.len() <= MAX_PAYLOAD && frame@ == frame_of(
                key@,
                *old(counter),
                plaintext@,
            ) && frame@.len() == FRAME_HEADER_LEN + plaintext@.len() + TAG_LEN && *final(counter)
                == *old(counter) + 1,
            Err(e) => plaintext@.len() > MAX_PAYLOAD && e == FrameError::PayloadTooLarge(
                plaintext@.len() as usize,
            ) && *final(counter) == *old(counter),
        },
{
    if plaintext.len() > MAX_PAYLOAD {
        return Err(FrameError::PayloadTooLarge(plaintext.len()));
    }
    let mut frame: Vec<u8> = Vec::new();
    frame.push(0x01);
    push_be(&mut frame, plaintext.len() as u64, 3);
    assert(frame@ =~= frame_header(plaintext@.len()));
    let nonce = nonce_for(*counter);
    let ciphertext = seal(key, &nonce, frame.as_slice(), plaintext);
    *counter = *counter + 1;
    frame.extend_from_slice(ciphertext.as_slice());
    proof {
        lemma_be_bytes_len(plaintext@.len(), 3);
        assert(frame@ =~= frame_of(key@, *old(counter), plaintext@));
    }
    Ok(frame)
}

/// Decrypts one whole frame. The counter advances only where that succeeds, so a
/// frame can be tried with one key after another.
///
/// What [`encrypt_frame`] made of a payload with the same key and counter is
/// decrypted to that payload.
pub fn decrypt_frame(key: &[u8; 32], counter: &mut u64, frame: &[u8]) -> (r: Result<
    Vec<u8>,
    FrameError,
>)
    requires
        *old(counter) < u64::MAX,
    ensures
        match r {
            Ok(plaintext) => frame@.len() >= FRAME_HEADER_LEN + TAG_LEN && opened(
                key@,
                nonce_of(*old(counter)),
                frame@.take(4),
                frame@.skip(4),
            ) == Some(plaintext@) && plaintext@.len() + FRAME_HEADER_LEN + TAG_LEN == frame@.len()
                && *final(counter) == *old(counter) + 1,
            Err(e) => *final(counter) == *old(counter) && e == (if frame@.len() < FRAME_HEADER_LEN
                + TAG_LEN {
                FrameError::TooShort
            } else {
                FrameError::DecryptFailed
            }) && (frame@.len() >= FRAME_HEADER_LEN + TAG_LEN ==> opened(
                key@,
                nonce_of(*old(counter)),
                frame@.take(4),
                frame@.skip(4),
            ) is None),
        },
        forall|m: Seq<u8>|
            m.len() <= MAX_PAYLOAD && m.len() + FRAME_HEADER_LEN + TAG_LEN == frame@.len() && frame@
                == #[trigger] frame_of(
                key@,
                *old(counter),
                m,
            ) ==> r is Ok && r->Ok_0@ == m,
{
    if frame.len() < FRAME_HEADER_LEN + TAG_LEN {
        return Err(FrameError::TooShort);
    }
    let header = &frame[0..FRAME_HEADER_LEN];
    let body = &frame[FRAME_HEADER_LEN..frame.len()];
    assert(header@ =~= frame@.take(4));
    assert(body@ =~= frame@.skip(4));
    let nonce = nonce_for(*counter);
    let result = open(key, &nonce, header, body);
    let ghost n = nonce_of(*counter);
    proof {
        assert forall|m: Seq<u8>|
            m.len() <= MAX_PAYLOAD && m.len() + FRAME_HEADER_LEN + TAG_LEN == frame@.len() && frame@
                == #[trigger] frame_of(
                key@,
                *counter,
                m,
            ) implies m.len() + 16 == body@.len() && sealed(key@, n, header@, m) == body@ by {
            lemma_be_bytes_len(m.len(), 3);
            assert(frame@.take(4) =~= frame_header(m.len()));
            assert(frame@.skip(4) =~= sealed(key@, n, frame_header(m.len()), m));
        }
    }
    match result {
        Some(plaintext) => {
            proof {
                lemma_opened(key@, n, header@, body@, plaintext@);
            }
            *counter = *counter + 1;
            Ok(plaintext)
        },
        None => {
            Err(FrameError::DecryptFailed)
        },
    }
}

/// The length of the whole frame whose header starts `buf`.
pub open spec fn announced_len(buf: Seq<u8>) -> nat {
    (FRAME_HEADER_LEN + be_value(buf.subrange(1, 4)) + TAG_LEN) as nat
}

/// The length of the next frame, where all of it is in the buffer. A header that
/// announces a payload over the limit is an error.
pub fn complete_frame_len(buf: &[u8]) -> (r: Result<Option<usize>, FrameError>)
    ensures
        r == if buf@.len() < FRAME_HEADER_LEN {
            Ok::<Option<usize>, FrameError>(None)
        } else if be_value(buf@.subrange(1, 4)) > MAX_PAYLOAD {
            Err(FrameError::FrameTooLarge(be_value(buf@.subrange(1, 4)) as usize))
        } else if buf@.len() < announced_len(buf@) {
            Ok(None)
        } else {
            Ok(Some(announced_len(buf@) as usize))
        },
{
    if buf.len() < FRAME_HEADER_LEN {
        return Ok(None);
    }
    let field = &buf[1..4];
    proof {
        lemma_be_value_bound(field@);
        lemma_pow256_values();
    }
    let len: usize = read_be(field) as usize;
    if len > MAX_PAYLOAD {
        return Err(FrameError::FrameTooLarge(len));
    }
    let total: usize = FRAME_HEADER_LEN + len + TAG_LEN;
    if buf.len() >= total {
        Ok(Some(total))
    } else {
        Ok(None)
    }
}

/// A frame in a buffer is recognised as complete, with its own length, whatever
/// comes behind it; and not before its last byte has come.
pub proof fn law_frames_are_delimited(key: Seq<u8>, counter: u64, plaintext: Seq<u8>, rest: Seq<u8>)
    requires
        plaintext.len() <= MAX_PAYLOAD,
    ensures
        be_value((frame_of(key, counter, plaintext) + rest).subrange(1, 4)) == plaintext.len(),
        announced_len(frame_of(key, counter, plaintext) + rest) == FRAME_HEADER_LEN
            + plaintext.len() + TAG_LEN,
{
    let buf = frame_of(key, counter, plaintext) + rest;
    lemma_be_bytes_len(plaintext.len(), 3);
    lemma_pow256_values();
    lemma_be_roundtrip(plaintext.len(), 3);
    assert(buf.subrange(1, 4) =~= be_bytes(plaintext.len(), 3));
}

/// A frame starts with payload type 1 and the length of its payload in three bytes, most
/// significant first; behind them stands the payload, sealed with those four bytes and
/// the frame's number. Payloads of up to 0xFFFFF bytes are sent, and the tag of sixteen
/// bytes is not counted.
pub proof fn law_a_frame_starts_with_its_length(key: Seq<u8>, counter: u64, plaintext: Seq<u8>)
    requires
        plaintext.len() <= 0xf_ffff,
    ensures
        ({
            let frame = frame_of(key, counter, plaintext);
            &&& frame.len() >= 4
            &&& frame[0] == 1
            &&& 0x1_0000 * frame[1] + 0x100 * frame[2] + frame[3] == plaintext.len()
            &&& frame.skip(4) == sealed(key, nonce_of(counter), frame.take(4), plaintext)
        }),
        MAX_PAYLOAD == 0xf_ffff,
        announced_len(seq![1u8] + be_bytes(plaintext.len(), 3)) == plaintext.len() + 20,
{
    let n = plaintext.len();
    let frame = frame_of(key, counter, plaintext);
    lemma_be_bytes_len(n, 3);
    law_bytes_are_digits(n, 0, 0, 0, 0);
    assert(frame.take(4) =~= frame_header(n));
    assert(frame.skip(4) =~= sealed(key, nonce_of(counter), frame_header(n), plaintext));
    assert(frame[1] == be_bytes(n, 3)[0] && frame[2] == be_bytes(n, 3)[1] && frame[3] == be_bytes(
        n,
        3,
    )[2]);
    let buf = seq![1u8] + be_bytes(n, 3);
    lemma_pow256_values();
    lemma_be_roundtrip(n, 3);
    assert(buf.subrange(1, 4) =~= be_bytes(n, 3));
}

/// The controller opens the accessory's frames with the key for its reads, and seals
/// its own with the key for its writes; the salt is the controller's and then the
/// accessory's.
pub proof fn law_session_keys_have_their_labels(
    secret: Seq<u8>,
    controller_salt: Seq<u8>,
    accessory_salt: Seq<u8>,
    info: Seq<char>,
)
    ensures
        session_key(secret, controller_salt, accessory_salt, info) == hkdf_sha512(
            controller_salt + accessory_salt,
            secret,
            encode_utf8(info),
        ),
{
}

} // verus!
