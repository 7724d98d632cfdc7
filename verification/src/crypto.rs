//! The ciphers and key derivation of the transports, from their crates.

use chacha20poly1305::aead::{Aead, KeyInit, Payload};
use chacha20poly1305::{ChaCha20Poly1305, Key, Nonce};
use hkdf::Hkdf;
use sha2::Sha512;
use vstd::prelude::*;
use crate::wire::{le_bytes, le_value, lemma_le_bytes_len, lemma_le_roundtrip, lemma_pow256_values, push_le};

verus! {

/// The length of an authentication tag.
pub const TAG_LEN: usize = 16;

/// Messages have to be shorter than this: the cipher's block counter has 32 bits.
pub const MESSAGE_LIMIT: u64 = 0x3f_ffff_ffc0;

/// What ChaCha20-Poly1305 gives for a message: its ciphertext, then the tag over
/// it and the associated data.
pub uninterp spec fn sealed(
    key: Seq<u8>,
    nonce: Seq<u8>,
    aad: Seq<u8>,
    message: Seq<u8>,
) -> Seq<u8>;

/// What HKDF with SHA-512 gives: 32 bytes out of a salt, key material and a label.
pub uninterp spec fn hkdf_sha512(salt: Seq<u8>, material: Seq<u8>, info: Seq<u8>) -> Seq<u8>;

/// Whether `c` is the sealed form of `m`.
pub open spec fn seals_to(
    key: Seq<u8>,
    nonce: Seq<u8>,
    aad: Seq<u8>,
    m: Seq<u8>,
    c: Seq<u8>,
) -> bool {
    m.len() + TAG_LEN == c.len() && m.len() < MESSAGE_LIMIT && sealed(key, nonce, aad, m) == c
}

/// The message whose sealed form is `c`, where there is one.
pub open spec fn opened(key: Seq<u8>, nonce: Seq<u8>, aad: Seq<u8>, c: Seq<u8>) -> Option<
    Seq<u8>,
> {
    if exists|m: Seq<u8>| seals_to(key, nonce, aad, m, c) {
        Some(choose|m: Seq<u8>| seals_to(key, nonce, aad, m, c))
    } else {
        None
    }
}

/// Calls `Aead::encrypt` of `chacha20poly1305::ChaCha20Poly1305`. The result is a
/// function of its arguments, named [`sealed`]: the ciphertext is as long as the
/// message, the tag of 16 bytes follows, and no other message of that length has
/// the same result. It fails only on messages from [`MESSAGE_LIMIT`] on, which are
/// left out.
#[verifier::external_body]
pub(crate) fn seal(key: &[u8; 32], nonce: &[u8; 12], aad: &[u8], message: &[u8]) -> (c: Vec<u8>)
    requires
        message@.len() < MESSAGE_LIMIT,
    ensures
        c@ == sealed(key@, nonce@, aad@, message@),
        c@.len() == message@.len() + 16,
        forall|m: Seq<u8>|
            m.len() == message@.len() && #[trigger] sealed(key@, nonce@, aad@, m) == c@ ==> m
                == message@,
{
    let cipher = ChaCha20Poly1305::new(Key::from_slice(key));
    cipher.encrypt(Nonce::from_slice(nonce), Payload { msg: message, aad }).unwrap()
}

/// Calls `Aead::decrypt` of `chacha20poly1305::ChaCha20Poly1305`. It compares the
/// tag, then takes the same keystream off again: it gives the one message whose
/// sealed form this is, and fails where there is none, or only one too long to be
/// sealed.
#[verifier::external_body]
pub(crate) fn open(key: &[u8; 32], nonce: &[u8; 12], aad: &[u8], c: &[u8]) -> (r: Option<Vec<u8>>)
    ensures
        match r {
            Some(message) => message@.len() + 16 == c@.len() && message@.len() < MESSAGE_LIMIT
                && forall|m: Seq<u8>|
                m.len() + 16 == c@.len() ==> (#[trigger] sealed(key@, nonce@, aad@, m) == c@ <==> m
                    == message@),
            None => forall|m: Seq<u8>|
                m.len() + 16 == c@.len() && m.len() < MESSAGE_LIMIT ==> #[trigger] sealed(
                    key@,
                    nonce@,
                    aad@,
                    m,
                ) != c@,
        },
{
    let cipher = ChaCha20Poly1305::new(Key::from_slice(key));
    cipher.decrypt(Nonce::from_slice(nonce), Payload { msg: c, aad }).ok()
}

/// Calls `Hkdf::<Sha512>::new` and `expand` for 32 bytes, which a block of SHA-512
/// covers, so the expansion cannot fail. The result is a function of its
/// arguments, named [`hkdf_sha512`].
#[verifier::external_body]
pub(crate) fn derive_key(salt: &[u8], material: &[u8], info: &[u8]) -> (key: [u8; 32])
    ensures
        key@ == hkdf_sha512(salt@, material@, info@),
{
    let mut key = [0u8; 32];
    Hkdf::<Sha512>::new(Some(salt), material).expand(info, &mut key).unwrap();
    key
}

/// The nonce of the message with number `counter`: four zero bytes and the number.
pub open spec fn nonce_of(counter: u64) -> Seq<u8> {
    seq![0u8, 0u8, 0u8, 0u8] + le_bytes(counter as nat, 8)
}

/// The nonce of the message with number `counter`.
pub fn nonce_for(counter: u64) -> (nonce: [u8; 12])
    ensures
        nonce@ == nonce_of(counter),
{
    let mut b: Vec<u8> = Vec::new();
    push_le(&mut b, counter, 8);
    proof {
        lemma_le_bytes_len(counter as nat, 8);
        assert(b@ =~= le_bytes(counter as nat, 8));
    }
    let nonce: [u8; 12] = [0, 0, 0, 0, b[0], b[1], b[2], b[3], b[4], b[5], b[6], b[7]];
    assert(nonce@ =~= nonce_of(counter));
    nonce
}

/// Opening gives the only message that seals to `c`.
pub proof fn lemma_opened(key: Seq<u8>, nonce: Seq<u8>, aad: Seq<u8>, c: Seq<u8>, m: Seq<u8>)
    requires
        m.len() + TAG_LEN == c.len(),
        m.len() < MESSAGE_LIMIT,
        forall|x: Seq<u8>|
            x.len() + 16 == c.len() ==> (#[trigger] sealed(key, nonce, aad, x) == c <==> x == m),
    ensures
        opened(key, nonce, aad, c) == Some(m),
{
    assert(seals_to(key, nonce, aad, m, c));
}

/// A nonce has twelve bytes: four zeros, and the number of the message with its least
/// significant byte first. Different numbers have different nonces.
pub proof fn law_nonces_number_the_messages(counter: u64, other: u64)
    ensures
        nonce_of(counter).len() == 12,
        forall|i: int| 0 <= i < 4 ==> #[trigger] nonce_of(counter)[i] == 0,
        nonce_of(counter)[4] == counter % 256,
        le_value(nonce_of(counter).skip(4)) == counter,
        nonce_of(counter) == nonce_of(other) ==> counter == other,
{
    lemma_le_bytes_len(counter as nat, 8);
    lemma_le_bytes_len(other as nat, 8);
    lemma_pow256_values();
    lemma_le_roundtrip(counter as nat, 8);
    lemma_le_roundtrip(other as nat, 8);
    assert(nonce_of(counter).skip(4) =~= le_bytes(counter as nat, 8));
    assert(nonce_of(other).skip(4) =~= le_bytes(other as nat, 8));
    assert(nonce_of(counter)[4] == le_bytes(counter as nat, 8)[0]);
}

} // verus!
