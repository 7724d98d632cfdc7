//! Encrypted records on a controller's connection.
//!
//! Once a session is established, everything on the connection is cut into
//! records of at most 1024 bytes: the length as a 16-bit little-endian number,
//! the ciphertext, and its tag. The length is authenticated with the record.

use vstd::prelude::*;
use vstd::string::*;
use vstd::utf8::encode_utf8;
use crate::crypto::{derive_key, hkdf_sha512, lemma_opened, nonce_for, nonce_of, open, opened, seal, sealed, MESSAGE_LIMIT};
use crate::wire::{law_bytes_are_digits, le_bytes, le_value, lemma_le_bytes_len, lemma_le_roundtrip, lemma_pow256_values, push_le};

verus! {

/// The most plaintext that one record carries.
pub const MAX_RECORD: usize = 1024;

/// The key that the session's secret gives under a label.
pub open spec fn control_key(secret: Seq<u8>, info: Seq<char>) -> Seq<u8> {
    hkdf_sha512(encode_utf8("Control-Salt"@), secret, encode_utf8(info))
}

/// The key of the records that the controller writes.
pub open spec fn read_key(secret: Seq<u8>) -> Seq<u8> {
    control_key(secret, "Control-Write-Encryption-Key"@)
}

/// The key of the records that the accessory writes.
pub open spec fn write_key(secret: Seq<u8>) -> Seq<u8> {
    control_key(secret, "Control-Read-Encryption-Key"@)
}

pub fn compute_read_key(shared_secret: &[u8; 32]) -> (key: [u8; 32])
    ensures
        key@ == read_key(shared_secret@),
        key@ == hkdf_sha512(
            encode_utf8("Control-Salt"@),
            shared_secret@,
            encode_utf8("Control-Write-Encryption-Key"@),
        ),
{
    compute_key(shared_secret, "Control-Write-Encryption-Key")
}

pub fn compute_write_key(shared_secret: &[u8; 32]) -> (key: [u8; 32])
    ensures
        key@ == write_key(shared_secret@),
        key@ == hkdf_sha512(
            encode_utf8("Control-Salt"@),
            shared_secret@,
            encode_utf8("Control-Read-Encryption-Key"@),
        ),
{
    compute_key(shared_secret, "Control-Read-Encryption-Key")
}

fn compute_key(shared_secret: &[u8; 32], info: &str) -> (key: [u8; 32])
    ensures
        key@ == control_key(shared_secret@, info@),
{
    let salt: &str = "Control-Salt";
    derive_key(salt.as_bytes(), shared_secret.as_slice(), info.as_bytes())
}

/// The sealed part of the record with number `counter` that carries `m`.
pub open spec fn sealed_record(key: Seq<u8>, counter: u64, m: Seq<u8>) -> Seq<u8> {
    sealed(key, nonce_of(counter), le_bytes(m.len(), 2), m)
}

/// The record with number `counter` that carries `m`.
pub open spec fn record_of(key: Seq<u8>, counter: u64, m: Seq<u8>) -> Seq<u8> {
    le_bytes(m.len(), 2) + sealed_record(key, counter, m)
}

/// The records that carry `data`, numbered from `counter` on.
pub open spec fn records_of(key: Seq<u8>, counter: u64, data: Seq<u8>) -> Seq<u8>
    decreases data.len(),
{
    if data.len() == 0 {
        Seq::empty()
    } else if data.len() <= MAX_RECORD {
        record_of(key, counter, data)
    } else {
        record_of(key, counter, data.take(MAX_RECORD as int)) + records_of(
            key,
            (counter + 1) as u64,
            data.skip(MAX_RECORD as int),
        )
    }
}

/// How many records carry `len` bytes.
pub open spec fn record_count(len: nat) -> nat {
    (len + MAX_RECORD - 1) as nat / MAX_RECORD as nat
}

/// Encrypts one record's worth of data: the length field, the ciphertext and the
/// tag. The counter advances.
pub fn encrypt_chunk(shared_secret: &[u8; 32], data: &[u8], count: &mut u64) -> (r: (
    [u8; 2],
    Vec<u8>,
    [u8; 16],
))
    requires
        *old(count) < u64::MAX,
        data@.len() < MESSAGE_LIMIT,
    ensures
        *final(count) == *old(count) + 1,
        r.0@ + r.1@ + r.2@ == record_of(write_key(shared_secret@), *old(count), data@),
        r.1@.len() == data@.len(),
        data@.len() <= 0xffff ==> opened(
            write_key(shared_secret@),
            nonce_of(*old(count)),
            r.0@,
            r.1@ + r.2@,
        ) == Some(data@),
{
    let key = compute_write_key(shared_secret);
    let nonce = nonce_for(*count);
    *count = *count + 1;
    let mut field: Vec<u8> = Vec::new();
    push_le(&mut field, data.len() as u64, 2);
    proof {
        lemma_le_bytes_len(data@.len(), 2);
        assert(field@ =~= le_bytes(data@.len(), 2));
    }
    let aad: [u8; 2] = [field[0], field[1]];
    assert(aad@ =~= field@);
    let mut ciphertext = seal(&key, &nonce, aad.as_slice(), data);
    let ghost whole = ciphertext@;
    proof {
        assert forall|x: Seq<u8>| x.len() + 16 == whole.len() implies (#[trigger] sealed(
            key@,
            nonce@,
            aad@,
            x,
        ) == whole <==> x == data@) by {}
        lemma_opened(key@, nonce@, aad@, whole, data@);
    }
    let tail = ciphertext.split_off(data.len());
    let mut tag: [u8; 16] = [0; 16];
    let mut i: usize = 0;
    while i < 16
        invariant
            i <= 16,
            tail@.len() == 16,
            forall|j: int| 0 <= j < i ==> tag@[j] == tail@[j],
        decreases 16 - i,
    {
        tag[i] = tail[i];
        i = i + 1;
    }
    assert(tag@ =~= tail@);
    assert(ciphertext@ + tag@ =~= whole);
    assert(aad@ + ciphertext@ + tag@ =~= aad@ + whole);
    (aad, ciphertext, tag)
}

/// Decrypts one record. The counter advances whether or not that succeeds.
pub fn decrypt_chunk(
    shared_secret: &[u8; 32],
    aad: &[u8],
    data: &[u8],
    auth_tag: &[u8],
    count: &mut u64,
) -> (r: Option<Vec<u8>>)
    requires
        *old(count) < u64::MAX,
        auth_tag@.len() == 16,
    ensures
        *final(count) == *old(count) + 1,
        match r {
            Some(m) => m@.len() == data@.len() && opened(
                read_key(shared_secret@),
                nonce_of(*old(count)),
                aad@,
                data@ + auth_tag@,
            ) == Some(m@),
            None => opened(
                read_key(shared_secret@),
                nonce_of(*old(count)),
                aad@,
                data@ + auth_tag@,
            ) is None,
        },
        forall|m: Seq<u8>|
            m.len() == data@.len() && m.len() < MESSAGE_LIMIT && #[trigger] sealed(
                read_key(shared_secret@),
                nonce_of(*old(count)),
                aad@,
                m,
            ) == data@ + auth_tag@ ==> r is Some && r->0@ == m,
{
    let key = compute_read_key(shared_secret);
    let nonce = nonce_for(*count);
    *count = *count + 1;
    let mut buffer: Vec<u8> = Vec::new();
    buffer.extend_from_slice(data);
    buffer.extend_from_slice(auth_tag);
    assert(buffer@ =~= data@ + auth_tag@);
    let r = open(&key, &nonce, aad, buffer.as_slice());
    proof {
        if r is Some {
            lemma_opened(key@, nonce@, aad@, buffer@, r->0@);
        }
    }
    r
}

/// Why a connection has to be given up.
#[derive(Clone, Copy, Debug, PartialEq, Eq, Structural)]
pub enum RecordError {
    /// A record announces more than 1024 bytes.
    TooLong,
    /// A record's tag does not match.
    DecryptFailed,
    /// The controller closed the connection within a record.
    UnexpectedEof,
    /// The connection took none of a message.
    WriteZero,
    /// The connection took none of the encrypted bytes offered to it.
    EncryptedWriteZero,
}

/// What an error is called.
pub open spec fn record_error_text(e: RecordError) -> Seq<char> {
    match e {
        RecordError::TooLong => "encrypted HAP record exceeds 1024 bytes"@,
        RecordError::DecryptFailed => "decryption failed"@,
        RecordError::UnexpectedEof => "controller closed during an encrypted HAP record"@,
        RecordError::WriteZero => "could not write outgoing HAP data"@,
        RecordError::EncryptedWriteZero => "could not write encrypted HAP data"@,
    }
}

impl RecordError {
    /// The error in words.
    pub fn message(&self) -> (s: String)
        ensures
            s@ == record_error_text(*self),
            *self is TooLong ==> s@ == "encrypted HAP record exceeds 1024 bytes"@,
            *self is DecryptFailed ==> s@ == "decryption failed"@,
            *self is UnexpectedEof ==> s@ == "controller closed during an encrypted HAP record"@,
            *self is WriteZero ==> s@ == "could not write outgoing HAP data"@,
            *self is EncryptedWriteZero ==> s@ == "could not write encrypted HAP data"@,
    {
        match *self {
            RecordError::TooLong => String::from_str("encrypted HAP record exceeds 1024 bytes"),
            RecordError::DecryptFailed => String::from_str("decryption failed"),
            RecordError::UnexpectedEof => String::from_str("controller closed during an encrypted HAP record"),
            RecordError::WriteZero => String::from_str("could not write outgoing HAP data"),
            RecordError::EncryptedWriteZero => String::from_str("could not write encrypted HAP data"),
        }
    }
}

/// What the first record in a buffer comes to.
pub ghost enum RecordStep {
    /// Not all of it is there.
    Incomplete,
    Bad(RecordError),
    Plain(Seq<u8>),
}

pub open spec fn record_step(key: Seq<u8>, counter: u64, buf: Seq<u8>) -> RecordStep {
    let len = le_value(buf.take(2)) as int;
    if buf.len() < 2 {
        RecordStep::Incomplete
    } else if len > MAX_RECORD {
        RecordStep::Bad(RecordError::TooLong)
    } else if buf.len() < len + 18 {
        RecordStep::Incomplete
    } else {
        match opened(key, nonce_of(counter), buf.take(2), buf.subrange(2, len + 18)) {
            Some(m) => RecordStep::Plain(m),
            None => RecordStep::Bad(RecordError::DecryptFailed),
        }
    }
}

/// What a buffer of records comes to: the plaintext up to the first bad or
/// incomplete record, the bytes from there on, and the number of that record.
pub ghost struct Drained {
    pub plain: Seq<u8>,
    pub rest: Seq<u8>,
    pub counter: u64,
    pub error: Option<RecordError>,
}

pub open spec fn drained(key: Seq<u8>, counter: u64, buf: Seq<u8>) -> Drained
    decreases buf.len(),
{
    match record_step(key, counter, buf) {
        RecordStep::Incomplete => Drained { plain: Seq::empty(), rest: buf, counter, error: None },
        RecordStep::Bad(e) => Drained { plain: Seq::empty(), rest: buf, counter, error: Some(e) },
        RecordStep::Plain(m) => {
            let after = buf.skip(le_value(buf.take(2)) as int + 18);
            if after.len() < buf.len() {
                let more = drained(key, (counter + 1) as u64, after);
                Drained { plain: m + more.plain, ..more }
            } else {
                arbitrary()
            }
        },
    }
}

/// Reading does not depend on how the bytes were cut up on their way: what has
/// come so far can be decrypted at once, and what is left over is completed by
/// the bytes that come later.
pub proof fn law_reading_ignores_fragmentation(
    key: Seq<u8>,
    counter: u64,
    first: Seq<u8>,
    second: Seq<u8>,
)
    requires
        drained(key, counter, first).error is None,
    ensures
        ({
            let early = drained(key, counter, first);
            let late = drained(key, early.counter, early.rest + second);
            drained(key, counter, first + second) == (Drained {
                plain: early.plain + late.plain,
                ..late
            })
        }),
    decreases first.len(),
{
    let whole = first + second;
    match record_step(key, counter, first) {
        RecordStep::Plain(m) => {
            let len = le_value(first.take(2)) as int;
            assert(whole.take(2) =~= first.take(2));
            assert(whole.subrange(2, len + 18) =~= first.subrange(2, len + 18));
            let after = first.skip(len + 18);
            assert(whole.skip(len + 18) =~= after + second);
            law_reading_ignores_fragmentation(key, (counter + 1) as u64, after, second);
            let early = drained(key, (counter + 1) as u64, after);
            let late = drained(key, early.counter, early.rest + second);
            assert(m + (early.plain + late.plain) =~= m + early.plain + late.plain);
        },
        _ => {
            let late = drained(key, counter, whole);
            assert(Seq::<u8>::empty() + late.plain =~= late.plain);
        },
    }
}

/// More bytes behind a buffer: they complete what is left over of it, and change
/// nothing where it holds a bad record.
pub proof fn lemma_more_bytes(key: Seq<u8>, counter: u64, first: Seq<u8>, second: Seq<u8>)
    ensures
        ({
            let early = drained(key, counter, first);
            let late = drained(key, early.counter, early.rest + second);
            drained(key, counter, first + second) == if early.error is None {
                Drained { plain: early.plain + late.plain, ..late }
            } else {
                Drained { rest: early.rest + second, ..early }
            }
        }),
    decreases first.len(),
{
    if drained(key, counter, first).error is None {
        law_reading_ignores_fragmentation(key, counter, first, second);
    } else {
        let whole = first + second;
        let len = le_value(first.take(2)) as int;
        assert(whole.take(2) =~= first.take(2));
        if first.len() >= len + 18 {
            assert(whole.subrange(2, len + 18) =~= first.subrange(2, len + 18));
        }
        if record_step(key, counter, first) is Plain {
            let after = first.skip(len + 18);
            assert(whole.skip(len + 18) =~= after + second);
            lemma_more_bytes(key, (counter + 1) as u64, after, second);
        }
    }
}

/// A record that its key opens is read as its plaintext.
proof fn lemma_record_reads(key: Seq<u8>, counter: u64, m: Seq<u8>, rest: Seq<u8>)
    requires
        m.len() <= MAX_RECORD,
        sealed_record(key, counter, m).len() == m.len() + 16,
        opened(key, nonce_of(counter), le_bytes(m.len(), 2), sealed_record(key, counter, m))
            == Some(m),
    ensures
        record_step(key, counter, record_of(key, counter, m) + rest) == RecordStep::Plain(m),
        drained(key, counter, record_of(key, counter, m) + rest) == ({
            let more = drained(key, (counter + 1) as u64, rest);
            Drained { plain: m + more.plain, ..more }
        }),
{
    let buf = record_of(key, counter, m) + rest;
    lemma_le_bytes_len(m.len(), 2);
    lemma_pow256_values();
    lemma_le_roundtrip(m.len(), 2);
    assert(buf.take(2) =~= le_bytes(m.len(), 2));
    assert(buf.subrange(2, m.len() as int + 18) =~= sealed_record(key, counter, m));
    assert(buf.skip(m.len() as int + 18) =~= rest);
}

/// Records one after another, numbered from `counter`.
pub open spec fn joined_records(key: Seq<u8>, counter: u64, plains: Seq<Seq<u8>>) -> Seq<u8>
    decreases plains.len(),
{
    if plains.len() == 0 {
        Seq::empty()
    } else {
        record_of(key, counter, plains[0]) + joined_records(
            key,
            (counter + 1) as u64,
            plains.skip(1),
        )
    }
}

/// Texts one after another.
pub open spec fn joined_plains(plains: Seq<Seq<u8>>) -> Seq<u8>
    decreases plains.len(),
{
    if plains.len() == 0 {
        Seq::empty()
    } else {
        plains[0] + joined_plains(plains.skip(1))
    }
}

/// Whether a record's key opens it again.
pub open spec fn valid_record(key: Seq<u8>, counter: u64, m: Seq<u8>) -> bool {
    &&& m.len() <= MAX_RECORD
    &&& sealed_record(key, counter, m).len() == m.len() + 16
    &&& opened(key, nonce_of(counter), le_bytes(m.len(), 2), sealed_record(key, counter, m)) == Some(
        m,
    )
}

/// Valid records one after another are read as their plaintexts in order, and leave
/// nothing over.
pub proof fn law_valid_records_are_read(key: Seq<u8>, counter: u64, plains: Seq<Seq<u8>>)
    requires
        counter + plains.len() <= u64::MAX,
        forall|i: int|
            0 <= i < plains.len() ==> valid_record(key, (counter + i) as u64, #[trigger] plains[i]),
    ensures
        drained(key, counter, joined_records(key, counter, plains)) == (Drained {
            plain: joined_plains(plains),
            rest: Seq::empty(),
            counter: (counter + plains.len()) as u64,
            error: None,
        }),
    decreases plains.len(),
{
    if plains.len() > 0 {
        let rest = plains.skip(1);
        let next = (counter + 1) as u64;
        assert forall|i: int| 0 <= i < rest.len() implies valid_record(
            key,
            (next + i) as u64,
            #[trigger] rest[i],
        ) by {
            assert(rest[i] == plains[i + 1]);
            assert(next + i == counter + (i + 1));
        }
        law_valid_records_are_read(key, next, rest);
        assert(valid_record(key, (counter + 0) as u64, plains[0]));
        lemma_record_reads(key, counter, plains[0], joined_records(key, next, rest));
    }
}

/// Encrypts `data` as records of at most 1024 bytes. A reader with the same key
/// reads the data back from them.
pub fn encrypt_records(shared_secret: &[u8; 32], data: &[u8], count: &mut u64) -> (out: Vec<u8>)
    requires
        *old(count) + record_count(data@.len()) <= u64::MAX,
    ensures
        out@ == records_of(write_key(shared_secret@), *old(count), data@),
        *final(count) == *old(count) + record_count(data@.len()),
        drained(write_key(shared_secret@), *old(count), out@) == (Drained {
            plain: data@,
            rest: Seq::empty(),
            counter: *final(count),
            error: None,
        }),
    decreases data@.len(),
{
    let ghost key = write_key(shared_secret@);
    let ghost start = *count;
    let mut out: Vec<u8> = Vec::new();
    if data.len() == 0 {
        assert(out@ =~= Seq::empty());
        assert(data@ =~= Seq::empty());
        return out;
    }
    let end: usize = if data.len() <= MAX_RECORD {
        data.len()
    } else {
        MAX_RECORD
    };
    let chunk = &data[0..end];
    let (aad, ciphertext, tag) = encrypt_chunk(shared_secret, chunk, count);
    out.extend_from_slice(aad.as_slice());
    out.extend_from_slice(ciphertext.as_slice());
    out.extend_from_slice(tag.as_slice());
    assert(out@ =~= record_of(key, start, chunk@));
    let rest = &data[end..data.len()];
    proof {
        lemma_le_bytes_len(chunk@.len(), 2);
        assert(aad@ + ciphertext@ + tag@ =~= aad@ + (ciphertext@ + tag@));
        assert(le_bytes(chunk@.len(), 2) =~= aad@) by {
            assert(record_of(key, start, chunk@).take(2) =~= le_bytes(chunk@.len(), 2));
            assert((aad@ + (ciphertext@ + tag@)).take(2) =~= aad@);
        }
        assert(sealed_record(key, start, chunk@) =~= ciphertext@ + tag@) by {
            assert(record_of(key, start, chunk@).skip(2) =~= sealed_record(key, start, chunk@));
            assert((aad@ + (ciphertext@ + tag@)).skip(2) =~= ciphertext@ + tag@);
        }
        assert(chunk@ =~= data@.take(end as int));
        assert(rest@ =~= data@.skip(end as int));
        assert(chunk@ + rest@ =~= data@);
    }
    let tail = encrypt_records(shared_secret, rest, count);
    proof {
        lemma_record_reads(key, start, chunk@, tail@);
        if data@.len() <= MAX_RECORD {
            assert(rest@.len() == 0);
            assert(tail@ =~= Seq::empty());
            assert(chunk@ =~= data@);
            assert(out@ + tail@ =~= out@);
        }
    }
    let ghost head = out@;
    out.extend_from_slice(tail.as_slice());
    assert(out@ =~= head + tail@);
    out
}

// --- The two directions ---

/// Each direction has the key of its own label: the accessory opens what the
/// controller seals under the label for the controller's writes, and seals what it
/// sends under the label for the controller's reads.
pub proof fn law_each_direction_has_its_label(secret: Seq<u8>)
    ensures
        read_key(secret) == hkdf_sha512(
            encode_utf8("Control-Salt"@),
            secret,
            encode_utf8("Control-Write-Encryption-Key"@),
        ),
        write_key(secret) == hkdf_sha512(
            encode_utf8("Control-Salt"@),
            secret,
            encode_utf8("Control-Read-Encryption-Key"@),
        ),
{
}

/// A record starts with the length of its plaintext in two bytes, least significant
/// first; behind them stands the plaintext, sealed with those two bytes and the
/// record's number.
pub proof fn law_a_record_starts_with_its_length(key: Seq<u8>, counter: u64, m: Seq<u8>)
    requires
        m.len() <= 1024,
    ensures
        ({
            let record = record_of(key, counter, m);
            &&& record.len() >= 2
            &&& record[0] + 0x100 * record[1] == m.len()
            &&& record.skip(2) == sealed(key, nonce_of(counter), record.take(2), m)
        }),
{
    let record = record_of(key, counter, m);
    lemma_le_bytes_len(m.len(), 2);
    law_bytes_are_digits(m.len(), 0, 0, 0, 0);
    assert(record.take(2) =~= le_bytes(m.len(), 2));
    assert(record.skip(2) =~= sealed_record(key, counter, m));
    assert(record[0] == le_bytes(m.len(), 2)[0] && record[1] == le_bytes(m.len(), 2)[1]);
}

/// Data are cut into records of 1024 bytes, with the rest in the last one, numbered one
/// after another; no data take no record.
pub proof fn law_records_are_cut_at_1024_bytes(key: Seq<u8>, counter: u64, data: Seq<u8>)
    requires
        counter < u64::MAX,
    ensures
        data.len() == 0 ==> records_of(key, counter, data) == Seq::<u8>::empty() && record_count(
            data.len(),
        ) == 0,
        0 < data.len() <= 1024 ==> records_of(key, counter, data) == record_of(key, counter, data)
            && record_count(data.len()) == 1,
        data.len() > 1024 ==> records_of(key, counter, data) == record_of(
            key,
            counter,
            data.take(1024),
        ) + records_of(key, (counter + 1) as u64, data.skip(1024)) && record_count(data.len())
            == 1 + record_count((data.len() - 1024) as nat),
{
}

/// A record that announces more than 1024 bytes is refused, before the rest of it has
/// come; any other one waits until its bytes and its tag of sixteen have come, and is
/// then opened as a whole, or refused.
pub proof fn law_records_are_taken_by_their_length(key: Seq<u8>, counter: u64, buf: Seq<u8>)
    ensures
        buf.len() < 2 ==> record_step(key, counter, buf) is Incomplete,
        buf.len() >= 2 ==> ({
            let len = buf[0] + 0x100 * buf[1];
            let step = record_step(key, counter, buf);
            &&& step == RecordStep::Bad(RecordError::TooLong) <==> len > 1024
            &&& step is Incomplete <==> len <= 1024 && buf.len() < len + 18
            &&& len <= 1024 && buf.len() >= len + 18 ==> match opened(
                key,
                nonce_of(counter),
                buf.take(2),
                buf.subrange(2, len + 18),
            ) {
                Some(m) => step == RecordStep::Plain(m),
                None => step == RecordStep::Bad(RecordError::DecryptFailed),
            }
        }),
{
    if buf.len() >= 2 {
        assert(buf.take(2) =~= seq![buf[0], buf[1]]);
        law_bytes_are_digits(0, buf[0], buf[1], 0, 0);
    }
}

} // verus!
