//! A controller's connection: ordered output, and the encrypted stream below it.
//!
//! The types here hold what the connection knows. Whoever owns the socket hands
//! them what it read or how a write went, and does what they answer.

use vstd::prelude::*;
use vstd::utf8::encode_utf8;
use super::record::{decrypt_chunk, drained, encrypt_records, lemma_more_bytes, read_key, record_count, record_of, record_step, records_of, sealed_record, write_key, Drained, RecordError, RecordStep, MAX_RECORD};
use crate::crypto::hkdf_sha512;
use crate::jpeg::{is_jpeg, law_a_jpeg_has_its_marks, opens_and_closes};
use crate::text::{find_bytes, find_from, law_searching_finds_the_first_place};
use crate::wire::{le_bytes, le_value, lemma_le_bytes_len, lemma_le_roundtrip, lemma_le_value_bound, lemma_pow256_values, read_le};

verus! {

/// The four bytes between the head and the body of a response.
pub open spec fn blank_line() -> Seq<u8> {
    seq![13u8, 10u8, 13u8, 10u8]
}

/// The body of a response.
pub open spec fn body_of(response: Seq<u8>) -> Option<Seq<u8>> {
    match find_from(response, blank_line(), 0) {
        Some(i) => Some(response.skip(i + 4)),
        None => None,
    }
}

/// The length of the image in a response that carries one.
pub open spec fn snapshot_len(response: Seq<u8>) -> Option<nat> {
    match body_of(response) {
        Some(body) => if is_jpeg(body) {
            Some(body.len())
        } else {
            None
        },
        None => None,
    }
}

/// The length of the image in a response that carries one.
pub fn snapshot_body_len(response: &[u8]) -> (r: Option<usize>)
    ensures
        match r {
            Some(n) => snapshot_len(response@) == Some(n as nat),
            None => snapshot_len(response@) is None,
        },
{
    let mark: [u8; 4] = [13, 10, 13, 10];
    assert(mark@ =~= blank_line());
    match find_bytes(response, mark.as_slice()) {
        Some(i) => {
            let total: usize = response.len();
            let body = &response[i + 4..total];
            assert(body@ =~= response@.skip(i + 4));
            if opens_and_closes(body) {
                Some(body.len())
            } else {
                None
            }
        },
        None => None,
    }
}

/// What became of a snapshot on its way to a controller.
#[derive(Clone, Copy, Debug, PartialEq, Eq, Structural)]
pub enum SnapshotDelivery {
    Delivered { bytes: usize },
    Failed,
}

/// Puts complete HTTP responses and asynchronous events in one order before they
/// enter the encrypted transport. A response may be written in several pieces;
/// events that come in between wait until all of it is queued.
#[derive(Debug)]
pub struct SerializedOutput {
    http_response: Vec<u8>,
    deferred_events: Vec<Vec<u8>>,
    queue: Vec<Vec<u8>>,
}

/// The mathematical value of a [`SerializedOutput`]: the response being written,
/// the events that wait for it, and the messages ready to be sent.
pub ghost struct OutputView {
    pub response: Seq<u8>,
    pub deferred: Seq<Seq<u8>>,
    pub queue: Seq<Seq<u8>>,
}

/// The bytes of each message.
pub open spec fn message_views(messages: Seq<Vec<u8>>) -> Seq<Seq<u8>> {
    Seq::new(messages.len(), |i: int| messages[i]@)
}

impl View for SerializedOutput {
    type V = OutputView;

    closed spec fn view(&self) -> OutputView {
        OutputView {
            response: self.http_response@,
            deferred: message_views(self.deferred_events@),
            queue: message_views(self.queue@),
        }
    }
}

/// The output after more bytes of the response.
pub open spec fn appended(o: OutputView, bytes: Seq<u8>) -> OutputView {
    OutputView { response: o.response + bytes, ..o }
}

/// The output after an event: it is queued at once where no response is being
/// written, else it waits.
pub open spec fn with_event(o: OutputView, event: Seq<u8>) -> OutputView {
    if o.response.len() == 0 {
        OutputView { queue: o.queue.push(event), ..o }
    } else {
        OutputView { deferred: o.deferred.push(event), ..o }
    }
}

/// The output after the response is complete: the response, then the events that
/// waited for it.
pub open spec fn flushed(o: OutputView) -> OutputView {
    OutputView {
        response: Seq::empty(),
        deferred: Seq::empty(),
        queue: (if o.response.len() == 0 {
            o.queue
        } else {
            o.queue.push(o.response)
        }) + o.deferred,
    }
}

/// How a flush went.
#[derive(Clone, Copy, Debug, PartialEq, Eq, Structural)]
pub enum FlushOutcome {
    Done,
    /// The controller is gone; `snapshot` tells whether an image was lost with it.
    Disconnected { snapshot: bool },
}

impl SerializedOutput {
    pub fn new() -> (o: Self)
        ensures
            o@ == (OutputView {
                response: Seq::empty(),
                deferred: Seq::empty(),
                queue: Seq::empty(),
            }),
    {
        let o = SerializedOutput {
            http_response: Vec::new(),
            deferred_events: Vec::new(),
            queue: Vec::new(),
        };
        assert(o@.deferred =~= Seq::empty());
        assert(o@.queue =~= Seq::empty());
        o
    }

    /// Adds bytes to the response being written.
    pub fn append_http(&mut self, bytes: &[u8])
        ensures
            final(self)@ == appended(old(self)@, bytes@),
    {
        self.http_response.extend_from_slice(bytes);
        assert(self@.response =~= old(self)@.response + bytes@);
    }

    /// Queues the response and the events that waited for it. `connected` tells
    /// whether the connection still takes messages; where it does not, the first
    /// message that was due is lost and the rest stay.
    pub fn flush_http(&mut self, connected: bool) -> (r: FlushOutcome)
        ensures
            connected ==> r == FlushOutcome::Done && final(self)@ == flushed(old(self)@),
            !connected && old(self)@.response.len() > 0 ==> r == (FlushOutcome::Disconnected {
                snapshot: snapshot_len(old(self)@.response) is Some,
            }) && final(self)@ == (OutputView { response: Seq::empty(), ..old(self)@ }),
            !connected && old(self)@.response.len() == 0 && old(self)@.deferred.len() > 0 ==> r == (
            FlushOutcome::Disconnected { snapshot: false }) && final(self)@ == (OutputView {
                deferred: old(self)@.deferred.skip(1),
                ..old(self)@
            }),
            !connected && old(self)@.response.len() == 0 && old(self)@.deferred.len() == 0 ==> r
                == FlushOutcome::Done && final(self)@ == old(self)@,
    {
        let ghost before = self@;
        if self.http_response.len() > 0 {
            let mut response: Vec<u8> = Vec::new();
            response.append(&mut self.http_response);
            assert(response@ =~= before.response);
            assert(self@.response =~= Seq::empty());
            if !connected {
                let snapshot: bool = snapshot_body_len(response.as_slice()).is_some();
                return FlushOutcome::Disconnected { snapshot };
            }
            let ghost q = self.queue@;
            self.queue.push(response);
            assert(self@.queue =~= before.queue.push(before.response));
        }
        if !connected {
            if self.deferred_events.len() == 0 {
                return FlushOutcome::Done;
            }
            let ghost d = self.deferred_events@;
            let _lost = self.deferred_events.remove(0);
            assert(self@.deferred =~= before.deferred.skip(1));
            return FlushOutcome::Disconnected { snapshot: false };
        }
        let ghost q = self.queue@;
        let ghost d = self.deferred_events@;
        self.queue.append(&mut self.deferred_events);
        assert(self@.queue =~= message_views(q) + message_views(d));
        assert(self@.deferred =~= Seq::empty());
        assert(self@.response =~= Seq::empty());
        FlushOutcome::Done
    }

    /// Queues an event, or keeps it until the response being written is complete.
    /// Returns whether it was taken: an event for a controller that is gone is
    /// lost, unless it has to wait anyway.
    pub fn send_event(&mut self, event: Vec<u8>, connected: bool) -> (taken: bool)
        ensures
            taken == (connected || old(self)@.response.len() > 0),
            taken ==> final(self)@ == with_event(old(self)@, event@),
            !taken ==> final(self)@ == old(self)@,
    {
        if self.http_response.len() == 0 {
            if !connected {
                return false;
            }
            self.queue.push(event);
            assert(self@.queue =~= old(self)@.queue.push(event@));
        } else {
            self.deferred_events.push(event);
            assert(self@.deferred =~= old(self)@.deferred.push(event@));
        }
        true
    }

    /// Takes the next message off the queue.
    pub fn next_message(&mut self) -> (m: Option<Vec<u8>>)
        ensures
            match m {
                Some(m) => old(self)@.queue.len() > 0 && m@ == old(self)@.queue[0] && final(self)@
                    == (OutputView { queue: old(self)@.queue.skip(1), ..old(self)@ }),
                None => old(self)@.queue.len() == 0 && final(self)@ == old(self)@,
            },
    {
        if self.queue.len() == 0 {
            None
        } else {
            let m = self.queue.remove(0);
            assert(self@.queue =~= old(self)@.queue.skip(1));
            Some(m)
        }
    }
}

impl Default for SerializedOutput {
    fn default() -> (o: Self)
        ensures
            o@ == (OutputView {
                response: Seq::empty(),
                deferred: Seq::empty(),
                queue: Seq::empty(),
            }),
    {
        SerializedOutput::new()
    }
}

/// A piece of output: more of the response being written, or an event.
pub ghost enum OutputPiece {
    Http(Seq<u8>),
    Event(Seq<u8>),
}

/// The output after several pieces.
pub open spec fn after_pieces(o: OutputView, pieces: Seq<OutputPiece>) -> OutputView
    decreases pieces.len(),
{
    if pieces.len() == 0 {
        o
    } else {
        let before = after_pieces(o, pieces.drop_last());
        match pieces.last() {
            OutputPiece::Http(bytes) => appended(before, bytes),
            OutputPiece::Event(event) => with_event(before, event),
        }
    }
}

/// All the response bytes in the pieces.
pub open spec fn http_bytes(pieces: Seq<OutputPiece>) -> Seq<u8>
    decreases pieces.len(),
{
    if pieces.len() == 0 {
        Seq::empty()
    } else {
        match pieces.last() {
            OutputPiece::Http(bytes) => http_bytes(pieces.drop_last()) + bytes,
            OutputPiece::Event(event) => http_bytes(pieces.drop_last()),
        }
    }
}

/// The events in the pieces, in their order.
pub open spec fn events_in(pieces: Seq<OutputPiece>) -> Seq<Seq<u8>>
    decreases pieces.len(),
{
    if pieces.len() == 0 {
        Seq::empty()
    } else {
        match pieces.last() {
            OutputPiece::Http(bytes) => events_in(pieces.drop_last()),
            OutputPiece::Event(event) => events_in(pieces.drop_last()).push(event),
        }
    }
}

proof fn lemma_deferred(o: OutputView, pieces: Seq<OutputPiece>)
    requires
        o.response.len() > 0,
    ensures
        after_pieces(o, pieces) == (OutputView {
            response: o.response + http_bytes(pieces),
            deferred: o.deferred + events_in(pieces),
            queue: o.queue,
        }),
    decreases pieces.len(),
{
    if pieces.len() == 0 {
        assert(o.response + http_bytes(pieces) =~= o.response);
        assert(o.deferred + events_in(pieces) =~= o.deferred);
    } else {
        let front = pieces.drop_last();
        lemma_deferred(o, front);
        match pieces.last() {
            OutputPiece::Http(bytes) => {
                assert(o.response + http_bytes(front) + bytes =~= o.response + http_bytes(pieces));
            },
            OutputPiece::Event(event) => {
                assert((o.deferred + events_in(front)).push(event) =~= o.deferred + events_in(
                    pieces,
                ));
            },
        }
    }
}

/// A response goes out as one message, however many writes it took and whatever
/// events came in between; those events follow it, in their order.
pub proof fn law_events_never_split_a_response(
    o: OutputView,
    head: Seq<u8>,
    pieces: Seq<OutputPiece>,
)
    requires
        o.response.len() == 0,
        o.deferred.len() == 0,
        head.len() > 0,
    ensures
        flushed(after_pieces(appended(o, head), pieces)) == (OutputView {
            response: Seq::empty(),
            deferred: Seq::empty(),
            queue: o.queue + seq![head + http_bytes(pieces)] + events_in(pieces),
        }),
{
    let begun = appended(o, head);
    assert(begun.response =~= head);
    lemma_deferred(begun, pieces);
    assert(o.deferred + events_in(pieces) =~= events_in(pieces));
    assert(o.queue.push(head + http_bytes(pieces)) =~= o.queue + seq![head + http_bytes(pieces)]);
}

/// What a controller's requests are read from.
#[derive(Debug)]
pub struct StreamWrapper {
    incoming_buf: Vec<u8>,
}

impl View for StreamWrapper {
    type V = Seq<u8>;

    closed spec fn view(&self) -> Seq<u8> {
        self.incoming_buf@
    }
}

/// As much of `buf` as `limit` allows.
pub open spec fn taken(buf: Seq<u8>, limit: usize) -> Seq<u8> {
    if limit <= buf.len() {
        buf.take(limit as int)
    } else {
        buf
    }
}

/// Takes at most `limit` bytes off the front of `buf`.
fn take_front(buf: &mut Vec<u8>, limit: usize) -> (out: Vec<u8>)
    ensures
        out@ == taken(old(buf)@, limit),
        out@ + final(buf)@ == old(buf)@,
{
    let ghost before = buf@;
    let mut out: Vec<u8> = Vec::new();
    if limit <= buf.len() {
        let mut rest = buf.split_off(limit);
        out.append(buf);
        buf.append(&mut rest);
        assert(out@ =~= before.take(limit as int));
    } else {
        out.append(buf);
        assert(out@ =~= before);
    }
    assert(out@ + buf@ =~= before);
    out
}

impl StreamWrapper {
    pub fn new() -> (w: Self)
        ensures
            w@ == Seq::<u8>::empty(),
    {
        StreamWrapper { incoming_buf: Vec::new() }
    }

    /// Takes in decrypted bytes.
    pub fn receive(&mut self, incoming: &[u8])
        ensures
            final(self)@ == old(self)@ + incoming@,
    {
        self.incoming_buf.extend_from_slice(incoming);
        assert(self@ =~= old(self)@ + incoming@);
    }

    /// Hands out at most `limit` of the bytes that have come.
    pub fn read(&mut self, limit: usize) -> (out: Vec<u8>)
        ensures
            out@ == taken(old(self)@, limit),
            out@ + final(self)@ == old(self)@,
    {
        take_front(&mut self.incoming_buf, limit)
    }
}

/// A session that pair-verify established: the controller's identifier and the
/// secret shared with it.
#[derive(Clone, Copy, Debug)]
pub struct Session {
    pub controller_id: [u8; 16],
    pub shared_secret: [u8; 32],
}

/// The encrypted side of a controller's connection.
#[derive(Debug)]
pub struct EncryptedStream {
    session: Option<Session>,
    outgoing_current: Option<Vec<u8>>,
    decrypt_count: u64,
    encrypt_count: u64,
    pending_encrypted_write: Vec<u8>,
    pending_plaintext_len: usize,
    encrypted_buf: Vec<u8>,
    decrypted_buf: Vec<u8>,
}

/// The mathematical value of an [`EncryptedStream`].
pub ghost struct StreamView {
    pub session: Option<Session>,
    /// The message being sent.
    pub outgoing: Option<Seq<u8>>,
    /// The number of the next record to come in, and of the next to go out.
    pub reads: u64,
    pub writes: u64,
    /// Encrypted bytes that the socket has not taken yet, and the length of the
    /// plaintext that they stand for.
    pub pending: Seq<u8>,
    pub pending_len: usize,
    /// Bytes that came in and are not decrypted yet.
    pub encrypted: Seq<u8>,
    /// Decrypted bytes that nobody has read yet.
    pub decrypted: Seq<u8>,
}

/// What a read comes to.
#[derive(Debug)]
pub enum ReadStep {
    /// No session yet: the bytes on the socket are plain.
    Plain,
    /// Decrypted bytes.
    Data(Vec<u8>),
    /// More bytes are needed from the socket.
    NeedInput,
    Fail(RecordError),
}

/// How a write to the socket went.
#[derive(Clone, Copy, Debug, PartialEq, Eq, Structural)]
pub enum WriteOutcome {
    Pending,
    Failed,
    Wrote(usize),
}

/// What a write comes to.
#[derive(Clone, Copy, Debug, PartialEq, Eq, Structural)]
pub enum WriteStep {
    /// No session yet: the bytes go out as they are.
    Plain,
    /// Encrypted bytes are waiting for the socket.
    Send,
    /// The socket takes no more for now.
    Wait,
    /// So many bytes of plaintext are on their way.
    Done(usize),
    /// The socket failed.
    Disconnected,
    Fail(RecordError),
}

/// What sending a message comes to.
#[derive(Clone, Copy, Debug, PartialEq, Eq, Structural)]
pub enum OutgoingNext {
    /// There may be more to send.
    Continue,
    Wait,
    Disconnected,
    Fail(RecordError),
}

/// The key for the records that come in.
pub open spec fn incoming_key(s: StreamView) -> Seq<u8> {
    read_key(s.session->0.shared_secret@)
}

/// All the plaintext that the bytes received so far hold, read or not.
pub open spec fn readable(s: StreamView) -> Seq<u8> {
    s.decrypted + drained(incoming_key(s), s.reads, s.encrypted).plain
}

/// The records ahead in the buffer are no more than the counter can number.
pub open spec fn countable(s: StreamView) -> bool {
    s.reads + s.encrypted.len() < u64::MAX
}

/// The stream once its next plaintext is decrypted, or all records that have come
/// whole: records that hold nothing are passed over.
pub open spec fn settled(s: StreamView) -> StreamView
    decreases s.encrypted.len(),
{
    match record_step(incoming_key(s), s.reads, s.encrypted) {
        RecordStep::Plain(m) if s.decrypted.len() == 0 => {
            let rest = s.encrypted.skip(le_value(s.encrypted.take(2)) as int + 18);
            if rest.len() < s.encrypted.len() {
                settled(
                    StreamView {
                        reads: (s.reads + 1) as u64,
                        encrypted: rest,
                        decrypted: m,
                        ..s
                    },
                )
            } else {
                s
            }
        },
        _ => s,
    }
}

/// What a read of at most `limit` bytes comes to.
pub ghost enum ReadOutcome {
    Plain,
    Data(Seq<u8>),
    NeedInput,
    Fail(RecordError),
}

/// What a read of at most `limit` bytes comes to, and the stream after it. The
/// counter moves on with a record whose tag does not match.
pub open spec fn reading(s: StreamView, limit: usize) -> (ReadOutcome, StreamView) {
    if s.session is None {
        (ReadOutcome::Plain, s)
    } else {
        let t = settled(s);
        if t.decrypted.len() > 0 {
            let out = taken(t.decrypted, limit);
            (
                ReadOutcome::Data(out),
                StreamView { decrypted: t.decrypted.skip(out.len() as int), ..t },
            )
        } else {
            match record_step(incoming_key(t), t.reads, t.encrypted) {
                RecordStep::Bad(e) => (
                    ReadOutcome::Fail(e),
                    StreamView {
                        reads: if e == RecordError::TooLong {
                            t.reads
                        } else {
                            (t.reads + 1) as u64
                        },
                        ..t
                    },
                ),
                _ => (ReadOutcome::NeedInput, t),
            }
        }
    }
}

impl View for ReadStep {
    type V = ReadOutcome;

    open spec fn view(&self) -> ReadOutcome {
        match *self {
            ReadStep::Plain => ReadOutcome::Plain,
            ReadStep::Data(out) => ReadOutcome::Data(out@),
            ReadStep::NeedInput => ReadOutcome::NeedInput,
            ReadStep::Fail(e) => ReadOutcome::Fail(e),
        }
    }
}

impl View for EncryptedStream {
    type V = StreamView;

    closed spec fn view(&self) -> StreamView {
        StreamView {
            session: self.session,
            outgoing: match self.outgoing_current {
                Some(data) => Some(data@),
                None => None,
            },
            reads: self.decrypt_count,
            writes: self.encrypt_count,
            pending: self.pending_encrypted_write@,
            pending_len: self.pending_plaintext_len,
            encrypted: self.encrypted_buf@,
            decrypted: self.decrypted_buf@,
        }
    }
}

impl EncryptedStream {
    pub fn new() -> (s: Self)
        ensures
            s@ == (StreamView {
                session: None,
                outgoing: None,
                reads: 0,
                writes: 0,
                pending: Seq::empty(),
                pending_len: 0,
                encrypted: Seq::empty(),
                decrypted: Seq::empty(),
            }),
    {
        EncryptedStream {
            session: None,
            outgoing_current: None,
            decrypt_count: 0,
            encrypt_count: 0,
            pending_encrypted_write: Vec::new(),
            pending_plaintext_len: 0,
            encrypted_buf: Vec::new(),
            decrypted_buf: Vec::new(),
        }
    }

    /// From here on everything on the connection is encrypted.
    pub fn establish(&mut self, session: Session)
        ensures
            final(self)@ == (StreamView { session: Some(session), ..old(self)@ }),
    {
        self.session = Some(session);
    }

    pub fn session(&self) -> (s: Option<Session>)
        ensures
            s == self@.session,
    {
        self.session
    }

    /// Takes in bytes from the socket.
    pub fn receive(&mut self, bytes: &[u8])
        ensures
            final(self)@ == (StreamView {
                encrypted: old(self)@.encrypted + bytes@,
                ..old(self)@
            }),
    {
        self.encrypted_buf.extend_from_slice(bytes);
        assert(self@.encrypted =~= old(self)@.encrypted + bytes@);
    }

    /// The controller closed the connection: that is an error within a record.
    pub fn end_of_input(&self) -> (r: Result<(), RecordError>)
        ensures
            r == if self@.encrypted.len() == 0 {
                Ok::<(), RecordError>(())
            } else {
                Err(RecordError::UnexpectedEof)
            },
    {
        if self.encrypted_buf.len() == 0 {
            Ok(())
        } else {
            Err(RecordError::UnexpectedEof)
        }
    }

    /// Decrypts the first record in the buffer, where all of it has come. The
    /// counter moves on with every record that was tried.
    ///
    /// A record that the controller made with this counter gives its plaintext.
    pub fn decrypt_buffered_record(&mut self) -> (r: Result<bool, RecordError>)
        requires
            old(self)@.session is Some,
            old(self)@.reads < u64::MAX,
        ensures
            match record_step(incoming_key(old(self)@), old(self)@.reads, old(self)@.encrypted) {
                RecordStep::Incomplete => r == Ok::<bool, RecordError>(false) && final(self)@ == old(
                    self,
                )@,
                RecordStep::Bad(e) => r == Err::<bool, RecordError>(e) && final(self)@ == (
                StreamView {
                    reads: if e == RecordError::TooLong {
                        old(self)@.reads
                    } else {
                        (old(self)@.reads + 1) as u64
                    },
                    ..old(self)@
                }),
                RecordStep::Plain(m) => r == Ok::<bool, RecordError>(true) && final(self)@ == (
                StreamView {
                    reads: (old(self)@.reads + 1) as u64,
                    encrypted: old(self)@.encrypted.skip(m.len() as int + 18),
                    decrypted: old(self)@.decrypted + m,
                    ..old(self)@
                }) && m.len() == le_value(old(self)@.encrypted.take(2)) && old(
                    self,
                )@.encrypted.len() >= m.len() + 18,
            },
            forall|m: Seq<u8>, rest: Seq<u8>|
                m.len() <= MAX_RECORD && sealed_record(
                    incoming_key(old(self)@),
                    old(self)@.reads,
                    m,
                ).len() == m.len() + 16 && old(self)@.encrypted == #[trigger] (record_of(
                    incoming_key(old(self)@),
                    old(self)@.reads,
                    m,
                ) + rest) ==> record_step(
                    incoming_key(old(self)@),
                    old(self)@.reads,
                    old(self)@.encrypted,
                ) == RecordStep::Plain(m) && final(self)@.encrypted == rest,
    {
        let ghost before = self@;
        let ghost key = incoming_key(before);
        let ghost buf = before.encrypted;
        proof {
            assert forall|m: Seq<u8>, rest: Seq<u8>|
                m.len() <= MAX_RECORD && sealed_record(key, before.reads, m).len() == m.len() + 16
                    && buf == #[trigger] (record_of(key, before.reads, m) + rest) implies buf.len()
                >= m.len() + 18 && le_value(buf.take(2)) == m.len() && buf.take(2) == le_bytes(
                m.len(),
                2,
            ) && buf.subrange(2, m.len() as int + 18) == sealed_record(key, before.reads, m)
                && buf.skip(m.len() as int + 18) == rest by {
                lemma_le_bytes_len(m.len(), 2);
                lemma_pow256_values();
                lemma_le_roundtrip(m.len(), 2);
                assert(buf.take(2) =~= le_bytes(m.len(), 2));
                assert(buf.subrange(2, m.len() as int + 18) =~= sealed_record(key, before.reads, m));
                assert(buf.skip(m.len() as int + 18) =~= rest);
            }
        }
        let total: usize = self.encrypted_buf.len();
        if total < 2 {
            return Ok(false);
        }
        let field = &self.encrypted_buf.as_slice()[0..2];
        assert(field@ =~= buf.take(2));
        proof {
            lemma_le_value_bound(field@);
            lemma_pow256_values();
        }
        let len: usize = read_le(field) as usize;
        if len > MAX_RECORD {
            return Err(RecordError::TooLong);
        }
        if total < len + 18 {
            return Ok(false);
        }
        let secret: [u8; 32] = match self.session {
            Some(session) => session.shared_secret,
            None => return Ok(false),
        };
        let data = &self.encrypted_buf.as_slice()[2..2 + len];
        let tag = &self.encrypted_buf.as_slice()[2 + len..18 + len];
        assert(data@ + tag@ =~= buf.subrange(2, len as int + 18));
        let mut count: u64 = self.decrypt_count;
        let opened = decrypt_chunk(&secret, field, data, tag, &mut count);
        self.decrypt_count = count;
        match opened {
            Some(m) => {
                let mut rest = self.encrypted_buf.split_off(len + 18);
                self.encrypted_buf.clear();
                self.encrypted_buf.append(&mut rest);
                self.decrypted_buf.extend_from_slice(m.as_slice());
                assert(self@.encrypted =~= buf.skip(len as int + 18));
                assert(self@.decrypted =~= before.decrypted + m@);
                Ok(true)
            },
            None => Err(RecordError::DecryptFailed),
        }
    }

    /// Reads at most `limit` decrypted bytes, decrypting records as they are
    /// needed.
    pub fn read(&mut self, limit: usize) -> (r: ReadStep)
        requires
            countable(old(self)@),
        ensures
            (r@, final(self)@) == reading(old(self)@, limit),
    {
        if self.session.is_none() {
            return ReadStep::Plain;
        }
        loop
            invariant
                old(self)@.session is Some,
                self@.session == old(self)@.session,
                countable(self@),
                settled(self@) == settled(old(self)@),
            decreases self@.encrypted.len(),
        {
            if self.decrypted_buf.len() > 0 {
                assert(settled(self@) == self@);
                let ghost before = self@;
                let out = take_front(&mut self.decrypted_buf, limit);
                assert(self@.decrypted =~= before.decrypted.skip(out@.len() as int));
                return ReadStep::Data(out);
            }
            let ghost before = self@;
            let result = self.decrypt_buffered_record();
            match result {
                Ok(true) => {
                    assert(before.decrypted =~= Seq::empty());
                    assert(before.decrypted + self@.decrypted =~= self@.decrypted);
                },
                Ok(false) => {
                    return ReadStep::NeedInput;
                },
                Err(e) => {
                    return ReadStep::Fail(e);
                },
            }
        }
    }

    /// Whether the counter can number the records ahead in the buffer.
    pub fn can_read(&self) -> (r: bool)
        ensures
            r == countable(self@),
    {
        let left: u64 = u64::MAX - self.decrypt_count;
        (self.encrypted_buf.len() as u64) < left
    }

    /// Whether the counter can number the records of `len` bytes.
    pub fn can_write(&self, len: usize) -> (r: bool)
        ensures
            r == (self@.writes + record_count(len as nat) <= u64::MAX),
    {
        let partial: usize = if len % MAX_RECORD == 0 {
            0
        } else {
            1
        };
        let records: usize = len / MAX_RECORD + partial;
        assert(records == record_count(len as nat));
        records as u64 <= u64::MAX - self.encrypt_count
    }

    /// Starts writing `buf`: encrypts it, unless the bytes of an earlier call are
    /// still on their way.
    pub fn start_write(&mut self, buf: &[u8]) -> (r: WriteStep)
        requires
            old(self)@.writes + record_count(buf@.len()) <= u64::MAX,
        ensures
            match old(self)@.session {
                None => r == WriteStep::Plain && final(self)@ == old(self)@,
                Some(session) => if buf@.len() == 0 {
                    r == WriteStep::Done(0) && final(self)@ == old(self)@
                } else if old(self)@.pending.len() > 0 {
                    r == WriteStep::Send && final(self)@ == old(self)@
                } else {
                    &&& r == WriteStep::Send
                    &&& final(self)@ == (StreamView {
                        writes: (old(self)@.writes + record_count(buf@.len())) as u64,
                        pending: records_of(
                            write_key(session.shared_secret@),
                            old(self)@.writes,
                            buf@,
                        ),
                        pending_len: buf@.len() as usize,
                        ..old(self)@
                    })
                    &&& drained(
                        write_key(session.shared_secret@),
                        old(self)@.writes,
                        final(self)@.pending,
                    ).plain == buf@
                    &&& final(self)@.pending == records_of(
                        hkdf_sha512(
                            encode_utf8("Control-Salt"@),
                            session.shared_secret@,
                            encode_utf8("Control-Read-Encryption-Key"@),
                        ),
                        old(self)@.writes,
                        buf@,
                    )
                },
            },
    {
        let secret: [u8; 32] = match self.session {
            Some(session) => session.shared_secret,
            None => return WriteStep::Plain,
        };
        if buf.len() == 0 {
            return WriteStep::Done(0);
        }
        if self.pending_encrypted_write.len() == 0 {
            self.pending_plaintext_len = buf.len();
            let mut count: u64 = self.encrypt_count;
            let records = encrypt_records(&secret, buf, &mut count);
            self.encrypt_count = count;
            self.pending_encrypted_write = records;
        }
        WriteStep::Send
    }

    /// The encrypted bytes to offer to the socket.
    pub fn pending_write(&self) -> (b: &[u8])
        ensures
            b@ == self@.pending,
    {
        self.pending_encrypted_write.as_slice()
    }

    /// Takes note of how the socket took the encrypted bytes. The write is done
    /// once it has taken them all.
    pub fn encrypted_written(&mut self, outcome: WriteOutcome) -> (r: WriteStep)
        requires
            old(self)@.pending.len() > 0,
            outcome matches WriteOutcome::Wrote(n) ==> n <= old(self)@.pending.len(),
        ensures
            match outcome {
                WriteOutcome::Pending => r == WriteStep::Wait && final(self)@ == old(self)@,
                WriteOutcome::Failed => r == WriteStep::Disconnected && final(self)@ == old(self)@,
                WriteOutcome::Wrote(n) => if n == 0 {
                    r == WriteStep::Fail(RecordError::EncryptedWriteZero) && final(self)@ == old(self)@
                } else if n < old(self)@.pending.len() {
                    r == WriteStep::Send && final(self)@ == (StreamView {
                        pending: old(self)@.pending.skip(n as int),
                        ..old(self)@
                    })
                } else {
                    r == WriteStep::Done(old(self)@.pending_len) && final(self)@ == (StreamView {
                        pending: Seq::empty(),
                        pending_len: 0,
                        ..old(self)@
                    })
                },
            },
    {
        match outcome {
            WriteOutcome::Pending => WriteStep::Wait,
            WriteOutcome::Failed => WriteStep::Disconnected,
            WriteOutcome::Wrote(n) => {
                if n == 0 {
                    return WriteStep::Fail(RecordError::EncryptedWriteZero);
                }
                let rest = self.pending_encrypted_write.split_off(n);
                self.pending_encrypted_write = rest;
                assert(self@.pending =~= old(self)@.pending.skip(n as int));
                if self.pending_encrypted_write.len() > 0 {
                    return WriteStep::Send;
                }
                assert(self@.pending =~= Seq::empty());
                let written: usize = self.pending_plaintext_len;
                self.pending_plaintext_len = 0;
                WriteStep::Done(written)
            },
        }
    }

    /// Takes the next message to send off the queue, unless one is being sent.
    /// Returns whether there is one.
    pub fn next_outgoing(&mut self, output: &mut SerializedOutput) -> (r: bool)
        ensures
            match old(self)@.outgoing {
                Some(_) => r && final(self)@ == old(self)@ && final(output)@ == old(output)@,
                None => if old(output)@.queue.len() > 0 {
                    r && final(self)@ == (StreamView {
                        outgoing: Some(old(output)@.queue[0]),
                        ..old(self)@
                    }) && final(output)@ == (OutputView {
                        queue: old(output)@.queue.skip(1),
                        ..old(output)@
                    })
                } else {
                    !r && final(self)@ == old(self)@ && final(output)@ == old(output)@
                },
            },
    {
        if self.outgoing_current.is_some() {
            return true;
        }
        match output.next_message() {
            Some(m) => {
                self.outgoing_current = Some(m);
                true
            },
            None => false,
        }
    }

    /// What is left of the message being sent.
    pub fn outgoing(&self) -> (r: Option<&[u8]>)
        ensures
            match r {
                Some(b) => self@.outgoing == Some(b@),
                None => self@.outgoing is None,
            },
    {
        match &self.outgoing_current {
            Some(data) => Some(data.as_slice()),
            None => None,
        }
    }

    /// Takes note of how much of the message being sent is on its way, and tells
    /// what to do next and what became of a snapshot in it.
    pub fn outgoing_written(&mut self, outcome: WriteOutcome) -> (r: (
        OutgoingNext,
        Option<SnapshotDelivery>,
    ))
        requires
            old(self)@.outgoing is Some,
        ensures
            ({
                let data = old(self)@.outgoing->0;
                let gone = StreamView { outgoing: None, ..old(self)@ };
                match outcome {
                    WriteOutcome::Pending => r == (
                        OutgoingNext::Wait,
                        None::<SnapshotDelivery>,
                    ) && final(self)@ == old(self)@,
                    WriteOutcome::Failed => r.0 == OutgoingNext::Disconnected && r.1 == (
                    if snapshot_len(data) is Some {
                        Some(SnapshotDelivery::Failed)
                    } else {
                        None
                    }) && final(self)@ == gone,
                    WriteOutcome::Wrote(n) => if n == 0 {
                        r == (
                            OutgoingNext::Fail(RecordError::WriteZero),
                            None::<SnapshotDelivery>,
                        ) && final(self)@ == gone
                    } else if n < data.len() {
                        r == (OutgoingNext::Continue, None::<SnapshotDelivery>) && final(self)@ == (
                        StreamView { outgoing: Some(data.skip(n as int)), ..old(self)@ })
                    } else {
                        r.0 == OutgoingNext::Continue && r.1 == (match snapshot_len(data) {
                            Some(bytes) => Some(
                                SnapshotDelivery::Delivered { bytes: bytes as usize },
                            ),
                            None => None,
                        }) && final(self)@ == gone
                    },
                }
            }),
    {
        if let WriteOutcome::Pending = outcome {
            return (OutgoingNext::Wait, None);
        }
        let mut data = match self.outgoing_current.take() {
            Some(data) => data,
            None => return (OutgoingNext::Continue, None),
        };
        match outcome {
            WriteOutcome::Wrote(n) => {
                if n == 0 {
                    return (OutgoingNext::Fail(RecordError::WriteZero), None);
                }
                if n < data.len() {
                    let ghost whole = data@;
                    let rest = data.split_off(n);
                    assert(rest@ =~= whole.skip(n as int));
                    self.outgoing_current = Some(rest);
                    return (OutgoingNext::Continue, None);
                }
                match snapshot_body_len(data.as_slice()) {
                    Some(bytes) => (
                        OutgoingNext::Continue,
                        Some(SnapshotDelivery::Delivered { bytes }),
                    ),
                    None => (OutgoingNext::Continue, None),
                }
            },
            _ => {
                if snapshot_body_len(data.as_slice()).is_some() {
                    (OutgoingNext::Disconnected, Some(SnapshotDelivery::Failed))
                } else {
                    (OutgoingNext::Disconnected, None)
                }
            },
        }
    }
}

// --- Reading in pieces ---

/// What happens to a stream: bytes come from the socket, or somebody reads.
pub ghost enum StreamEvent {
    Receive(Seq<u8>),
    Read(usize),
}

/// A run of such events: the stream after it, what the reads handed out, and the
/// failure that ended it.
pub ghost struct StreamRun {
    pub stream: StreamView,
    pub handed: Seq<u8>,
    pub failed: Option<RecordError>,
}

/// The run of events on a stream. It ends with the first failure.
pub open spec fn run(s: StreamView, events: Seq<StreamEvent>) -> StreamRun
    decreases events.len(),
{
    if events.len() == 0 {
        StreamRun { stream: s, handed: Seq::empty(), failed: None }
    } else {
        let before = run(s, events.drop_last());
        if before.failed is Some {
            before
        } else {
            match events.last() {
                StreamEvent::Receive(bytes) => StreamRun {
                    stream: StreamView {
                        encrypted: before.stream.encrypted + bytes,
                        ..before.stream
                    },
                    ..before
                },
                StreamEvent::Read(limit) => {
                    let (outcome, stream) = reading(before.stream, limit);
                    match outcome {
                        ReadOutcome::Data(out) => StreamRun {
                            stream,
                            handed: before.handed + out,
                            ..before
                        },
                        ReadOutcome::Fail(e) => StreamRun { stream, failed: Some(e), ..before },
                        _ => StreamRun { stream, ..before },
                    }
                },
            }
        }
    }
}

/// All bytes that come from the socket.
pub open spec fn bytes_received(events: Seq<StreamEvent>) -> Seq<u8>
    decreases events.len(),
{
    if events.len() == 0 {
        Seq::empty()
    } else {
        match events.last() {
            StreamEvent::Receive(bytes) => bytes_received(events.drop_last()) + bytes,
            StreamEvent::Read(_) => bytes_received(events.drop_last()),
        }
    }
}

/// What the bytes that a stream has not decrypted come to.
pub open spec fn ahead(s: StreamView) -> Drained {
    drained(incoming_key(s), s.reads, s.encrypted)
}

/// Decrypting ahead loses nothing and puts nothing in another order.
proof fn lemma_settled(s: StreamView)
    ensures
        readable(settled(s)) == readable(s),
        ahead(settled(s)).rest == ahead(s).rest,
        ahead(settled(s)).counter == ahead(s).counter,
        ahead(settled(s)).error == ahead(s).error,
        settled(s).session == s.session,
        settled(s).decrypted.len() == 0 ==> ahead(settled(s)).plain.len() == 0,
    decreases s.encrypted.len(),
{
    match record_step(incoming_key(s), s.reads, s.encrypted) {
        RecordStep::Plain(m) if s.decrypted.len() == 0 => {
            let rest = s.encrypted.skip(le_value(s.encrypted.take(2)) as int + 18);
            assert(rest.len() < s.encrypted.len());
            let next = StreamView {
                reads: (s.reads + 1) as u64,
                encrypted: rest,
                decrypted: m,
                ..s
            };
            lemma_settled(next);
            assert(s.decrypted =~= Seq::empty());
            assert(readable(next) =~= readable(s));
        },
        _ => {},
    }
}

/// One read hands out the front of what is readable and leaves the rest; it needs
/// more bytes, or fails, only where nothing is readable.
pub proof fn law_a_read_loses_nothing(s: StreamView, limit: usize)
    requires
        s.session is Some,
    ensures
        ({
            let (outcome, t) = reading(s, limit);
            &&& t.session == s.session
            &&& match outcome {
                ReadOutcome::Data(out) => readable(s) == out + readable(t) && out.len() <= limit && (
                limit > 0 ==> out.len() > 0) && ahead(t).rest == ahead(s).rest && ahead(t).counter
                    == ahead(s).counter && ahead(t).error == ahead(s).error,
                ReadOutcome::NeedInput => readable(s).len() == 0 && t.decrypted.len() == 0
                    && t.encrypted == ahead(s).rest && t.reads == ahead(s).counter && ahead(
                    s,
                ).error is None && ahead(t) == ahead(s),
                ReadOutcome::Fail(e) => readable(s).len() == 0 && ahead(s).error == Some(e),
                ReadOutcome::Plain => false,
            }
        }),
{
    lemma_settled(s);
    let u = settled(s);
    let (outcome, t) = reading(s, limit);
    match outcome {
        ReadOutcome::Data(out) => {
            assert(out + u.decrypted.skip(out.len() as int) =~= u.decrypted);
            assert(out + readable(t) =~= readable(u));
        },
        ReadOutcome::NeedInput => {
            assert(readable(u) =~= Seq::empty());
            lemma_settled_step(s);
            assert(ahead(s).plain =~= Seq::empty());
            assert(ahead(u).plain =~= Seq::empty());
        },
        ReadOutcome::Fail(_) => {
            assert(readable(u) =~= Seq::empty());
        },
        ReadOutcome::Plain => {},
    }
}

/// Where nothing is decrypted after decrypting ahead, no whole record is left.
proof fn lemma_settled_step(s: StreamView)
    ensures
        settled(s).decrypted.len() == 0 ==> !(record_step(
            incoming_key(settled(s)),
            settled(s).reads,
            settled(s).encrypted,
        ) is Plain),
    decreases s.encrypted.len(),
{
    match record_step(incoming_key(s), s.reads, s.encrypted) {
        RecordStep::Plain(m) if s.decrypted.len() == 0 => {
            let rest = s.encrypted.skip(le_value(s.encrypted.take(2)) as int + 18);
            assert(rest.len() < s.encrypted.len());
            lemma_settled_step(
                StreamView {
                    reads: (s.reads + 1) as u64,
                    encrypted: rest,
                    decrypted: m,
                    ..s
                },
            );
        },
        _ => {},
    }
}

/// However the bytes from the socket are cut, and whatever the limits of the reads
/// between them: what the reads hand out, and then what is still readable, is the
/// plaintext of all the bytes received, none of it lost, repeated or in another
/// order. What is left over is the start of the record that has not come whole.
/// Where a read fails, all the plaintext before the bad record was handed out.
pub proof fn law_reads_give_all_that_was_received(s: StreamView, events: Seq<StreamEvent>)
    requires
        s.session is Some,
    ensures
        ({
            let done = run(s, events);
            let all = drained(incoming_key(s), s.reads, s.encrypted + bytes_received(events));
            match done.failed {
                None => {
                    &&& done.handed + readable(done.stream) == s.decrypted + all.plain
                    &&& ahead(done.stream).rest == all.rest
                    &&& ahead(done.stream).counter == all.counter
                    &&& ahead(done.stream).error == all.error
                },
                Some(e) => done.handed == s.decrypted + all.plain && all.error == Some(e),
            }
        }),
        run(s, events).failed is None ==> run(s, events).stream.session == s.session,
    decreases events.len(),
{
    let key = incoming_key(s);
    if events.len() == 0 {
        assert(s.encrypted + bytes_received(events) =~= s.encrypted);
        assert(Seq::<u8>::empty() + readable(s) =~= readable(s));
    } else {
        let front = events.drop_last();
        law_reads_give_all_that_was_received(s, front);
        let before = run(s, front);
        let t = before.stream;
        let known = s.encrypted + bytes_received(front);
        match events.last() {
            StreamEvent::Receive(bytes) => {
                assert(s.encrypted + bytes_received(events) =~= known + bytes);
                lemma_more_bytes(key, s.reads, known, bytes);
                if before.failed is None {
                    lemma_more_bytes(key, t.reads, t.encrypted, bytes);
                    let more = drained(key, ahead(t).counter, ahead(t).rest + bytes).plain;
                    let u = StreamView { encrypted: t.encrypted + bytes, ..t };
                    if ahead(t).error is None {
                        assert(before.handed + readable(u) =~= before.handed + readable(t) + more);
                        assert(s.decrypted + (drained(key, s.reads, known).plain + more)
                            =~= s.decrypted + drained(key, s.reads, known).plain + more);
                    }
                }
            },
            StreamEvent::Read(limit) => {
                if before.failed is None {
                    law_a_read_loses_nothing(t, limit);
                    let (outcome, u) = reading(t, limit);
                    match outcome {
                        ReadOutcome::Data(out) => {
                            assert(before.handed + out + readable(u) =~= before.handed + (out
                                + readable(u)));
                        },
                        ReadOutcome::NeedInput => {
                            assert(readable(u) =~= readable(t));
                        },
                        _ => {
                            assert(before.handed + readable(t) =~= before.handed);
                        },
                    }
                }
            },
        }
    }
}

// --- What goes in and out ---

/// The body of a response is what follows its first blank line. It counts as an image
/// where it starts with FF D8 and ends with FF D9, and then with all of its bytes.
pub proof fn law_the_body_follows_the_first_blank_line(
    response: Seq<u8>,
    head: Seq<u8>,
    body: Seq<u8>,
)
    requires
        response == head + seq![13u8, 10u8, 13u8, 10u8] + body,
        forall|i: int|
            0 <= i < head.len() ==> #[trigger] response.subrange(i, i + 4) != seq![
                13u8,
                10u8,
                13u8,
                10u8,
            ],
    ensures
        ({
            let image = body.len() >= 2 && body[0] == 0xff && body[1] == 0xd8 && body[body.len() - 2]
                == 0xff && body[body.len() - 1] == 0xd9;
            &&& body_of(response) == Some(body)
            &&& image ==> snapshot_len(response) == Some(body.len())
            &&& !image ==> snapshot_len(response) is None
        }),
{
    let mark = blank_line();
    law_searching_finds_the_first_place(response, mark);
    let n = head.len() as int;
    assert(response.subrange(n, n + 4) =~= mark);
    assert(response.subrange(n, n + mark.len()) == mark);
    let p = find_from(response, mark, 0)->0;
    if p < n {
        assert(response.subrange(p, p + 4) == mark);
    }
    assert(p == n);
    assert(response.skip(n + 4) =~= body);
    law_a_jpeg_has_its_marks(body);
}

/// Without a blank line there is no body, and no image.
pub proof fn law_without_a_blank_line_there_is_no_body(response: Seq<u8>)
    requires
        forall|i: int|
            0 <= i <= response.len() - 4 ==> !(#[trigger] response[i] == 13 && response[i + 1] == 10
                && response[i + 2] == 13 && response[i + 3] == 10),
    ensures
        body_of(response) is None,
        snapshot_len(response) is None,
{
    let mark = blank_line();
    law_searching_finds_the_first_place(response, mark);
    if let Some(p) = find_from(response, mark, 0) {
        let found = response.subrange(p, p + 4);
        assert(found[0] == 13 && found[1] == 10 && found[2] == 13 && found[3] == 10);
        assert(response[p] == 13);
    }
}

/// A response goes out whole and before the events that came while it was written, and
/// those go out in their order; an event that comes between responses goes out at once.
pub proof fn law_responses_and_events_keep_their_order(
    o: OutputView,
    bytes: Seq<u8>,
    event: Seq<u8>,
)
    ensures
        o.response.len() == 0 ==> with_event(o, event).queue == o.queue.push(event) && with_event(
            o,
            event,
        ).deferred == o.deferred,
        bytes.len() > 0 ==> flushed(with_event(appended(o, bytes), event)).queue == o.queue.push(
            o.response + bytes,
        ) + o.deferred.push(event),
        appended(o, bytes).queue == o.queue && appended(o, bytes).deferred == o.deferred,
        with_event(o, event).response == o.response,
        flushed(o).response.len() == 0 && flushed(o).deferred.len() == 0,
        o.response.len() == 0 ==> flushed(o).queue == o.queue + o.deferred,
{
}

/// A read takes the first bytes that are there, as many as are asked for or as there are.
pub proof fn law_a_read_takes_the_first_bytes(buf: Seq<u8>, limit: usize)
    ensures
        taken(buf, limit).len() <= limit,
        taken(buf, limit).len() <= buf.len(),
        taken(buf, limit).len() == limit || taken(buf, limit).len() == buf.len(),
        buf.take(taken(buf, limit).len() as int) == taken(buf, limit),
{
    assert(buf.take(buf.len() as int) =~= buf);
}

/// What a controller sends is decrypted with the key of its direction, which is that for
/// its writes.
pub proof fn law_controllers_write_with_their_key(s: StreamView)
    requires
        s.session is Some,
    ensures
        incoming_key(s) == hkdf_sha512(
            encode_utf8("Control-Salt"@),
            s.session->0.shared_secret@,
            encode_utf8("Control-Write-Encryption-Key"@),
        ),
{
}

} // verus!
