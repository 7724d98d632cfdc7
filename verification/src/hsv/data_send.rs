//! The messages that deliver a recording over a data stream: the init segment, the
//! prebuffered fragments and the live ones, in chunks, until motion has stopped
//! for a while.

use vstd::prelude::*;
use vstd::string::*;
use vstd::utf8::encode_utf8;
use crate::hsv::codec::{encoded, encoded_entries, field, law_a_dictionary_gives_the_first_entry, encoded_items, encoded_text, value_views, Value, ValueView};
use crate::hsv::frame::MAX_PAYLOAD;
use crate::wire::{lemma_le_bytes_len, to_vec, twos_complement};

verus! {

/// The longest chunk of data in one message.
pub const MAX_CHUNK: usize = 0x4_0000;

/// How long a recording goes on after motion has stopped, in milliseconds.
pub const RECORDING_TAIL: u64 = 8000;

/// The reason of a close: nothing is delivered in time.
pub const CLOSE_TIMEOUT: i64 = 6;

/// The reason of a close: the recorder has stopped.
pub const CLOSE_UNEXPECTED_FAILURE: i64 = 5;

/// How many milliseconds a recording waits for its next fragment.
pub const FRAGMENT_TIMEOUT: u64 = 30_000;

/// Why a recording stops before its end.
#[derive(Clone, Copy, Debug, PartialEq, Eq, Structural)]
pub enum RecordingFault {
    /// The recorder has no init segment yet.
    NothingBuffered,
    /// The recorder is gone, or went ahead of the recording.
    RecorderGone,
    /// No fragment came in time.
    TimedOut,
}

/// The reason that the controller is given for closing a recording.
pub fn close_reason(fault: RecordingFault) -> (reason: i64)
    ensures
        reason == if fault == RecordingFault::RecorderGone {
            CLOSE_UNEXPECTED_FAILURE
        } else {
            CLOSE_TIMEOUT
        },
        reason == if fault == RecordingFault::RecorderGone {
            5
        } else {
            6int
        },
{
    match fault {
        RecordingFault::RecorderGone => CLOSE_UNEXPECTED_FAILURE,
        RecordingFault::NothingBuffered | RecordingFault::TimedOut => CLOSE_TIMEOUT,
    }
}

/// The header of an event.
pub open spec fn event_header(event: Seq<char>) -> ValueView {
    ValueView::Dict(
        seq![
            ("protocol"@, ValueView::Text("dataSend"@)),
            ("event"@, ValueView::Text(event)),
        ],
    )
}

fn make_event_header(event: &str) -> (header: Value)
    ensures
        header@ == event_header(event@),
{
    let header = Value::dict(
        vec![
            ("protocol", Value::String(String::from_str("dataSend"))),
            ("event", Value::String(String::from_str(event))),
        ],
    );
    assert(header@->Dict_0 =~~= event_header(event@)->Dict_0);
    header
}

/// The header of every message of data.
pub fn data_header() -> (header: Value)
    ensures
        header@ == event_header("data"@),
{
    make_event_header("data")
}

/// The header of a close.
pub fn close_header() -> (header: Value)
    ensures
        header@ == event_header("close"@),
{
    make_event_header("close")
}

/// The message of a close.
pub open spec fn close_view(stream_id: i64, reason: i64) -> ValueView {
    ValueView::Dict(
        seq![
            ("streamId"@, ValueView::Int64(stream_id)),
            ("reason"@, ValueView::Int64(reason)),
        ],
    )
}

/// The message of a close.
pub fn close_message(stream_id: i64, reason: i64) -> (message: Value)
    ensures
        message@ == close_view(stream_id, reason),
{
    let message = Value::dict(
        vec![("streamId", Value::Int64(stream_id)), ("reason", Value::Int64(reason))],
    );
    assert(message@->Dict_0 =~~= close_view(stream_id, reason)->Dict_0);
    message
}

/// How many chunks data of this length takes. Even no data takes one.
pub open spec fn chunk_count(len: nat) -> nat {
    if len == 0 {
        1
    } else {
        (len + MAX_CHUNK - 1) as nat / MAX_CHUNK as nat
    }
}

/// Where the chunk with index `i` ends.
pub open spec fn chunk_end(len: nat, i: nat) -> int {
    if (i + 1) * MAX_CHUNK < len {
        (i + 1) * MAX_CHUNK
    } else {
        len as int
    }
}

/// The chunk with index `i`.
pub open spec fn chunk(data: Seq<u8>, i: nat) -> Seq<u8> {
    data.subrange(i * MAX_CHUNK, chunk_end(data.len(), i))
}

/// What a message tells of its chunk. The first one tells the length of the whole.
pub open spec fn metadata(len: nat, data_type: Seq<char>, sequence: int, i: nat) -> Seq<
    (Seq<char>, ValueView),
> {
    let all = seq![
        ("dataType"@, ValueView::Text(data_type)),
        ("dataSequenceNumber"@, ValueView::Int(sequence as i64)),
        ("dataChunkSequenceNumber"@, ValueView::Int((i + 1) as i64)),
        ("isLastDataChunk"@, ValueView::Bool(i + 1 == chunk_count(len))),
    ];
    if i == 0 {
        all.push(("dataTotalSize"@, ValueView::Int(len as i64)))
    } else {
        all
    }
}

/// The message for the chunk with index `i`. The last chunk tells whether the
/// recording ends with it.
pub open spec fn data_view(
    stream_id: i64,
    data: Seq<u8>,
    data_type: Seq<char>,
    sequence: int,
    end_of_stream: bool,
    i: nat,
) -> ValueView {
    let packet = ValueView::Dict(
        seq![
            ("data"@, ValueView::Data(chunk(data, i))),
            ("metadata"@, ValueView::Dict(metadata(data.len(), data_type, sequence, i))),
        ],
    );
    let message = seq![
        ("streamId"@, ValueView::Int64(stream_id)),
        ("packets"@, ValueView::Array(seq![packet])),
    ];
    ValueView::Dict(
        if i + 1 == chunk_count(data.len()) {
            message.push(("endOfStream"@, ValueView::Bool(end_of_stream)))
        } else {
            message
        },
    )
}

/// The messages for a segment or fragment, one for each chunk.
pub open spec fn data_views(
    stream_id: i64,
    data: Seq<u8>,
    data_type: Seq<char>,
    sequence: int,
    end_of_stream: bool,
) -> Seq<ValueView> {
    Seq::new(
        chunk_count(data.len()),
        |i: int| data_view(stream_id, data, data_type, sequence, end_of_stream, i as nat),
    )
}

proof fn lemma_chunk_bounds(len: nat, i: nat)
    requires
        i < chunk_count(len),
    ensures
        0 <= i * MAX_CHUNK <= chunk_end(len, i) <= len,
        chunk_end(len, i) - i * MAX_CHUNK <= MAX_CHUNK,
        i + 1 < chunk_count(len) ==> chunk_end(len, i) == (i + 1) * MAX_CHUNK,
        i + 1 == chunk_count(len) ==> chunk_end(len, i) == len,
{
    if len > 0 {
        let n = chunk_count(len);
        assert(n == (len + 0x3_ffff) / 0x4_0000);
        assert(n * 0x4_0000 >= len);
        assert((n - 1) * 0x4_0000 < len);
    }
}

fn data_message(
    stream_id: i64,
    data: &[u8],
    data_type: &str,
    sequence: u64,
    end_of_stream: bool,
    i: usize,
    count: usize,
) -> (message: Value)
    requires
        data@.len() <= i64::MAX,
        sequence <= i64::MAX,
        count == chunk_count(data@.len()),
        i < count,
    ensures
        message@ == data_view(
            stream_id,
            data@,
            data_type@,
            sequence as int,
            end_of_stream,
            i as nat,
        ),
{
    proof {
        lemma_chunk_bounds(data@.len(), i as nat);
    }
    let total: usize = data.len();
    let start: usize = i * MAX_CHUNK;
    let is_last: bool = i + 1 == count;
    let end: usize = if is_last {
        total
    } else {
        start + MAX_CHUNK
    };
    let piece = to_vec(&data[start..end]);
    assert(piece@ == chunk(data@, i as nat));
    let mut metadata_entries: Vec<(&str, Value)> = vec![
        ("dataType", Value::String(String::from_str(data_type))),
        ("dataSequenceNumber", Value::Int(sequence as i64)),
        ("dataChunkSequenceNumber", Value::Int((i + 1) as i64)),
        ("isLastDataChunk", Value::Bool(is_last)),
    ];
    if i == 0 {
        metadata_entries.push(("dataTotalSize", Value::Int(total as i64)));
    }
    let metadata_value = Value::dict(metadata_entries);
    assert(metadata_value@->Dict_0 =~~= metadata(
        data@.len(),
        data_type@,
        sequence as int,
        i as nat,
    ));
    let packet = Value::dict(vec![("data", Value::Data(piece)), ("metadata", metadata_value)]);
    let ghost packet_view = packet@;
    assert(packet@->Dict_0 =~~= seq![
        ("data"@, ValueView::Data(chunk(data@, i as nat))),
        (
            "metadata"@,
            ValueView::Dict(metadata(data@.len(), data_type@, sequence as int, i as nat)),
        ),
    ]);
    let packets = Value::Array(vec![packet]);
    assert(packets@->Array_0 =~~= seq![packet_view]);
    let mut entries: Vec<(&str, Value)> = vec![
        ("streamId", Value::Int64(stream_id)),
        ("packets", packets),
    ];
    if is_last {
        entries.push(("endOfStream", Value::Bool(end_of_stream)));
    }
    let message = Value::dict(entries);
    assert(message@->Dict_0 =~~= data_view(
        stream_id,
        data@,
        data_type@,
        sequence as int,
        end_of_stream,
        i as nat,
    )->Dict_0);
    message
}

/// The messages for a segment or fragment.
pub fn data_messages(
    stream_id: i64,
    data: &[u8],
    data_type: &str,
    sequence: u64,
    end_of_stream: bool,
) -> (messages: Vec<Value>)
    requires
        data@.len() <= i64::MAX - MAX_CHUNK,
        data@.len() <= usize::MAX - MAX_CHUNK,
        sequence <= i64::MAX,
    ensures
        value_views(messages@) == data_views(
            stream_id,
            data@,
            data_type@,
            sequence as int,
            end_of_stream,
        ),
{
    let total: usize = data.len();
    let count: usize = if total == 0 {
        1
    } else {
        (total + MAX_CHUNK - 1) / MAX_CHUNK
    };
    let mut messages: Vec<Value> = Vec::new();
    let mut i: usize = 0;
    while i < count
        invariant
            i <= count,
            count == chunk_count(data@.len()),
            data@.len() <= i64::MAX - MAX_CHUNK,
            sequence <= i64::MAX,
            messages@.len() == i,
            forall|j: int|
                0 <= j < i ==> (#[trigger] messages@[j])@ == data_view(
                    stream_id,
                    data@,
                    data_type@,
                    sequence as int,
                    end_of_stream,
                    j as nat,
                ),
        decreases count - i,
    {
        messages.push(
            data_message(stream_id, data, data_type, sequence, end_of_stream, i, count),
        );
        i = i + 1;
    }
    assert(value_views(messages@) =~= data_views(
        stream_id,
        data@,
        data_type@,
        sequence as int,
        end_of_stream,
    ));
    messages
}

/// The chunks with indices below `n`, one after another.
pub open spec fn joined_chunks(data: Seq<u8>, n: nat) -> Seq<u8>
    decreases n,
{
    if n == 0 {
        Seq::empty()
    } else {
        joined_chunks(data, (n - 1) as nat) + chunk(data, (n - 1) as nat)
    }
}

proof fn lemma_joined(data: Seq<u8>, n: nat)
    requires
        n <= chunk_count(data.len()),
    ensures
        n < chunk_count(data.len()) ==> joined_chunks(data, n) == data.take(n * MAX_CHUNK)
            && n * MAX_CHUNK <= data.len(),
        n == chunk_count(data.len()) ==> joined_chunks(data, n) == data,
    decreases n,
{
    if n == 0 {
        assert(data.take(0) =~= Seq::empty());
    } else {
        lemma_joined(data, (n - 1) as nat);
        lemma_chunk_bounds(data.len(), (n - 1) as nat);
        let end = chunk_end(data.len(), (n - 1) as nat);
        assert(data.take((n - 1) * MAX_CHUNK) + chunk(data, (n - 1) as nat) =~= data.take(end));
        if n < chunk_count(data.len()) {
            lemma_chunk_bounds(data.len(), n);
        } else {
            assert(data.take(end) =~= data);
        }
    }
}

/// The chunks of the messages, put together in their order, are the data; none is
/// longer than the limit.
pub proof fn law_chunks_make_up_the_data(data: Seq<u8>)
    ensures
        joined_chunks(data, chunk_count(data.len())) == data,
        forall|i: nat| i < chunk_count(data.len()) ==> (#[trigger] chunk(data, i)).len() <= MAX_CHUNK,
{
    lemma_joined(data, chunk_count(data.len()));
    assert forall|i: nat| i < chunk_count(data.len()) implies (#[trigger] chunk(data, i)).len()
        <= MAX_CHUNK by {
        lemma_chunk_bounds(data.len(), i);
    }
}

/// A character takes at most four bytes.
proof fn lemma_utf8_len(s: Seq<char>)
    ensures
        encode_utf8(s).len() <= 4 * s.len(),
    decreases s.len(),
{
    if s.len() > 0 {
        lemma_utf8_len(s.drop_first());
    }
}

proof fn lemma_text_len(s: Seq<char>)
    ensures
        encoded_text(s).len() <= 5 + 4 * s.len(),
        encoded(ValueView::Text(s)).len() <= 5 + 4 * s.len(),
{
    lemma_utf8_len(s);
    let n = encode_utf8(s).len();
    lemma_le_bytes_len(n, 1);
    lemma_le_bytes_len(n, 2);
    lemma_le_bytes_len(n, 4);
}

proof fn lemma_int_len(v: i64)
    ensures
        encoded(ValueView::Int(v)).len() <= 9,
        encoded(ValueView::Int64(v)).len() <= 9,
{
    lemma_le_bytes_len(twos_complement(v as int, 1), 1);
    lemma_le_bytes_len(twos_complement(v as int, 2), 2);
    lemma_le_bytes_len(twos_complement(v as int, 4), 4);
    lemma_le_bytes_len(twos_complement(v as int, 8), 8);
}

proof fn lemma_data_len(d: Seq<u8>)
    ensures
        encoded(ValueView::Data(d)).len() <= 5 + d.len(),
{
    lemma_le_bytes_len(d.len(), 1);
    lemma_le_bytes_len(d.len(), 2);
    lemma_le_bytes_len(d.len(), 4);
}

/// How many bytes an entry takes.
spec fn entry_len(e: (Seq<char>, ValueView)) -> nat {
    encoded_text(e.0).len() + encoded(e.1).len()
}

proof fn lemma_entry_push(entries: Seq<(Seq<char>, ValueView)>, e: (Seq<char>, ValueView))
    ensures
        encoded_entries(entries.push(e)).len() == encoded_entries(entries).len() + entry_len(e),
{
    assert(entries.push(e).drop_last() =~= entries);
}

proof fn lemma_two_entries(a: (Seq<char>, ValueView), b: (Seq<char>, ValueView))
    ensures
        encoded_entries(seq![a, b]).len() == entry_len(a) + entry_len(b),
{
    let none = Seq::<(Seq<char>, ValueView)>::empty();
    assert(seq![a, b] =~= none.push(a).push(b));
    lemma_entry_push(none, a);
    lemma_entry_push(none.push(a), b);
}

proof fn lemma_metadata_len(len: nat, data_type: Seq<char>, sequence: int, i: nat)
    requires
        data_type.len() <= 19,
    ensures
        encoded(ValueView::Dict(metadata(len, data_type, sequence, i))).len() <= 1000,
{
    reveal_strlit("dataType");
    reveal_strlit("dataSequenceNumber");
    reveal_strlit("dataChunkSequenceNumber");
    reveal_strlit("isLastDataChunk");
    reveal_strlit("dataTotalSize");
    lemma_text_len("dataType"@);
    lemma_text_len("dataSequenceNumber"@);
    lemma_text_len("dataChunkSequenceNumber"@);
    lemma_text_len("isLastDataChunk"@);
    lemma_text_len("dataTotalSize"@);
    lemma_text_len(data_type);
    lemma_int_len(sequence as i64);
    lemma_int_len((i + 1) as i64);
    lemma_int_len(len as i64);
    let a = ("dataType"@, ValueView::Text(data_type));
    let b = ("dataSequenceNumber"@, ValueView::Int(sequence as i64));
    let c = ("dataChunkSequenceNumber"@, ValueView::Int((i + 1) as i64));
    let d = ("isLastDataChunk"@, ValueView::Bool(i + 1 == chunk_count(len)));
    let e = ("dataTotalSize"@, ValueView::Int(len as i64));
    assert(seq![a, b, c, d] =~= seq![a, b].push(c).push(d));
    lemma_two_entries(a, b);
    lemma_entry_push(seq![a, b], c);
    lemma_entry_push(seq![a, b].push(c), d);
    lemma_entry_push(seq![a, b, c, d], e);
}

/// Every message of data fits a frame: its header fits the length byte, and both
/// together stay below the limit of a payload.
pub proof fn law_a_chunk_fits_a_frame(
    stream_id: i64,
    data: Seq<u8>,
    data_type: Seq<char>,
    sequence: int,
    end_of_stream: bool,
    i: nat,
)
    requires
        i < chunk_count(data.len()),
        data_type == "mediaInitialization"@ || data_type == "mediaFragment"@,
    ensures
        encoded(event_header("data"@)).len() <= 255,
        1 + encoded(event_header("data"@)).len() + encoded(
            data_view(stream_id, data, data_type, sequence, end_of_stream, i),
        ).len() <= MAX_PAYLOAD,
{
    reveal_strlit("mediaInitialization");
    reveal_strlit("mediaFragment");
    reveal_strlit("protocol");
    reveal_strlit("dataSend");
    reveal_strlit("event");
    reveal_strlit("data");
    reveal_strlit("metadata");
    reveal_strlit("streamId");
    reveal_strlit("packets");
    reveal_strlit("endOfStream");
    lemma_text_len("protocol"@);
    lemma_text_len("dataSend"@);
    lemma_text_len("event"@);
    lemma_text_len("data"@);
    lemma_text_len("metadata"@);
    lemma_text_len("streamId"@);
    lemma_text_len("packets"@);
    lemma_text_len("endOfStream"@);
    lemma_two_entries(
        ("protocol"@, ValueView::Text("dataSend"@)),
        ("event"@, ValueView::Text("data"@)),
    );
    lemma_int_len(stream_id);
    lemma_chunk_bounds(data.len(), i);
    lemma_data_len(chunk(data, i));
    lemma_metadata_len(data.len(), data_type, sequence, i);
    let a = ("data"@, ValueView::Data(chunk(data, i)));
    let b = ("metadata"@, ValueView::Dict(metadata(data.len(), data_type, sequence, i)));
    lemma_two_entries(a, b);
    let packet = ValueView::Dict(seq![a, b]);
    let packets = ValueView::Array(seq![packet]);
    assert(seq![packet].drop_last() =~= Seq::empty());
    assert(encoded_items(Seq::<ValueView>::empty()).len() == 0);
    assert(encoded_items(seq![packet]).len() == encoded(packet).len());
    let c = ("streamId"@, ValueView::Int64(stream_id));
    let d = ("packets"@, packets);
    lemma_two_entries(c, d);
    lemma_entry_push(seq![c, d], ("endOfStream"@, ValueView::Bool(end_of_stream)));
}

/// A recording that is being delivered.
#[derive(Clone, Copy, Debug, PartialEq, Eq, Structural)]
pub struct Recording {
    pub stream_id: i64,
    /// The number of the next segment or fragment; the init segment has number 1.
    pub sequence: u64,
    /// When the first fragment without motion came, if there is no motion.
    pub inactive_since: Option<u64>,
}

/// Since when there has been no motion.
pub open spec fn still_since(r: Recording, motion_active: bool, now: u64) -> Option<u64> {
    if motion_active {
        None
    } else {
        match r.inactive_since {
            Some(t) => Some(t),
            None => Some(now),
        }
    }
}

/// Whether a live fragment ends the recording.
pub open spec fn ends(r: Recording, motion_active: bool, now: u64) -> bool {
    match still_since(r, motion_active, now) {
        Some(t) => now - t >= RECORDING_TAIL,
        None => false,
    }
}

/// Whether data can be told of in messages.
pub open spec fn tellable(data: Seq<u8>) -> bool {
    data.len() <= i64::MAX - MAX_CHUNK && data.len() <= usize::MAX - MAX_CHUNK
}

impl Recording {
    /// A new recording. Its first messages deliver the init segment.
    pub fn start(stream_id: i64, init: &[u8]) -> (r: (Self, Vec<Value>))
        requires
            tellable(init@),
        ensures
            r.0 == (Recording { stream_id, sequence: 2, inactive_since: None }),
            value_views(r.1@) == data_views(stream_id, init@, "mediaInitialization"@, 1, false),
            forall|i: int|
                0 <= i < r.1@.len() ==> told_of_packet((#[trigger] r.1@[i])@, "dataType"@) == Some(
                    ValueView::Text("mediaInitialization"@),
                ) && told_of_packet(r.1@[i]@, "dataSequenceNumber"@) == Some(ValueView::Int(1)),
            carried(value_views(r.1@)) == init@,
    {
        let messages = data_messages(stream_id, init, "mediaInitialization", 1, false);
        proof {
            law_messages_carry_the_data(stream_id, init@, "mediaInitialization"@, 1, false);
            assert forall|i: int| 0 <= i < messages@.len() implies told_of_packet(
                (#[trigger] messages@[i])@,
                "dataType"@,
            ) == Some(ValueView::Text("mediaInitialization"@)) && told_of_packet(
                messages@[i]@,
                "dataSequenceNumber"@,
            ) == Some(ValueView::Int(1)) by {
                assert(value_views(messages@)[i] == messages@[i]@);
                law_every_message_tells_of_its_data(
                    stream_id,
                    init@,
                    "mediaInitialization"@,
                    1,
                    false,
                    i,
                );
            }
        }
        (Recording { stream_id, sequence: 2, inactive_since: None }, messages)
    }

    /// The messages that deliver a fragment of the prebuffer.
    pub fn prebuffered(&mut self, data: &[u8]) -> (messages: Vec<Value>)
        requires
            tellable(data@),
            old(self).sequence < i64::MAX,
        ensures
            *final(self) == (Recording {
                sequence: (old(self).sequence + 1) as u64,
                ..*old(self)
            }),
            value_views(messages@) == data_views(
                old(self).stream_id,
                data@,
                "mediaFragment"@,
                old(self).sequence as int,
                false,
            ),
            forall|i: int|
                0 <= i < messages@.len() ==> told_of_packet((#[trigger] messages@[i])@, "dataType"@)
                    == Some(ValueView::Text("mediaFragment"@)) && told_of_packet(
                    messages@[i]@,
                    "dataSequenceNumber"@,
                ) == Some(ValueView::Int(old(self).sequence as i64)),
            carried(value_views(messages@)) == data@,
    {
        let messages = data_messages(
            self.stream_id,
            data,
            "mediaFragment",
            self.sequence,
            false,
        );
        proof {
            lemma_fragment_messages(self.stream_id, data@, self.sequence, false, messages@);
        }
        self.sequence = self.sequence + 1;
        messages
    }

    /// The messages that deliver a live fragment, and whether the recording ends
    /// with it.
    pub fn live(&mut self, data: &[u8], motion_active: bool, now: u64) -> (r: (Vec<Value>, bool))
        requires
            tellable(data@),
            old(self).sequence < i64::MAX,
        ensures
            r.1 == ends(*old(self), motion_active, now),
            *final(self) == (Recording {
                sequence: (old(self).sequence + 1) as u64,
                inactive_since: still_since(*old(self), motion_active, now),
                ..*old(self)
            }),
            value_views(r.0@) == data_views(
                old(self).stream_id,
                data@,
                "mediaFragment"@,
                old(self).sequence as int,
                r.1,
            ),
            forall|i: int|
                0 <= i < r.0@.len() ==> told_of_packet((#[trigger] r.0@[i])@, "dataType"@) == Some(
                    ValueView::Text("mediaFragment"@),
                ) && told_of_packet(r.0@[i]@, "dataSequenceNumber"@) == Some(
                    ValueView::Int(old(self).sequence as i64),
                ),
            carried(value_views(r.0@)) == data@,
            r.0@.len() > 0 && field(r.0@.last()@, "endOfStream"@) == Some(ValueView::Bool(r.1)),
    {
        let mut end_of_stream: bool = false;
        if motion_active {
            self.inactive_since = None;
        } else {
            let since: u64 = match self.inactive_since {
                Some(t) => t,
                None => now,
            };
            self.inactive_since = Some(since);
            end_of_stream = now >= since && now - since >= RECORDING_TAIL;
        }
        let messages = data_messages(
            self.stream_id,
            data,
            "mediaFragment",
            self.sequence,
            end_of_stream,
        );
        proof {
            lemma_fragment_messages(self.stream_id, data@, self.sequence, end_of_stream, messages@);
        }
        self.sequence = self.sequence + 1;
        (messages, end_of_stream)
    }
}

/// What the messages of a fragment tell.
proof fn lemma_fragment_messages(
    stream_id: i64,
    data: Seq<u8>,
    sequence: u64,
    end_of_stream: bool,
    messages: Seq<Value>,
)
    requires
        value_views(messages) == data_views(
            stream_id,
            data,
            "mediaFragment"@,
            sequence as int,
            end_of_stream,
        ),
    ensures
        messages.len() > 0,
        carried(value_views(messages)) == data,
        field(messages.last()@, "endOfStream"@) == Some(ValueView::Bool(end_of_stream)),
        forall|i: int|
            0 <= i < messages.len() ==> told_of_packet((#[trigger] messages[i])@, "dataType"@)
                == Some(ValueView::Text("mediaFragment"@)) && told_of_packet(
                messages[i]@,
                "dataSequenceNumber"@,
            ) == Some(ValueView::Int(sequence as i64)),
{
    law_messages_carry_the_data(stream_id, data, "mediaFragment"@, sequence as int, end_of_stream);
    assert(value_views(messages).len() == messages.len());
    assert forall|i: int| 0 <= i < messages.len() implies told_of_packet(
        (#[trigger] messages[i])@,
        "dataType"@,
    ) == Some(ValueView::Text("mediaFragment"@)) && told_of_packet(
        messages[i]@,
        "dataSequenceNumber"@,
    ) == Some(ValueView::Int(sequence as i64)) && (i == messages.len() - 1 ==> field(
        messages[i]@,
        "endOfStream"@,
    ) == Some(ValueView::Bool(end_of_stream))) by {
        assert(value_views(messages)[i] == messages[i]@);
        law_every_message_tells_of_its_data(
            stream_id,
            data,
            "mediaFragment"@,
            sequence as int,
            end_of_stream,
            i,
        );
    }
    assert(messages.last() == messages[messages.len() - 1]);
}

/// A live fragment: whether there was motion when it came, and when that was.
pub type Beat = (bool, u64);

/// A recording after live fragments, none of which ended it.
pub open spec fn after_beats(r: Recording, beats: Seq<Beat>) -> Recording
    decreases beats.len(),
{
    if beats.len() == 0 {
        r
    } else {
        let before = after_beats(r, beats.drop_last());
        Recording {
            sequence: (before.sequence + 1) as u64,
            inactive_since: still_since(before, beats.last().0, beats.last().1),
            ..before
        }
    }
}

/// A recording goes on through motion and ends with the first fragment that comes
/// when motion has been gone for the length of the tail: every fragment since then
/// was without motion, and the first of them came that long ago.
pub proof fn law_a_recording_ends_after_its_tail(
    stream_id: i64,
    beats: Seq<Beat>,
    motion_active: bool,
    now: u64,
)
    ensures
        ({
            let r = after_beats(
                Recording { stream_id, sequence: 2, inactive_since: None },
                beats,
            );
            ends(r, motion_active, now) <==> (!motion_active && exists|k: int|
                #![trigger beats[k]]
                0 <= k < beats.len() && !beats[k].0 && (k == 0 || beats[k - 1].0) && (forall|j: int|
                    k <= j < beats.len() ==> !(#[trigger] beats[j]).0) && now - beats[k].1
                    >= RECORDING_TAIL)
        }),
{
    lemma_still_since(stream_id, beats);
    let r = after_beats(Recording { stream_id, sequence: 2, inactive_since: None }, beats);
    if ends(r, motion_active, now) {
        assert(r.inactive_since is Some);
        let k = choose|k: int|
            #![trigger beats[k]]
            0 <= k < beats.len() && quiet_from(beats, k) && r.inactive_since == Some(beats[k].1);
        assert(0 <= k < beats.len() && !beats[k].0);
    }
    if !motion_active && exists|k: int|
        #![trigger beats[k]]
        0 <= k < beats.len() && !beats[k].0 && (k == 0 || beats[k - 1].0) && (forall|j: int|
            k <= j < beats.len() ==> !(#[trigger] beats[j]).0) && now - beats[k].1
            >= RECORDING_TAIL {
        let k = choose|k: int|
            #![trigger beats[k]]
            0 <= k < beats.len() && !beats[k].0 && (k == 0 || beats[k - 1].0) && (forall|j: int|
                k <= j < beats.len() ==> !(#[trigger] beats[j]).0) && now - beats[k].1
                >= RECORDING_TAIL;
        assert(!beats[beats.len() - 1].0);
        let k2 = choose|k2: int|
            #![trigger beats[k2]]
            0 <= k2 < beats.len() && quiet_from(beats, k2) && r.inactive_since == Some(beats[k2].1);
        assert(0 <= k2 < beats.len());
        if k < k2 {
            assert(beats[k2 - 1].0);
        } else if k2 < k {
            assert(beats[k - 1].0);
        }
    }
}

/// Whether the fragments from index `k` on are the ones without motion at the end.
pub open spec fn quiet_from(beats: Seq<Beat>, k: int) -> bool {
    &&& !beats[k].0
    &&& k == 0 || beats[k - 1].0
    &&& forall|j: int| k <= j < beats.len() ==> !(#[trigger] beats[j]).0
}

proof fn lemma_still_since(stream_id: i64, beats: Seq<Beat>)
    ensures
        ({
            let r = after_beats(
                Recording { stream_id, sequence: 2, inactive_since: None },
                beats,
            );
            &&& r.inactive_since is Some <==> beats.len() > 0 && !beats.last().0
            &&& r.inactive_since is Some ==> exists|k: int|
                #![trigger beats[k]]
                0 <= k < beats.len() && quiet_from(beats, k) && r.inactive_since == Some(
                    beats[k].1,
                )
        }),
    decreases beats.len(),
{
    if beats.len() > 0 {
        let front = beats.drop_last();
        lemma_still_since(stream_id, front);
        let r = after_beats(Recording { stream_id, sequence: 2, inactive_since: None }, beats);
        let before = after_beats(Recording { stream_id, sequence: 2, inactive_since: None }, front);
        if !beats.last().0 {
            if before.inactive_since is Some {
                let k = choose|k: int|
                    #![trigger front[k]]
                    0 <= k < front.len() && quiet_from(front, k) && before.inactive_since == Some(
                        front[k].1,
                    );
                assert(front[k] == beats[k]);
                assert forall|j: int| k <= j < beats.len() implies !(#[trigger] beats[j]).0 by {
                    if j < front.len() {
                        assert(front[j] == beats[j]);
                    }
                }
                if k > 0 {
                    assert(front[k - 1] == beats[k - 1]);
                }
                assert(quiet_from(beats, k));
            } else {
                let k = beats.len() - 1;
                if k > 0 {
                    assert(front.last() == beats[k - 1]);
                }
                assert(beats[k] == beats.last());
                assert(quiet_from(beats, k));
            }
        }
    }
}

// --- What a controller is told ---

/// The one packet of a message of data.
pub open spec fn packet_of(message: ValueView) -> ValueView {
    match field(message, "packets"@) {
        Some(ValueView::Array(packets)) => packets[0],
        _ => ValueView::Null,
    }
}

/// What a message tells of its packet under a name.
pub open spec fn told_of_packet(message: ValueView, name: Seq<char>) -> Option<ValueView> {
    match field(packet_of(message), "metadata"@) {
        Some(metadata) => field(metadata, name),
        None => None,
    }
}

/// The data that messages carry, one after another.
pub open spec fn carried(messages: Seq<ValueView>) -> Seq<u8>
    decreases messages.len(),
{
    if messages.len() == 0 {
        Seq::empty()
    } else {
        carried(messages.drop_last()) + match field(packet_of(messages.last()), "data"@) {
            Some(ValueView::Data(piece)) => piece,
            _ => Seq::empty(),
        }
    }
}

proof fn lemma_names_differ()
    ensures
        "streamId"@ != "packets"@,
        "streamId"@ != "endOfStream"@,
        "packets"@ != "endOfStream"@,
        "data"@ != "metadata"@,
        "dataType"@ != "dataSequenceNumber"@,
        "dataType"@ != "dataChunkSequenceNumber"@,
        "dataType"@ != "isLastDataChunk"@,
        "dataType"@ != "dataTotalSize"@,
        "dataSequenceNumber"@ != "dataChunkSequenceNumber"@,
        "dataSequenceNumber"@ != "isLastDataChunk"@,
        "dataSequenceNumber"@ != "dataTotalSize"@,
        "dataChunkSequenceNumber"@ != "isLastDataChunk"@,
        "dataChunkSequenceNumber"@ != "dataTotalSize"@,
        "isLastDataChunk"@ != "dataTotalSize"@,
{
    reveal_strlit("streamId");
    reveal_strlit("packets");
    reveal_strlit("endOfStream");
    reveal_strlit("data");
    reveal_strlit("metadata");
    reveal_strlit("dataType");
    reveal_strlit("dataSequenceNumber");
    reveal_strlit("dataChunkSequenceNumber");
    reveal_strlit("isLastDataChunk");
    reveal_strlit("dataTotalSize");
    assert("streamId"@.len() == 8 && "packets"@.len() == 7 && "endOfStream"@.len() == 11);
    assert("data"@.len() == 4 && "metadata"@.len() == 8);
    assert("dataType"@.len() == 8 && "dataSequenceNumber"@.len() == 18);
    assert("dataChunkSequenceNumber"@.len() == 23 && "isLastDataChunk"@.len() == 15);
    assert("dataTotalSize"@.len() == 13);
}

/// Every message tells its stream, the kind of its data and the number of its segment
/// as they were given, and its own place among the messages, counted from one. The
/// first one alone tells the length of the whole; the last one alone tells whether the
/// recording ends, and is the only one marked as the last.
pub proof fn law_every_message_tells_of_its_data(
    stream_id: i64,
    data: Seq<u8>,
    data_type: Seq<char>,
    sequence: int,
    end_of_stream: bool,
    i: int,
)
    requires
        0 <= i < data_views(stream_id, data, data_type, sequence, end_of_stream).len(),
    ensures
        ({
            let messages = data_views(stream_id, data, data_type, sequence, end_of_stream);
            let message = messages[i];
            &&& field(message, "streamId"@) == Some(ValueView::Int64(stream_id))
            &&& field(message, "packets"@) == Some(ValueView::Array(seq![packet_of(message)]))
            &&& told_of_packet(message, "dataType"@) == Some(ValueView::Text(data_type))
            &&& told_of_packet(message, "dataSequenceNumber"@) == Some(
                ValueView::Int(sequence as i64),
            )
            &&& told_of_packet(message, "dataChunkSequenceNumber"@) == Some(
                ValueView::Int((i + 1) as i64),
            )
            &&& told_of_packet(message, "isLastDataChunk"@) == Some(
                ValueView::Bool(i == messages.len() - 1),
            )
            &&& told_of_packet(message, "dataTotalSize"@) == if i == 0 {
                Some(ValueView::Int(data.len() as i64))
            } else {
                None
            }
            &&& field(message, "endOfStream"@) == if i == messages.len() - 1 {
                Some(ValueView::Bool(end_of_stream))
            } else {
                None
            }
        }),
{
    lemma_names_differ();
    let message = data_views(stream_id, data, data_type, sequence, end_of_stream)[i];
    let entries = message->Dict_0;
    assert(message == data_view(stream_id, data, data_type, sequence, end_of_stream, i as nat));
    law_a_dictionary_gives_the_first_entry(entries);
    let packet = (entries[1].1->Array_0)[0];
    let tells = metadata(data.len(), data_type, sequence, i as nat);
    law_a_dictionary_gives_the_first_entry(packet->Dict_0);
    law_a_dictionary_gives_the_first_entry(tells);
    assert(entries[0].0 == "streamId"@ && entries[1].0 == "packets"@);
    assert(field(message, "streamId"@) == Some(ValueView::Int64(stream_id)));
    assert(packet_of(message) == packet);
    assert(field(message, "packets"@)->0->Array_0 =~= seq![packet]);
    assert((packet->Dict_0)[0].0 == "data"@ && (packet->Dict_0)[1].0 == "metadata"@);
    assert(field(packet, "metadata"@) == Some(ValueView::Dict(tells)));
    assert(tells[0].0 == "dataType"@ && tells[1].0 == "dataSequenceNumber"@);
    assert(tells[2].0 == "dataChunkSequenceNumber"@ && tells[3].0 == "isLastDataChunk"@);
    if i == 0 {
        assert(tells[4].0 == "dataTotalSize"@);
    }
    if i + 1 == chunk_count(data.len()) {
        assert(entries[2].0 == "endOfStream"@);
    }
}

/// The data in the messages, one after another, are the data given. Every message but
/// the last carries 256 KiB, and the last one the rest; no data at all take one
/// message.
pub proof fn law_messages_carry_the_data(
    stream_id: i64,
    data: Seq<u8>,
    data_type: Seq<char>,
    sequence: int,
    end_of_stream: bool,
)
    ensures
        ({
            let messages = data_views(stream_id, data, data_type, sequence, end_of_stream);
            &&& messages.len() >= 1
            &&& carried(messages) == data
            &&& (messages.len() - 1) * 0x4_0000 < data.len() || messages.len() == 1
            &&& data.len() <= messages.len() * 0x4_0000
            &&& forall|i: int|
                0 <= i < messages.len() - 1 ==> carried(seq![#[trigger] messages[i]]).len()
                    == 0x4_0000
        }),
{
    let messages = data_views(stream_id, data, data_type, sequence, end_of_stream);
    lemma_chunk_bounds(data.len(), 0);
    lemma_carried(stream_id, data, data_type, sequence, end_of_stream, messages.len());
    assert(messages.take(messages.len() as int) =~= messages);
    law_chunks_make_up_the_data(data);
    assert forall|i: int| 0 <= i < messages.len() - 1 implies carried(
        seq![#[trigger] messages[i]],
    ).len() == 0x4_0000 by {
        lemma_chunk_bounds(data.len(), i as nat);
        lemma_carried_piece(stream_id, data, data_type, sequence, end_of_stream, i);
        assert(seq![messages[i]].drop_last() =~= Seq::empty());
        assert(carried(Seq::<ValueView>::empty()) =~= Seq::empty());
    }
    let last = (messages.len() - 1) as nat;
    lemma_chunk_bounds(data.len(), last);
}

proof fn lemma_carried_piece(
    stream_id: i64,
    data: Seq<u8>,
    data_type: Seq<char>,
    sequence: int,
    end_of_stream: bool,
    i: int,
)
    requires
        0 <= i < chunk_count(data.len()),
    ensures
        field(
            packet_of(data_views(stream_id, data, data_type, sequence, end_of_stream)[i]),
            "data"@,
        ) == Some(ValueView::Data(chunk(data, i as nat))),
{
    lemma_names_differ();
    let message = data_views(stream_id, data, data_type, sequence, end_of_stream)[i];
    let entries = message->Dict_0;
    law_a_dictionary_gives_the_first_entry(entries);
    let packet = (entries[1].1->Array_0)[0];
    law_a_dictionary_gives_the_first_entry(packet->Dict_0);
    assert(packet_of(message) == packet);
}

proof fn lemma_carried(
    stream_id: i64,
    data: Seq<u8>,
    data_type: Seq<char>,
    sequence: int,
    end_of_stream: bool,
    n: nat,
)
    requires
        n <= chunk_count(data.len()),
    ensures
        carried(
            data_views(stream_id, data, data_type, sequence, end_of_stream).take(n as int),
        ) == joined_chunks(data, n),
    decreases n,
{
    let messages = data_views(stream_id, data, data_type, sequence, end_of_stream);
    if n > 0 {
        lemma_carried(stream_id, data, data_type, sequence, end_of_stream, (n - 1) as nat);
        assert(messages.take(n as int).drop_last() =~= messages.take(n - 1));
        assert(messages.take(n as int).last() == messages[n - 1]);
        lemma_carried_piece(stream_id, data, data_type, sequence, end_of_stream, n - 1);
    }
}

/// The headers of the recording protocol's events name the protocol and the event; a
/// close tells its stream and its reason.
pub proof fn law_events_are_named(event: Seq<char>, stream_id: i64, reason: i64)
    ensures
        field(event_header(event), "protocol"@) == Some(ValueView::Text("dataSend"@)),
        field(event_header(event), "event"@) == Some(ValueView::Text(event)),
        field(close_view(stream_id, reason), "streamId"@) == Some(ValueView::Int64(stream_id)),
        field(close_view(stream_id, reason), "reason"@) == Some(ValueView::Int64(reason)),
{
    reveal_strlit("protocol");
    reveal_strlit("event");
    reveal_strlit("streamId");
    reveal_strlit("reason");
    assert("protocol"@.len() != "event"@.len());
    assert("streamId"@.len() != "reason"@.len());
    law_a_dictionary_gives_the_first_entry(event_header(event)->Dict_0);
    law_a_dictionary_gives_the_first_entry(close_view(stream_id, reason)->Dict_0);
}

/// While there is motion a recording goes on and forgets that there was none. Without
/// motion it remembers when the first such fragment came, and ends with the first one
/// that comes eight seconds later or more. A fragment is waited for thirty seconds.
pub proof fn law_eight_seconds_without_motion_end_a_recording(
    r: Recording,
    first: u64,
    now: u64,
)
    ensures
        still_since(r, true, now) is None,
        !ends(r, true, now),
        r.inactive_since is None ==> still_since(r, false, now) == Some(now) && !ends(
            r,
            false,
            now,
        ),
        r.inactive_since == Some(first) ==> still_since(r, false, now) == Some(first) && (ends(
            r,
            false,
            now,
        ) <==> now >= first + 8000),
        FRAGMENT_TIMEOUT == 30_000,
{
}

/// Data goes out in as few messages as it can, of up to 256 KiB each; data without bytes
/// goes out in one.
pub proof fn law_data_takes_as_few_messages_as_it_can(len: nat)
    ensures
        len == 0 ==> chunk_count(len) == 1,
        len > 0 ==> (chunk_count(len) - 1) * 0x4_0000 < len <= chunk_count(len) * 0x4_0000,
{
}

} // verus!
