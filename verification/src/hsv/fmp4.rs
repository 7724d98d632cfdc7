//! The recording pipeline: FFmpeg copies the camera's stream into fragmented MP4,
//! which is split into the init segment and the fragments that follow; the latest
//! fragments are kept as the prebuffer.

use vstd::prelude::*;
use vstd::string::*;
use crate::metrics::{Counters, ErrorSubsystem, Metrics};
use crate::text::{decimal, gives_option, has_argument, option_at, push_decimal, same, same_bytes, seq_views, string_views, times_given};
use crate::wire::{be_value, law_bytes_are_digits, lemma_be_value_bound, lemma_pow256_values, read_be, to_vec};

verus! {

/// Why FFmpeg's output is no stream of boxes.
#[derive(Clone, Copy, Debug, PartialEq, Eq, Structural)]
pub enum StreamFault {
    /// A box that claims no size.
    SizeZero,
    /// A box that claims to be smaller than its header.
    InvalidSize(u64),
}

/// What a fault is called.
pub open spec fn stream_fault_text(fault: StreamFault) -> Seq<char> {
    match fault {
        StreamFault::SizeZero => "box with size 0"@,
        StreamFault::InvalidSize(size) => "invalid box size "@ + decimal(size as nat),
    }
}

impl StreamFault {
    /// The fault in words.
    pub fn message(&self) -> (s: String)
        ensures
            s@ == stream_fault_text(*self),
            *self is SizeZero ==> s@ == "box with size 0"@,
            *self matches StreamFault::InvalidSize(size) ==> s@ == "invalid box size "@ + decimal(
                size as nat,
            ),
    {
        match *self {
            StreamFault::SizeZero => String::from_str("box with size 0"),
            StreamFault::InvalidSize(size) => {
                let mut s = String::from_str("invalid box size ");
                push_decimal(&mut s, size);
                s
            },
        }
    }
}

/// What stands at the start of the bytes at hand.
#[derive(Clone, Copy, Debug, PartialEq, Eq, Structural)]
pub enum BoxRead {
    /// The start of a box whose rest is still to come.
    NeedMore,
    /// No box.
    Bad(StreamFault),
    /// A box of this many bytes.
    Whole(u64),
}

/// What a claimed size comes to, behind a header of `header` bytes.
pub open spec fn sized(data: Seq<u8>, size: nat, header: nat) -> BoxRead {
    if size < header {
        BoxRead::Bad(StreamFault::InvalidSize(size as u64))
    } else if data.len() < size {
        BoxRead::NeedMore
    } else {
        BoxRead::Whole(size as u64)
    }
}

/// What stands at the start of `data`. A box starts with its size and its type,
/// four bytes each; a size of 1 says that the size follows in eight bytes.
pub open spec fn box_at(data: Seq<u8>) -> BoxRead {
    if data.len() < 8 {
        BoxRead::NeedMore
    } else {
        let size = be_value(data.take(4));
        if size == 1 {
            if data.len() < 16 {
                BoxRead::NeedMore
            } else {
                sized(data, be_value(data.subrange(8, 16)), 16)
            }
        } else if size == 0 {
            BoxRead::Bad(StreamFault::SizeZero)
        } else {
            sized(data, size, 8)
        }
    }
}

fn scan_box(data: &[u8]) -> (r: BoxRead)
    ensures
        r == box_at(data@),
{
    let len: usize = data.len();
    if len < 8 {
        return BoxRead::NeedMore;
    }
    assert(data@.subrange(0, 4) =~= data@.take(4));
    let mut size: u64 = read_be(&data[0..4]);
    let mut header: u64 = 8;
    if size == 1 {
        if len < 16 {
            return BoxRead::NeedMore;
        }
        size = read_be(&data[8..16]);
        header = 16;
    } else if size == 0 {
        return BoxRead::Bad(StreamFault::SizeZero);
    }
    if size < header {
        BoxRead::Bad(StreamFault::InvalidSize(size))
    } else if (len as u64) < size {
        BoxRead::NeedMore
    } else {
        BoxRead::Whole(size)
    }
}

/// A stream that is being split.
pub ghost struct Stream {
    /// The boxes before the first `moof`.
    pub init: Seq<u8>,
    /// Whether a `moof` was seen.
    pub init_done: bool,
    /// The `moof` whose `mdat` is still to come.
    pub fragment: Seq<u8>,
    /// The bytes of the box that is not complete yet.
    pub pending: Seq<u8>,
    pub fault: Option<StreamFault>,
}

pub open spec fn moof() -> Seq<u8> {
    seq![0x6du8, 0x6fu8, 0x6fu8, 0x66u8]
}

pub open spec fn mdat() -> Seq<u8> {
    seq![0x6du8, 0x64u8, 0x61u8, 0x74u8]
}

/// The stream after one more box, and the fragment that the box completes.
pub open spec fn with_box(s: Stream, b: Seq<u8>) -> (Stream, Seq<Seq<u8>>) {
    let kind = b.subrange(4, 8);
    if kind == moof() {
        (Stream { init_done: true, fragment: b, ..s }, Seq::empty())
    } else if kind == mdat() && s.init_done {
        (Stream { fragment: Seq::empty(), ..s }, seq![s.fragment + b])
    } else if !s.init_done {
        (Stream { init: s.init + b, ..s }, Seq::empty())
    } else {
        (s, Seq::empty())
    }
}

/// The stream with every complete box taken in, and the fragments they complete.
pub open spec fn advance(s: Stream) -> (Stream, Seq<Seq<u8>>)
    decreases s.pending.len(),
{
    if s.fault is Some {
        (s, Seq::empty())
    } else {
        match box_at(s.pending) {
            BoxRead::NeedMore => (s, Seq::empty()),
            BoxRead::Bad(fault) => (
                Stream { pending: Seq::empty(), fault: Some(fault), ..s },
                Seq::empty(),
            ),
            BoxRead::Whole(n) => {
                if 0 < n <= s.pending.len() {
                    let (t, first) = with_box(
                        Stream { pending: s.pending.skip(n as int), ..s },
                        s.pending.take(n as int),
                    );
                    if t.pending.len() < s.pending.len() {
                        let (u, more) = advance(t);
                        (u, first + more)
                    } else {
                        (s, Seq::empty())
                    }
                } else {
                    (s, Seq::empty())
                }
            },
        }
    }
}

/// The stream after more of FFmpeg's output. Nothing changes a stream that has
/// failed.
pub open spec fn fed(s: Stream, chunk: Seq<u8>) -> (Stream, Seq<Seq<u8>>) {
    if s.fault is Some {
        (s, Seq::empty())
    } else {
        advance(Stream { pending: s.pending + chunk, ..s })
    }
}

/// Splits FFmpeg's output into the init segment (everything before the first
/// `moof`) and fragments of a `moof` and an `mdat`.
#[derive(Debug)]
pub struct Splitter {
    init: Vec<u8>,
    init_done: bool,
    fragment: Vec<u8>,
    pending: Vec<u8>,
    fault: Option<StreamFault>,
}

impl View for Splitter {
    type V = Stream;

    closed spec fn view(&self) -> Stream {
        Stream {
            init: self.init@,
            init_done: self.init_done,
            fragment: self.fragment@,
            pending: self.pending@,
            fault: self.fault,
        }
    }
}

fn spells_bytes(data: &[u8], a: u8, b: u8, c: u8, d: u8) -> (r: bool)
    requires
        data@.len() >= 8,
    ensures
        r == (data@.subrange(4, 8) == seq![a, b, c, d]),
{
    let kind: [u8; 4] = [a, b, c, d];
    assert(kind@ =~= seq![a, b, c, d]);
    same_bytes(&data[4..8], kind.as_slice())
}

impl Splitter {
    pub fn new() -> (s: Self)
        ensures
            s@ == (Stream {
                init: Seq::empty(),
                init_done: false,
                fragment: Seq::empty(),
                pending: Seq::empty(),
                fault: None,
            }),
    {
        Splitter {
            init: Vec::new(),
            init_done: false,
            fragment: Vec::new(),
            pending: Vec::new(),
            fault: None,
        }
    }

    /// The boxes before the first `moof`.
    pub fn init(&self) -> (r: &[u8])
        ensures
            r@ == self@.init,
    {
        self.init.as_slice()
    }

    /// Why the stream has failed, if it has.
    pub fn fault(&self) -> (r: Option<StreamFault>)
        ensures
            r == self@.fault,
    {
        self.fault
    }

    fn take_box(&mut self, b: &[u8]) -> (done: Option<Vec<u8>>)
        requires
            b@.len() >= 8,
        ensures
            ({
                let (t, out) = with_box(old(self)@, b@);
                &&& final(self)@ == t
                &&& match done {
                    Some(fragment) => out == seq![fragment@],
                    None => out == Seq::<Seq<u8>>::empty(),
                }
            }),
    {
        if spells_bytes(b, 0x6d, 0x6f, 0x6f, 0x66) {
            self.init_done = true;
            self.fragment = to_vec(b);
            None
        } else if spells_bytes(b, 0x6d, 0x64, 0x61, 0x74) && self.init_done {
            let mut fragment: Vec<u8> = Vec::new();
            fragment.append(&mut self.fragment);
            fragment.extend_from_slice(b);
            assert(fragment@ =~= old(self)@.fragment + b@);
            assert(self@.fragment =~= Seq::empty());
            Some(fragment)
        } else if !self.init_done {
            self.init.extend_from_slice(b);
            assert(self@.init =~= old(self)@.init + b@);
            None
        } else {
            None
        }
    }

    /// Takes in more of FFmpeg's output and gives the fragments that it completes.
    pub fn feed(&mut self, chunk: &[u8]) -> (fragments: Vec<Vec<u8>>)
        ensures
            ({
                let (t, out) = fed(old(self)@, chunk@);
                &&& final(self)@ == t
                &&& seq_views(fragments@) == out
            }),
    {
        let mut fragments: Vec<Vec<u8>> = Vec::new();
        assert(seq_views(fragments@) =~= Seq::empty());
        if self.fault.is_some() {
            return fragments;
        }
        self.pending.extend_from_slice(chunk);
        let ghost total = fed(old(self)@, chunk@);
        assert(self@.pending =~= old(self)@.pending + chunk@);
        assert(self@ == (Stream { pending: old(self)@.pending + chunk@, ..old(self)@ }));
        assert(Seq::<Seq<u8>>::empty() + total.1 =~= total.1);
        loop
            invariant_except_break
                self.fault is None,
                advance(self@).0 == total.0,
                seq_views(fragments@) + advance(self@).1 == total.1,
            ensures
                self@ == total.0,
                seq_views(fragments@) == total.1,
            decreases self.pending@.len(),
        {
            match scan_box(self.pending.as_slice()) {
                BoxRead::NeedMore => {
                    assert(seq_views(fragments@) + Seq::<Seq<u8>>::empty() =~= seq_views(
                        fragments@,
                    ));
                    break ;
                },
                BoxRead::Bad(fault) => {
                    assert(seq_views(fragments@) + Seq::<Seq<u8>>::empty() =~= seq_views(
                        fragments@,
                    ));
                    self.pending = Vec::new();
                    self.fault = Some(fault);
                    assert(self@.pending =~= Seq::empty());
                    break ;
                },
                BoxRead::Whole(n) => {
                    let ghost before = self@;
                    let ghost done_before = seq_views(fragments@);
                    proof {
                        lemma_box_bounds(self.pending@);
                    }
                    let n: usize = n as usize;
                    let whole = to_vec(&self.pending[0..n]);
                    let rest = to_vec(&self.pending[n..self.pending.len()]);
                    assert(whole@ =~= before.pending.take(n as int));
                    assert(rest@ =~= before.pending.skip(n as int));
                    self.pending = rest;
                    let ghost mid = self@;
                    let done = self.take_box(whole.as_slice());
                    let ghost step = with_box(mid, whole@);
                    assert(mid == (Stream { pending: before.pending.skip(n as int), ..before }));
                    assert(advance(before).1 == step.1 + advance(step.0).1);
                    if let Some(fragment) = done {
                        let ghost view = fragment@;
                        fragments.push(fragment);
                        assert(seq_views(fragments@) =~= done_before + seq![view]);
                    } else {
                        assert(seq_views(fragments@) =~= done_before + step.1);
                    }
                    assert(seq_views(fragments@) + advance(self@).1 =~= done_before + (step.1
                        + advance(step.0).1));
                },
            }
        }
        fragments
    }
}

/// A whole box holds its header and is not longer than the bytes at hand.
proof fn lemma_box_bounds(data: Seq<u8>)
    ensures
        box_at(data) matches BoxRead::Whole(n) ==> 8 <= n <= data.len(),
{
    lemma_pow256_values();
    if data.len() >= 8 {
        lemma_be_value_bound(data.take(4));
    }
    if data.len() >= 16 {
        lemma_be_value_bound(data.subrange(8, 16));
    }
}

/// More bytes do not change what stands at the start, once it is known.
proof fn lemma_box_stays(a: Seq<u8>, b: Seq<u8>)
    ensures
        box_at(a) !is NeedMore ==> box_at(a + b) == box_at(a),
{
    if a.len() >= 8 {
        assert((a + b).take(4) =~= a.take(4));
        if a.len() >= 16 {
            assert((a + b).subrange(8, 16) =~= a.subrange(8, 16));
        }
    }
}

proof fn lemma_advance_continues(s: Stream, more: Seq<u8>)
    requires
        s.fault is None,
    ensures
        ({
            let (t, first) = advance(s);
            let (u, second) = fed(t, more);
            let (v, both) = advance(Stream { pending: s.pending + more, ..s });
            u == v && first + second == both
        }),
    decreases s.pending.len(),
{
    lemma_box_stays(s.pending, more);
    lemma_box_bounds(s.pending);
    let joined = Stream { pending: s.pending + more, ..s };
    let (t, first) = advance(s);
    let (u, second) = fed(t, more);
    let (v, both) = advance(joined);
    match box_at(s.pending) {
        BoxRead::NeedMore => {
            assert(first + second =~= both);
        },
        BoxRead::Bad(fault) => {
            assert(first + second =~= both);
        },
        BoxRead::Whole(n) => {
            let b = s.pending.take(n as int);
            assert(joined.pending.take(n as int) =~= b);
            assert(joined.pending.skip(n as int) =~= s.pending.skip(n as int) + more);
            let (next, out) = with_box(Stream { pending: s.pending.skip(n as int), ..s }, b);
            let (next_joined, out_joined) = with_box(
                Stream { pending: joined.pending.skip(n as int), ..joined },
                b,
            );
            assert(next_joined == (Stream { pending: next.pending + more, ..next }));
            assert(out_joined == out);
            lemma_advance_continues(next, more);
            assert(first + second =~= out + (advance(next).1 + fed(advance(next).0, more).1));
        },
    }
}

/// It does not matter how FFmpeg's output is cut into pieces: two pieces bring the
/// same fragments, in the same order, as both at once.
pub proof fn law_fragments_ignore_how_the_output_is_cut(
    s: Stream,
    first: Seq<u8>,
    second: Seq<u8>,
)
    ensures
        fed(s, first).1 + fed(fed(s, first).0, second).1 == fed(s, first + second).1,
        fed(fed(s, first).0, second).0 == fed(s, first + second).0,
{
    if s.fault is None {
        let start = Stream { pending: s.pending + first, ..s };
        lemma_advance_continues(start, second);
        assert(start.pending + second =~= s.pending + (first + second));
    } else {
        assert(fed(s, first).1 + fed(fed(s, first).0, second).1 =~= fed(s, first + second).1);
    }
}

/// A well-formed box: its size in four bytes, its type, its body.
pub open spec fn is_box(b: Seq<u8>) -> bool {
    box_at(b) == BoxRead::Whole(b.len() as u64) && b.len() <= u64::MAX
}

/// A `moof` and an `mdat` come out as one fragment, byte for byte, whatever comes
/// after them.
pub proof fn law_a_fragment_is_its_boxes(s: Stream, a: Seq<u8>, b: Seq<u8>, rest: Seq<u8>)
    requires
        s.fault is None,
        s.pending.len() == 0,
        is_box(a),
        is_box(b),
        a.subrange(4, 8) == moof(),
        b.subrange(4, 8) == mdat(),
    ensures
        fed(s, a + b + rest).1.len() > 0,
        fed(s, a + b + rest).1[0] == a + b,
{
    let data = a + b + rest;
    let start = Stream { pending: s.pending + data, ..s };
    assert(start.pending =~= a + (b + rest));
    lemma_box_stays(a, b + rest);
    assert(start.pending.take(a.len() as int) =~= a);
    assert(start.pending.skip(a.len() as int) =~= b + rest);
    assert(moof()[1] != mdat()[1]);
    let (t, _) = with_box(Stream { pending: b + rest, ..start }, a);
    lemma_box_stays(b, rest);
    assert((b + rest).take(b.len() as int) =~= b);
    assert((b + rest).skip(b.len() as int) =~= rest);
    let (u, out) = with_box(Stream { pending: rest, ..t }, b);
    assert(out == seq![a + b]);
    assert(advance(t).1 == out + advance(u).1);
    assert(advance(start).1 =~= advance(t).1);
}

/// Encoder settings for the recording pipeline, already applied to the camera;
/// FFmpeg only copies the stream.
#[derive(Debug)]
pub struct RecorderConfig {
    pub rtsp_url: String,
    pub audio: bool,
    pub fragment_ms: u32,
    pub prebuffer_ms: u32,
}

/// The mathematical value of a recorder's settings.
pub ghost struct RecorderConfigView {
    pub rtsp_url: Seq<char>,
    pub audio: bool,
    pub fragment_ms: u32,
    pub prebuffer_ms: u32,
}

impl View for RecorderConfig {
    type V = RecorderConfigView;

    open spec fn view(&self) -> RecorderConfigView {
        RecorderConfigView {
            rtsp_url: self.rtsp_url@,
            audio: self.audio,
            fragment_ms: self.fragment_ms,
            prebuffer_ms: self.prebuffer_ms,
        }
    }
}

impl Clone for RecorderConfig {
    fn clone(&self) -> (r: Self)
        ensures
            r@ == self@,
    {
        RecorderConfig {
            rtsp_url: self.rtsp_url.clone(),
            audio: self.audio,
            fragment_ms: self.fragment_ms,
            prebuffer_ms: self.prebuffer_ms,
        }
    }
}

fn same_config(a: &RecorderConfig, b: &RecorderConfig) -> (r: bool)
    ensures
        r == (a@ == b@),
{
    same(a.rtsp_url.as_str(), b.rtsp_url.as_str()) && a.audio == b.audio && a.fragment_ms
        == b.fragment_ms && a.prebuffer_ms == b.prebuffer_ms
}

/// FFmpeg's arguments. The camera's timestamps wobble, so the arrival time is the
/// clock.
pub open spec fn recorder_arguments(config: RecorderConfigView) -> Seq<Seq<char>> {
    seq![
        "-hide_banner"@,
        "-loglevel"@,
        "warning"@,
        "-fflags"@,
        "+genpts"@,
        "-use_wallclock_as_timestamps"@,
        "1"@,
        "-rtsp_transport"@,
        "tcp"@,
        "-i"@,
        config.rtsp_url,
    ] + (if config.audio {
        seq!["-c:v"@, "copy"@, "-c:a"@, "copy"@]
    } else {
        seq!["-an"@, "-c:v"@, "copy"@]
    }) + seq![
        "-f"@,
        "mp4"@,
        "-movflags"@,
        "frag_keyframe+empty_moov+default_base_moof"@,
        "-avoid_negative_ts"@,
        "make_zero"@,
        "pipe:1"@,
    ]
}

fn arguments_for(config: &RecorderConfig) -> (args: Vec<String>)
    ensures
        string_views(args@) == recorder_arguments(config@),
{
    let mut args: Vec<String> = Vec::new();
    args.push(String::from_str("-hide_banner"));
    args.push(String::from_str("-loglevel"));
    args.push(String::from_str("warning"));
    args.push(String::from_str("-fflags"));
    args.push(String::from_str("+genpts"));
    args.push(String::from_str("-use_wallclock_as_timestamps"));
    args.push(String::from_str("1"));
    args.push(String::from_str("-rtsp_transport"));
    args.push(String::from_str("tcp"));
    args.push(String::from_str("-i"));
    args.push(config.rtsp_url.clone());
    if config.audio {
        args.push(String::from_str("-c:v"));
        args.push(String::from_str("copy"));
        args.push(String::from_str("-c:a"));
        args.push(String::from_str("copy"));
    } else {
        args.push(String::from_str("-an"));
        args.push(String::from_str("-c:v"));
        args.push(String::from_str("copy"));
    }
    args.push(String::from_str("-f"));
    args.push(String::from_str("mp4"));
    args.push(String::from_str("-movflags"));
    args.push(String::from_str("frag_keyframe+empty_moov+default_base_moof"));
    args.push(String::from_str("-avoid_negative_ts"));
    args.push(String::from_str("make_zero"));
    args.push(String::from_str("pipe:1"));
    assert(string_views(args@) =~= recorder_arguments(config@));
    args
}

/// A fragment, and when it was complete, in milliseconds of a monotonic clock.
#[derive(Debug)]
pub struct Fragment {
    pub data: Vec<u8>,
    pub at: u64,
}

/// The mathematical value of a fragment.
pub ghost struct FragmentView {
    pub data: Seq<u8>,
    pub at: u64,
}

impl View for Fragment {
    type V = FragmentView;

    open spec fn view(&self) -> FragmentView {
        FragmentView { data: self.data@, at: self.at }
    }
}

impl Clone for Fragment {
    fn clone(&self) -> (r: Self)
        ensures
            r@ == self@,
    {
        Fragment { data: to_vec(self.data.as_slice()), at: self.at }
    }
}

pub open spec fn fragment_views(fragments: Seq<Fragment>) -> Seq<FragmentView> {
    fragments.map_values(|f: Fragment| f@)
}

/// How many fragments the prebuffer holds at most.
pub const MAX_PREBUFFER: usize = 8;

/// Whether a fragment is older than the prebuffer covers: its length and one more
/// second.
pub open spec fn outdated(f: FragmentView, now: u64, prebuffer_ms: u32) -> bool {
    now - f.at > prebuffer_ms + 1000
}

/// The prebuffer without what is too old or too much, from the front.
pub open spec fn trimmed_prebuffer(
    fragments: Seq<FragmentView>,
    now: u64,
    prebuffer_ms: u32,
) -> Seq<FragmentView>
    decreases fragments.len(),
{
    if fragments.len() > 0 && (outdated(fragments[0], now, prebuffer_ms) || fragments.len()
        > MAX_PREBUFFER) {
        trimmed_prebuffer(fragments.skip(1), now, prebuffer_ms)
    } else {
        fragments
    }
}

/// A recorder: its FFmpeg process, and what came out of it.
pub ghost struct RecorderView {
    pub running: bool,
    pub generation: u64,
    pub config: Option<RecorderConfigView>,
    pub init_segment: Option<Seq<u8>>,
    pub prebuffer: Seq<FragmentView>,
}

/// The recording pipeline's state. FFmpeg itself is run by the caller.
#[derive(Debug)]
pub struct Recorder {
    running: bool,
    generation: u64,
    config: Option<RecorderConfig>,
    init_segment: Option<Vec<u8>>,
    prebuffer: Vec<Fragment>,
}

impl View for Recorder {
    type V = RecorderView;

    closed spec fn view(&self) -> RecorderView {
        RecorderView {
            running: self.running,
            generation: self.generation,
            config: match self.config {
                Some(c) => Some(c@),
                None => None,
            },
            init_segment: match self.init_segment {
                Some(b) => Some(b@),
                None => None,
            },
            prebuffer: fragment_views(self.prebuffer@),
        }
    }
}

/// A process to start: kill the one that runs, start FFmpeg with these arguments,
/// then tell [`Recorder::spawned`] or count an error.
#[derive(Debug)]
pub struct RecorderStart {
    pub generation: u64,
    pub arguments: Vec<String>,
}

impl Recorder {
    pub fn new() -> (r: Self)
        ensures
            r@ == (RecorderView {
                running: false,
                generation: 0,
                config: None,
                init_segment: None,
                prebuffer: Seq::empty(),
            }),
    {
        let r = Recorder {
            running: false,
            generation: 0,
            config: None,
            init_segment: None,
            prebuffer: Vec::new(),
        };
        assert(r@.prebuffer =~= Seq::empty());
        r
    }

    /// The number of the process that runs, or ran last.
    pub fn generation(&self) -> (r: u64)
        ensures
            r == self@.generation,
    {
        self.generation
    }

    /// Starts the pipeline, or starts it over, with the given settings. Nothing
    /// happens where it already runs with the same ones.
    pub fn start(&mut self, config: RecorderConfig) -> (r: Option<RecorderStart>)
        requires
            old(self)@.generation < u64::MAX,
        ensures
            if old(self)@.running && old(self)@.config == Some(config@) {
                r is None && final(self)@ == old(self)@
            } else {
                &&& r is Some
                &&& r->0.generation == old(self)@.generation + 1
                &&& string_views(r->0.arguments@) == recorder_arguments(config@)
                &&& final(self)@ == (RecorderView {
                    running: false,
                    generation: (old(self)@.generation + 1) as u64,
                    config: Some(config@),
                    init_segment: None,
                    prebuffer: Seq::empty(),
                })
            },
    {
        if self.running {
            if let Some(current) = &self.config {
                if same_config(current, &config) {
                    return None;
                }
            }
        }
        let arguments = arguments_for(&config);
        self.config = Some(config);
        self.generation = self.generation + 1;
        self.running = false;
        self.init_segment = None;
        self.prebuffer = Vec::new();
        assert(self@.prebuffer =~= Seq::empty());
        Some(RecorderStart { generation: self.generation, arguments })
    }

    /// The process of the last start runs.
    pub fn spawned(&mut self)
        ensures
            final(self)@ == (RecorderView { running: true, ..old(self)@ }),
    {
        self.running = true;
    }

    /// Stops the pipeline; says whether a process has to be killed.
    pub fn stop(&mut self) -> (killed: bool)
        requires
            old(self)@.generation < u64::MAX,
        ensures
            killed == old(self)@.running,
            final(self)@ == (RecorderView {
                running: false,
                generation: (old(self)@.generation + 1) as u64,
                config: None,
                init_segment: None,
                prebuffer: Seq::empty(),
            }),
    {
        let killed: bool = self.running;
        self.generation = self.generation + 1;
        self.config = None;
        self.running = false;
        self.init_segment = None;
        self.prebuffer = Vec::new();
        assert(self@.prebuffer =~= Seq::empty());
        killed
    }

    pub fn is_running(&self) -> (r: bool)
        ensures
            r == self@.running,
    {
        self.running
    }

    /// The init segment and what the prebuffer holds.
    pub fn snapshot(&self) -> (r: (Option<Vec<u8>>, Vec<Fragment>))
        ensures
            match r.0 {
                Some(b) => self@.init_segment == Some(b@),
                None => self@.init_segment is None,
            },
            fragment_views(r.1@) == self@.prebuffer,
    {
        let init: Option<Vec<u8>> = match &self.init_segment {
            Some(b) => Some(to_vec(b.as_slice())),
            None => None,
        };
        let mut fragments: Vec<Fragment> = Vec::new();
        let mut i: usize = 0;
        while i < self.prebuffer.len()
            invariant
                i <= self.prebuffer@.len(),
                fragments@.len() == i,
                forall|j: int| 0 <= j < i ==> (#[trigger] fragments@[j])@ == self.prebuffer@[j]@,
            decreases self.prebuffer@.len() - i,
        {
            fragments.push(self.prebuffer[i].clone());
            i = i + 1;
        }
        assert(fragment_views(fragments@) =~= self@.prebuffer);
        (init, fragments)
    }

    /// Takes in a fragment of the process with number `generation`. `false` says
    /// that another process has taken its place; nothing is kept then.
    pub fn fragment_complete(
        &mut self,
        generation: u64,
        prebuffer_ms: u32,
        init: &[u8],
        fragment: Fragment,
        now: u64,
        metrics: &mut Metrics,
    ) -> (current: bool)
        ensures
            current == (old(self)@.generation == generation),
            !current ==> final(self)@ == old(self)@ && final(metrics)@ == old(metrics)@,
            current ==> final(self)@ == (RecorderView {
                init_segment: match old(self)@.init_segment {
                    Some(b) => Some(b),
                    None => Some(init@),
                },
                prebuffer: trimmed_prebuffer(
                    old(self)@.prebuffer.push(fragment@),
                    now,
                    prebuffer_ms,
                ),
                ..old(self)@
            }),
            current ==> final(metrics)@ == (Counters {
                recording_fragments: old(metrics)@.recording_fragments.wrapping_add(1),
                recording_bytes: old(metrics)@.recording_bytes.wrapping_add(
                    fragment.data@.len() as u64,
                ),
                ..old(metrics)@
            }),
    {
        if self.generation != generation {
            return false;
        }
        if self.init_segment.is_none() {
            self.init_segment = Some(to_vec(init));
        }
        metrics.recording_fragment(fragment.data.len());
        let ghost grown = old(self)@.prebuffer.push(fragment@);
        self.prebuffer.push(fragment);
        assert(fragment_views(self.prebuffer@) =~= grown);
        let cutoff: u64 = prebuffer_ms as u64 + 1000;
        let mut skipped: usize = 0;
        let len: usize = self.prebuffer.len();
        assert(grown.skip(0) =~= grown);
        while skipped < len && ((now >= self.prebuffer[skipped].at && now
            - self.prebuffer[skipped].at > cutoff) || len - skipped > MAX_PREBUFFER)
            invariant
                skipped <= len,
                len == self.prebuffer@.len(),
                cutoff == prebuffer_ms + 1000,
                fragment_views(self.prebuffer@) == grown,
                trimmed_prebuffer(grown, now, prebuffer_ms) == trimmed_prebuffer(
                    grown.skip(skipped as int),
                    now,
                    prebuffer_ms,
                ),
            decreases len - skipped,
        {
            assert(grown.skip(skipped as int)[0] == self.prebuffer@[skipped as int]@);
            assert(grown.skip(skipped as int).skip(1) =~= grown.skip(skipped + 1));
            skipped = skipped + 1;
        }
        if skipped < len {
            assert(grown.skip(skipped as int)[0] == self.prebuffer@[skipped as int]@);
        }
        let kept = self.prebuffer.split_off(skipped);
        self.prebuffer = kept;
        assert(fragment_views(self.prebuffer@) =~= grown.skip(skipped as int));
        true
    }

    /// The output of the process with number `generation` has ended. It counts as
    /// an error unless the process was replaced or stopped on purpose.
    pub fn stream_ended(&self, generation: u64, metrics: &mut Metrics) -> (failed: bool)
        ensures
            failed == (self@.generation == generation),
            final(metrics)@ == if failed {
                Counters {
                    errors_recording: old(metrics)@.errors_recording.wrapping_add(1),
                    ..old(metrics)@
                }
            } else {
                old(metrics)@
            },
    {
        if self.generation == generation {
            metrics.error(ErrorSubsystem::Recording);
            true
        } else {
            false
        }
    }
}

/// The prebuffer keeps the latest fragments without a gap, never more than its
/// limit, and none at its front that is too old; a fragment that has just come is
/// always kept.
pub proof fn law_the_prebuffer_keeps_the_latest(
    fragments: Seq<FragmentView>,
    now: u64,
    prebuffer_ms: u32,
)
    ensures
        ({
            let kept = trimmed_prebuffer(fragments, now, prebuffer_ms);
            &&& kept.len() <= fragments.len()
            &&& kept == fragments.skip(fragments.len() - kept.len())
            &&& kept.len() <= MAX_PREBUFFER
            &&& kept.len() > 0 ==> !outdated(kept[0], now, prebuffer_ms)
            &&& fragments.len() > 0 && fragments.last().at >= now ==> kept.len() > 0 && kept.last()
                == fragments.last()
        }),
    decreases fragments.len(),
{
    if fragments.len() > 0 && (outdated(fragments[0], now, prebuffer_ms) || fragments.len()
        > MAX_PREBUFFER) {
        law_the_prebuffer_keeps_the_latest(fragments.skip(1), now, prebuffer_ms);
        let kept = trimmed_prebuffer(fragments, now, prebuffer_ms);
        assert(fragments.skip(1).skip(fragments.len() - 1 - kept.len()) =~= fragments.skip(
            fragments.len() - kept.len(),
        ));
    } else {
        assert(fragments.skip(0) =~= fragments);
    }
}

// --- What FFmpeg is told, and what is made of its output ---

/// FFmpeg copies the camera's stream, without encoding it again, into fragmented MP4 on
/// its standard output: a fragment starts with a key frame, and the init segment comes
/// first. The sound is copied too where it is recorded, and left out where it is not.
pub proof fn law_recordings_are_copied(config: RecorderConfigView)
    ensures
        ({
            let args = recorder_arguments(config);
            &&& args[0] == "-hide_banner"@
            &&& gives_option(args, 10, "-loglevel"@, "warning"@)
            &&& gives_option(args, 10, "-fflags"@, "+genpts"@)
            &&& gives_option(args, 10, "-use_wallclock_as_timestamps"@, "1"@)
            &&& gives_option(args, 10, "-rtsp_transport"@, "tcp"@)
            &&& gives_option(args, 10, "-i"@, config.rtsp_url)
            &&& gives_option(args, 10, "-c:v"@, "copy"@)
            &&& gives_option(args, 10, "-f"@, "mp4"@)
            &&& gives_option(args, 10, "-movflags"@, "frag_keyframe+empty_moov+default_base_moof"@)
            &&& gives_option(args, 10, "-avoid_negative_ts"@, "make_zero"@)
            &&& config.audio ==> gives_option(args, 10, "-c:a"@, "copy"@)
            &&& !config.audio ==> times_given(args, 10, "-c:a"@, args.len()) == 0 && has_argument(
                args,
                "-an"@,
            )
            &&& config.audio ==> times_given(args, 10, "-an"@, args.len()) == 0
            &&& args.last() == "pipe:1"@
        }),
{
    let args = recorder_arguments(config);
    if config.audio {
        reveal_strlit("-hide_banner");
        reveal_strlit("-loglevel");
        reveal_strlit("warning");
        reveal_strlit("-fflags");
        reveal_strlit("+genpts");
        reveal_strlit("-use_wallclock_as_timestamps");
        reveal_strlit("1");
        reveal_strlit("-rtsp_transport");
        reveal_strlit("tcp");
        reveal_strlit("-i");
        reveal_strlit("-c:v");
        reveal_strlit("copy");
        reveal_strlit("-c:a");
        reveal_strlit("-f");
        reveal_strlit("mp4");
        reveal_strlit("-movflags");
        reveal_strlit("frag_keyframe+empty_moov+default_base_moof");
        reveal_strlit("-avoid_negative_ts");
        reveal_strlit("make_zero");
        reveal_strlit("pipe:1");
        assert("-hide_banner"@.len() == 12);
        assert("-loglevel"@.len() == 9 && "-loglevel"@[0] == '-' && "-loglevel"@[1] == 'l');
        assert("warning"@.len() == 7 && "warning"@[0] == 'w');
        assert("-fflags"@.len() == 7 && "-fflags"@[0] == '-');
        assert("+genpts"@.len() == 7 && "+genpts"@[0] == '+');
        assert("-use_wallclock_as_timestamps"@.len() == 28);
        assert("1"@.len() == 1);
        assert("-rtsp_transport"@.len() == 15);
        assert("tcp"@.len() == 3 && "tcp"@[0] == 't');
        assert("-i"@.len() == 2 && "-i"@[1] == 'i');
        assert("-c:v"@.len() == 4 && "-c:v"@[0] == '-' && "-c:v"@[3] == 'v');
        assert("copy"@.len() == 4 && "copy"@[0] == 'c');
        assert("-c:a"@.len() == 4 && "-c:a"@[0] == '-' && "-c:a"@[3] == 'a');
        assert("-f"@.len() == 2 && "-f"@[1] == 'f');
        assert("mp4"@.len() == 3 && "mp4"@[0] == 'm');
        assert("-movflags"@.len() == 9 && "-movflags"@[0] == '-' && "-movflags"@[1] == 'm');
        assert("frag_keyframe+empty_moov+default_base_moof"@.len() == 42);
        assert("-avoid_negative_ts"@.len() == 18);
        assert("make_zero"@.len() == 9 && "make_zero"@[0] == 'm');
        assert("pipe:1"@.len() == 6);
        assert("-loglevel"@[0] == '-');
        assert("-fflags"@[0] == '-');
        assert("-use_wallclock_as_timestamps"@[0] == '-');
        assert("-rtsp_transport"@[0] == '-');
        assert("-i"@[0] == '-');
        assert("-c:v"@[0] == '-');
        assert("-c:a"@[0] == '-');
        assert("-f"@[0] == '-');
        assert("-movflags"@[0] == '-');
        assert("-avoid_negative_ts"@[0] == '-');
        reveal_with_fuel(times_given, 23);
        assert(args.len() == 22);
        assert(args[0] == "-hide_banner"@);
        assert(args[1] == "-loglevel"@);
        assert(args[2] == "warning"@);
        assert(args[3] == "-fflags"@);
        assert(args[4] == "+genpts"@);
        assert(args[5] == "-use_wallclock_as_timestamps"@);
        assert(args[6] == "1"@);
        assert(args[7] == "-rtsp_transport"@);
        assert(args[8] == "tcp"@);
        assert(args[9] == "-i"@);
        assert(args[10] == config.rtsp_url);
        assert(args[11] == "-c:v"@);
        assert(args[12] == "copy"@);
        assert(args[13] == "-c:a"@);
        assert(args[14] == "copy"@);
        assert(args[15] == "-f"@);
        assert(args[16] == "mp4"@);
        assert(args[17] == "-movflags"@);
        assert(args[18] == "frag_keyframe+empty_moov+default_base_moof"@);
        assert(args[19] == "-avoid_negative_ts"@);
        assert(args[20] == "make_zero"@);
        assert(args[21] == "pipe:1"@);
        assert(option_at(args, 10, "-loglevel"@, 1) && args[2] == "warning"@);
        assert(option_at(args, 10, "-fflags"@, 3) && args[4] == "+genpts"@);
        assert(option_at(args, 10, "-use_wallclock_as_timestamps"@, 5) && args[6] == "1"@);
        assert(option_at(args, 10, "-rtsp_transport"@, 7) && args[8] == "tcp"@);
        assert(option_at(args, 10, "-i"@, 9) && args[10] == config.rtsp_url);
        assert(option_at(args, 10, "-c:v"@, 11) && args[12] == "copy"@);
        assert(option_at(args, 10, "-c:a"@, 13) && args[14] == "copy"@);
        assert(option_at(args, 10, "-f"@, 15) && args[16] == "mp4"@);
        assert(option_at(args, 10, "-movflags"@, 17) && args[18] == "frag_keyframe+empty_moov+default_base_moof"@);
        assert(option_at(args, 10, "-avoid_negative_ts"@, 19) && args[20] == "make_zero"@);
        reveal_strlit("-an");
        assert("-an"@.len() == 3 && "-an"@[0] == '-');
        assert(times_given(args, 10, "-an"@, args.len()) == 0);
    } else {
        reveal_strlit("-hide_banner");
        reveal_strlit("-loglevel");
        reveal_strlit("warning");
        reveal_strlit("-fflags");
        reveal_strlit("+genpts");
        reveal_strlit("-use_wallclock_as_timestamps");
        reveal_strlit("1");
        reveal_strlit("-rtsp_transport");
        reveal_strlit("tcp");
        reveal_strlit("-i");
        reveal_strlit("-an");
        reveal_strlit("-c:v");
        reveal_strlit("copy");
        reveal_strlit("-f");
        reveal_strlit("mp4");
        reveal_strlit("-movflags");
        reveal_strlit("frag_keyframe+empty_moov+default_base_moof");
        reveal_strlit("-avoid_negative_ts");
        reveal_strlit("make_zero");
        reveal_strlit("pipe:1");
        assert("-hide_banner"@.len() == 12);
        assert("-loglevel"@.len() == 9 && "-loglevel"@[0] == '-' && "-loglevel"@[1] == 'l');
        assert("warning"@.len() == 7 && "warning"@[0] == 'w');
        assert("-fflags"@.len() == 7 && "-fflags"@[0] == '-');
        assert("+genpts"@.len() == 7 && "+genpts"@[0] == '+');
        assert("-use_wallclock_as_timestamps"@.len() == 28);
        assert("1"@.len() == 1);
        assert("-rtsp_transport"@.len() == 15);
        assert("tcp"@.len() == 3 && "tcp"@[0] == 't');
        assert("-i"@.len() == 2 && "-i"@[1] == 'i');
        assert("-an"@.len() == 3 && "-an"@[0] == '-');
        assert("-c:v"@.len() == 4 && "-c:v"@[0] == '-');
        assert("copy"@.len() == 4 && "copy"@[0] == 'c');
        assert("-f"@.len() == 2 && "-f"@[1] == 'f');
        assert("mp4"@.len() == 3 && "mp4"@[0] == 'm');
        assert("-movflags"@.len() == 9 && "-movflags"@[0] == '-' && "-movflags"@[1] == 'm');
        assert("frag_keyframe+empty_moov+default_base_moof"@.len() == 42);
        assert("-avoid_negative_ts"@.len() == 18);
        assert("make_zero"@.len() == 9 && "make_zero"@[0] == 'm');
        assert("pipe:1"@.len() == 6);
        assert("-loglevel"@[0] == '-');
        assert("-fflags"@[0] == '-');
        assert("-use_wallclock_as_timestamps"@[0] == '-');
        assert("-rtsp_transport"@[0] == '-');
        assert("-i"@[0] == '-');
        assert("-c:v"@[0] == '-');
        assert("-f"@[0] == '-');
        assert("-movflags"@[0] == '-');
        assert("-avoid_negative_ts"@[0] == '-');
        reveal_with_fuel(times_given, 22);
        assert(args.len() == 21);
        assert(args[0] == "-hide_banner"@);
        assert(args[1] == "-loglevel"@);
        assert(args[2] == "warning"@);
        assert(args[3] == "-fflags"@);
        assert(args[4] == "+genpts"@);
        assert(args[5] == "-use_wallclock_as_timestamps"@);
        assert(args[6] == "1"@);
        assert(args[7] == "-rtsp_transport"@);
        assert(args[8] == "tcp"@);
        assert(args[9] == "-i"@);
        assert(args[10] == config.rtsp_url);
        assert(args[11] == "-an"@);
        assert(args[12] == "-c:v"@);
        assert(args[13] == "copy"@);
        assert(args[14] == "-f"@);
        assert(args[15] == "mp4"@);
        assert(args[16] == "-movflags"@);
        assert(args[17] == "frag_keyframe+empty_moov+default_base_moof"@);
        assert(args[18] == "-avoid_negative_ts"@);
        assert(args[19] == "make_zero"@);
        assert(args[20] == "pipe:1"@);
        assert(option_at(args, 10, "-loglevel"@, 1) && args[2] == "warning"@);
        assert(option_at(args, 10, "-fflags"@, 3) && args[4] == "+genpts"@);
        assert(option_at(args, 10, "-use_wallclock_as_timestamps"@, 5) && args[6] == "1"@);
        assert(option_at(args, 10, "-rtsp_transport"@, 7) && args[8] == "tcp"@);
        assert(option_at(args, 10, "-i"@, 9) && args[10] == config.rtsp_url);
        assert(option_at(args, 10, "-c:v"@, 12) && args[13] == "copy"@);
        assert(option_at(args, 10, "-f"@, 14) && args[15] == "mp4"@);
        assert(option_at(args, 10, "-movflags"@, 16) && args[17] == "frag_keyframe+empty_moov+default_base_moof"@);
        assert(option_at(args, 10, "-avoid_negative_ts"@, 18) && args[19] == "make_zero"@);
        reveal_strlit("-c:a");
        assert("-c:a"@.len() == 4 && "-c:a"@[3] == 'a' && "-c:v"@[3] == 'v' && "-c:a"@[0] == '-');
        assert("copy"@[0] == 'c');
        assert(times_given(args, 10, "-c:a"@, args.len()) == 0);
    }
}

/// A box is as long as its first four bytes say, most significant first, or where they
/// say 1, as the eight bytes behind its type say. A size of zero, or one below that of
/// the header, is a fault; until all of a box has come, nothing is known of it.
pub proof fn law_a_box_is_as_long_as_it_says(data: Seq<u8>)
    requires
        data.len() >= 8,
    ensures
        ({
            let size = 0x100_0000 * data[0] + 0x1_0000 * data[1] + 0x100 * data[2] + data[3];
            &&& size == 0 ==> box_at(data) == BoxRead::Bad(StreamFault::SizeZero)
            &&& 1 < size < 8 ==> box_at(data) == BoxRead::Bad(StreamFault::InvalidSize(size as u64))
            &&& size >= 8 && data.len() < size ==> box_at(data) == BoxRead::NeedMore
            &&& size >= 8 && data.len() >= size ==> box_at(data) == BoxRead::Whole(size as u64)
            &&& size == 1 && data.len() < 16 ==> box_at(data) == BoxRead::NeedMore
            &&& size == 1 && data.len() >= 16 ==> ({
                let long = be_value(data.subrange(8, 16));
                &&& long < 16 ==> box_at(data) == BoxRead::Bad(StreamFault::InvalidSize(long as u64))
                &&& 16 <= long <= data.len() ==> box_at(data) == BoxRead::Whole(long as u64)
                &&& long >= 16 && long > data.len() ==> box_at(data) == BoxRead::NeedMore
            })
        }),
{
    assert(data.take(4) =~= seq![data[0], data[1], data[2], data[3]]);
    law_bytes_are_digits(0, data[0], data[1], data[2], data[3]);
}

/// Boxes before the first `moof` make up the init segment, in their order; from then on
/// it stays as it is. A `moof` starts a fragment and an `mdat` completes it; any other
/// box behind the first `moof` is left out.
pub proof fn law_boxes_go_where_they_belong(s: Stream, b: Seq<u8>)
    requires
        b.len() >= 8,
    ensures
        ({
            let (t, out) = with_box(s, b);
            let is_moof = b[4] == 'm' as u8 && b[5] == 'o' as u8 && b[6] == 'o' as u8 && b[7]
                == 'f' as u8;
            let is_mdat = b[4] == 'm' as u8 && b[5] == 'd' as u8 && b[6] == 'a' as u8 && b[7]
                == 't' as u8;
            &&& is_moof ==> t.init_done && t.fragment == b && t.init == s.init && out.len() == 0
            &&& !is_moof && !s.init_done ==> t.init == s.init + b && !t.init_done && out.len() == 0
            &&& is_mdat && s.init_done ==> out == seq![s.fragment + b] && t.fragment.len() == 0
                && t.init == s.init
            &&& !is_moof && !is_mdat && s.init_done ==> t == s && out.len() == 0
            &&& t.pending == s.pending && t.fault == s.fault
        }),
{
    let kind = b.subrange(4, 8);
    assert(kind[0] == b[4] && kind[1] == b[5] && kind[2] == b[6] && kind[3] == b[7]);
    assert(moof()[0] == 0x6d && moof()[1] == 0x6f && moof()[2] == 0x6f && moof()[3] == 0x66);
    assert(mdat()[0] == 0x6d && mdat()[1] == 0x64 && mdat()[2] == 0x61 && mdat()[3] == 0x74);
    if b[4] == 'm' as u8 && b[5] == 'o' as u8 && b[6] == 'o' as u8 && b[7] == 'f' as u8 {
        assert(kind =~= moof());
    }
    if b[4] == 'm' as u8 && b[5] == 'd' as u8 && b[6] == 'a' as u8 && b[7] == 't' as u8 {
        assert(kind =~= mdat());
    }
}

/// The prebuffer holds at most eight fragments, and none that came more than a second
/// before the time that it is to cover; nothing that fits is dropped.
pub proof fn law_the_prebuffer_covers_its_time(
    fragments: Seq<FragmentView>,
    now: u64,
    prebuffer_ms: u32,
)
    ensures
        ({
            let kept = trimmed_prebuffer(fragments, now, prebuffer_ms);
            &&& kept.len() <= 8
            &&& kept.len() > 0 ==> now <= kept[0].at + prebuffer_ms + 1000
            &&& fragments.len() <= 8 && (fragments.len() > 0 ==> now <= fragments[0].at
                + prebuffer_ms + 1000) ==> kept == fragments
        }),
    decreases fragments.len(),
{
    if fragments.len() > 0 && (outdated(fragments[0], now, prebuffer_ms) || fragments.len()
        > MAX_PREBUFFER) {
        law_the_prebuffer_covers_its_time(fragments.skip(1), now, prebuffer_ms);
    }
}

} // verus!
