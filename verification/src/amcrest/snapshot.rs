//! Snapshots: served from memory, refreshed in the background, scaled to the size
//! that a controller asks for.

use std::collections::hash_map::DefaultHasher;
use std::hash::Hasher;
use vstd::prelude::*;
use vstd::std_specs::hash::DefaultHasherAdditionalSpecFns;
use vstd::string::*;
use crate::jpeg::{is_jpeg, opens_and_closes};
use crate::text::{chars_of, contains, decimal, gives_option, holds, law_searching_finds_the_first_place, lossy, option_at, push_decimal, string_views, text_of, times_given};
use crate::wire::{le_bytes, push_le, to_vec};

verus! {

/// How long a frame is used again in place of another fetch, in milliseconds.
pub const SNAPSHOT_REFRESH_DEDUP: u64 = 1000;

/// How long an old frame is served if the camera stops responding, in milliseconds.
pub const SNAPSHOT_MAX_AGE: u64 = 120_000;

/// Why there is no snapshot.
#[derive(Clone, Copy, Debug, PartialEq, Eq, Structural)]
pub enum SnapshotError {
    /// The camera did not answer, or not in time.
    FetchFailed,
    /// What the camera sent is no JPEG image.
    InvalidJpeg,
    /// Scaling failed, or gave nothing.
    ScaleFailed,
    /// Scaling gave something that is no JPEG image.
    InvalidOutput,
    /// The picture is nearly all black.
    BlackFrame,
}

/// What an error is called.
pub open spec fn snapshot_error_text(e: SnapshotError) -> Seq<char> {
    match e {
        SnapshotError::FetchFailed => "camera snapshot failed"@,
        SnapshotError::InvalidJpeg => "camera returned an invalid JPEG snapshot"@,
        SnapshotError::ScaleFailed => "ffmpeg snapshot scaling failed"@,
        SnapshotError::InvalidOutput => "ffmpeg snapshot scaling produced an invalid JPEG"@,
        SnapshotError::BlackFrame => "camera produced a nearly all-black snapshot"@,
    }
}

impl SnapshotError {
    /// The error in words.
    pub fn message(&self) -> (s: String)
        ensures
            s@ == snapshot_error_text(*self),
            *self is FetchFailed ==> s@ == "camera snapshot failed"@,
            *self is InvalidJpeg ==> s@ == "camera returned an invalid JPEG snapshot"@,
            *self is ScaleFailed ==> s@ == "ffmpeg snapshot scaling failed"@,
            *self is InvalidOutput ==> s@ == "ffmpeg snapshot scaling produced an invalid JPEG"@,
            *self is BlackFrame ==> s@ == "camera produced a nearly all-black snapshot"@,
    {
        match *self {
            SnapshotError::FetchFailed => String::from_str("camera snapshot failed"),
            SnapshotError::InvalidJpeg => String::from_str("camera returned an invalid JPEG snapshot"),
            SnapshotError::ScaleFailed => String::from_str("ffmpeg snapshot scaling failed"),
            SnapshotError::InvalidOutput => String::from_str("ffmpeg snapshot scaling produced an invalid JPEG"),
            SnapshotError::BlackFrame => String::from_str("camera produced a nearly all-black snapshot"),
        }
    }
}

/// Whether bytes open and close as a JPEG image does.
pub fn validate_jpeg_envelope(bytes: &[u8]) -> (r: Result<(), SnapshotError>)
    ensures
        r == if bytes@.len() >= 4 && is_jpeg(bytes@) {
            Ok::<(), SnapshotError>(())
        } else {
            Err(SnapshotError::InvalidJpeg)
        },
{
    if bytes.len() >= 4 && opens_and_closes(bytes) {
        Ok(())
    } else {
        Err(SnapshotError::InvalidJpeg)
    }
}

/// Whether FFmpeg's messages tell of a black frame.
pub fn ffmpeg_detected_black_frame(diagnostics: &[u8]) -> (r: bool)
    ensures
        r == holds(text_of(diagnostics@), " pblack:"@),
{
    let text = lossy(diagnostics);
    let text = chars_of(text.as_str());
    let mark = chars_of(" pblack:");
    contains(text.as_slice(), mark.as_slice())
}

/// What stands for bytes where only their equality matters: the standard library's
/// hash of their number and of them.
pub open spec fn fingerprint_of(bytes: Seq<u8>) -> u64 {
    DefaultHasher::spec_finish(seq![le_bytes(bytes.len(), 8), bytes])
}

/// What stands for bytes where only their equality matters.
pub fn fingerprint(bytes: &[u8]) -> (f: u64)
    ensures
        f == fingerprint_of(bytes@),
{
    let mut len: Vec<u8> = Vec::new();
    push_le(&mut len, bytes.len() as u64, 8);
    assert(len@ =~= le_bytes(bytes@.len(), 8));
    let mut hasher = DefaultHasher::new();
    hasher.write(len.as_slice());
    hasher.write(bytes);
    assert(hasher@ =~= seq![le_bytes(bytes@.len(), 8), bytes@]);
    hasher.finish()
}

/// The filter that fits a picture into a box without distorting it, and reports
/// pictures that are black.
pub open spec fn scale_filter(width: u32, height: u32) -> Seq<char> {
    "scale='min("@ + decimal(width as nat) + ",iw)':'min("@ + decimal(height as nat)
        + ",ih)':force_original_aspect_ratio=decrease,blackframe=amount=99:threshold=24"@
}

/// FFmpeg's arguments for scaling a picture.
pub open spec fn scale_argument_views(width: u32, height: u32) -> Seq<Seq<char>> {
    seq![
        "-hide_banner"@,
        "-loglevel"@,
        "info"@,
        "-f"@,
        "image2pipe"@,
        "-i"@,
        "pipe:0"@,
        "-frames:v"@,
        "1"@,
        "-vf"@,
        scale_filter(width, height),
        "-f"@,
        "image2"@,
        "-c:v"@,
        "mjpeg"@,
        "-q:v"@,
        "4"@,
        "pipe:1"@,
    ]
}

/// FFmpeg's arguments for scaling a picture from its input to its output.
pub fn scale_arguments(width: u32, height: u32) -> (args: Vec<String>)
    ensures
        string_views(args@) == scale_argument_views(width, height),
{
    let mut filter = String::from_str("scale='min(");
    push_decimal(&mut filter, width as u64);
    filter.append(",iw)':'min(");
    push_decimal(&mut filter, height as u64);
    filter.append(
        ",ih)':force_original_aspect_ratio=decrease,blackframe=amount=99:threshold=24",
    );
    let mut args: Vec<String> = Vec::new();
    args.push(String::from_str("-hide_banner"));
    args.push(String::from_str("-loglevel"));
    args.push(String::from_str("info"));
    args.push(String::from_str("-f"));
    args.push(String::from_str("image2pipe"));
    args.push(String::from_str("-i"));
    args.push(String::from_str("pipe:0"));
    args.push(String::from_str("-frames:v"));
    args.push(String::from_str("1"));
    args.push(String::from_str("-vf"));
    args.push(filter);
    args.push(String::from_str("-f"));
    args.push(String::from_str("image2"));
    args.push(String::from_str("-c:v"));
    args.push(String::from_str("mjpeg"));
    args.push(String::from_str("-q:v"));
    args.push(String::from_str("4"));
    args.push(String::from_str("pipe:1"));
    assert(string_views(args@) =~= scale_argument_views(width, height));
    args
}

/// What scaling comes to, from FFmpeg's exit, output and messages.
pub open spec fn scaled_result(success: bool, output: Seq<u8>, diagnostics: Seq<u8>) -> Result<
    Seq<u8>,
    SnapshotError,
> {
    if !success || output.len() == 0 {
        Err(SnapshotError::ScaleFailed)
    } else if !is_jpeg(output) {
        Err(SnapshotError::InvalidOutput)
    } else if holds(text_of(diagnostics), " pblack:"@) {
        Err(SnapshotError::BlackFrame)
    } else {
        Ok(output)
    }
}

/// Judges what FFmpeg made of a picture. Some cameras now and then give a picture
/// that is valid and black; it is not worth showing.
pub fn check_scaled(success: bool, output: Vec<u8>, diagnostics: &[u8]) -> (r: Result<
    Vec<u8>,
    SnapshotError,
>)
    ensures
        match r {
            Ok(bytes) => scaled_result(success, output@, diagnostics@) == Ok::<
                Seq<u8>,
                SnapshotError,
            >(bytes@),
            Err(e) => scaled_result(success, output@, diagnostics@) == Err::<
                Seq<u8>,
                SnapshotError,
            >(e),
        },
{
    if !success || output.len() == 0 {
        return Err(SnapshotError::ScaleFailed);
    }
    if !opens_and_closes(output.as_slice()) {
        return Err(SnapshotError::InvalidOutput);
    }
    if ffmpeg_detected_black_frame(diagnostics) {
        return Err(SnapshotError::BlackFrame);
    }
    Ok(output)
}

/// A frame as the camera gave it.
#[derive(Debug)]
pub struct SnapshotFrame {
    pub generation: u64,
    /// When it was fetched, in milliseconds of a clock that does not go back.
    pub fetched_at: u64,
    pub fingerprint: u64,
    pub bytes: Vec<u8>,
}

/// The mathematical value of a [`SnapshotFrame`].
pub ghost struct FrameView {
    pub generation: u64,
    pub fetched_at: u64,
    pub bytes: Seq<u8>,
}

impl View for SnapshotFrame {
    type V = FrameView;

    open spec fn view(&self) -> FrameView {
        FrameView {
            generation: self.generation,
            fetched_at: self.fetched_at,
            bytes: self.bytes@,
        }
    }
}

impl SnapshotFrame {
    pub open spec fn wf(&self) -> bool {
        self.fingerprint == fingerprint_of(self.bytes@) && self.bytes@.len() >= 4 && is_jpeg(
            self.bytes@,
        )
    }

    fn copy(&self) -> (r: Self)
        ensures
            r@ == self@,
            r.fingerprint == self.fingerprint,
            self.wf() ==> r.wf(),
    {
        SnapshotFrame {
            generation: self.generation,
            fetched_at: self.fetched_at,
            fingerprint: self.fingerprint,
            bytes: to_vec(self.bytes.as_slice()),
        }
    }
}

impl Clone for SnapshotFrame {
    fn clone(&self) -> (r: Self)
        ensures
            r@ == self@,
            self.wf() ==> r.wf(),
    {
        self.copy()
    }
}

/// A frame scaled to a size.
#[derive(Debug)]
pub struct ScaledSnapshot {
    pub width: u32,
    pub height: u32,
    pub source_generation: u64,
    pub source_fetched_at: u64,
    pub source_fingerprint: u64,
    pub bytes: Vec<u8>,
}

/// The mathematical value of a [`ScaledSnapshot`].
pub ghost struct ScaledView {
    pub generation: u64,
    pub fetched_at: u64,
    pub fingerprint: u64,
    pub bytes: Seq<u8>,
}

impl View for ScaledSnapshot {
    type V = ScaledView;

    open spec fn view(&self) -> ScaledView {
        ScaledView {
            generation: self.source_generation,
            fetched_at: self.source_fetched_at,
            fingerprint: self.source_fingerprint,
            bytes: self.bytes@,
        }
    }
}

impl Clone for ScaledSnapshot {
    fn clone(&self) -> (r: Self)
        ensures
            r@ == self@,
            r.width == self.width,
            r.height == self.height,
    {
        ScaledSnapshot {
            width: self.width,
            height: self.height,
            source_generation: self.source_generation,
            source_fetched_at: self.source_fetched_at,
            source_fingerprint: self.source_fingerprint,
            bytes: to_vec(self.bytes.as_slice()),
        }
    }
}

/// A snapshot to serve.
#[derive(Debug)]
pub struct SnapshotImage {
    pub bytes: Vec<u8>,
    pub source_generation: u64,
    /// How old the frame is that it was made from, in milliseconds.
    pub source_age: u64,
    pub source_fingerprint: u64,
    pub output_fingerprint: u64,
}

/// How long ago something was.
pub open spec fn age(then: u64, now: u64) -> u64 {
    if then <= now {
        (now - then) as u64
    } else {
        0
    }
}

fn elapsed(then: u64, now: u64) -> (r: u64)
    ensures
        r == age(then, now),
{
    if then <= now {
        now - then
    } else {
        0
    }
}

/// Whether an image was made from a scaled snapshot, at the time `now`.
pub open spec fn serves(image: SnapshotImage, s: ScaledView, now: u64) -> bool {
    &&& image.bytes@ == s.bytes
    &&& image.source_generation == s.generation
    &&& image.source_age == age(s.fetched_at, now)
    &&& image.source_fingerprint == s.fingerprint
    &&& image.output_fingerprint == fingerprint_of(s.bytes)
}

/// The latest frame and the scaled snapshots made from it or from earlier ones.
#[derive(Debug)]
pub struct SnapshotCache {
    latest: Option<SnapshotFrame>,
    scaled: Vec<ScaledSnapshot>,
    next_generation: u64,
}

/// The mathematical value of a [`SnapshotCache`].
pub ghost struct CacheView {
    pub latest: Option<FrameView>,
    /// By width and height.
    pub scaled: Map<(u32, u32), ScaledView>,
    pub next_generation: u64,
}

/// The scaled snapshots by their size.
pub open spec fn by_size(scaled: Seq<ScaledSnapshot>) -> Map<(u32, u32), ScaledView> {
    Map::new(
        |size: (u32, u32)| has_size(scaled, size),
        |size: (u32, u32)| scaled[index_of_size(scaled, size)]@,
    )
}

pub open spec fn has_size(scaled: Seq<ScaledSnapshot>, size: (u32, u32)) -> bool {
    exists|i: int|
        0 <= i < scaled.len() && ((#[trigger] scaled[i]).width, scaled[i].height) == size
}

pub open spec fn index_of_size(scaled: Seq<ScaledSnapshot>, size: (u32, u32)) -> int {
    choose|i: int| 0 <= i < scaled.len() && ((#[trigger] scaled[i]).width, scaled[i].height) == size
}

/// Whether each size occurs once.
pub open spec fn distinct_sizes(scaled: Seq<ScaledSnapshot>) -> bool {
    forall|i: int, j: int|
        #![trigger scaled[i], scaled[j]]
        0 <= i < j < scaled.len() ==> (scaled[i].width, scaled[i].height) != (
            scaled[j].width,
            scaled[j].height,
        )
}

proof fn lemma_by_size(scaled: Seq<ScaledSnapshot>, i: int)
    requires
        distinct_sizes(scaled),
        0 <= i < scaled.len(),
    ensures
        by_size(scaled).dom().contains((scaled[i].width, scaled[i].height)),
        by_size(scaled)[(scaled[i].width, scaled[i].height)] == scaled[i]@,
{
    let size = (scaled[i].width, scaled[i].height);
    assert(has_size(scaled, size));
    let j = index_of_size(scaled, size);
    if i < j {
        assert(scaled[i].width != scaled[j].width || scaled[i].height != scaled[j].height);
    } else if j < i {
        assert(scaled[j].width != scaled[i].width || scaled[j].height != scaled[i].height);
    }
}

impl View for SnapshotCache {
    type V = CacheView;

    closed spec fn view(&self) -> CacheView {
        CacheView {
            latest: match self.latest {
                Some(frame) => Some(frame@),
                None => None,
            },
            scaled: by_size(self.scaled@),
            next_generation: self.next_generation,
        }
    }
}

/// Whether a frame may be served at the time `now`.
pub open spec fn servable(latest: Option<FrameView>, now: u64) -> bool {
    latest is Some && age(latest->0.fetched_at, now) <= SNAPSHOT_MAX_AGE
}

/// What the cache has for a size.
#[derive(Debug)]
pub enum ScaledLookup {
    /// A snapshot of the frame itself.
    Hit(SnapshotImage),
    /// None; the snapshot of an earlier frame that may stand in if scaling fails.
    Miss(Option<ScaledSnapshot>),
}

impl SnapshotCache {
    pub closed spec fn wf(&self) -> bool {
        &&& distinct_sizes(self.scaled@)
        &&& (self.latest matches Some(frame) ==> frame.wf())
    }

    pub fn new() -> (c: Self)
        ensures
            c.wf(),
            c@.latest is None,
            c@.scaled == Map::<(u32, u32), ScaledView>::empty(),
            c@.next_generation == 1,
    {
        let c = SnapshotCache { latest: None, scaled: Vec::new(), next_generation: 1 };
        assert(c@.scaled =~= Map::<(u32, u32), ScaledView>::empty());
        c
    }

    /// The latest frame, where it was fetched so recently that another fetch is not
    /// worth it.
    pub fn recent(&self, now: u64) -> (r: Option<SnapshotFrame>)
        requires
            self.wf(),
        ensures
            match r {
                Some(frame) => frame.wf() && self@.latest == Some(frame@) && age(
                    frame.fetched_at,
                    now,
                ) <= SNAPSHOT_REFRESH_DEDUP,
                None => self@.latest is None || age(self@.latest->0.fetched_at, now)
                    > SNAPSHOT_REFRESH_DEDUP,
            },
    {
        match &self.latest {
            Some(frame) => if elapsed(frame.fetched_at, now) <= SNAPSHOT_REFRESH_DEDUP {
                Some(frame.clone())
            } else {
                None
            },
            None => None,
        }
    }

    /// The latest frame, where it is not too old to be served.
    pub fn get(&self, now: u64) -> (r: Option<SnapshotFrame>)
        requires
            self.wf(),
        ensures
            match r {
                Some(frame) => frame.wf() && self@.latest == Some(frame@) && servable(
                    self@.latest,
                    now,
                ),
                None => !servable(self@.latest, now),
            },
    {
        match &self.latest {
            Some(frame) => if elapsed(frame.fetched_at, now) <= SNAPSHOT_MAX_AGE {
                Some(frame.clone())
            } else {
                None
            },
            None => None,
        }
    }

    /// Takes in what the camera sent at the time `now`, where it is an image. The
    /// frame gets the next generation.
    pub fn refresh(&mut self, bytes: Vec<u8>, now: u64) -> (r: Result<
        SnapshotFrame,
        SnapshotError,
    >)
        requires
            old(self).wf(),
        ensures
            final(self).wf(),
            match r {
                Ok(frame) => bytes@.len() >= 4 && is_jpeg(bytes@) && frame.wf() && frame@ == (
                FrameView {
                    generation: old(self)@.next_generation,
                    fetched_at: now,
                    bytes: bytes@,
                }) && final(self)@.latest == Some(frame@) && final(self)@.scaled == old(self)@.scaled
                    && final(self)@.next_generation == old(self)@.next_generation.wrapping_add(1),
                Err(e) => e == SnapshotError::InvalidJpeg && !(bytes@.len() >= 4 && is_jpeg(bytes@))
                    && final(self)@ == old(self)@,
            },
    {
        if let Err(e) = validate_jpeg_envelope(bytes.as_slice()) {
            return Err(e);
        }
        let frame = SnapshotFrame {
            generation: self.next_generation,
            fetched_at: now,
            fingerprint: fingerprint(bytes.as_slice()),
            bytes,
        };
        self.next_generation = self.next_generation.wrapping_add(1);
        self.latest = Some(frame.clone());
        Ok(frame)
    }

    fn find(&self, width: u32, height: u32) -> (r: Option<usize>)
        requires
            self.wf(),
        ensures
            match r {
                Some(i) => i < self.scaled@.len() && self.scaled@[i as int].width == width
                    && self.scaled@[i as int].height == height && self@.scaled.dom().contains(
                    (width, height),
                ) && self@.scaled[(width, height)] == self.scaled@[i as int]@,
                None => !self@.scaled.dom().contains((width, height)) && forall|j: int|
                    0 <= j < self.scaled@.len() ==> (
                        (#[trigger] self.scaled@[j]).width,
                        self.scaled@[j].height,
                    ) != (width, height),
            },
    {
        let mut i: usize = 0;
        while i < self.scaled.len()
            invariant
                self.wf(),
                i <= self.scaled@.len(),
                forall|j: int|
                    0 <= j < i ==> ((#[trigger] self.scaled@[j]).width, self.scaled@[j].height) != (
                        width,
                        height,
                    ),
            decreases self.scaled@.len() - i,
        {
            if self.scaled[i].width == width && self.scaled[i].height == height {
                proof {
                    lemma_by_size(self.scaled@, i as int);
                }
                return Some(i);
            }
            i = i + 1;
        }
        None
    }

    /// What the cache has of a frame for a size.
    pub fn lookup_scaled(
        &self,
        raw: &SnapshotFrame,
        width: u32,
        height: u32,
        now: u64,
    ) -> (r: ScaledLookup)
        requires
            self.wf(),
            raw.wf(),
        ensures
            match r {
                ScaledLookup::Hit(image) => {
                    &&& self@.scaled.dom().contains((width, height))
                    &&& self@.scaled[(width, height)].generation == raw.generation
                    &&& image.bytes@ == self@.scaled[(width, height)].bytes
                    &&& image.source_generation == raw.generation
                    &&& image.source_age == age(raw.fetched_at, now)
                    &&& image.source_fingerprint == raw.fingerprint
                    &&& image.output_fingerprint == fingerprint_of(image.bytes@)
                },
                ScaledLookup::Miss(stale) => {
                    &&& self@.scaled.dom().contains((width, height)) ==> self@.scaled[(
                        width,
                        height,
                    )].generation != raw.generation
                    &&& match stale {
                        Some(s) => self@.scaled.dom().contains((width, height)) && s@
                            == self@.scaled[(width, height)] && age(s@.fetched_at, now)
                            <= SNAPSHOT_MAX_AGE,
                        None => self@.scaled.dom().contains((width, height)) ==> age(
                            self@.scaled[(width, height)].fetched_at,
                            now,
                        ) > SNAPSHOT_MAX_AGE,
                    }
                },
            },
    {
        match self.find(width, height) {
            Some(i) => {
                let found = &self.scaled[i];
                if found.source_generation == raw.generation {
                    let bytes = to_vec(found.bytes.as_slice());
                    let output_fingerprint: u64 = fingerprint(bytes.as_slice());
                    return ScaledLookup::Hit(
                        SnapshotImage {
                            bytes,
                            source_generation: raw.generation,
                            source_age: elapsed(raw.fetched_at, now),
                            source_fingerprint: raw.fingerprint,
                            output_fingerprint,
                        },
                    );
                }
                if elapsed(found.source_fetched_at, now) <= SNAPSHOT_MAX_AGE {
                    ScaledLookup::Miss(Some(found.clone()))
                } else {
                    ScaledLookup::Miss(None)
                }
            },
            None => ScaledLookup::Miss(None),
        }
    }

    /// Takes in what scaling a frame gave: the result is kept and served. Where it
    /// failed, the snapshot of an earlier frame stands in, if there is one.
    pub fn finish_scaled(
        &mut self,
        raw: &SnapshotFrame,
        width: u32,
        height: u32,
        stale: Option<ScaledSnapshot>,
        scaled: Result<Vec<u8>, SnapshotError>,
        now: u64,
    ) -> (r: Result<SnapshotImage, SnapshotError>)
        requires
            old(self).wf(),
            raw.wf(),
        ensures
            final(self).wf(),
            final(self)@.latest == old(self)@.latest,
            final(self)@.next_generation == old(self)@.next_generation,
            match scaled {
                Ok(bytes) => {
                    let made = ScaledView {
                        generation: raw.generation,
                        fetched_at: raw.fetched_at,
                        fingerprint: raw.fingerprint,
                        bytes: bytes@,
                    };
                    r is Ok && serves(r->Ok_0, made, now) && final(self)@.scaled
                        == old(self)@.scaled.insert((width, height), made)
                },
                Err(e) => final(self)@.scaled == old(self)@.scaled && match stale {
                    Some(s) => r is Ok && serves(r->Ok_0, s@, now),
                    None => r is Err && r->Err_0 == e,
                },
            },
    {
        let bytes = match scaled {
            Ok(bytes) => bytes,
            Err(e) => {
                return match stale {
                    Some(s) => {
                        let output_fingerprint: u64 = fingerprint(s.bytes.as_slice());
                        Ok(
                            SnapshotImage {
                                bytes: s.bytes,
                                source_generation: s.source_generation,
                                source_age: elapsed(s.source_fetched_at, now),
                                source_fingerprint: s.source_fingerprint,
                                output_fingerprint,
                            },
                        )
                    },
                    None => Err(e),
                };
            },
        };
        let entry = ScaledSnapshot {
            width,
            height,
            source_generation: raw.generation,
            source_fetched_at: raw.fetched_at,
            source_fingerprint: raw.fingerprint,
            bytes: to_vec(bytes.as_slice()),
        };
        let ghost made = entry@;
        let ghost before = self.scaled@;
        match self.find(width, height) {
            Some(i) => {
                let _replaced = self.scaled.remove(i);
                self.scaled.insert(i, entry);
                proof {
                    let after = self.scaled@;
                    assert(after =~= before.update(i as int, entry));
                    assert forall|a: int, b: int|
                        #![trigger after[a], after[b]]
                        0 <= a < b < after.len() implies (after[a].width, after[a].height) != (
                        after[b].width,
                        after[b].height,
                    ) by {
                        assert((before[a].width, before[a].height) != (
                            before[b].width,
                            before[b].height,
                        ));
                    }
                    lemma_updated(before, after, i as int);
                }
            },
            None => {
                self.scaled.push(entry);
                proof {
                    let after = self.scaled@;
                    assert(after =~= before.push(entry));
                    assert forall|a: int, b: int|
                        #![trigger after[a], after[b]]
                        0 <= a < b < after.len() implies (after[a].width, after[a].height) != (
                        after[b].width,
                        after[b].height,
                    ) by {
                        assert(after[a] == before[a]);
                        if b < before.len() {
                            assert(after[b] == before[b]);
                        }
                    }
                    lemma_updated(before, after, before.len() as int);
                }
            },
        }
        let output_fingerprint: u64 = fingerprint(bytes.as_slice());
        Ok(
            SnapshotImage {
                bytes,
                source_generation: raw.generation,
                source_age: elapsed(raw.fetched_at, now),
                source_fingerprint: raw.fingerprint,
                output_fingerprint,
            },
        )
    }
}

/// One entry put in place, by size.
proof fn lemma_updated(before: Seq<ScaledSnapshot>, after: Seq<ScaledSnapshot>, i: int)
    requires
        distinct_sizes(before),
        distinct_sizes(after),
        0 <= i < after.len(),
        i <= before.len(),
        i < before.len() ==> after.len() == before.len() && (before[i].width, before[i].height) == (
            after[i].width,
            after[i].height,
        ),
        i == before.len() ==> after.len() == before.len() + 1,
        forall|j: int| 0 <= j < before.len() && j != i ==> #[trigger] after[j] == before[j],
    ensures
        by_size(after) == by_size(before).insert((after[i].width, after[i].height), after[i]@),
{
    let size = (after[i].width, after[i].height);
    let expected = by_size(before).insert(size, after[i]@);
    assert forall|s: (u32, u32)| by_size(after).dom().contains(s) == expected.dom().contains(s) by {
        if has_size(after, s) {
            let k = index_of_size(after, s);
            if k != i {
                assert(before[k] == after[k]);
                assert(has_size(before, s));
            }
        }
        if has_size(before, s) {
            let k = index_of_size(before, s);
            if k != i {
                assert(after[k] == before[k]);
                assert(has_size(after, s));
            } else {
                assert(has_size(after, s));
            }
        }
        if s == size {
            assert(has_size(after, s));
        }
    }
    assert forall|s: (u32, u32)| by_size(after).dom().contains(s) implies by_size(after)[s]
        == expected[s] by {
        let k = index_of_size(after, s);
        lemma_by_size(after, k);
        if s == size {
            lemma_by_size(after, i);
        } else {
            assert(k != i);
            assert(before[k] == after[k]);
            lemma_by_size(before, k);
        }
    }
    assert(by_size(after) =~= expected);
}

// --- What scaling is told, and what is served ---

/// FFmpeg reads one picture on its standard input and writes one JPEG picture on its
/// standard output, scaled and checked for blackness.
pub proof fn law_pictures_are_scaled_by_pipe(width: u32, height: u32)
    ensures
        ({
            let filter = scale_filter(width, height);
            let args = scale_argument_views(width, height);
            &&& gives_option(args, 6, "-loglevel"@, "info"@)
            &&& gives_option(args, 6, "-i"@, "pipe:0"@)
            &&& gives_option(args, 6, "-frames:v"@, "1"@)
            &&& gives_option(args, 6, "-vf"@, filter)
            &&& gives_option(args, 6, "-c:v"@, "mjpeg"@)
            &&& gives_option(args, 6, "-q:v"@, "4"@)
            &&& args[0] == "-hide_banner"@
            &&& args[3] == "-f"@ && args[4] == "image2pipe"@ && args[5] == "-i"@
            &&& args[11] == "-f"@ && args[12] == "image2"@
            &&& args.last() == "pipe:1"@
        }),
{
    let filter = scale_filter(width, height);
    let args = scale_argument_views(width, height);
    reveal_strlit("-hide_banner");
    reveal_strlit("-loglevel");
    reveal_strlit("info");
    reveal_strlit("-f");
    reveal_strlit("image2pipe");
    reveal_strlit("-i");
    reveal_strlit("pipe:0");
    reveal_strlit("-frames:v");
    reveal_strlit("1");
    reveal_strlit("-vf");
    reveal_strlit("image2");
    reveal_strlit("-c:v");
    reveal_strlit("mjpeg");
    reveal_strlit("-q:v");
    reveal_strlit("4");
    reveal_strlit("pipe:1");
    assert("-hide_banner"@.len() == 12);
    assert("-loglevel"@.len() == 9 && "-loglevel"@[1] == 'l');
    assert("info"@.len() == 4 && "info"@[0] == 'i');
    assert("-f"@.len() == 2 && "-f"@[1] == 'f');
    assert("image2pipe"@.len() == 10);
    assert("-i"@.len() == 2 && "-i"@[1] == 'i');
    assert("pipe:0"@.len() == 6 && "pipe:0"@[0] == 'p' && "pipe:0"@[5] == '0');
    assert("-frames:v"@.len() == 9 && "-frames:v"@[1] == 'f');
    assert("1"@.len() == 1 && "1"@[0] == '1');
    assert("-vf"@.len() == 3);
    assert("image2"@.len() == 6 && "image2"@[0] == 'i');
    assert("-c:v"@.len() == 4 && "-c:v"@[0] == '-' && "-c:v"@[1] == 'c');
    assert("mjpeg"@.len() == 5);
    assert("-q:v"@.len() == 4 && "-q:v"@[0] == '-' && "-q:v"@[1] == 'q');
    assert("4"@.len() == 1 && "4"@[0] == '4');
    assert("pipe:1"@.len() == 6 && "pipe:1"@[0] == 'p' && "pipe:1"@[5] == '1');
    assert("-loglevel"@[0] == '-');
    assert("-i"@[0] == '-');
    assert("-frames:v"@[0] == '-');
    assert("-vf"@[0] == '-');
    assert("-c:v"@[0] == '-');
    assert("-q:v"@[0] == '-');
    reveal_with_fuel(times_given, 19);
    assert(args.len() == 18);
    reveal_strlit("scale='min(");
    assert("scale='min("@[0] == 's' && "scale='min("@.len() == 11);
    assert(filter[0] == 's');
    assert(args[0] == "-hide_banner"@);
    assert(args[1] == "-loglevel"@);
    assert(args[2] == "info"@);
    assert(args[3] == "-f"@);
    assert(args[4] == "image2pipe"@);
    assert(args[5] == "-i"@);
    assert(args[6] == "pipe:0"@);
    assert(args[7] == "-frames:v"@);
    assert(args[8] == "1"@);
    assert(args[9] == "-vf"@);
    assert(args[10] == filter);
    assert(args[11] == "-f"@);
    assert(args[12] == "image2"@);
    assert(args[13] == "-c:v"@);
    assert(args[14] == "mjpeg"@);
    assert(args[15] == "-q:v"@);
    assert(args[16] == "4"@);
    assert(args[17] == "pipe:1"@);
    assert(option_at(args, 6, "-loglevel"@, 1) && args[2] == "info"@);
    assert(option_at(args, 6, "-i"@, 5) && args[6] == "pipe:0"@);
    assert(option_at(args, 6, "-frames:v"@, 7) && args[8] == "1"@);
    assert(option_at(args, 6, "-vf"@, 9) && args[10] == filter);
    assert(option_at(args, 6, "-c:v"@, 13) && args[14] == "mjpeg"@);
    assert(option_at(args, 6, "-q:v"@, 15) && args[16] == "4"@);
}

/// A picture is scaled down to fit the width and the height asked for, never up, and
/// keeps its proportions; a picture is reported where 99 of 100 points are darker than
/// the threshold.
pub proof fn law_pictures_fit_their_box(width: u32, height: u32)
    ensures
        scale_filter(width, height) == "scale='min("@ + decimal(width as nat) + ",iw)':'min("@
            + decimal(height as nat)
            + ",ih)':force_original_aspect_ratio=decrease,blackframe=amount=99:threshold=24"@,
{
}

/// Scaling counts where FFmpeg succeeded and gave a JPEG picture that it did not report
/// as black; the picture is then its output as it is.
pub proof fn law_scaled_pictures_are_judged(success: bool, output: Seq<u8>, diagnostics: Seq<u8>)
    ensures
        ({
            let black = exists|i: int|
                0 <= i <= text_of(diagnostics).len() - 8 && #[trigger] text_of(
                    diagnostics,
                ).subrange(i, i + 8) == " pblack:"@;
            let r = scaled_result(success, output, diagnostics);
            &&& r is Ok <==> success && output.len() >= 2 && is_jpeg(output) && !black
            &&& r is Ok ==> r == Ok::<Seq<u8>, SnapshotError>(output)
            &&& !success || output.len() == 0 ==> r == Err::<Seq<u8>, SnapshotError>(
                SnapshotError::ScaleFailed,
            )
            &&& success && output.len() > 0 && !is_jpeg(output) ==> r == Err::<
                Seq<u8>,
                SnapshotError,
            >(SnapshotError::InvalidOutput)
            &&& success && output.len() > 0 && is_jpeg(output) && black ==> r == Err::<
                Seq<u8>,
                SnapshotError,
            >(SnapshotError::BlackFrame)
        }),
{
    reveal_strlit(" pblack:");
    assert(" pblack:"@.len() == 8);
    law_searching_finds_the_first_place(text_of(diagnostics), " pblack:"@);
}

/// A frame is served for two minutes after it was fetched, and another fetch is spared
/// for one second.
pub proof fn law_frames_are_served_for_two_minutes(frame: FrameView, now: u64)
    ensures
        servable(Some(frame), now) <==> now <= frame.fetched_at + 120_000,
        !servable(None, now),
        age(frame.fetched_at, now) <= SNAPSHOT_REFRESH_DEDUP <==> now <= frame.fetched_at + 1000,
        frame.fetched_at <= now ==> age(frame.fetched_at, now) == now - frame.fetched_at,
{
}

/// An image that is served has the bytes of the scaled picture, and tells the frame that
/// it was made from and how long ago that was fetched.
pub proof fn law_an_image_tells_of_its_frame(image: SnapshotImage, s: ScaledView, now: u64)
    requires
        serves(image, s, now),
    ensures
        image.bytes@ == s.bytes,
        image.source_generation == s.generation,
        s.fetched_at <= now ==> image.source_age == now - s.fetched_at,
        s.fetched_at > now ==> image.source_age == 0,
        image.source_fingerprint == s.fingerprint,
        image.output_fingerprint == fingerprint_of(image.bytes@),
{
}

/// The fingerprint is the hash of the number of bytes, in eight bytes, and of the bytes.
pub proof fn law_a_fingerprint_covers_all_bytes(bytes: Seq<u8>)
    ensures
        fingerprint_of(bytes) == DefaultHasher::spec_finish(seq![le_bytes(bytes.len(), 8), bytes]),
{
}

} // verus!
