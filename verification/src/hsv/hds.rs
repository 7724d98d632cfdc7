//! The data stream server: prepared sessions, the recognition of a session by trial
//! decryption, the hello, and the requests for recordings.

use vstd::prelude::*;
use vstd::string::*;
use vstd::utf8::encode_utf8;
use crate::crypto::{hkdf_sha512, nonce_of, opened};
use crate::hsv::codec::{decoded, encodable, encode_to_vec, encoded, fault_text, field, int_of, law_a_dictionary_gives_the_first_entry, law_decode_inverts_encode, normalized, DecodeError, Decoded, Decoder, FaultView, Value, ValueView};
use crate::hsv::frame::{announced_len, complete_frame_len, decrypt_frame, derive_keys, encrypt_frame, frame_error_text, frame_of, session_key, FrameError, SessionKeys, FRAME_HEADER_LEN, MAX_PAYLOAD, TAG_LEN};
use crate::text::same;
use crate::wire::{be_value, law_bytes_are_digits, to_vec};

verus! {

/// How long a prepared session waits for its connection, in milliseconds.
pub const PREPARED_SESSION_TTL: u64 = 10_000;

/// How long a connection may take to its first frame, in milliseconds.
pub const HELLO_TIMEOUT: u64 = 10_000;

/// Why a connection ends.
#[derive(Debug, PartialEq)]
pub enum HdsError {
    Frame(FrameError),
    /// No prepared session opens the first frame.
    NoSession,
    EmptyPayload,
    TruncatedHeader,
    Decode(DecodeError),
    MissingHeader,
    /// The first message is no hello.
    NotHello,
    /// A header of more than 255 bytes.
    HeaderTooLong,
}

/// The mathematical value of an [`HdsError`].
pub ghost enum HdsFault {
    Frame(FrameError),
    NoSession,
    EmptyPayload,
    TruncatedHeader,
    Decode(FaultView),
    MissingHeader,
    NotHello,
    HeaderTooLong,
}

impl View for HdsError {
    type V = HdsFault;

    open spec fn view(&self) -> HdsFault {
        match *self {
            HdsError::Frame(e) => HdsFault::Frame(e),
            HdsError::NoSession => HdsFault::NoSession,
            HdsError::EmptyPayload => HdsFault::EmptyPayload,
            HdsError::TruncatedHeader => HdsFault::TruncatedHeader,
            HdsError::Decode(e) => HdsFault::Decode(e.0@),
            HdsError::MissingHeader => HdsFault::MissingHeader,
            HdsError::NotHello => HdsFault::NotHello,
            HdsError::HeaderTooLong => HdsFault::HeaderTooLong,
        }
    }
}

/// What an error is called.
pub open spec fn hds_error_text(e: HdsFault) -> Seq<char> {
    match e {
        HdsFault::Frame(e) => frame_error_text(e),
        HdsFault::NoSession => "no prepared session matched first frame"@,
        HdsFault::EmptyPayload => "empty HDS payload"@,
        HdsFault::TruncatedHeader => "truncated HDS header"@,
        HdsFault::Decode(fault) => "HDS decode error: "@ + fault_text(fault),
        HdsFault::MissingHeader => "missing header dict"@,
        HdsFault::NotHello => "first HDS message was not control.hello"@,
        HdsFault::HeaderTooLong => "HDS header too long"@,
    }
}

impl HdsError {
    /// The error in words.
    pub fn message(&self) -> (s: String)
        ensures
            s@ == hds_error_text(self@),
            *self is NoSession ==> s@ == "no prepared session matched first frame"@,
            *self is EmptyPayload ==> s@ == "empty HDS payload"@,
            *self is TruncatedHeader ==> s@ == "truncated HDS header"@,
            *self is MissingHeader ==> s@ == "missing header dict"@,
            *self is NotHello ==> s@ == "first HDS message was not control.hello"@,
            *self is HeaderTooLong ==> s@ == "HDS header too long"@,
    {
        match self {
            HdsError::Frame(e) => e.message(),
            HdsError::NoSession => String::from_str("no prepared session matched first frame"),
            HdsError::EmptyPayload => String::from_str("empty HDS payload"),
            HdsError::TruncatedHeader => String::from_str("truncated HDS header"),
            HdsError::Decode(e) => e.message(),
            HdsError::MissingHeader => String::from_str("missing header dict"),
            HdsError::NotHello => String::from_str("first HDS message was not control.hello"),
            HdsError::HeaderTooLong => String::from_str("HDS header too long"),
        }
    }
}

/// A session whose connection has not come yet.
#[derive(Debug)]
struct PreparedSession {
    keys: SessionKeys,
    created: u64,
    controller: u64,
}

/// The mathematical value of a prepared session.
pub ghost struct SessionView {
    /// Controller to accessory.
    pub read_key: Seq<u8>,
    /// Accessory to controller.
    pub write_key: Seq<u8>,
    pub created: u64,
    /// The number of the controller's connection that asked for the session.
    pub controller: u64,
}

impl View for PreparedSession {
    type V = SessionView;

    closed spec fn view(&self) -> SessionView {
        SessionView {
            read_key: self.keys.controller_to_accessory@,
            write_key: self.keys.accessory_to_controller@,
            created: self.created,
            controller: self.controller,
        }
    }
}

spec fn session_views(sessions: Seq<PreparedSession>) -> Seq<SessionView> {
    sessions.map_values(|s: PreparedSession| s@)
}

/// What the connections of an accessory share.
pub ghost struct ServerView {
    pub prepared: Seq<SessionView>,
    /// The port that is listened on.
    pub port: Option<u16>,
    /// The number of the recording that is being delivered.
    pub busy: Option<u64>,
    /// How many recordings were opened.
    pub streams: u64,
    /// The connections that are open.
    pub open: Seq<OpenView>,
    /// How many connections were opened.
    pub numbered: u64,
}

/// An open connection: its number, and once its session is known, the number of the
/// controller's connection that asked for the session.
pub type OpenView = (u64, Option<u64>);

/// The connections but for one.
pub open spec fn others(open: Seq<OpenView>, number: u64) -> Seq<OpenView>
    decreases open.len(),
{
    if open.len() == 0 {
        Seq::empty()
    } else if open.last().0 == number {
        others(open.drop_last(), number)
    } else {
        others(open.drop_last(), number).push(open.last())
    }
}

/// The connections but for those that a controller's connection set up.
pub open spec fn set_up_by_others(open: Seq<OpenView>, controller: u64) -> Seq<OpenView>
    decreases open.len(),
{
    if open.len() == 0 {
        Seq::empty()
    } else if open.last().1 == Some(controller) {
        set_up_by_others(open.drop_last(), controller)
    } else {
        set_up_by_others(open.drop_last(), controller).push(open.last())
    }
}

/// The sessions but for those that a controller's connection asked for.
pub open spec fn asked_by_others(sessions: Seq<SessionView>, controller: u64) -> Seq<SessionView>
    decreases sessions.len(),
{
    if sessions.len() == 0 {
        Seq::empty()
    } else if sessions.last().controller == controller {
        asked_by_others(sessions.drop_last(), controller)
    } else {
        asked_by_others(sessions.drop_last(), controller).push(sessions.last())
    }
}

/// The connections, with the controller's connection behind one of them known.
pub open spec fn claimed(open: Seq<OpenView>, number: u64, controller: u64) -> Seq<OpenView> {
    Seq::new(
        open.len(),
        |i: int|
            if open[i].0 == number {
                (number, Some(controller))
            } else {
                open[i]
            },
    )
}

/// The server with its listener closed where no connection is open and no session
/// waits for one.
pub open spec fn settled(s: ServerView, now: u64) -> ServerView {
    let prepared = waiting(s.prepared, now);
    ServerView {
        prepared,
        port: if s.open.len() == 0 && prepared.len() == 0 {
            None
        } else {
            s.port
        },
        ..s
    }
}

/// The sessions that still wait for their connection.
pub open spec fn waiting(sessions: Seq<SessionView>, now: u64) -> Seq<SessionView>
    decreases sessions.len(),
{
    if sessions.len() == 0 {
        Seq::empty()
    } else if now - sessions.last().created < PREPARED_SESSION_TTL {
        waiting(sessions.drop_last(), now).push(sessions.last())
    } else {
        waiting(sessions.drop_last(), now)
    }
}

/// The session that a controller's and an accessory's salt give.
pub open spec fn session_of(
    shared_secret: Seq<u8>,
    controller_salt: Seq<u8>,
    accessory_salt: Seq<u8>,
    controller: u64,
    now: u64,
) -> SessionView {
    SessionView {
        read_key: session_key(
            shared_secret,
            controller_salt,
            accessory_salt,
            "HDS-Write-Encryption-Key"@,
        ),
        write_key: session_key(
            shared_secret,
            controller_salt,
            accessory_salt,
            "HDS-Read-Encryption-Key"@,
        ),
        created: now,
        controller,
    }
}

/// What a session's key makes of a first frame.
pub open spec fn opened_first(s: SessionView, frame: Seq<u8>) -> Option<Seq<u8>> {
    if frame.len() < FRAME_HEADER_LEN + TAG_LEN {
        None
    } else {
        opened(s.read_key, nonce_of(0), frame.take(4), frame.skip(4))
    }
}

/// One server for an accessory, shared by all of its sessions.
#[derive(Debug)]
pub struct HdsServer {
    prepared: Vec<PreparedSession>,
    port: Option<u16>,
    busy: Option<u64>,
    streams: u64,
    open: Vec<(u64, Option<u64>)>,
    numbered: u64,
}

impl View for HdsServer {
    type V = ServerView;

    closed spec fn view(&self) -> ServerView {
        ServerView {
            prepared: session_views(self.prepared@),
            port: self.port,
            busy: self.busy,
            streams: self.streams,
            open: self.open@,
            numbered: self.numbered,
        }
    }
}

/// Calls `rand::random` for a salt. Nothing is promised of it.
#[verifier::external_body]
fn random_salt() -> (salt: [u8; 32]) {
    rand::random()
}

impl HdsServer {
    pub fn new() -> (s: Self)
        ensures
            s@ == (ServerView {
                prepared: Seq::empty(),
                port: None,
                busy: None,
                streams: 0,
                open: Seq::empty(),
                numbered: 0,
            }),
    {
        let s = HdsServer {
            prepared: Vec::new(),
            port: None,
            busy: None,
            streams: 0,
            open: Vec::new(),
            numbered: 0,
        };
        assert(s@.prepared =~= Seq::empty());
        assert(s@.open =~= Seq::empty());
        s
    }

    /// The port that is listened on.
    pub fn port(&self) -> (r: Option<u16>)
        ensures
            r == self@.port,
    {
        self.port
    }

    /// The port is listened on from now on.
    pub fn bound(&mut self, port: u16)
        ensures
            final(self)@ == (ServerView { port: Some(port), ..old(self)@ }),
    {
        self.port = Some(port);
    }

    fn expire(&mut self, now: u64)
        ensures
            final(self)@ == (ServerView { prepared: waiting(old(self)@.prepared, now), ..old(self)@ }),
    {
        let mut kept: Vec<PreparedSession> = Vec::new();
        let ghost all = session_views(self.prepared@);
        let mut i: usize = 0;
        assert(all.take(0) =~= Seq::empty());
        assert(session_views(kept@) =~= Seq::empty());
        while i < self.prepared.len()
            invariant
                i <= self.prepared@.len(),
                all == session_views(self.prepared@),
                session_views(kept@) == waiting(all.take(i as int), now),
            decreases self.prepared@.len() - i,
        {
            let ghost done = session_views(kept@);
            let session = &self.prepared[i];
            assert(all.take(i + 1).drop_last() =~= all.take(i as int));
            assert(all.take(i + 1).last() == session@);
            if now < session.created || now - session.created < PREPARED_SESSION_TTL {
                kept.push(
                    PreparedSession {
                        keys: session.keys.clone(),
                        created: session.created,
                        controller: session.controller,
                    },
                );
                assert(session_views(kept@) =~= done.push(session@));
            }
            i = i + 1;
        }
        assert(all.take(i as int) =~= all);
        self.prepared = kept;
    }

    /// A connection was opened. The result is its number.
    pub fn connected(&mut self) -> (number: u64)
        ensures
            number == old(self)@.numbered,
            final(self)@ == (ServerView {
                open: old(self)@.open.push((number, None)),
                numbered: number.wrapping_add(1),
                ..old(self)@
            }),
    {
        let number: u64 = self.numbered;
        self.open.push((number, None));
        self.numbered = number.wrapping_add(1);
        number
    }

    /// Whether a connection is to stay open.
    pub fn is_open(&self, number: u64) -> (r: bool)
        ensures
            r == exists|i: int| 0 <= i < self@.open.len() && (#[trigger] self@.open[i]).0 == number,
    {
        let mut i: usize = 0;
        while i < self.open.len()
            invariant
                i <= self.open@.len(),
                forall|j: int| 0 <= j < i ==> (#[trigger] self.open@[j]).0 != number,
            decreases self.open@.len() - i,
        {
            if self.open[i].0 == number {
                assert(self@.open[i as int].0 == number);
                return true;
            }
            i = i + 1;
        }
        false
    }

    /// Closes the listener where it is of no more use. The result tells whether it
    /// was open.
    fn settle(&mut self, now: u64) -> (close: bool)
        ensures
            final(self)@ == settled(old(self)@, now),
            close == (old(self)@.port is Some && final(self)@.port is None),
    {
        self.expire(now);
        if self.open.len() == 0 && self.prepared.len() == 0 {
            let close: bool = self.port.is_some();
            self.port = None;
            close
        } else {
            false
        }
    }

    /// A connection has ended. The result tells whether to close the listener: the
    /// last connection has ended and no session waits.
    pub fn disconnected(&mut self, number: u64, now: u64) -> (close: bool)
        ensures
            final(self)@ == settled(
                ServerView { open: others(old(self)@.open, number), ..old(self)@ },
                now,
            ),
            close == (old(self)@.port is Some && final(self)@.port is None),
    {
        let mut kept: Vec<(u64, Option<u64>)> = Vec::new();
        let mut i: usize = 0;
        let ghost all = self.open@;
        assert(all.take(0) =~= Seq::empty());
        while i < self.open.len()
            invariant
                i <= self.open@.len(),
                all == self.open@,
                kept@ == others(all.take(i as int), number),
            decreases self.open@.len() - i,
        {
            assert(all.take(i + 1).drop_last() =~= all.take(i as int));
            assert(all.take(i + 1).last() == all[i as int]);
            let entry = self.open[i];
            if entry.0 != number {
                kept.push(entry);
            }
            i = i + 1;
        }
        assert(all.take(i as int) =~= all);
        self.open = kept;
        self.settle(now)
    }

    /// A controller's connection has ended, and with it the connections that it set
    /// up and its sessions that wait. The result tells whether to close the listener.
    pub fn controller_closed(&mut self, controller: u64, now: u64) -> (close: bool)
        ensures
            final(self)@ == settled(left_by(old(self)@, controller), now),
            close == (old(self)@.port is Some && final(self)@.port is None),
    {
        let mut kept: Vec<(u64, Option<u64>)> = Vec::new();
        let mut i: usize = 0;
        let ghost all = self.open@;
        assert(all.take(0) =~= Seq::empty());
        while i < self.open.len()
            invariant
                i <= self.open@.len(),
                all == self.open@,
                kept@ == set_up_by_others(all.take(i as int), controller),
            decreases self.open@.len() - i,
        {
            assert(all.take(i + 1).drop_last() =~= all.take(i as int));
            assert(all.take(i + 1).last() == all[i as int]);
            let entry = self.open[i];
            let own: bool = match entry.1 {
                Some(c) => c == controller,
                None => false,
            };
            if !own {
                kept.push(entry);
            }
            i = i + 1;
        }
        assert(all.take(i as int) =~= all);
        let mut sessions: Vec<PreparedSession> = Vec::new();
        let ghost before = session_views(self.prepared@);
        let mut i: usize = 0;
        assert(before.take(0) =~= Seq::empty());
        assert(session_views(sessions@) =~= Seq::empty());
        while i < self.prepared.len()
            invariant
                i <= self.prepared@.len(),
                before == session_views(self.prepared@),
                session_views(sessions@) == asked_by_others(before.take(i as int), controller),
            decreases self.prepared@.len() - i,
        {
            let ghost done = session_views(sessions@);
            let session = &self.prepared[i];
            assert(before.take(i + 1).drop_last() =~= before.take(i as int));
            assert(before.take(i + 1).last() == session@);
            if session.controller != controller {
                sessions.push(
                    PreparedSession {
                        keys: session.keys.clone(),
                        created: session.created,
                        controller: session.controller,
                    },
                );
                assert(session_views(sessions@) =~= done.push(session@));
            }
            i = i + 1;
        }
        assert(before.take(i as int) =~= before);
        self.open = kept;
        self.prepared = sessions;
        self.settle(now)
    }

    /// The session of an open connection is known.
    fn claim(&mut self, number: u64, controller: u64)
        ensures
            final(self)@ == (ServerView {
                open: claimed(old(self)@.open, number, controller),
                ..old(self)@
            }),
    {
        let mut open: Vec<(u64, Option<u64>)> = Vec::new();
        let mut i: usize = 0;
        while i < self.open.len()
            invariant
                i <= self.open@.len(),
                open@.len() == i,
                forall|j: int|
                    0 <= j < i ==> #[trigger] open@[j] == claimed(self.open@, number, controller)[j],
            decreases self.open@.len() - i,
        {
            let entry = self.open[i];
            if entry.0 == number {
                open.push((number, Some(controller)));
            } else {
                open.push(entry);
            }
            i = i + 1;
        }
        assert(open@ =~= claimed(self.open@, number, controller));
        self.open = open;
    }

    /// Prepares a session from both salts, for a controller's connection.
    pub fn prepare(
        &mut self,
        shared_secret: &[u8; 32],
        controller_salt: &[u8],
        accessory_salt: &[u8; 32],
        controller: u64,
        now: u64,
    )
        ensures
            final(self)@ == (ServerView {
                prepared: waiting(old(self)@.prepared, now).push(
                    session_of(shared_secret@, controller_salt@, accessory_salt@, controller, now),
                ),
                ..old(self)@
            }),
    {
        let keys = derive_keys(shared_secret, controller_salt, accessory_salt.as_slice());
        self.expire(now);
        let ghost before = session_views(self.prepared@);
        let session = PreparedSession { keys, created: now, controller };
        let ghost view = session@;
        self.prepared.push(session);
        assert(session_views(self.prepared@) =~= before.push(view));
    }

    /// Handles a request for a session: draws the accessory's salt and prepares the
    /// session. The result is the salt.
    pub fn setup(
        &mut self,
        shared_secret: &[u8; 32],
        controller_salt: &[u8],
        controller: u64,
        now: u64,
    ) -> (salt: [u8; 32])
        ensures
            final(self)@ == (ServerView {
                prepared: waiting(old(self)@.prepared, now).push(
                    session_of(shared_secret@, controller_salt@, salt@, controller, now),
                ),
                ..old(self)@
            }),
    {
        let salt = random_salt();
        self.prepare(shared_secret, controller_salt, &salt, controller, now);
        salt
    }

    /// Finds the session of a connection's first frame by trying the key of each
    /// prepared session in turn. The first that opens it is taken. The result is its
    /// keys, the controller's connection that asked for it, and what the frame holds.
    pub fn identify(&mut self, frame: &[u8], now: u64) -> (r: Option<(SessionKeys, u64, Vec<u8>)>)
        ensures
            ({
                let all = waiting(old(self)@.prepared, now);
                match r {
                    Some((keys, controller, payload)) => exists|i: int|
                        #![trigger all[i]]
                        0 <= i < all.len() && opened_first(all[i], frame@) == Some(payload@) && (
                        forall|j: int|
                            0 <= j < i ==> opened_first(#[trigger] all[j], frame@) is None)
                            && keys.controller_to_accessory@ == all[i].read_key
                            && keys.accessory_to_controller@ == all[i].write_key && controller
                            == all[i].controller && final(self)@ == (
                        ServerView { prepared: all.remove(i), ..old(self)@ }),
                    None => (forall|j: int|
                        0 <= j < all.len() ==> opened_first(#[trigger] all[j], frame@) is None)
                        && final(self)@ == (ServerView { prepared: all, ..old(self)@ }),
                }
            }),
            forall|k: int, m: Seq<u8>|
                #![trigger frame_of(waiting(old(self)@.prepared, now)[k].read_key, 0, m)]
                0 <= k < waiting(old(self)@.prepared, now).len() && m.len() <= MAX_PAYLOAD && m.len()
                    + FRAME_HEADER_LEN + TAG_LEN == frame@.len() && frame@ == frame_of(
                    waiting(old(self)@.prepared, now)[k].read_key,
                    0,
                    m,
                ) ==> r is Some,
    {
        self.expire(now);
        let ghost all = session_views(self.prepared@);
        let mut i: usize = 0;
        while i < self.prepared.len()
            invariant
                i <= self.prepared@.len(),
                all == session_views(self.prepared@),
                all == waiting(old(self)@.prepared, now),
                self@ == (ServerView { prepared: all, ..old(self)@ }),
                forall|j: int| 0 <= j < i ==> opened_first(#[trigger] all[j], frame@) is None,
                forall|k: int, m: Seq<u8>|
                    #![trigger frame_of(all[k].read_key, 0, m)]
                    0 <= k < i && m.len() <= MAX_PAYLOAD && m.len() + FRAME_HEADER_LEN + TAG_LEN
                        == frame@.len() ==> frame@ != frame_of(all[k].read_key, 0, m),
            decreases self.prepared@.len() - i,
        {
            let mut counter: u64 = 0;
            let session = &self.prepared[i];
            assert(all[i as int] == session@);
            match decrypt_frame(&session.keys.controller_to_accessory, &mut counter, frame) {
                Ok(payload) => {
                    assert(opened_first(all[i as int], frame@) == Some(payload@));
                    let taken = self.prepared.remove(i);
                    assert(session_views(self.prepared@) =~= all.remove(i as int));
                    return Some((taken.keys, taken.controller, payload));
                },
                Err(_) => {
                    assert(opened_first(all[i as int], frame@) is None);
                },
            }
            i = i + 1;
        }
        None
    }

    /// Whether the recording with this number is still being delivered.
    pub fn delivering(&self, stream: u64) -> (r: bool)
        ensures
            r == (self@.busy == Some(stream)),
    {
        match self.busy {
            Some(current) => current == stream,
            None => false,
        }
    }

    /// The recording with this number has ended.
    pub fn release(&mut self, stream: u64)
        ensures
            final(self)@ == released(old(self)@, stream),
    {
        if self.delivering(stream) {
            self.busy = None;
        }
    }
}

/// The server once a controller's connection has ended.
pub open spec fn left_by(s: ServerView, controller: u64) -> ServerView {
    ServerView {
        prepared: asked_by_others(s.prepared, controller),
        open: set_up_by_others(s.open, controller),
        ..s
    }
}

/// The server once a recording has ended. A recording that is no longer the one
/// being delivered changes nothing.
pub open spec fn released(s: ServerView, stream: u64) -> ServerView {
    if s.busy == Some(stream) {
        ServerView { busy: None, ..s }
    } else {
        s
    }
}

/// The bytes of a message: the length of its header, the header and the body.
pub open spec fn payload_of(header: ValueView, message: ValueView) -> Seq<u8> {
    seq![encoded(header).len() as u8] + encoded(header) + encoded(message)
}

/// Makes the frames of one direction, numbered from zero.
#[derive(Debug)]
pub struct FrameWriter {
    pub key: [u8; 32],
    pub counter: u64,
}

impl FrameWriter {
    /// The frame of a message.
    pub fn frame(&mut self, header: &Value, message: &Value) -> (r: Result<Vec<u8>, HdsError>)
        requires
            old(self).counter < u64::MAX,
        ensures
            final(self).key == old(self).key,
            match r {
                Ok(frame) => {
                    &&& encoded(header@).len() <= 255
                    &&& payload_of(header@, message@).len() <= MAX_PAYLOAD
                    &&& frame@ == frame_of(
                        old(self).key@,
                        old(self).counter,
                        payload_of(header@, message@),
                    )
                    &&& final(self).counter == old(self).counter + 1
                },
                Err(HdsError::HeaderTooLong) => encoded(header@).len() > 255
                    && final(self).counter == old(self).counter,
                Err(e) => {
                    &&& encoded(header@).len() <= 255
                    &&& payload_of(header@, message@).len() > MAX_PAYLOAD
                    &&& e == HdsError::Frame(
                        FrameError::PayloadTooLarge(payload_of(header@, message@).len() as usize),
                    )
                    &&& final(self).counter == old(self).counter
                },
            },
    {
        let header_bytes = encode_to_vec(header);
        let message_bytes = encode_to_vec(message);
        if header_bytes.len() > 255 {
            return Err(HdsError::HeaderTooLong);
        }
        let mut payload: Vec<u8> = Vec::new();
        payload.push(header_bytes.len() as u8);
        payload.extend_from_slice(header_bytes.as_slice());
        payload.extend_from_slice(message_bytes.as_slice());
        assert(payload@ =~= payload_of(header@, message@));
        match encrypt_frame(&self.key, &mut self.counter, payload.as_slice()) {
            Ok(frame) => Ok(frame),
            Err(e) => Err(HdsError::Frame(e)),
        }
    }
}

/// What stands at the start of the bytes received.
pub ghost enum FrameScan {
    /// The length of a frame is over the limit; these bytes are left, from its header
    /// on.
    Bad { error: FrameError, rest: Seq<u8> },
    /// No whole frame; these bytes are left.
    NeedMore { rest: Seq<u8> },
    /// A frame, and the bytes behind it.
    Frame { frame: Seq<u8>, rest: Seq<u8> },
}

/// Finds the next frame. Frames of a payload type other than 1 are passed over.
pub open spec fn next_frame(b: Seq<u8>) -> FrameScan
    decreases b.len(),
{
    if b.len() < FRAME_HEADER_LEN {
        FrameScan::NeedMore { rest: b }
    } else if be_value(b.subrange(1, 4)) > MAX_PAYLOAD {
        FrameScan::Bad {
            error: FrameError::FrameTooLarge(be_value(b.subrange(1, 4)) as usize),
            rest: b,
        }
    } else if b.len() < announced_len(b) {
        FrameScan::NeedMore { rest: b }
    } else if b[0] == 0x01 {
        FrameScan::Frame {
            frame: b.take(announced_len(b) as int),
            rest: b.skip(announced_len(b) as int),
        }
    } else {
        next_frame(b.skip(announced_len(b) as int))
    }
}

/// Takes the next frame out of the bytes received.
pub fn take_frame(buffer: &mut Vec<u8>) -> (r: Result<Option<Vec<u8>>, HdsError>)
    ensures
        match next_frame(old(buffer)@) {
            FrameScan::Bad { error, rest } => r == Err::<Option<Vec<u8>>, HdsError>(
                HdsError::Frame(error),
            ) && final(buffer)@ == rest,
            FrameScan::NeedMore { rest } => r matches Ok(None) && final(buffer)@ == rest,
            FrameScan::Frame { frame, rest } => r matches Ok(Some(f)) && f@ == frame
                && final(buffer)@ == rest && frame.len() <= FRAME_HEADER_LEN + MAX_PAYLOAD
                + TAG_LEN,
        },
{
    loop
        invariant
            next_frame(buffer@) == next_frame(old(buffer)@),
        decreases buffer@.len(),
    {
        match complete_frame_len(buffer.as_slice()) {
            Err(e) => {
                return Err(HdsError::Frame(e));
            },
            Ok(None) => {
                return Ok(None);
            },
            Ok(Some(len)) => {
                let frame = to_vec(&buffer[0..len]);
                let rest = to_vec(&buffer[len..buffer.len()]);
                assert(frame@ =~= buffer@.take(len as int));
                assert(rest@ =~= buffer@.skip(len as int));
                *buffer = rest;
                if frame[0] == 0x01 {
                    return Ok(Some(frame));
                }
            },
        }
    }
}

// --- Messages ---

pub open spec fn text_field(v: ValueView, key: Seq<char>) -> Option<Seq<char>> {
    match field(v, key) {
        Some(ValueView::Text(s)) => Some(s),
        _ => None,
    }
}

pub open spec fn int_field(v: ValueView, key: Seq<char>) -> Option<i64> {
    match field(v, key) {
        Some(x) => int_of(x),
        None => None,
    }
}

fn find_text<'a>(v: &'a Value, key: &str) -> (r: Option<&'a str>)
    ensures
        match r {
            Some(s) => text_field(v@, key@) == Some(s@),
            None => text_field(v@, key@) is None,
        },
{
    match v.get(key) {
        Some(x) => x.as_str(),
        None => None,
    }
}

fn find_int(v: &Value, key: &str) -> (r: Option<i64>)
    ensures
        r == int_field(v@, key@),
{
    match v.get(key) {
        Some(x) => x.as_i64(),
        None => None,
    }
}

/// The header and the body of a message. A body may be left out.
pub open spec fn parts_of(payload: Seq<u8>) -> Result<(ValueView, ValueView), HdsFault> {
    if payload.len() == 0 {
        Err(HdsFault::EmptyPayload)
    } else if payload.len() < 1 + payload[0] {
        Err(HdsFault::TruncatedHeader)
    } else {
        match decoded(payload.skip(1), Seq::empty()) {
            Decoded::Fail { fault, .. } => Err(HdsFault::Decode(fault)),
            Decoded::End { .. } => Err(HdsFault::MissingHeader),
            Decoded::Item { value: header, .. } => match decoded(
                payload.skip(1 + payload[0]),
                Seq::empty(),
            ) {
                Decoded::Fail { fault, .. } => Err(HdsFault::Decode(fault)),
                Decoded::End { .. } => Ok((header, ValueView::Dict(Seq::empty()))),
                Decoded::Item { value: message, .. } => Ok((header, message)),
            },
        }
    }
}

fn empty_dict() -> (v: Value)
    ensures
        v@ == ValueView::Dict(Seq::empty()),
{
    let v = Value::Dict(Vec::new());
    assert(v@->Dict_0 =~= Seq::empty());
    v
}

fn split_payload(payload: &[u8]) -> (r: Result<(Value, Value), HdsError>)
    ensures
        match r {
            Ok((header, message)) => parts_of(payload@) == Ok::<(ValueView, ValueView), HdsFault>(
                (header@, message@),
            ),
            Err(e) => parts_of(payload@) == Err::<(ValueView, ValueView), HdsFault>(e@),
        },
{
    let len: usize = payload.len();
    if len == 0 {
        return Err(HdsError::EmptyPayload);
    }
    let header_len: usize = payload[0] as usize;
    if len < 1 + header_len {
        return Err(HdsError::TruncatedHeader);
    }
    let front = &payload[1..len];
    let back = &payload[1 + header_len..len];
    assert(front@ =~= payload@.skip(1));
    assert(back@ =~= payload@.skip(1 + header_len));
    let mut decoder = Decoder::new(front);
    let header = match decoder.decode() {
        Err(e) => return Err(HdsError::Decode(e)),
        Ok(None) => return Err(HdsError::MissingHeader),
        Ok(Some(header)) => header,
    };
    let mut decoder = Decoder::new(back);
    let message = match decoder.decode() {
        Err(e) => return Err(HdsError::Decode(e)),
        Ok(None) => empty_dict(),
        Ok(Some(message)) => message,
    };
    Ok((header, message))
}

/// A message that was made into a frame's payload is read as it was written.
pub proof fn law_a_message_is_read_back(header: ValueView, message: ValueView)
    requires
        encodable(header),
        encodable(message),
        encoded(header).len() <= 255,
    ensures
        parts_of(payload_of(header, message)) == Ok::<(ValueView, ValueView), HdsFault>(
            (normalized(header), normalized(message)),
        ),
{
    let payload = payload_of(header, message);
    assert(payload.skip(1) =~= encoded(header) + encoded(message));
    law_decode_inverts_encode(header, encoded(message), Seq::empty());
    assert(payload.skip(1 + payload[0]) =~= encoded(message) + Seq::<u8>::empty());
    law_decode_inverts_encode(message, Seq::empty(), Seq::empty());
}

/// The header of a response.
pub open spec fn response_header(
    protocol: Seq<char>,
    response: Seq<char>,
    id: i64,
    status: i64,
) -> ValueView {
    ValueView::Dict(
        seq![
            ("protocol"@, ValueView::Text(protocol)),
            ("response"@, ValueView::Text(response)),
            ("id"@, ValueView::Int64(id)),
            ("status"@, ValueView::Int64(status)),
        ],
    )
}

fn make_response_header(protocol: &str, response: &str, id: i64, status: i64) -> (v: Value)
    ensures
        v@ == response_header(protocol@, response@, id, status),
{
    let v = Value::dict(
        vec![
            ("protocol", Value::String(String::from_str(protocol))),
            ("response", Value::String(String::from_str(response))),
            ("id", Value::Int64(id)),
            ("status", Value::Int64(status)),
        ],
    );
    assert(v@->Dict_0 =~~= response_header(protocol@, response@, id, status)->Dict_0);
    v
}

/// The body of a response to an open.
pub open spec fn status_body(status: i64) -> ValueView {
    ValueView::Dict(seq![("status"@, ValueView::Int64(status))])
}

fn make_status_body(status: i64) -> (v: Value)
    ensures
        v@ == status_body(status),
{
    let v = Value::dict(vec![("status", Value::Int64(status))]);
    assert(v@->Dict_0 =~~= status_body(status)->Dict_0);
    v
}

/// A connection whose session is known, as far as messages matter.
pub ghost struct ConnectionView {
    pub hello_done: bool,
    /// The recording opened here: the controller's id of it, and its number.
    pub active: Option<(i64, u64)>,
}

/// What a message comes to.
pub ghost struct ReactionView {
    /// The response, header and body.
    pub reply: Option<(ValueView, ValueView)>,
    /// A recording to deliver: the controller's id of it, and its number.
    pub start: Option<(i64, u64)>,
}

pub open spec fn silence() -> ReactionView {
    ReactionView { reply: None, start: None }
}

pub open spec fn replies(header: ValueView, body: ValueView) -> ReactionView {
    ReactionView { reply: Some((header, body)), start: None }
}

/// The server and the connection after the connection's recording was stopped.
pub open spec fn stopped(c: ConnectionView, s: ServerView) -> (ConnectionView, ServerView) {
    match c.active {
        Some((_, stream)) => (ConnectionView { active: None, ..c }, released(s, stream)),
        None => (c, s),
    }
}

/// What a request to open a recording comes to. `allowed` says whether recordings
/// are enabled, or the status of the refusal.
pub open spec fn on_open(
    c: ConnectionView,
    s: ServerView,
    id: i64,
    message: ValueView,
    allowed: Result<(), u8>,
) -> (ConnectionView, ServerView, ReactionView) {
    let stream_id = match int_field(message, "streamId"@) {
        Some(n) => n,
        None => 0,
    };
    if text_field(message, "type"@) != Some("ipcamera.recording"@) {
        (c, s, replies(response_header("dataSend"@, "open"@, id, 6), status_body(5)))
    } else if allowed is Err {
        (
            c,
            s,
            replies(
                response_header("dataSend"@, "open"@, id, 6),
                status_body(allowed->Err_0 as i64),
            ),
        )
    } else if s.busy is Some {
        (c, s, replies(response_header("dataSend"@, "open"@, id, 6), status_body(2)))
    } else {
        (
            ConnectionView { active: Some((stream_id, s.streams)), ..c },
            ServerView { busy: Some(s.streams), streams: s.streams.wrapping_add(1), ..s },
            ReactionView {
                reply: Some((response_header("dataSend"@, "open"@, id, 0), status_body(0))),
                start: Some((stream_id, s.streams)),
            },
        )
    }
}

/// What a message of the recording protocol comes to.
pub open spec fn on_data_send(
    c: ConnectionView,
    s: ServerView,
    header: ValueView,
    message: ValueView,
    allowed: Result<(), u8>,
) -> (ConnectionView, ServerView, ReactionView) {
    let id = match int_field(header, "id"@) {
        Some(n) => n,
        None => 0,
    };
    let nothing = (c, s, silence());
    let stop = (stopped(c, s).0, stopped(c, s).1, silence());
    match text_field(header, "request"@) {
        Some(topic) => if topic == "open"@ {
            on_open(c, s, id, message, allowed)
        } else {
            (
                c,
                s,
                replies(
                    response_header("dataSend"@, "open"@, id, 4),
                    ValueView::Dict(Seq::empty()),
                ),
            )
        },
        None => match text_field(header, "event"@) {
            Some(topic) => if topic == "close"@ {
                let closed = int_field(message, "streamId"@);
                match c.active {
                    Some((own, _)) => if closed == Some(own) || closed is None {
                        stop
                    } else {
                        nothing
                    },
                    None => nothing,
                }
            } else if topic == "ack"@ {
                stop
            } else {
                nothing
            },
            None => nothing,
        },
    }
}

/// What a payload comes to. The first message has to be a hello; after that, only
/// the recording protocol is known.
pub open spec fn on_payload(
    c: ConnectionView,
    s: ServerView,
    payload: Seq<u8>,
    allowed: Result<(), u8>,
) -> Result<(ConnectionView, ServerView, ReactionView), HdsFault> {
    match parts_of(payload) {
        Err(e) => Err(e),
        Ok((header, message)) => {
            let protocol = text_field(header, "protocol"@);
            if !c.hello_done {
                if protocol == Some("control"@) && text_field(header, "request"@) == Some(
                    "hello"@,
                ) {
                    let id = match int_field(header, "id"@) {
                        Some(n) => n,
                        None => 0,
                    };
                    Ok(
                        (
                            ConnectionView { hello_done: true, ..c },
                            s,
                            replies(
                                response_header("control"@, "hello"@, id, 0),
                                ValueView::Dict(Seq::empty()),
                            ),
                        ),
                    )
                } else {
                    Err(HdsFault::NotHello)
                }
            } else if protocol == Some("dataSend"@) {
                Ok(on_data_send(c, s, header, message, allowed))
            } else {
                Ok((c, s, silence()))
            }
        },
    }
}

/// What a message comes to.
#[derive(Debug)]
pub struct Reaction {
    /// The response to send, header and body.
    pub reply: Option<(Value, Value)>,
    /// A recording to deliver: the controller's id of it, and its number.
    pub start: Option<(i64, u64)>,
}

impl View for Reaction {
    type V = ReactionView;

    open spec fn view(&self) -> ReactionView {
        ReactionView {
            reply: match self.reply {
                Some((header, body)) => Some((header@, body@)),
                None => None,
            },
            start: self.start,
        }
    }
}

fn reply(header: Value, body: Value) -> (r: Reaction)
    ensures
        r@ == replies(header@, body@),
{
    Reaction { reply: Some((header, body)), start: None }
}

/// A connection whose session is known.
#[derive(Debug)]
pub struct Connection {
    read_key: [u8; 32],
    read_counter: u64,
    buffer: Vec<u8>,
    hello_done: bool,
    active: Option<(i64, u64)>,
}

impl View for Connection {
    type V = ConnectionView;

    closed spec fn view(&self) -> ConnectionView {
        ConnectionView { hello_done: self.hello_done, active: self.active }
    }
}

/// A connection whose first frame was opened.
#[derive(Debug)]
pub struct Accepted {
    pub connection: Connection,
    pub writer: FrameWriter,
    /// What the first frame holds.
    pub payload: Vec<u8>,
}

impl Connection {
    /// The key that the controller's frames are opened with.
    pub closed spec fn key(&self) -> Seq<u8> {
        self.read_key@
    }

    /// The number of the controller's next frame.
    pub closed spec fn counter(&self) -> u64 {
        self.read_counter
    }

    /// The bytes received and not used yet.
    pub closed spec fn received(&self) -> Seq<u8> {
        self.buffer@
    }

    /// Looks for the first frame in the bytes received by connection `number`, and for
    /// its session. `None` says that more bytes are needed.
    pub fn accept(
        server: &mut HdsServer,
        number: u64,
        buffer: &mut Vec<u8>,
        now: u64,
    ) -> (r: Result<Option<Accepted>, HdsError>)
        ensures
            ({
                let all = waiting(old(server)@.prepared, now);
                match next_frame(old(buffer)@) {
                    FrameScan::Bad { error, rest } => r == Err::<Option<Accepted>, HdsError>(
                        HdsError::Frame(error),
                    ) && final(buffer)@ == rest && final(server)@ == old(server)@,
                    FrameScan::NeedMore { rest } => r matches Ok(None) && final(buffer)@ == rest
                        && final(server)@ == old(server)@,
                    FrameScan::Frame { frame, rest } => match r {
                        Ok(Some(accepted)) => exists|i: int|
                            #![trigger all[i]]
                            0 <= i < all.len() && opened_first(all[i], frame) == Some(
                                accepted.payload@,
                            ) && (forall|j: int|
                                0 <= j < i ==> opened_first(#[trigger] all[j], frame) is None)
                                && accepted.connection.key() == all[i].read_key
                                && accepted.connection.counter() == 1
                                && accepted.connection.received() == rest && accepted.connection@
                                == (ConnectionView { hello_done: false, active: None })
                                && accepted.writer.key@ == all[i].write_key
                                && accepted.writer.counter == 0 && final(server)@ == (ServerView {
                                prepared: all.remove(i),
                                open: claimed(old(server)@.open, number, all[i].controller),
                                ..old(server)@
                            }),
                        Ok(None) => false,
                        Err(e) => e == HdsError::NoSession && (forall|j: int|
                            0 <= j < all.len() ==> opened_first(#[trigger] all[j], frame) is None)
                            && final(server)@ == (ServerView { prepared: all, ..old(server)@ }),
                    },
                }
            }),
    {
        let frame = match take_frame(buffer) {
            Err(e) => return Err(e),
            Ok(None) => return Ok(None),
            Ok(Some(frame)) => frame,
        };
        let rest = to_vec(buffer.as_slice());
        match server.identify(frame.as_slice(), now) {
            Some((keys, controller, payload)) => {
                server.claim(number, controller);
                let accepted = Accepted {
                    connection: Connection {
                        read_key: keys.controller_to_accessory,
                        read_counter: 1,
                        buffer: rest,
                        hello_done: false,
                        active: None,
                    },
                    writer: FrameWriter { key: keys.accessory_to_controller, counter: 0 },
                    payload,
                };
                Ok(Some(accepted))
            },
            None => Err(HdsError::NoSession),
        }
    }

    /// Takes in bytes.
    pub fn receive(&mut self, bytes: &[u8])
        ensures
            final(self).received() == old(self).received() + bytes@,
            final(self)@ == old(self)@,
            final(self).key() == old(self).key(),
            final(self).counter() == old(self).counter(),
    {
        self.buffer.extend_from_slice(bytes);
        assert(self.buffer@ =~= old(self).received() + bytes@);
    }

    /// Whether there is a number left for another frame.
    pub fn can_open(&self) -> (r: bool)
        ensures
            r == (self.counter() < u64::MAX),
    {
        self.read_counter < u64::MAX
    }

    /// Opens the next frame in the bytes received.
    pub fn next_payload(&mut self) -> (r: Result<Option<Vec<u8>>, HdsError>)
        requires
            old(self).counter() < u64::MAX,
        ensures
            final(self)@ == old(self)@,
            final(self).key() == old(self).key(),
            match next_frame(old(self).received()) {
                FrameScan::Bad { error, rest } => r == Err::<Option<Vec<u8>>, HdsError>(
                    HdsError::Frame(error),
                ) && final(self).received() == rest && final(self).counter() == old(self).counter(),
                FrameScan::NeedMore { rest } => r matches Ok(None) && final(self).received() == rest
                    && final(self).counter() == old(self).counter(),
                FrameScan::Frame { frame, rest } => {
                    &&& final(self).received() == rest
                    &&& match r {
                        Ok(Some(payload)) => opened(
                            old(self).key(),
                            nonce_of(old(self).counter()),
                            frame.take(4),
                            frame.skip(4),
                        ) == Some(payload@) && final(self).counter() == old(self).counter() + 1,
                        Ok(None) => false,
                        Err(e) => e == HdsError::Frame(FrameError::DecryptFailed) && opened(
                            old(self).key(),
                            nonce_of(old(self).counter()),
                            frame.take(4),
                            frame.skip(4),
                        ) is None && final(self).counter() == old(self).counter(),
                    }
                },
            },
            forall|m: Seq<u8>, rest: Seq<u8>|
                m.len() <= MAX_PAYLOAD && old(self).received() == #[trigger] (frame_of(
                    old(self).key(),
                    old(self).counter(),
                    m,
                ) + rest) && frame_of(old(self).key(), old(self).counter(), m).len()
                    == FRAME_HEADER_LEN + m.len() + TAG_LEN ==> (r matches Ok(Some(p)) && p@
                    == m && final(self).received() == rest),
    {
        proof {
            assert forall|m: Seq<u8>, rest: Seq<u8>|
                m.len() <= MAX_PAYLOAD && self.buffer@ == #[trigger] (frame_of(
                    self.read_key@,
                    self.read_counter,
                    m,
                ) + rest) && frame_of(self.read_key@, self.read_counter, m).len()
                    == FRAME_HEADER_LEN + m.len() + TAG_LEN implies next_frame(self.buffer@) == (
            FrameScan::Frame { frame: frame_of(self.read_key@, self.read_counter, m), rest }) by {
                let f = frame_of(self.read_key@, self.read_counter, m);
                crate::hsv::frame::law_frames_are_delimited(
                    self.read_key@,
                    self.read_counter,
                    m,
                    rest,
                );
                assert((f + rest)[0] == 0x01);
                assert((f + rest).take(f.len() as int) =~= f);
                assert((f + rest).skip(f.len() as int) =~= rest);
            }
        }
        let frame = match take_frame(&mut self.buffer) {
            Err(e) => return Err(e),
            Ok(None) => return Ok(None),
            Ok(Some(frame)) => frame,
        };
        proof {
            lemma_scanned_len(old(self).buffer@);
        }
        match decrypt_frame(&self.read_key, &mut self.read_counter, frame.as_slice()) {
            Ok(payload) => Ok(Some(payload)),
            Err(e) => Err(HdsError::Frame(e)),
        }
    }

    fn stop_active_stream(&mut self, server: &mut HdsServer)
        ensures
            (final(self)@, final(server)@) == stopped(old(self)@, old(server)@),
            final(self).key() == old(self).key(),
            final(self).counter() == old(self).counter(),
            final(self).received() == old(self).received(),
    {
        if let Some((_, stream)) = self.active {
            self.active = None;
            server.release(stream);
        }
    }

    /// The controller has closed the connection. A recording opened here is stopped.
    pub fn closed(&mut self, server: &mut HdsServer)
        ensures
            (final(self)@, final(server)@) == stopped(old(self)@, old(server)@),
    {
        self.stop_active_stream(server);
    }

    fn handle_open(
        &mut self,
        server: &mut HdsServer,
        id: i64,
        message: &Value,
        allowed: Result<(), u8>,
    ) -> (r: Reaction)
        ensures
            (final(self)@, final(server)@, r@) == on_open(
                old(self)@,
                old(server)@,
                id,
                message@,
                allowed,
            ),
            final(self).key() == old(self).key(),
            final(self).counter() == old(self).counter(),
            final(self).received() == old(self).received(),
    {
        let recording: bool = match find_text(message, "type") {
            Some(kind) => same(kind, "ipcamera.recording"),
            None => false,
        };
        let stream_id: i64 = match find_int(message, "streamId") {
            Some(n) => n,
            None => 0,
        };
        if !recording {
            return reply(make_response_header("dataSend", "open", id, 6), make_status_body(5));
        }
        if let Err(reason) = allowed {
            return reply(
                make_response_header("dataSend", "open", id, 6),
                make_status_body(reason as i64),
            );
        }
        if server.busy.is_some() {
            return reply(make_response_header("dataSend", "open", id, 6), make_status_body(2));
        }
        let stream: u64 = server.streams;
        server.busy = Some(stream);
        server.streams = stream.wrapping_add(1);
        self.active = Some((stream_id, stream));
        Reaction {
            reply: Some((make_response_header("dataSend", "open", id, 0), make_status_body(0))),
            start: Some((stream_id, stream)),
        }
    }

    fn handle_data_send(
        &mut self,
        server: &mut HdsServer,
        header: &Value,
        message: &Value,
        allowed: Result<(), u8>,
    ) -> (r: Reaction)
        ensures
            (final(self)@, final(server)@, r@) == on_data_send(
                old(self)@,
                old(server)@,
                header@,
                message@,
                allowed,
            ),
            final(self).key() == old(self).key(),
            final(self).counter() == old(self).counter(),
            final(self).received() == old(self).received(),
    {
        if let Some(topic) = find_text(header, "request") {
            let id: i64 = match find_int(header, "id") {
                Some(n) => n,
                None => 0,
            };
            if same(topic, "open") {
                return self.handle_open(server, id, message, allowed);
            }
            return reply(make_response_header("dataSend", "open", id, 4), empty_dict());
        }
        if let Some(topic) = find_text(header, "event") {
            if same(topic, "close") {
                let closed = find_int(message, "streamId");
                if let Some((own, _)) = self.active {
                    let ours: bool = match closed {
                        Some(n) => n == own,
                        None => true,
                    };
                    if ours {
                        self.stop_active_stream(server);
                    }
                }
            } else if same(topic, "ack") {
                self.stop_active_stream(server);
            }
        }
        Reaction { reply: None, start: None }
    }

    /// Takes in a message. `allowed` says whether recordings are enabled, or the
    /// status of a refusal.
    pub fn handle_payload(
        &mut self,
        server: &mut HdsServer,
        payload: &[u8],
        allowed: Result<(), u8>,
    ) -> (r: Result<Reaction, HdsError>)
        ensures
            match on_payload(old(self)@, old(server)@, payload@, allowed) {
                Ok((c, s, reaction)) => r is Ok && r->Ok_0@ == reaction && final(self)@ == c
                    && final(server)@ == s,
                Err(e) => r is Err && r->Err_0@ == e && final(self)@ == old(self)@
                    && final(server)@ == old(server)@,
            },
            final(self).key() == old(self).key(),
            final(self).counter() == old(self).counter(),
            final(self).received() == old(self).received(),
    {
        let (header, message) = match split_payload(payload) {
            Ok(parts) => parts,
            Err(e) => return Err(e),
        };
        let control: bool = match find_text(&header, "protocol") {
            Some(name) => same(name, "control"),
            None => false,
        };
        let data_send: bool = match find_text(&header, "protocol") {
            Some(name) => same(name, "dataSend"),
            None => false,
        };
        if !self.hello_done {
            let hello: bool = match find_text(&header, "request") {
                Some(name) => same(name, "hello"),
                None => false,
            };
            if !control || !hello {
                return Err(HdsError::NotHello);
            }
            let id: i64 = match find_int(&header, "id") {
                Some(n) => n,
                None => 0,
            };
            self.hello_done = true;
            return Ok(reply(make_response_header("control", "hello", id, 0), empty_dict()));
        }
        if data_send {
            Ok(self.handle_data_send(server, &header, &message, allowed))
        } else {
            Ok(Reaction { reply: None, start: None })
        }
    }
}

/// A frame that is found holds a header and a tag.
proof fn lemma_scanned_len(b: Seq<u8>)
    ensures
        next_frame(b) matches FrameScan::Frame { frame, .. } ==> frame.len() >= FRAME_HEADER_LEN
            + TAG_LEN,
    decreases b.len(),
{
    if b.len() >= FRAME_HEADER_LEN && be_value(b.subrange(1, 4)) <= MAX_PAYLOAD && b.len()
        >= announced_len(b) && b[0] != 0x01 {
        lemma_scanned_len(b.skip(announced_len(b) as int));
    }
}

/// While a recording is being delivered, no other one starts, whatever comes in on
/// whatever connection; the controller that asks is told so.
pub proof fn law_one_recording_at_a_time(
    c: ConnectionView,
    s: ServerView,
    payload: Seq<u8>,
    allowed: Result<(), u8>,
)
    ensures
        on_payload(c, s, payload, allowed) matches Ok((c2, s2, reaction)) ==> (s.busy is Some
            ==> reaction.start is None) && (reaction.start matches Some((_, stream)) ==> s2.busy
            == Some(stream)),
{
}

/// A connection that has no recording does not stop the recording of another one,
/// and neither does the end of one that was stopped before.
pub proof fn law_a_recording_is_stopped_by_its_own_connection(
    c: ConnectionView,
    s: ServerView,
    payload: Seq<u8>,
    allowed: Result<(), u8>,
)
    requires
        s.busy is Some,
        c.active matches Some((_, stream)) ==> s.busy != Some(stream),
    ensures
        stopped(c, s).1 == s,
        on_payload(c, s, payload, allowed) matches Ok((c2, s2, reaction)) ==> s2.busy == s.busy,
{
}

proof fn lemma_set_up_by_others(open: Seq<OpenView>, controller: u64)
    ensures
        forall|i: int|
            0 <= i < set_up_by_others(open, controller).len() ==> (#[trigger] set_up_by_others(
                open,
                controller,
            )[i]).1 != Some(controller),
    decreases open.len(),
{
    if open.len() > 0 {
        lemma_set_up_by_others(open.drop_last(), controller);
    }
}

proof fn lemma_asked_by_others(sessions: Seq<SessionView>, controller: u64)
    ensures
        forall|i: int|
            0 <= i < asked_by_others(sessions, controller).len() ==> (#[trigger] asked_by_others(
                sessions,
                controller,
            )[i]).controller != controller,
    decreases sessions.len(),
{
    if sessions.len() > 0 {
        let kept = asked_by_others(sessions.drop_last(), controller);
        lemma_asked_by_others(sessions.drop_last(), controller);
        assert forall|i: int| 0 <= i < asked_by_others(sessions, controller).len() implies (
        #[trigger] asked_by_others(sessions, controller)[i]).controller != controller by {
            if i < kept.len() {
                assert(kept[i].controller != controller);
            }
        }
    }
}

proof fn lemma_waiting_member(sessions: Seq<SessionView>, now: u64, i: int) -> (j: int)
    requires
        0 <= i < waiting(sessions, now).len(),
    ensures
        0 <= j < sessions.len(),
        sessions[j] == waiting(sessions, now)[i],
    decreases sessions.len(),
{
    let front = sessions.drop_last();
    if i < waiting(front, now).len() {
        lemma_waiting_member(front, now, i)
    } else {
        sessions.len() - 1
    }
}

/// Once a controller's connection has ended, no connection that it set up is open,
/// and no session that it asked for waits.
pub proof fn law_connections_end_with_their_controller(s: ServerView, controller: u64, now: u64)
    ensures
        ({
            let after = settled(left_by(s, controller), now);
            &&& forall|i: int|
                0 <= i < after.open.len() ==> (#[trigger] after.open[i]).1 != Some(controller)
            &&& forall|i: int|
                0 <= i < after.prepared.len() ==> (#[trigger] after.prepared[i]).controller
                    != controller
        }),
{
    let left = left_by(s, controller);
    let after = settled(left, now);
    lemma_set_up_by_others(s.open, controller);
    lemma_asked_by_others(s.prepared, controller);
    assert forall|i: int| 0 <= i < after.prepared.len() implies (
    #[trigger] after.prepared[i]).controller != controller by {
        let j = lemma_waiting_member(left.prepared, now, i);
    }
}

/// When a connection ends, the listener is closed exactly where no other connection
/// is open and no session waits.
pub proof fn law_the_listener_closes_with_its_last_connection(s: ServerView, number: u64, now: u64)
    requires
        s.port is Some,
    ensures
        settled(ServerView { open: others(s.open, number), ..s }, now).port is None <==> (forall|
            i: int,
        |
            0 <= i < s.open.len() ==> (#[trigger] s.open[i]).0 == number) && waiting(
            s.prepared,
            now,
        ).len() == 0,
{
    lemma_no_others(s.open, number);
}

proof fn lemma_no_others(open: Seq<OpenView>, number: u64)
    ensures
        others(open, number).len() == 0 <==> forall|i: int|
            0 <= i < open.len() ==> (#[trigger] open[i]).0 == number,
    decreases open.len(),
{
    if open.len() > 0 {
        let front = open.drop_last();
        lemma_no_others(front, number);
        assert(open.last() == open[open.len() - 1]);
        assert forall|i: int| 0 <= i < front.len() implies front[i] == #[trigger] open[i] by {}
        if others(open, number).len() == 0 {
            assert forall|i: int| 0 <= i < open.len() implies (#[trigger] open[i]).0 == number by {
                if i < front.len() {
                    assert(front[i].0 == number);
                }
            }
        } else if forall|i: int| 0 <= i < open.len() ==> (#[trigger] open[i]).0 == number {
            assert forall|i: int| 0 <= i < front.len() implies (#[trigger] front[i]).0
                == number by {
                assert(open[i].0 == number);
            }
        }
    }
}

// --- What a controller is answered ---

/// The number that a header's `id` gives; zero where it has none.
pub open spec fn request_id(header: ValueView) -> i64 {
    match int_field(header, "id"@) {
        Some(id) => id,
        None => 0,
    }
}

proof fn lemma_response_fields(protocol: Seq<char>, response: Seq<char>, id: i64, status: i64)
    ensures
        ({
            let header = response_header(protocol, response, id, status);
            &&& field(header, "protocol"@) == Some(ValueView::Text(protocol))
            &&& field(header, "response"@) == Some(ValueView::Text(response))
            &&& field(header, "id"@) == Some(ValueView::Int64(id))
            &&& field(header, "status"@) == Some(ValueView::Int64(status))
        }),
        field(status_body(status), "status"@) == Some(ValueView::Int64(status)),
{
    reveal_strlit("protocol");
    reveal_strlit("response");
    reveal_strlit("id");
    reveal_strlit("status");
    let entries = response_header(protocol, response, id, status)->Dict_0;
    law_a_dictionary_gives_the_first_entry(entries);
    law_a_dictionary_gives_the_first_entry(status_body(status)->Dict_0);
    assert("protocol"@[0] == 'p' && "response"@[0] == 'r');
    assert("protocol"@.len() == 8 && "id"@.len() == 2 && "status"@.len() == 6);
    assert(entries[0].0 == "protocol"@ && entries[1].0 == "response"@);
    assert(entries[2].0 == "id"@ && entries[3].0 == "status"@);
    assert((status_body(status)->Dict_0)[0].0 == "status"@);
}

proof fn lemma_words_differ()
    ensures
        "control"@ != "dataSend"@,
        "open"@ != "hello"@,
        "close"@ != "ack"@,
{
    reveal_strlit("control");
    reveal_strlit("dataSend");
    reveal_strlit("open");
    reveal_strlit("hello");
    reveal_strlit("close");
    reveal_strlit("ack");
    assert("control"@.len() == 7 && "dataSend"@.len() == 8);
    assert("open"@.len() == 4 && "hello"@.len() == 5);
    assert("close"@.len() == 5 && "ack"@.len() == 3);
}

/// A reply answers the request that it comes after: it has the request's protocol and
/// its id, zero where the request has none, whatever the body of the request holds.
/// There is a reply to the hello, and after it to every request of the recording
/// protocol, and to nothing else.
pub proof fn law_a_reply_answers_its_request(
    c: ConnectionView,
    s: ServerView,
    payload: Seq<u8>,
    allowed: Result<(), u8>,
)
    ensures
        on_payload(c, s, payload, allowed) matches Ok((c2, s2, reaction)) ==> (parts_of(
            payload,
        ) matches Ok((request, body)) && {
            &&& reaction.reply matches Some((header, _)) ==> {
                &&& field(header, "id"@) == Some(ValueView::Int64(request_id(request)))
                &&& field(header, "protocol"@) == Some(
                    ValueView::Text(text_field(request, "protocol"@)->0),
                )
                &&& field(header, "response"@) == Some(
                    ValueView::Text(
                        if c.hello_done {
                            "open"@
                        } else {
                            "hello"@
                        },
                    ),
                )
            }
            &&& reaction.reply is Some <==> !c.hello_done || (text_field(request, "protocol"@)
                == Some("dataSend"@) && text_field(request, "request"@) is Some)
            &&& c2.hello_done
        }),
{
    if let Ok((request, body)) = parts_of(payload) {
        let id = request_id(request);
        lemma_response_fields("control"@, "hello"@, id, 0);
        lemma_response_fields("dataSend"@, "open"@, id, 0);
        lemma_response_fields("dataSend"@, "open"@, id, 4);
        lemma_response_fields("dataSend"@, "open"@, id, 6);
    }
}

/// A connection starts with a hello of the control protocol, which is answered with
/// status zero and an empty body and changes nothing else; anything else in its place
/// ends the connection.
pub proof fn law_the_hello_comes_first(
    c: ConnectionView,
    s: ServerView,
    payload: Seq<u8>,
    allowed: Result<(), u8>,
    request: ValueView,
    body: ValueView,
)
    requires
        parts_of(payload) == Ok::<(ValueView, ValueView), HdsFault>((request, body)),
        !c.hello_done,
    ensures
        text_field(request, "protocol"@) == Some("control"@) && text_field(request, "request"@)
            == Some("hello"@) ==> (on_payload(c, s, payload, allowed) matches Ok(
            (c2, s2, reaction),
        ) && c2.hello_done && c2.active == c.active && s2 == s && reaction.start is None && (
        reaction.reply matches Some((header, answer)) && field(header, "status"@) == Some(
            ValueView::Int64(0),
        ) && answer == ValueView::Dict(Seq::empty()))),
        !(text_field(request, "protocol"@) == Some("control"@) && text_field(request, "request"@)
            == Some("hello"@)) ==> on_payload(c, s, payload, allowed) == Err::<
            (ConnectionView, ServerView, ReactionView),
            HdsFault,
        >(HdsFault::NotHello),
{
    lemma_response_fields("control"@, "hello"@, request_id(request), 0);
}

/// A recording is opened only for the type `ipcamera.recording`, only where recordings
/// are allowed, and only while none is being delivered; a refusal has header status 6
/// and names its reason in the body: 5, the reason given, or 2. An opened recording has
/// the controller's id of it and a number of its own, and is the one that is being
/// delivered from then on. Any other request is answered with header status 4.
pub proof fn law_a_recording_is_opened_or_refused_with_a_reason(
    c: ConnectionView,
    s: ServerView,
    payload: Seq<u8>,
    allowed: Result<(), u8>,
    request: ValueView,
    body: ValueView,
)
    requires
        parts_of(payload) == Ok::<(ValueView, ValueView), HdsFault>((request, body)),
        c.hello_done,
        text_field(request, "protocol"@) == Some("dataSend"@),
        text_field(request, "request"@) is Some,
    ensures
        on_payload(c, s, payload, allowed) matches Ok((c2, s2, reaction)) && {
            let open = text_field(request, "request"@) == Some("open"@);
            let recording = text_field(body, "type"@) == Some("ipcamera.recording"@);
            &&& reaction.reply matches Some((header, answer)) && {
                let told = field(answer, "status"@);
                &&& field(header, "status"@) == Some(
                    ValueView::Int64(
                        if !open {
                            4i64
                        } else if recording && allowed is Ok && s.busy is None {
                            0i64
                        } else {
                            6i64
                        },
                    ),
                )
                &&& !open ==> told is None
                &&& open && !recording ==> told == Some(ValueView::Int64(5))
                &&& open && recording ==> (allowed matches Err(reason) ==> told == Some(
                    ValueView::Int64(reason as i64),
                ))
                &&& open && recording && allowed is Ok ==> told == Some(
                    ValueView::Int64(
                        if s.busy is Some {
                            2i64
                        } else {
                            0i64
                        },
                    ),
                )
            }
            &&& reaction.start is Some <==> open && recording && allowed is Ok && s.busy is None
            &&& reaction.start matches Some((stream_id, number)) ==> {
                &&& stream_id == match int_field(body, "streamId"@) {
                    Some(n) => n,
                    None => 0i64,
                }
                &&& c2.active == Some((stream_id, number))
                &&& s2.busy == Some(number)
                &&& number == s.streams
                &&& s2.streams != number
            }
            &&& reaction.start is None ==> c2 == c && s2 == s
            &&& s2.prepared == s.prepared && s2.port == s.port && s2.open == s.open
        },
{
    let id = request_id(request);
    lemma_response_fields("dataSend"@, "open"@, id, 0);
    lemma_response_fields("dataSend"@, "open"@, id, 4);
    lemma_response_fields("dataSend"@, "open"@, id, 6);
    lemma_response_fields("dataSend"@, "open"@, id, 5);
    lemma_response_fields("dataSend"@, "open"@, id, 2);
    if let Err(reason) = allowed {
        lemma_response_fields("dataSend"@, "open"@, id, reason as i64);
    }
    law_a_dictionary_gives_the_first_entry(Seq::<(Seq<char>, ValueView)>::empty());
}

/// An acknowledgement stops the recording of its connection, and so does a close that
/// names it or names none; a close that names another one, and any other event, changes
/// nothing. What was stopped is no longer being delivered.
pub proof fn law_events_stop_a_recording(
    c: ConnectionView,
    s: ServerView,
    payload: Seq<u8>,
    allowed: Result<(), u8>,
    header: ValueView,
    body: ValueView,
)
    requires
        parts_of(payload) == Ok::<(ValueView, ValueView), HdsFault>((header, body)),
        c.hello_done,
        text_field(header, "protocol"@) == Some("dataSend"@),
        text_field(header, "request"@) is None,
    ensures
        on_payload(c, s, payload, allowed) matches Ok((c2, s2, reaction)) && {
            let event = text_field(header, "event"@);
            let named = int_field(body, "streamId"@);
            &&& reaction.reply is None && reaction.start is None
            &&& c.active matches Some((own, number)) ==> {
                let stops = event == Some("ack"@) || (event == Some("close"@) && (named is None
                    || named == Some(own)));
                &&& stops ==> c2.active is None && s2.busy != Some(number) && (s.busy != Some(
                    number,
                ) ==> s2 == s) && (s.busy == Some(number) ==> s2 == (ServerView {
                    busy: None,
                    ..s
                }))
                &&& !stops ==> c2 == c && s2 == s
            }
            &&& c.active is None ==> c2 == c && s2 == s
        },
{
    lemma_words_differ();
}

/// Messages of any other protocol are ignored once the hello is done.
pub proof fn law_other_protocols_are_ignored(
    c: ConnectionView,
    s: ServerView,
    payload: Seq<u8>,
    allowed: Result<(), u8>,
    header: ValueView,
    body: ValueView,
)
    requires
        parts_of(payload) == Ok::<(ValueView, ValueView), HdsFault>((header, body)),
        c.hello_done,
        text_field(header, "protocol"@) != Some("dataSend"@),
    ensures
        on_payload(c, s, payload, allowed) matches Ok((c2, s2, reaction)) && c2 == c && s2 == s
            && reaction.reply is None && reaction.start is None,
{
}

/// A prepared session waits for its connection for less than ten seconds: those that
/// were prepared less long ago are kept, in their order, and no others. A first frame
/// may take ten seconds.
pub proof fn law_sessions_wait_ten_seconds(sessions: Seq<SessionView>, last: SessionView, now: u64)
    ensures
        waiting(Seq::empty(), now) == Seq::<SessionView>::empty(),
        now < last.created + 10_000 ==> waiting(sessions.push(last), now) == waiting(
            sessions,
            now,
        ).push(last),
        now >= last.created + 10_000 ==> waiting(sessions.push(last), now) == waiting(sessions, now),
        HELLO_TIMEOUT == 10_000,
{
    assert(sessions.push(last).drop_last() =~= sessions);
}

/// Each direction of a session has the key of its own label, made from both salts, the
/// controller's first.
pub proof fn law_a_session_has_a_key_for_each_direction(
    secret: Seq<u8>,
    controller_salt: Seq<u8>,
    accessory_salt: Seq<u8>,
    controller: u64,
    now: u64,
)
    ensures
        ({
            let s = session_of(secret, controller_salt, accessory_salt, controller, now);
            &&& s.read_key == hkdf_sha512(
                controller_salt + accessory_salt,
                secret,
                encode_utf8("HDS-Write-Encryption-Key"@),
            )
            &&& s.write_key == hkdf_sha512(
                controller_salt + accessory_salt,
                secret,
                encode_utf8("HDS-Read-Encryption-Key"@),
            )
            &&& s.created == now
            &&& s.controller == controller
        }),
{
}

/// The bytes of a message: one byte for the length of its header, the header, and the
/// body behind it.
pub proof fn law_a_message_is_its_header_and_its_body(header: ValueView, message: ValueView)
    requires
        encoded(header).len() <= 255,
    ensures
        ({
            let payload = payload_of(header, message);
            &&& payload.len() == 1 + encoded(header).len() + encoded(message).len()
            &&& payload[0] == encoded(header).len()
            &&& payload.subrange(1, 1 + encoded(header).len() as int) == encoded(header)
            &&& payload.skip(1 + encoded(header).len() as int) == encoded(message)
        }),
{
    let payload = payload_of(header, message);
    assert(payload.subrange(1, 1 + encoded(header).len() as int) =~= encoded(header));
    assert(payload.skip(1 + encoded(header).len() as int) =~= encoded(message));
}

/// The next frame is the first of payload type 1 in the bytes received, where all of it
/// is there; its length is told in three bytes, most significant first, and the tag of
/// sixteen bytes is not counted. A longer payload than 0xFFFFF bytes is refused.
pub proof fn law_frames_are_taken_by_their_length(b: Seq<u8>)
    requires
        b.len() >= 4,
    ensures
        ({
            let len = 0x1_0000 * b[1] + 0x100 * b[2] + b[3];
            &&& len > 0xf_ffff ==> next_frame(b) == (FrameScan::Bad {
                error: FrameError::FrameTooLarge(len as usize),
                rest: b,
            })
            &&& len <= 0xf_ffff && b.len() < len + 20 ==> next_frame(b) == (FrameScan::NeedMore {
                rest: b,
            })
            &&& len <= 0xf_ffff && b.len() >= len + 20 && b[0] == 1 ==> next_frame(b) == (
            FrameScan::Frame { frame: b.take(len + 20), rest: b.skip(len + 20) })
            &&& len <= 0xf_ffff && b.len() >= len + 20 && b[0] != 1 ==> next_frame(b) == next_frame(
                b.skip(len + 20),
            )
        }),
{
    assert(b.subrange(1, 4) =~= seq![b[1], b[2], b[3]]);
    law_bytes_are_digits(0, b[1], b[2], b[3], 0);
}

/// A connection is claimed for a controller by its number; the others stay as they are.
pub proof fn law_a_connection_is_claimed_by_its_number(
    open: Seq<OpenView>,
    number: u64,
    controller: u64,
    i: int,
)
    requires
        0 <= i < open.len(),
    ensures
        claimed(open, number, controller).len() == open.len(),
        claimed(open, number, controller)[i].0 == open[i].0,
        open[i].0 == number ==> claimed(open, number, controller)[i].1 == Some(controller),
        open[i].0 != number ==> claimed(open, number, controller)[i] == open[i],
{
}

/// A first frame opens a session with its key for reading, as the first message there; a
/// frame that is too short for a header and a tag opens none.
pub proof fn law_a_first_frame_opens_its_session(s: SessionView, frame: Seq<u8>)
    ensures
        frame.len() < 20 ==> opened_first(s, frame) is None,
        frame.len() >= 20 ==> opened_first(s, frame) == opened(
            s.read_key,
            nonce_of(0),
            frame.take(4),
            frame.skip(4),
        ),
{
}

/// A controller that leaves takes along what is its own, and nothing else: the sessions
/// that it asked for and the connections that were set up by it.
pub proof fn law_a_controller_takes_along_its_own(s: ServerView, controller: u64)
    ensures
        ({
            let left = left_by(s, controller);
            &&& forall|session: SessionView| #[trigger]
                left.prepared.contains(session) <==> s.prepared.contains(session)
                    && session.controller != controller
            &&& forall|open: OpenView| #[trigger]
                left.open.contains(open) <==> s.open.contains(open) && open.1 != Some(controller)
            &&& left.port == s.port && left.busy == s.busy && left.streams == s.streams
        }),
{
    assert forall|session: SessionView| #[trigger]
        left_by(s, controller).prepared.contains(session) <==> s.prepared.contains(session)
            && session.controller != controller by {
        lemma_asked(s.prepared, controller, session);
    }
    assert forall|open: OpenView| #[trigger]
        left_by(s, controller).open.contains(open) <==> s.open.contains(open) && open.1 != Some(
            controller,
        ) by {
        lemma_set_up(s.open, controller, open);
    }
}

proof fn lemma_grown<T>(front: Seq<T>, last: T, x: T)
    ensures
        front.push(last).contains(x) <==> front.contains(x) || x == last,
{
    let all = front.push(last);
    assert(all[front.len() as int] == last);
    if front.contains(x) {
        let k = choose|k: int| 0 <= k < front.len() && front[k] == x;
        assert(all[k] == x);
    }
    if all.contains(x) && x != last {
        let k = choose|k: int| 0 <= k < all.len() && all[k] == x;
        assert(front[k] == x);
    }
}

proof fn lemma_asked(sessions: Seq<SessionView>, controller: u64, session: SessionView)
    ensures
        asked_by_others(sessions, controller).contains(session) <==> sessions.contains(session)
            && session.controller != controller,
    decreases sessions.len(),
{
    if sessions.len() > 0 {
        let front = sessions.drop_last();
        lemma_asked(front, controller, session);
        assert(front.push(sessions.last()) =~= sessions);
        lemma_grown(front, sessions.last(), session);
        lemma_grown(asked_by_others(front, controller), sessions.last(), session);
    }
}

proof fn lemma_set_up(open: Seq<OpenView>, controller: u64, one: OpenView)
    ensures
        set_up_by_others(open, controller).contains(one) <==> open.contains(one) && one.1 != Some(
            controller,
        ),
    decreases open.len(),
{
    if open.len() > 0 {
        let front = open.drop_last();
        lemma_set_up(front, controller, one);
        assert(front.push(open.last()) =~= open);
        lemma_grown(front, open.last(), one);
        lemma_grown(set_up_by_others(front, controller), open.last(), one);
    }
}

/// A connection that ends is taken off the list by its number, and no other is.
pub proof fn law_a_connection_ends_by_its_number(open: Seq<OpenView>, number: u64, one: OpenView)
    ensures
        others(open, number).contains(one) <==> open.contains(one) && one.0 != number,
    decreases open.len(),
{
    if open.len() > 0 {
        let front = open.drop_last();
        law_a_connection_ends_by_its_number(front, number, one);
        assert(front.push(open.last()) =~= open);
        lemma_grown(front, open.last(), one);
        lemma_grown(others(front, number), open.last(), one);
    }
}

} // verus!
