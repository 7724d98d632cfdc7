//! The live streams of a camera: sessions that a controller has prepared, streams
//! that run, and the answers to the controller.

use rand::Rng;
use vstd::prelude::*;
use vstd::string::*;
use vstd::utf8::encode_utf8;
use crate::hsv::recording::{inside, items_inside};
use crate::metrics::{Counters, Metrics};
use crate::stream::selection::{or_short, short_at};
use crate::text::{lossy, same_bytes, text_of};
use crate::tlv8::{encoded, find, find_u16, first_value, lemma_ascending_reads_back, lemma_encoded_push, parse, parsed, ItemView, Writer};
use crate::wire::{law_bytes_are_digits, le_bytes, to_vec};

verus! {

/// What a controller asks for in a write to SetupEndpoints.
#[derive(Debug)]
pub struct SetupRequest {
    pub session_id: Vec<u8>,
    pub controller_ip: String,
    pub video_port: u16,
    pub audio_port: u16,
    pub video_srtp: Vec<u8>,
    pub audio_srtp: Vec<u8>,
}

/// The mathematical value of a request.
pub ghost struct RequestView {
    pub session_id: Seq<u8>,
    pub controller_ip: Seq<char>,
    pub video_port: u16,
    pub audio_port: u16,
    pub video_srtp: Seq<u8>,
    pub audio_srtp: Seq<u8>,
}

impl View for SetupRequest {
    type V = RequestView;

    open spec fn view(&self) -> RequestView {
        RequestView {
            session_id: self.session_id@,
            controller_ip: self.controller_ip@,
            video_port: self.video_port,
            audio_port: self.audio_port,
            video_srtp: self.video_srtp@,
            audio_srtp: self.audio_srtp@,
        }
    }
}

/// What a write to SetupEndpoints is.
#[derive(Debug)]
pub enum SetupWrite {
    /// Our own response, written back. Requests never carry a status.
    Echo,
    NoSessionId,
    Request(SetupRequest),
}

pub open spec fn or_empty(value: Option<Seq<u8>>) -> Seq<u8> {
    match value {
        Some(v) => v,
        None => Seq::empty(),
    }
}

/// The request in a write that has a session id.
pub open spec fn request_in(items: Seq<ItemView>) -> RequestView {
    let address = inside(items, 0x03);
    RequestView {
        session_id: or_empty(first_value(items, 0x01)),
        controller_ip: match first_value(address, 0x02) {
            Some(v) => text_of(v),
            None => Seq::empty(),
        },
        video_port: or_short(short_at(address, 0x03), 0),
        audio_port: or_short(short_at(address, 0x04), 0),
        video_srtp: or_empty(first_value(items, 0x04)),
        audio_srtp: or_empty(first_value(items, 0x05)),
    }
}

/// Reads a write to SetupEndpoints.
pub fn parse_setup(payload: &[u8]) -> (r: SetupWrite)
    ensures
        ({
            let items = parsed(payload@);
            match r {
                SetupWrite::Echo => first_value(items, 0x02) is Some,
                SetupWrite::NoSessionId => first_value(items, 0x02) is None && first_value(
                    items,
                    0x01,
                ) is None,
                SetupWrite::Request(request) => first_value(items, 0x02) is None && first_value(
                    items,
                    0x01,
                ) is Some && request@ == request_in(items),
            }
        }),
{
    let items = parse(payload);
    if find(&items, 0x02).is_some() {
        return SetupWrite::Echo;
    }
    let session_id = match find(&items, 0x01) {
        Some(v) => to_vec(v),
        None => return SetupWrite::NoSessionId,
    };
    let address = items_inside(&items, 0x03);
    let controller_ip: String = match find(&address, 0x02) {
        Some(v) => lossy(v),
        None => {
            let none = String::new();
            assert(none@ =~= Seq::empty());
            none
        },
    };
    let video_port: u16 = match find_u16(&address, 0x03) {
        Some(n) => n,
        None => 0,
    };
    let audio_port: u16 = match find_u16(&address, 0x04) {
        Some(n) => n,
        None => 0,
    };
    let video_srtp: Vec<u8> = match find(&items, 0x04) {
        Some(v) => to_vec(v),
        None => Vec::new(),
    };
    let audio_srtp: Vec<u8> = match find(&items, 0x05) {
        Some(v) => to_vec(v),
        None => Vec::new(),
    };
    let request = SetupRequest {
        session_id,
        controller_ip,
        video_port,
        audio_port,
        video_srtp,
        audio_srtp,
    };
    assert(request@.video_srtp =~= or_empty(first_value(parsed(payload@), 0x04)));
    assert(request@.audio_srtp =~= or_empty(first_value(parsed(payload@), 0x05)));
    SetupWrite::Request(request)
}

/// The key material in SRTP parameters: the master key, then the master salt.
pub open spec fn key_material(srtp: Seq<u8>) -> Seq<u8> {
    or_empty(first_value(parsed(srtp), 0x02)) + or_empty(first_value(parsed(srtp), 0x03))
}

fn srtp_key(srtp: &[u8]) -> (key: Vec<u8>)
    ensures
        key@ == key_material(srtp@),
{
    let items = parse(srtp);
    let mut key: Vec<u8> = match find(&items, 0x02) {
        Some(v) => to_vec(v),
        None => Vec::new(),
    };
    assert(key@ =~= or_empty(first_value(parsed(srtp@), 0x02)));
    if let Some(salt) = find(&items, 0x03) {
        key.extend_from_slice(salt);
    }
    assert(key@ =~= key_material(srtp@));
    key
}

/// A session that a controller has prepared.
#[derive(Debug)]
pub struct Session {
    pub id: Vec<u8>,
    pub controller_ip: String,
    pub video_port: u16,
    pub audio_port: u16,
    /// SRTP master key, then master salt.
    pub video_key: Vec<u8>,
    pub audio_key: Vec<u8>,
    pub video_ssrc: u32,
    pub audio_ssrc: u32,
}

/// The mathematical value of a session.
pub ghost struct SessionView {
    pub id: Seq<u8>,
    pub controller_ip: Seq<char>,
    pub video_port: u16,
    pub audio_port: u16,
    pub video_key: Seq<u8>,
    pub audio_key: Seq<u8>,
    pub video_ssrc: u32,
    pub audio_ssrc: u32,
}

impl View for Session {
    type V = SessionView;

    open spec fn view(&self) -> SessionView {
        SessionView {
            id: self.id@,
            controller_ip: self.controller_ip@,
            video_port: self.video_port,
            audio_port: self.audio_port,
            video_key: self.video_key@,
            audio_key: self.audio_key@,
            video_ssrc: self.video_ssrc,
            audio_ssrc: self.audio_ssrc,
        }
    }
}

impl Clone for Session {
    fn clone(&self) -> (r: Self)
        ensures
            r@ == self@,
    {
        Session {
            id: to_vec(self.id.as_slice()),
            controller_ip: self.controller_ip.clone(),
            video_port: self.video_port,
            audio_port: self.audio_port,
            video_key: to_vec(self.video_key.as_slice()),
            audio_key: to_vec(self.audio_key.as_slice()),
            video_ssrc: self.video_ssrc,
            audio_ssrc: self.audio_ssrc,
        }
    }
}

pub open spec fn session_views(sessions: Seq<Session>) -> Seq<SessionView> {
    sessions.map_values(|s: Session| s@)
}

pub open spec fn id_views(ids: Seq<Vec<u8>>) -> Seq<Seq<u8>> {
    ids.map_values(|id: Vec<u8>| id@)
}

/// The sessions other than the one with this id.
pub open spec fn without_session(sessions: Seq<SessionView>, id: Seq<u8>) -> Seq<SessionView>
    decreases sessions.len(),
{
    if sessions.len() == 0 {
        Seq::empty()
    } else if sessions.last().id == id {
        without_session(sessions.drop_last(), id)
    } else {
        without_session(sessions.drop_last(), id).push(sessions.last())
    }
}

/// The ids other than this one.
pub open spec fn without_id(ids: Seq<Seq<u8>>, id: Seq<u8>) -> Seq<Seq<u8>>
    decreases ids.len(),
{
    if ids.len() == 0 {
        Seq::empty()
    } else if ids.last() == id {
        without_id(ids.drop_last(), id)
    } else {
        without_id(ids.drop_last(), id).push(ids.last())
    }
}

/// The session with an id.
pub open spec fn session_with(sessions: Seq<SessionView>, id: Seq<u8>) -> Option<SessionView>
    decreases sessions.len(),
{
    if sessions.len() == 0 {
        None
    } else if sessions.last().id == id {
        Some(sessions.last())
    } else {
        session_with(sessions.drop_last(), id)
    }
}

/// The session that a start is about. Without an id, that is only clear where
/// there is one session.
pub open spec fn chosen_session(sessions: Seq<SessionView>, id: Option<Seq<u8>>) -> Option<
    SessionView,
> {
    match id {
        Some(id) => session_with(sessions, id),
        None => if sessions.len() == 1 {
            Some(sessions[0])
        } else {
            None
        },
    }
}

/// Whether no id occurs twice among the sessions.
pub open spec fn distinct_sessions(sessions: Seq<SessionView>) -> bool {
    forall|i: int, j: int|
        0 <= i < j < sessions.len() ==> (#[trigger] sessions[i]).id != (#[trigger] sessions[j]).id
}

/// Whether no id occurs twice.
pub open spec fn distinct_ids(ids: Seq<Seq<u8>>) -> bool {
    forall|i: int, j: int| 0 <= i < j < ids.len() ==> ids[i] != ids[j]
}

proof fn lemma_without_session(sessions: Seq<SessionView>, id: Seq<u8>)
    requires
        distinct_sessions(sessions),
    ensures
        distinct_sessions(without_session(sessions, id)),
        forall|i: int|
            0 <= i < without_session(sessions, id).len() ==> (#[trigger] without_session(
                sessions,
                id,
            )[i]).id != id && sessions.contains(without_session(sessions, id)[i]),
    decreases sessions.len(),
{
    if sessions.len() > 0 {
        let front = sessions.drop_last();
        lemma_without_session(front, id);
        let kept = without_session(front, id);
        let all = without_session(sessions, id);
        assert forall|i: int| 0 <= i < kept.len() implies sessions.contains(#[trigger] kept[i])
            && kept[i].id != sessions.last().id by {
            assert(front.contains(kept[i]));
            let k = choose|k: int| 0 <= k < front.len() && front[k] == kept[i];
            assert(sessions[k] == kept[i]);
        }
        assert forall|i: int| 0 <= i < all.len() implies (#[trigger] all[i]).id != id
            && sessions.contains(all[i]) by {
            if i < kept.len() {
                assert(all[i] == kept[i]);
            } else {
                assert(sessions[sessions.len() - 1] == all[i]);
            }
        }
    }
}

proof fn lemma_without_id(ids: Seq<Seq<u8>>, id: Seq<u8>)
    requires
        distinct_ids(ids),
    ensures
        distinct_ids(without_id(ids, id)),
        forall|i: int|
            0 <= i < without_id(ids, id).len() ==> (#[trigger] without_id(ids, id)[i]) != id
                && ids.contains(without_id(ids, id)[i]),
        without_id(ids, id).len() <= ids.len(),
    decreases ids.len(),
{
    if ids.len() > 0 {
        let front = ids.drop_last();
        lemma_without_id(front, id);
        let kept = without_id(front, id);
        let all = without_id(ids, id);
        assert forall|i: int| 0 <= i < kept.len() implies ids.contains(#[trigger] kept[i])
            && kept[i] != ids.last() by {
            assert(front.contains(kept[i]));
            let k = choose|k: int| 0 <= k < front.len() && front[k] == kept[i];
            assert(ids[k] == kept[i]);
        }
        assert forall|i: int| 0 <= i < all.len() implies (#[trigger] all[i]) != id && ids.contains(
            all[i],
        ) by {
            if i < kept.len() {
                assert(all[i] == kept[i]);
            } else {
                assert(ids[ids.len() - 1] == all[i]);
            }
        }
    }
}

fn remove_session(sessions: &Vec<Session>, id: &[u8]) -> (r: Vec<Session>)
    ensures
        session_views(r@) == without_session(session_views(sessions@), id@),
{
    let mut r: Vec<Session> = Vec::new();
    let ghost all = session_views(sessions@);
    let mut i: usize = 0;
    assert(all.take(0) =~= Seq::empty());
    assert(session_views(r@) =~= Seq::empty());
    while i < sessions.len()
        invariant
            i <= sessions@.len(),
            all == session_views(sessions@),
            session_views(r@) == without_session(all.take(i as int), id@),
        decreases sessions@.len() - i,
    {
        let ghost done = session_views(r@);
        let session = &sessions[i];
        assert(all.take(i + 1).drop_last() =~= all.take(i as int));
        assert(all.take(i + 1).last() == session@);
        if !same_bytes(session.id.as_slice(), id) {
            r.push(session.clone());
            assert(session_views(r@) =~= done.push(session@));
        }
        i = i + 1;
    }
    assert(all.take(i as int) =~= all);
    r
}

fn remove_id(ids: &Vec<Vec<u8>>, id: &[u8]) -> (r: Vec<Vec<u8>>)
    ensures
        id_views(r@) == without_id(id_views(ids@), id@),
{
    let mut r: Vec<Vec<u8>> = Vec::new();
    let ghost all = id_views(ids@);
    let mut i: usize = 0;
    assert(all.take(0) =~= Seq::empty());
    assert(id_views(r@) =~= Seq::empty());
    while i < ids.len()
        invariant
            i <= ids@.len(),
            all == id_views(ids@),
            id_views(r@) == without_id(all.take(i as int), id@),
        decreases ids@.len() - i,
    {
        let ghost done = id_views(r@);
        assert(all.take(i + 1).drop_last() =~= all.take(i as int));
        assert(all.take(i + 1).last() == ids@[i as int]@);
        if !same_bytes(ids[i].as_slice(), id) {
            let copy = to_vec(ids[i].as_slice());
            r.push(copy);
            assert(id_views(r@) =~= done.push(ids@[i as int]@));
        }
        i = i + 1;
    }
    assert(all.take(i as int) =~= all);
    r
}

fn find_session(sessions: &Vec<Session>, id: &[u8]) -> (r: Option<Session>)
    ensures
        match r {
            Some(s) => session_with(session_views(sessions@), id@) == Some(s@) && s.id@ == id@,
            None => session_with(session_views(sessions@), id@) is None,
        },
{
    let ghost all = session_views(sessions@);
    let mut i: usize = sessions.len();
    assert(all.take(i as int) =~= all);
    while i > 0
        invariant
            i <= sessions@.len(),
            all == session_views(sessions@),
            session_with(all, id@) == session_with(all.take(i as int), id@),
        decreases i,
    {
        let session = &sessions[i - 1];
        assert(all.take(i as int).drop_last() =~= all.take(i - 1));
        assert(all.take(i as int).last() == session@);
        if same_bytes(session.id.as_slice(), id) {
            return Some(session.clone());
        }
        i = i - 1;
    }
    None
}

/// The address in the answer to a request.
pub open spec fn address_items(
    local_ip: Seq<char>,
    ipv6: bool,
    video_port: u16,
    audio_port: u16,
) -> Seq<ItemView> {
    seq![
        (
            0x01u8,
            seq![
                if ipv6 {
                    1u8
                } else {
                    0u8
                },
            ],
        ),
    ].push((0x02u8, encode_utf8(local_ip))).push((0x03u8, le_bytes(video_port as nat, 2))).push(
        (0x04u8, le_bytes(audio_port as nat, 2)),
    )
}

/// The answer to a request: the session id and the SRTP parameters come back, with
/// our own address and the SSRCs chosen for the streams.
pub open spec fn response_items(
    request: RequestView,
    address: Seq<ItemView>,
    video_ssrc: u32,
    audio_ssrc: u32,
) -> Seq<ItemView> {
    seq![(0x01u8, request.session_id)].push((0x02u8, seq![0u8])).push(
        (0x03u8, encoded(address)),
    ).push((0x04u8, request.video_srtp)).push((0x05u8, request.audio_srtp)).push(
        (0x06u8, le_bytes(video_ssrc as nat, 4)),
    ).push((0x07u8, le_bytes(audio_ssrc as nat, 4)))
}

/// A controller reads in the answer what was written there: its own session id and
/// SRTP parameters, whatever their lengths, the address, and the SSRCs.
pub proof fn law_the_setup_response_is_read_back(
    request: RequestView,
    local_ip: Seq<char>,
    ipv6: bool,
    video_port: u16,
    audio_port: u16,
    video_ssrc: u32,
    audio_ssrc: u32,
)
    ensures
        ({
            let address = address_items(local_ip, ipv6, video_port, audio_port);
            let items = response_items(request, address, video_ssrc, audio_ssrc);
            &&& parsed(encoded(items)) == items
            &&& parsed(encoded(address)) == address
            &&& first_value(items, 0x01) == Some(request.session_id)
            &&& first_value(items, 0x04) == Some(request.video_srtp)
            &&& first_value(items, 0x05) == Some(request.audio_srtp)
        }),
{
    let address = address_items(local_ip, ipv6, video_port, audio_port);
    let items = response_items(request, address, video_ssrc, audio_ssrc);
    lemma_ascending_reads_back(address);
    lemma_ascending_reads_back(items);
    assert(items[0].0 == 0x01 && items[3].0 == 0x04 && items[4].0 == 0x05);
}

/// The live streams of a camera.
#[derive(Debug)]
pub struct StreamManager {
    rtsp_url: String,
    audio_rtsp_url: String,
    audio: bool,
    local_ip: String,
    ipv6: bool,
    sessions: Vec<Session>,
    running: Vec<Vec<u8>>,
    setup_response: Vec<u8>,
}

/// The mathematical value of the live streams.
pub ghost struct ManagerView {
    pub rtsp_url: Seq<char>,
    pub audio_rtsp_url: Seq<char>,
    pub audio: bool,
    pub local_ip: Seq<char>,
    pub ipv6: bool,
    /// The sessions that are prepared.
    pub sessions: Seq<SessionView>,
    /// The ids of the streams that run.
    pub running: Seq<Seq<u8>>,
    /// The answer to the last request.
    pub setup_response: Seq<u8>,
}

impl View for StreamManager {
    type V = ManagerView;

    closed spec fn view(&self) -> ManagerView {
        ManagerView {
            rtsp_url: self.rtsp_url@,
            audio_rtsp_url: self.audio_rtsp_url@,
            audio: self.audio,
            local_ip: self.local_ip@,
            ipv6: self.ipv6,
            sessions: session_views(self.sessions@),
            running: id_views(self.running@),
            setup_response: self.setup_response@,
        }
    }
}

/// The session that a request prepares.
pub open spec fn prepared_session(
    request: RequestView,
    video_ssrc: u32,
    audio_ssrc: u32,
) -> SessionView {
    SessionView {
        id: request.session_id,
        controller_ip: request.controller_ip,
        video_port: request.video_port,
        audio_port: request.audio_port,
        video_key: key_material(request.video_srtp),
        audio_key: key_material(request.audio_srtp),
        video_ssrc,
        audio_ssrc,
    }
}

/// The streams after a request: its session takes the place of one with the same
/// id.
pub open spec fn after_setup(
    m: ManagerView,
    request: RequestView,
    video_port: u16,
    audio_port: u16,
    video_ssrc: u32,
    audio_ssrc: u32,
) -> ManagerView {
    ManagerView {
        sessions: without_session(m.sessions, request.session_id).push(
            prepared_session(request, video_ssrc, audio_ssrc),
        ),
        setup_response: encoded(
            response_items(
                request,
                address_items(m.local_ip, m.ipv6, video_port, audio_port),
                video_ssrc,
                audio_ssrc,
            ),
        ),
        ..m
    }
}

/// The streams after the end of one, or of all.
pub open spec fn after_end(m: ManagerView, id: Option<Seq<u8>>) -> ManagerView {
    match id {
        Some(id) => ManagerView {
            sessions: without_session(m.sessions, id),
            running: without_id(m.running, id),
            ..m
        },
        None => ManagerView { sessions: Seq::empty(), running: Seq::empty(), ..m },
    }
}

/// Calls `rand::Rng::gen_range` of the thread's generator for an SSRC.
#[verifier::external_body]
fn random_ssrc() -> (n: u32)
    ensures
        1 <= n < 0x7fff_ffff,
{
    rand::thread_rng().gen_range(1..0x7fff_ffff)
}

impl StreamManager {
    /// No id occurs twice, neither among the sessions nor among the streams.
    pub open spec fn wf(&self) -> bool {
        distinct_sessions(self@.sessions) && distinct_ids(self@.running)
    }

    pub fn new(
        rtsp_url: String,
        audio_rtsp_url: String,
        audio: bool,
        local_ip: String,
        ipv6: bool,
    ) -> (m: Self)
        ensures
            m.wf(),
            m@ == (ManagerView {
                rtsp_url: rtsp_url@,
                audio_rtsp_url: audio_rtsp_url@,
                audio,
                local_ip: local_ip@,
                ipv6,
                sessions: Seq::empty(),
                running: Seq::empty(),
                setup_response: Seq::empty(),
            }),
    {
        let m = StreamManager {
            rtsp_url,
            audio_rtsp_url,
            audio,
            local_ip,
            ipv6,
            sessions: Vec::new(),
            running: Vec::new(),
            setup_response: Vec::new(),
        };
        assert(m@.sessions =~= Seq::empty());
        assert(m@.running =~= Seq::empty());
        assert(m@.setup_response =~= Seq::empty());
        m
    }

    pub fn audio_enabled(&self) -> (r: bool)
        ensures
            r == self@.audio,
    {
        self.audio
    }

    /// The stream that video comes from.
    pub fn rtsp_url(&self) -> (r: &str)
        ensures
            r@ == self@.rtsp_url,
    {
        self.rtsp_url.as_str()
    }

    /// The stream that audio comes from.
    pub fn audio_rtsp_url(&self) -> (r: &str)
        ensures
            r@ == self@.audio_rtsp_url,
    {
        self.audio_rtsp_url.as_str()
    }

    /// Prepares the session of a request, with the ports bound for it and the SSRCs
    /// chosen for its streams, and the answer to the request.
    pub fn accept_setup(
        &mut self,
        request: SetupRequest,
        video_port: u16,
        audio_port: u16,
        video_ssrc: u32,
        audio_ssrc: u32,
    )
        requires
            old(self).wf(),
        ensures
            final(self).wf(),
            final(self)@ == after_setup(
                old(self)@,
                request@,
                video_port,
                audio_port,
                video_ssrc,
                audio_ssrc,
            ),
    {
        broadcast use lemma_encoded_push;

        let mut address = Writer::new();
        if self.ipv6 {
            address.u8(0x01, 1);
        } else {
            address.u8(0x01, 0);
        }
        address.bytes(0x02, self.local_ip.as_str().as_bytes());
        address.u16(0x03, video_port);
        address.u16(0x04, audio_port);
        let address = address.build();
        assert(address@ == encoded(
            address_items(self@.local_ip, self@.ipv6, video_port, audio_port),
        ));
        let mut w = Writer::new();
        w.bytes(0x01, &request.session_id);
        w.u8(0x02, 0);
        w.bytes(0x03, &address);
        w.bytes(0x04, &request.video_srtp);
        w.bytes(0x05, &request.audio_srtp);
        w.u32(0x06, video_ssrc);
        w.u32(0x07, audio_ssrc);
        let response = w.build();
        proof {
            lemma_without_session(self@.sessions, request@.session_id);
        }
        let mut sessions = remove_session(&self.sessions, request.session_id.as_slice());
        let ghost kept = session_views(sessions@);
        let session = Session {
            video_key: srtp_key(request.video_srtp.as_slice()),
            audio_key: srtp_key(request.audio_srtp.as_slice()),
            id: request.session_id,
            controller_ip: request.controller_ip,
            video_port: request.video_port,
            audio_port: request.audio_port,
            video_ssrc,
            audio_ssrc,
        };
        let ghost view = session@;
        sessions.push(session);
        assert(session_views(sessions@) =~= kept.push(view));
        self.sessions = sessions;
        self.setup_response = response;
    }

    /// Prepares the session of a request, with the ports bound for it. The SSRCs of
    /// its streams are drawn; the result is the one of video and the one of audio.
    pub fn finish_setup(&mut self, request: SetupRequest, video_port: u16, audio_port: u16) -> (r: (
        u32,
        u32,
    ))
        requires
            old(self).wf(),
        ensures
            final(self).wf(),
            1 <= r.0 < 0x7fff_ffff,
            1 <= r.1 < 0x7fff_ffff,
            final(self)@ == after_setup(old(self)@, request@, video_port, audio_port, r.0, r.1),
    {
        let video_ssrc: u32 = random_ssrc();
        let audio_ssrc: u32 = random_ssrc();
        self.accept_setup(request, video_port, audio_port, video_ssrc, audio_ssrc);
        (video_ssrc, audio_ssrc)
    }

    /// The answer to a read of SetupEndpoints.
    pub fn setup_read(&self) -> (r: Option<Vec<u8>>)
        ensures
            match r {
                Some(response) => response@ == self@.setup_response && response@.len() > 0,
                None => self@.setup_response.len() == 0,
            },
    {
        if self.setup_response.len() == 0 {
            None
        } else {
            Some(to_vec(self.setup_response.as_slice()))
        }
    }

    /// The answer to a read of StreamingStatus: always available, as there can be
    /// one stream for each controller's session.
    pub fn streaming_status(&self) -> (out: Vec<u8>)
        ensures
            out@ == encoded(seq![(0x01u8, seq![0u8])]),
    {
        broadcast use lemma_encoded_push;

        let mut w = Writer::new();
        w.u8(0x01, 0);
        w.build()
    }

    /// Takes the session of a start. A stream of the same session that runs has to
    /// be torn down; it no longer counts.
    pub fn start_stream(&mut self, id: Option<&[u8]>, metrics: &mut Metrics) -> (r: Option<Session>)
        requires
            old(self).wf(),
        ensures
            final(self).wf(),
            ({
                let wanted = match id {
                    Some(id) => Some(id@),
                    None => None,
                };
                match r {
                    Some(s) => {
                        &&& chosen_session(old(self)@.sessions, wanted) == Some(s@)
                        &&& final(self)@ == after_end(old(self)@, Some(s@.id))
                        &&& final(metrics)@ == (Counters {
                            live_connections: final(self)@.running.len() as u64,
                            ..old(metrics)@
                        })
                    },
                    None => {
                        &&& chosen_session(old(self)@.sessions, wanted) is None
                        &&& final(self)@ == old(self)@
                        &&& final(metrics)@ == old(metrics)@
                    },
                }
            }),
    {
        let session: Option<Session> = match id {
            Some(id) => find_session(&self.sessions, id),
            None => if self.sessions.len() == 1 {
                assert(session_views(self.sessions@)[0] == self.sessions@[0]@);
                Some(self.sessions[0].clone())
            } else {
                None
            },
        };
        match session {
            Some(session) => {
                self.drop_stream(session.id.as_slice());
                metrics.set_live_connections(self.running.len());
                Some(session)
            },
            None => None,
        }
    }

    fn drop_stream(&mut self, id: &[u8])
        requires
            old(self).wf(),
        ensures
            final(self).wf(),
            final(self)@ == after_end(old(self)@, Some(id@)),
            final(self).running@.len() == final(self)@.running.len(),
    {
        proof {
            lemma_without_session(self@.sessions, id@);
            lemma_without_id(self@.running, id@);
        }
        self.sessions = remove_session(&self.sessions, id);
        self.running = remove_id(&self.running, id);
    }

    /// The video process of a session runs.
    pub fn video_started(&mut self, id: Vec<u8>, metrics: &mut Metrics)
        requires
            old(self).wf(),
        ensures
            final(self).wf(),
            final(self)@ == (ManagerView {
                running: without_id(old(self)@.running, id@).push(id@),
                ..old(self)@
            }),
            final(metrics)@ == (Counters {
                live_stream_starts: old(metrics)@.live_stream_starts.wrapping_add(1),
                live_connections: final(self)@.running.len() as u64,
                ..old(metrics)@
            }),
    {
        proof {
            lemma_without_id(self@.running, id@);
        }
        let mut running = remove_id(&self.running, id.as_slice());
        let ghost kept = id_views(running@);
        let ghost view = id@;
        running.push(id);
        assert(id_views(running@) =~= kept.push(view));
        self.running = running;
        metrics.live_stream_started();
        metrics.set_live_connections(self.running.len());
    }

    /// Whether a session's stream has audio: where audio is enabled and the
    /// controller has given keys for it.
    pub fn plays_audio(&self, session: &Session) -> (r: bool)
        ensures
            r == (self@.audio && session@.audio_key.len() > 0),
    {
        self.audio && session.audio_key.len() > 0
    }

    /// Ends the stream of a session, or all where no id was given.
    pub fn end_session(&mut self, id: Option<&[u8]>, metrics: &mut Metrics)
        requires
            old(self).wf(),
        ensures
            final(self).wf(),
            final(self)@ == after_end(
                old(self)@,
                match id {
                    Some(id) => Some(id@),
                    None => None,
                },
            ),
            final(metrics)@ == (Counters {
                live_connections: final(self)@.running.len() as u64,
                ..old(metrics)@
            }),
    {
        match id {
            Some(id) => {
                self.drop_stream(id);
            },
            None => {
                self.sessions = Vec::new();
                self.running = Vec::new();
                assert(self@.sessions =~= Seq::empty());
                assert(self@.running =~= Seq::empty());
            },
        }
        metrics.set_live_connections(self.running.len());
    }

    /// Ends all streams, at the end of the program.
    pub fn stop_stream(&mut self, metrics: &mut Metrics)
        requires
            old(self).wf(),
        ensures
            final(self).wf(),
            final(self)@ == (ManagerView {
                setup_response: Seq::empty(),
                ..after_end(old(self)@, None)
            }),
            final(metrics)@ == (Counters { live_connections: 0, ..old(metrics)@ }),
    {
        self.end_session(None, metrics);
        self.setup_response = Vec::new();
        assert(self@.setup_response =~= Seq::empty());
    }
}

/// A session that was prepared is the one that a start with its id is about, until
/// it was started or ended.
pub proof fn law_a_prepared_session_can_be_started(
    m: ManagerView,
    request: RequestView,
    video_port: u16,
    audio_port: u16,
    video_ssrc: u32,
    audio_ssrc: u32,
)
    requires
        distinct_sessions(m.sessions),
    ensures
        ({
            let after = after_setup(m, request, video_port, audio_port, video_ssrc, audio_ssrc);
            let session = prepared_session(request, video_ssrc, audio_ssrc);
            &&& chosen_session(after.sessions, Some(request.session_id)) == Some(session)
            &&& chosen_session(
                after_end(after, Some(request.session_id)).sessions,
                Some(request.session_id),
            ) is None
        }),
{
    let after = after_setup(m, request, video_port, audio_port, video_ssrc, audio_ssrc);
    lemma_without_session(m.sessions, request.session_id);
    let left = after_end(after, Some(request.session_id)).sessions;
    assert(distinct_sessions(after.sessions));
    lemma_without_session(after.sessions, request.session_id);
    lemma_no_session(left, request.session_id);
}

proof fn lemma_no_session(sessions: Seq<SessionView>, id: Seq<u8>)
    requires
        forall|i: int| 0 <= i < sessions.len() ==> (#[trigger] sessions[i]).id != id,
    ensures
        session_with(sessions, id) is None,
    decreases sessions.len(),
{
    if sessions.len() > 0 {
        assert(sessions[sessions.len() - 1].id != id);
        lemma_no_session(sessions.drop_last(), id);
    }
}

// --- What requests, answers and sessions hold ---

/// A request holds what the controller sent, each value at its own place: the session
/// under 1, its address under 3 and in it the IP address under 2 and the ports of video
/// and of audio under 3 and 4, and the SRTP parameters of video and of audio under 4
/// and 5. What was not sent is empty or zero.
pub proof fn law_a_request_is_what_was_sent(items: Seq<ItemView>, a: u8, b: u8)
    ensures
        ({
            let r = request_in(items);
            let address = match first_value(items, 3) {
                Some(v) => parsed(v),
                None => Seq::empty(),
            };
            &&& match first_value(items, 1) {
                Some(v) => r.session_id == v,
                None => r.session_id.len() == 0,
            }
            &&& match first_value(address, 2) {
                Some(v) => r.controller_ip == text_of(v),
                None => r.controller_ip.len() == 0,
            }
            &&& first_value(address, 3) == Some(seq![a, b]) ==> r.video_port == a + 256 * b
            &&& first_value(address, 3) is None ==> r.video_port == 0
            &&& first_value(address, 4) == Some(seq![a, b]) ==> r.audio_port == a + 256 * b
            &&& first_value(address, 4) is None ==> r.audio_port == 0
            &&& match first_value(items, 4) {
                Some(v) => r.video_srtp == v,
                None => r.video_srtp.len() == 0,
            }
            &&& match first_value(items, 5) {
                Some(v) => r.audio_srtp == v,
                None => r.audio_srtp.len() == 0,
            }
        }),
{
    law_bytes_are_digits(0, a, b, 0, 0);
}

/// The key material of a stream is the master key that the controller sent and the
/// master salt behind it.
pub proof fn law_the_key_comes_before_the_salt(suite: u8, key: Seq<u8>, salt: Seq<u8>)
    ensures
        ({
            let items = seq![(0x01u8, seq![suite])].push((0x02u8, key)).push((0x03u8, salt));
            key_material(encoded(items)) == key + salt
        }),
{
    let items = seq![(0x01u8, seq![suite])].push((0x02u8, key)).push((0x03u8, salt));
    lemma_ascending_reads_back(items);
    assert(items[1].0 == 2 && items[2].0 == 3);
}

/// In the answer to a request a controller reads, each at its own place, its session
/// id, that it succeeded, our address with the ports of video and of audio, its own SRTP
/// parameters and the SSRCs of video and of audio. Nothing but the answer and the
/// sessions changes.
pub proof fn law_a_request_is_answered(
    m: ManagerView,
    request: RequestView,
    video_port: u16,
    audio_port: u16,
    video_ssrc: u32,
    audio_ssrc: u32,
)
    ensures
        ({
            let after = after_setup(m, request, video_port, audio_port, video_ssrc, audio_ssrc);
            let answer = parsed(after.setup_response);
            let address = inside(answer, 3);
            let ours = after.rtsp_url == m.rtsp_url && after.audio_rtsp_url == m.audio_rtsp_url
                && after.audio == m.audio && after.local_ip == m.local_ip && after.ipv6 == m.ipv6;
            &&& ours
            &&& after.running == m.running
            &&& answer.len() == 7
            &&& first_value(answer, 1) == Some(request.session_id)
            &&& first_value(answer, 2) == Some(seq![0u8])
            &&& m.ipv6 ==> first_value(address, 1) == Some(seq![1u8])
            &&& !m.ipv6 ==> first_value(address, 1) == Some(seq![0u8])
            &&& first_value(address, 2) == Some(encode_utf8(m.local_ip))
            &&& first_value(address, 3) == Some(
                seq![(video_port % 256) as u8, (video_port / 256) as u8],
            )
            &&& first_value(address, 4) == Some(
                seq![(audio_port % 256) as u8, (audio_port / 256) as u8],
            )
            &&& first_value(answer, 4) == Some(request.video_srtp)
            &&& first_value(answer, 5) == Some(request.audio_srtp)
            &&& first_value(answer, 6) matches Some(v) && v.len() == 4 && video_ssrc == v[0] + 0x100
                * v[1] + 0x1_0000 * v[2] + 0x100_0000 * v[3]
            &&& first_value(answer, 7) matches Some(v) && v.len() == 4 && audio_ssrc == v[0] + 0x100
                * v[1] + 0x1_0000 * v[2] + 0x100_0000 * v[3]
        }),
{
    let own = address_items(m.local_ip, m.ipv6, video_port, audio_port);
    let items = response_items(request, own, video_ssrc, audio_ssrc);
    lemma_ascending_reads_back(own);
    lemma_ascending_reads_back(items);
    assert(own[0].0 == 1 && own[1].0 == 2 && own[2].0 == 3 && own[3].0 == 4);
    assert(items[0].0 == 1 && items[1].0 == 2 && items[2].0 == 3 && items[3].0 == 4 && items[4].0
        == 5 && items[5].0 == 6 && items[6].0 == 7);
    law_bytes_are_digits(video_port as nat, 0, 0, 0, 0);
    law_bytes_are_digits(audio_port as nat, 0, 0, 0, 0);
    law_bytes_are_digits(video_ssrc as nat, 0, 0, 0, 0);
    law_bytes_are_digits(audio_ssrc as nat, 0, 0, 0, 0);
    assert(video_port as nat / 256 % 256 == video_port / 256);
    assert(audio_port as nat / 256 % 256 == audio_port / 256);
}

/// A start with the id of a request gets what the request said: its address and ports,
/// and for each of video and audio its own key material and SSRC. The other sessions
/// stay as they were.
pub proof fn law_a_session_is_that_of_its_request(
    m: ManagerView,
    request: RequestView,
    video_port: u16,
    audio_port: u16,
    video_ssrc: u32,
    audio_ssrc: u32,
    other: Seq<u8>,
)
    ensures
        ({
            let after = after_setup(m, request, video_port, audio_port, video_ssrc, audio_ssrc);
            let s = chosen_session(after.sessions, Some(request.session_id));
            &&& s is Some
            &&& s->0.id == request.session_id
            &&& s->0.controller_ip == request.controller_ip
            &&& s->0.video_port == request.video_port
            &&& s->0.audio_port == request.audio_port
            &&& s->0.video_key == key_material(request.video_srtp)
            &&& s->0.audio_key == key_material(request.audio_srtp)
            &&& s->0.video_ssrc == video_ssrc
            &&& s->0.audio_ssrc == audio_ssrc
            &&& other != request.session_id ==> chosen_session(after.sessions, Some(other))
                == chosen_session(m.sessions, Some(other))
        }),
{
    let left = without_session(m.sessions, request.session_id);
    let session = prepared_session(request, video_ssrc, audio_ssrc);
    assert(left.push(session).drop_last() =~= left);
    lemma_other_sessions(m.sessions, request.session_id, other);
}

proof fn lemma_other_sessions(sessions: Seq<SessionView>, id: Seq<u8>, other: Seq<u8>)
    ensures
        session_with(without_session(sessions, id), id) is None,
        other != id ==> session_with(without_session(sessions, id), other) == session_with(
            sessions,
            other,
        ),
    decreases sessions.len(),
{
    if sessions.len() > 0 {
        let front = sessions.drop_last();
        lemma_other_sessions(front, id, other);
        let left = without_session(front, id);
        assert(left.push(sessions.last()).drop_last() =~= left);
    }
}

proof fn lemma_other_ids(ids: Seq<Seq<u8>>, id: Seq<u8>, other: Seq<u8>)
    ensures
        !without_id(ids, id).contains(id),
        other != id ==> (without_id(ids, id).contains(other) <==> ids.contains(other)),
    decreases ids.len(),
{
    if ids.len() > 0 {
        let front = ids.drop_last();
        let last = ids.last();
        lemma_other_ids(front, id, other);
        let left = without_id(front, id);
        assert(ids =~= front.push(last));
        assert(ids.contains(other) <==> front.contains(other) || last == other) by {
            if front.contains(other) {
                let k = choose|k: int| 0 <= k < front.len() && front[k] == other;
                assert(ids[k] == other);
            }
            if last == other {
                assert(ids[ids.len() - 1] == other);
            }
            if ids.contains(other) && last != other {
                let k = choose|k: int| 0 <= k < ids.len() && ids[k] == other;
                assert(front[k] == other);
            }
        }
        let more = left.push(last);
        assert(more.contains(other) <==> left.contains(other) || last == other) by {
            if left.contains(other) {
                let k = choose|k: int| 0 <= k < left.len() && left[k] == other;
                assert(more[k] == other);
            }
            if last == other {
                assert(more[more.len() - 1] == other);
            }
            if more.contains(other) && last != other {
                let k = choose|k: int| 0 <= k < more.len() && more[k] == other;
                assert(left[k] == other);
            }
        }
        if last != id && more.contains(id) {
            let k = choose|k: int| 0 <= k < more.len() && more[k] == id;
            assert(left[k] == id);
        }
    }
}

/// The end of a stream ends that stream alone: it neither runs nor can be started, and
/// the others do as before. The end of all leaves none. Our answer to the last request
/// stays.
pub proof fn law_an_end_is_that_of_its_stream(m: ManagerView, id: Seq<u8>, other: Seq<u8>)
    ensures
        ({
            let one = after_end(m, Some(id));
            let all = after_end(m, None);
            &&& chosen_session(one.sessions, Some(id)) is None
            &&& !one.running.contains(id)
            &&& other != id ==> chosen_session(one.sessions, Some(other)) == chosen_session(
                m.sessions,
                Some(other),
            )
            &&& other != id ==> (one.running.contains(other) <==> m.running.contains(other))
            &&& chosen_session(all.sessions, Some(other)) is None
            &&& !all.running.contains(other)
            &&& one.setup_response == m.setup_response && all.setup_response == m.setup_response
            &&& one.rtsp_url == m.rtsp_url && one.audio_rtsp_url == m.audio_rtsp_url && one.audio
                == m.audio && one.local_ip == m.local_ip && one.ipv6 == m.ipv6
        }),
{
    lemma_other_sessions(m.sessions, id, other);
    lemma_other_ids(m.running, id, other);
}

/// A start without an id is that of the only session; where there is none or more than
/// one, there is nothing to start.
pub proof fn law_a_start_without_an_id_needs_one_session(sessions: Seq<SessionView>)
    ensures
        sessions.len() == 1 ==> chosen_session(sessions, None) == Some(sessions[0]),
        sessions.len() != 1 ==> chosen_session(sessions, None) is None,
{
}

} // verus!
