//! The camera accessory: its services with the values that they start with, and
//! the setup of data streams over its characteristics.

use vstd::prelude::*;
use vstd::string::*;
use crate::hsv::recording::{supported_audio_recording, supported_audio_recording_config, supported_camera_recording, supported_camera_recording_config, supported_video_recording, video_recording_config, HsvState};
use crate::stream::config::{live_audio_codec, live_video_codec, supported_audio_config, supported_rtp_config, supported_video_config};
use crate::tlv8::{encoded, find, first_value, law_the_first_item_is_found, lemma_ascending_reads_back, lemma_encoded_push, parse, parsed, ItemView, Writer};
use crate::wire::{law_bytes_are_digits, le_bytes, to_vec};

verus! {

// Instance ids of the services, spaced to leave room for their characteristics.

pub const IID_INFORMATION: u64 = 1;

pub const IID_STREAM_MGMT: u64 = 20;

pub const IID_MOTION_PERSON: u64 = 30;

pub const IID_MOTION_VEHICLE: u64 = 40;

pub const IID_OPERATING_MODE: u64 = 50;

pub const IID_RECORDING_MGMT: u64 = 60;

pub const IID_DATA_STREAM: u64 = 70;

/// Service instance ids of the two motion sensors, used to address them once the
/// accessory has been handed to the server: person, then vehicle.
pub fn motion_service_iids() -> (r: (u64, u64))
    ensures
        r == (30u64, 40u64),
{
    (IID_MOTION_PERSON, IID_MOTION_VEHICLE)
}

/// The characteristic that enables a service.
#[derive(Clone, Copy, Debug, PartialEq, Eq, Structural)]
pub struct ActiveCharacteristic {
    pub id: u64,
    pub value: u8,
}

/// A motion sensor.
#[derive(Debug)]
pub struct MotionSensorService {
    pub id: u64,
    pub name: String,
    /// A sensor that is not active is shown as one that does not respond.
    pub status_active: bool,
    pub motion_detected: bool,
}

/// A motion sensor with the characteristic that enables it, as secure video
/// requires.
#[derive(Debug)]
pub struct HsvMotionSensorService {
    pub inner: MotionSensorService,
    pub active: ActiveCharacteristic,
}

impl HsvMotionSensorService {
    /// An enabled sensor without motion.
    pub fn new(id: u64, name: String) -> (s: Self)
        requires
            id <= u64::MAX - 8,
        ensures
            s.inner == (MotionSensorService {
                id,
                name,
                status_active: true,
                motion_detected: false,
            }),
            s.active == (ActiveCharacteristic { id: (id + 8) as u64, value: 1 }),
    {
        HsvMotionSensorService {
            inner: MotionSensorService { id, name, status_active: true, motion_detected: false },
            active: ActiveCharacteristic { id: id + 8, value: 1 },
        }
    }

    pub fn get_id(&self) -> (id: u64)
        ensures
            id == self.inner.id,
    {
        self.inner.id
    }

    pub fn inner_mut(&mut self) -> (r: &mut MotionSensorService)
        ensures
            *r == old(self).inner,
            final(self).inner == *final(r),
            final(self).active == old(self).active,
    {
        &mut self.inner
    }
}

/// What an accessory tells of itself.
#[derive(Debug)]
pub struct AccessoryInformation {
    pub name: String,
    pub manufacturer: String,
    pub model: String,
    pub serial_number: String,
}

/// The service for live streams, the primary one.
#[derive(Debug)]
pub struct StreamManagementService {
    pub id: u64,
    pub primary: bool,
    pub active: u8,
    pub supported_video: Vec<u8>,
    pub supported_audio: Vec<u8>,
    pub supported_rtp: Vec<u8>,
}

/// The switches of secure video.
#[derive(Clone, Copy, Debug, PartialEq, Eq, Structural)]
pub struct OperatingModeService {
    pub id: u64,
    pub event_snapshots_active: bool,
    pub homekit_camera_active: bool,
    pub periodic_snapshots_active: bool,
    pub manually_disabled: bool,
}

/// The service for recordings.
#[derive(Debug)]
pub struct RecordingManagementService {
    pub id: u64,
    pub linked_services: Vec<u64>,
    pub supported_camera: Vec<u8>,
    pub supported_video: Vec<u8>,
    pub supported_audio: Vec<u8>,
    pub active: u8,
    pub recording_audio_active: u8,
}

/// The service for data streams.
#[derive(Debug)]
pub struct DataStreamService {
    pub id: u64,
    pub version: String,
    /// One transport: data stream over TCP.
    pub supported_transport: Vec<u8>,
}

/// The camera accessory.
#[derive(Debug)]
pub struct CameraAccessory {
    pub id: u64,
    pub accessory_information: AccessoryInformation,
    pub stream_management: StreamManagementService,
    pub motion_person: HsvMotionSensorService,
    pub motion_vehicle: HsvMotionSensorService,
    pub operating_mode: OperatingModeService,
    pub recording_management: RecordingManagementService,
    pub data_stream: DataStreamService,
}

pub open spec fn number_of(b: bool) -> u8 {
    if b {
        1
    } else {
        0
    }
}

fn number_for(b: bool) -> (n: u8)
    ensures
        n == number_of(b),
{
    if b {
        1
    } else {
        0
    }
}

fn prefixed(prefix: &str, name: &str) -> (s: String)
    ensures
        s@ == prefix@ + name@,
{
    let mut s = String::from_str(prefix);
    s.append(name);
    s
}

fn build_stream_management() -> (s: StreamManagementService)
    ensures
        s.id == IID_STREAM_MGMT,
        s.primary,
        s.active == 1,
        s.supported_video@ == encoded(seq![(0x01u8, encoded(live_video_codec()))]),
        s.supported_audio@ == encoded(
            seq![(0x01u8, encoded(live_audio_codec()))].push((0x02u8, seq![0u8])),
        ),
        s.supported_rtp@ == encoded(seq![(0x02u8, seq![0u8])]),
{
    StreamManagementService {
        id: IID_STREAM_MGMT,
        primary: true,
        active: 1,
        supported_video: supported_video_config(),
        supported_audio: supported_audio_config(),
        supported_rtp: supported_rtp_config(),
    }
}

fn build_recording_management(hsv: &HsvState, modes: &[(u16, u16, u8)]) -> (s:
    RecordingManagementService)
    ensures
        s.id == IID_RECORDING_MGMT,
        s.linked_services@ == seq![IID_MOTION_PERSON, IID_MOTION_VEHICLE, IID_DATA_STREAM],
        s.supported_camera@ == encoded(supported_camera_recording()),
        s.supported_video@ == encoded(supported_video_recording(modes@)),
        s.supported_audio@ == encoded(supported_audio_recording()),
        s.active == number_of(hsv@.recording_active),
        s.recording_audio_active == number_of(hsv@.audio_active),
{
    RecordingManagementService {
        id: IID_RECORDING_MGMT,
        linked_services: vec![IID_MOTION_PERSON, IID_MOTION_VEHICLE, IID_DATA_STREAM],
        supported_camera: supported_camera_recording_config(),
        supported_video: video_recording_config(modes),
        supported_audio: supported_audio_recording_config(),
        active: number_for(hsv.recording_active),
        recording_audio_active: number_for(hsv.audio_active),
    }
}

impl CameraAccessory {
    /// The accessory of a camera, with the recording modes that the camera offers.
    pub fn new(
        id: u64,
        name: &str,
        model: &str,
        hsv: &HsvState,
        modes: &[(u16, u16, u8)],
    ) -> (a: Self)
        ensures
            a.id == id,
            a.accessory_information.name@ == name@,
            a.accessory_information.manufacturer@ == "Amcrest"@,
            a.accessory_information.model@ == model@,
            a.accessory_information.serial_number@ == "amcrust-"@ + name@,
            a.stream_management.id == IID_STREAM_MGMT && a.stream_management.primary
                && a.stream_management.active == 1,
            a.stream_management.supported_video@ == encoded(
                seq![(0x01u8, encoded(live_video_codec()))],
            ),
            a.stream_management.supported_audio@ == encoded(
                seq![(0x01u8, encoded(live_audio_codec()))].push((0x02u8, seq![0u8])),
            ),
            a.stream_management.supported_rtp@ == encoded(seq![(0x02u8, seq![0u8])]),
            a.motion_person.inner.id == IID_MOTION_PERSON,
            a.motion_person.inner.name@ == name@ + " Person"@,
            a.motion_vehicle.inner.id == IID_MOTION_VEHICLE,
            a.motion_vehicle.inner.name@ == name@ + " Vehicle"@,
            a.motion_person.inner.status_active && a.motion_vehicle.inner.status_active,
            !a.motion_person.inner.motion_detected && !a.motion_vehicle.inner.motion_detected,
            a.motion_person.active == (ActiveCharacteristic { id: 38, value: 1 }),
            a.motion_vehicle.active == (ActiveCharacteristic { id: 48, value: 1 }),
            a.operating_mode == (OperatingModeService {
                id: IID_OPERATING_MODE,
                event_snapshots_active: hsv@.event_snapshots,
                homekit_camera_active: hsv@.homekit_active,
                periodic_snapshots_active: hsv@.periodic_snapshots,
                manually_disabled: false,
            }),
            a.recording_management.id == IID_RECORDING_MGMT,
            a.recording_management.linked_services@ == seq![
                IID_MOTION_PERSON,
                IID_MOTION_VEHICLE,
                IID_DATA_STREAM,
            ],
            a.recording_management.supported_camera@ == encoded(supported_camera_recording()),
            a.recording_management.supported_video@ == encoded(supported_video_recording(modes@)),
            a.recording_management.supported_audio@ == encoded(supported_audio_recording()),
            a.recording_management.active == number_of(hsv@.recording_active),
            a.recording_management.recording_audio_active == number_of(hsv@.audio_active),
            a.data_stream.id == IID_DATA_STREAM,
            a.stream_management.id == 20 && a.motion_person.inner.id == 30
                && a.motion_vehicle.inner.id == 40 && a.operating_mode.id == 50
                && a.recording_management.id == 60 && a.data_stream.id == 70,
            a.recording_management.linked_services@ == seq![30u64, 40u64, 70u64],
            a.data_stream.version@ == "1.0"@,
            a.data_stream.supported_transport@ == seq![1u8, 3u8, 1u8, 1u8, 0u8],
    {
        CameraAccessory {
            id,
            accessory_information: AccessoryInformation {
                name: String::from_str(name),
                manufacturer: String::from_str("Amcrest"),
                model: String::from_str(model),
                serial_number: prefixed("amcrust-", name),
            },
            stream_management: build_stream_management(),
            motion_person: HsvMotionSensorService::new(
                IID_MOTION_PERSON,
                prefixed(name, " Person"),
            ),
            motion_vehicle: HsvMotionSensorService::new(
                IID_MOTION_VEHICLE,
                prefixed(name, " Vehicle"),
            ),
            operating_mode: OperatingModeService {
                id: IID_OPERATING_MODE,
                event_snapshots_active: hsv.event_snapshots,
                homekit_camera_active: hsv.homekit_active,
                periodic_snapshots_active: hsv.periodic_snapshots,
                manually_disabled: false,
            },
            recording_management: build_recording_management(hsv, modes),
            data_stream: DataStreamService {
                id: IID_DATA_STREAM,
                version: String::from_str("1.0"),
                supported_transport: vec![1, 3, 1, 1, 0],
            },
        }
    }

    /// The instance ids of the services, in the order in which they are told.
    pub fn get_services(&self) -> (ids: Vec<u64>)
        ensures
            ids@ == seq![
                IID_INFORMATION,
                self.stream_management.id,
                self.motion_person.inner.id,
                self.motion_vehicle.inner.id,
                self.operating_mode.id,
                self.recording_management.id,
                self.data_stream.id,
            ],
            ids@[0] == 1,
    {
        vec![
            IID_INFORMATION,
            self.stream_management.id,
            self.motion_person.get_id(),
            self.motion_vehicle.get_id(),
            self.operating_mode.id,
            self.recording_management.id,
            self.data_stream.id,
        ]
    }

    /// Sets or clears the motion sensor whose service has the given instance id, the
    /// one for people where both have it; any other id changes nothing. Says whether
    /// there was such a sensor.
    pub fn set_motion(&mut self, service_iid: u64, detected: bool) -> (found: bool)
        ensures
            found == (service_iid == old(self).motion_person.inner.id || service_iid == old(
                self,
            ).motion_vehicle.inner.id),
            final(self).motion_person.inner == (if service_iid == old(
                self,
            ).motion_person.inner.id {
                MotionSensorService { motion_detected: detected, ..old(self).motion_person.inner }
            } else {
                old(self).motion_person.inner
            }),
            final(self).motion_vehicle.inner == (if service_iid != old(self).motion_person.inner.id
                && service_iid == old(self).motion_vehicle.inner.id {
                MotionSensorService {
                    motion_detected: detected,
                    ..old(self).motion_vehicle.inner
                }
            } else {
                old(self).motion_vehicle.inner
            }),
            final(self).motion_person.active == old(self).motion_person.active,
            final(self).motion_vehicle.active == old(self).motion_vehicle.active,
            final(self).id == old(self).id,
            final(self).accessory_information == old(self).accessory_information,
            final(self).stream_management == old(self).stream_management,
            final(self).operating_mode == old(self).operating_mode,
            final(self).recording_management == old(self).recording_management,
            final(self).data_stream == old(self).data_stream,
    {
        if self.motion_person.get_id() == service_iid {
            self.motion_person.inner.motion_detected = detected;
            true
        } else if self.motion_vehicle.get_id() == service_iid {
            self.motion_vehicle.inner.motion_detected = detected;
            true
        } else {
            false
        }
    }
}

// --- Setup of data streams ---

/// What a write to SetupDataStreamTransport comes to.
#[derive(Debug)]
pub enum DataStreamWrite {
    /// No request: our own response, written back.
    Ignored,
    /// A request that is refused.
    Refused,
    /// A request for a session with this salt of the controller.
    Prepare(Vec<u8>),
}

/// The response that tells of an error.
pub open spec fn setup_error() -> Seq<u8> {
    encoded(seq![(0x01u8, seq![1u8])])
}

/// The response that tells of a session, without the accessory's salt.
pub open spec fn setup_items(port: u16) -> Seq<ItemView> {
    seq![(0x01u8, seq![0u8])].push(
        (0x02u8, encoded(seq![(0x01u8, le_bytes(port as nat, 2))])),
    )
}

/// A request has a command and a transport of one byte each, and a salt of 32
/// bytes.
pub open spec fn is_setup_request(items: Seq<ItemView>) -> bool {
    &&& first_value(items, 0x01) matches Some(v) && v.len() == 1
    &&& first_value(items, 0x02) matches Some(v) && v.len() == 1
    &&& first_value(items, 0x03) matches Some(v) && v.len() == 32
}

/// Only the command to start a session over TCP is taken.
pub open spec fn starts_session(items: Seq<ItemView>) -> bool {
    first_value(items, 0x01)->0[0] == 0 && first_value(items, 0x02)->0[0] == 0
}

/// The responses that reads are answered with.
pub ghost struct SetupView {
    /// For the next read.
    pub pending: Option<Seq<u8>>,
    /// For the reads after that.
    pub last: Option<Seq<u8>>,
}

/// The responses to setups of data streams.
#[derive(Debug)]
pub struct DataStreamSetup {
    pending: Option<Vec<u8>>,
    last: Option<Vec<u8>>,
}

impl View for DataStreamSetup {
    type V = SetupView;

    closed spec fn view(&self) -> SetupView {
        SetupView {
            pending: match self.pending {
                Some(b) => Some(b@),
                None => None,
            },
            last: match self.last {
                Some(b) => Some(b@),
                None => None,
            },
        }
    }
}

/// The responses once a session is prepared.
pub open spec fn after_prepared(port: u16, salt: Seq<u8>) -> SetupView {
    SetupView {
        pending: Some(encoded(setup_items(port).push((0x03u8, salt)))),
        last: Some(encoded(setup_items(port))),
    }
}

/// What a read is answered with.
pub open spec fn read_answer(s: SetupView) -> Option<Seq<u8>> {
    match s.pending {
        Some(b) => Some(b),
        None => s.last,
    }
}

/// The responses after a read.
pub open spec fn after_read(s: SetupView) -> SetupView {
    SetupView { pending: None, ..s }
}

fn error_response() -> (out: Vec<u8>)
    ensures
        out@ == setup_error(),
{
    broadcast use lemma_encoded_push;

    let mut w = Writer::new();
    w.u8(0x01, 1);
    w.build()
}

impl DataStreamSetup {
    pub fn new() -> (s: Self)
        ensures
            s@ == (SetupView { pending: None, last: None }),
    {
        DataStreamSetup { pending: None, last: None }
    }

    /// Takes a write. `has_secret` says whether the pairing session's secret is
    /// known; without it there can be no keys.
    pub fn write(&mut self, value: &[u8], has_secret: bool) -> (r: DataStreamWrite)
        ensures
            ({
                let items = parsed(value@);
                match r {
                    DataStreamWrite::Ignored => !is_setup_request(items) && final(self)@ == old(
                        self,
                    )@,
                    DataStreamWrite::Refused => is_setup_request(items) && (!starts_session(items)
                        || !has_secret) && final(self)@ == (SetupView {
                        pending: Some(setup_error()),
                        ..old(self)@
                    }),
                    DataStreamWrite::Prepare(salt) => is_setup_request(items) && starts_session(
                        items,
                    ) && has_secret && first_value(items, 0x03) == Some(salt@) && final(self)@
                        == old(self)@,
                }
            }),
    {
        let items = parse(value);
        match (find(&items, 0x01), find(&items, 0x02), find(&items, 0x03)) {
            (Some(command), Some(transport), Some(salt)) => {
                if command.len() != 1 || transport.len() != 1 || salt.len() != 32 {
                    return DataStreamWrite::Ignored;
                }
                if command[0] != 0 || transport[0] != 0 || !has_secret {
                    self.failed();
                    return DataStreamWrite::Refused;
                }
                DataStreamWrite::Prepare(to_vec(salt))
            },
            _ => DataStreamWrite::Ignored,
        }
    }

    /// A session is prepared on a port, with a salt of the accessory.
    pub fn prepared(&mut self, port: u16, accessory_salt: &[u8; 32])
        ensures
            final(self)@ == after_prepared(port, accessory_salt@),
    {
        broadcast use lemma_encoded_push;

        let mut params = Writer::new();
        params.u16(0x01, port);
        let params = params.build();
        let mut full = Writer::new();
        full.u8(0x01, 0);
        full.bytes(0x02, &params);
        full.bytes(0x03, accessory_salt.as_slice());
        self.pending = Some(full.build());
        let mut without_salt = Writer::new();
        without_salt.u8(0x01, 0);
        without_salt.bytes(0x02, &params);
        self.last = Some(without_salt.build());
    }

    /// No session could be prepared.
    pub fn failed(&mut self)
        ensures
            final(self)@ == (SetupView { pending: Some(setup_error()), ..old(self)@ }),
    {
        self.pending = Some(error_response());
    }

    /// Answers a read.
    pub fn read(&mut self) -> (r: Option<Vec<u8>>)
        ensures
            read_answer(old(self)@) == (match r {
                Some(b) => Some(b@),
                None => None,
            }),
            final(self)@ == after_read(old(self)@),
    {
        let pending = self.pending.take();
        match pending {
            Some(b) => Some(b),
            None => match &self.last {
                Some(b) => Some(to_vec(b.as_slice())),
                None => None,
            },
        }
    }
}

/// The first read after a setup tells the accessory's salt; every later one tells
/// the same without it.
pub proof fn law_the_salt_is_told_once(port: u16, salt: Seq<u8>)
    ensures
        ({
            let s = after_prepared(port, salt);
            &&& read_answer(s) == Some(encoded(setup_items(port).push((0x03u8, salt))))
            &&& read_answer(after_read(s)) == Some(encoded(setup_items(port)))
            &&& after_read(after_read(s)) == after_read(s)
        }),
{
}

/// The answer to a setup tells that it succeeded, the port in two bytes, the lower one
/// first, and the accessory's salt; later answers have no salt.
pub proof fn law_a_setup_tells_port_and_salt(port: u16, salt: Seq<u8>)
    ensures
        ({
            let s = after_prepared(port, salt);
            let first = parsed(read_answer(s)->0);
            let later = parsed(read_answer(after_read(s))->0);
            let port_bytes = Some(seq![(port % 256) as u8, (port / 256) as u8]);
            &&& first_value(first, 1) == Some(seq![0u8])
            &&& first_value(parsed(first_value(first, 2)->0), 1) == port_bytes
            &&& first_value(first, 3) == Some(salt)
            &&& first_value(later, 1) == Some(seq![0u8])
            &&& first_value(parsed(first_value(later, 2)->0), 1) == port_bytes
            &&& first_value(later, 3) is None
        }),
{
    let short = setup_items(port);
    let long = short.push((0x03u8, salt));
    let params: Seq<ItemView> = seq![(0x01u8, le_bytes(port as nat, 2))];
    lemma_ascending_reads_back(short);
    lemma_ascending_reads_back(long);
    lemma_ascending_reads_back(params);
    assert(short[0].0 == 1 && short[1].0 == 2 && params[0].0 == 1);
    assert(long[0].0 == 1 && long[1].0 == 2 && long[2].0 == 3);
    law_bytes_are_digits(port as nat, 0, 0, 0, 0);
    assert(port as nat / 256 % 256 == port / 256);
    law_the_first_item_is_found(short, 3);
    assert(short.len() == 2);
}

/// A failed setup is answered with status 1, and what was told before is told again at
/// the next read.
pub proof fn law_a_failed_setup_is_told_once(s: SetupView)
    ensures
        ({
            let failed = SetupView { pending: Some(setup_error()), ..s };
            &&& parsed(read_answer(failed)->0) == seq![(1u8, seq![1u8])]
            &&& read_answer(after_read(failed)) == s.last
        }),
{
    let items: Seq<ItemView> = seq![(0x01u8, seq![1u8])];
    lemma_ascending_reads_back(items);
}

/// A request has a command and a transport of one byte each and a salt of 32 bytes, and
/// starts a session where both bytes are zero.
pub proof fn law_what_a_setup_request_is(command: Seq<u8>, transport: Seq<u8>, salt: Seq<u8>)
    ensures
        ({
            let items = seq![(0x01u8, command)].push((0x02u8, transport)).push((0x03u8, salt));
            &&& is_setup_request(items) <==> command.len() == 1 && transport.len() == 1 && salt.len()
                == 32
            &&& is_setup_request(items) ==> (starts_session(items) <==> command[0] == 0
                && transport[0] == 0)
            &&& !is_setup_request(items.drop_last())
            &&& !is_setup_request(items.skip(1))
        }),
{
    let items = seq![(0x01u8, command)].push((0x02u8, transport)).push((0x03u8, salt));
    lemma_ascending_reads_back(items);
    assert(items[0].0 == 1 && items[1].0 == 2 && items[2].0 == 3);
    law_the_first_item_is_found(items.drop_last(), 3);
    law_the_first_item_is_found(items.skip(1), 1);
}

/// A switch is 1 where it is on and 0 where it is off.
pub proof fn law_switches_are_numbers(b: bool)
    ensures
        number_of(b) == 1 <==> b,
        number_of(b) == 0 <==> !b,
{
}

} // verus!
