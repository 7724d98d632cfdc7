use amcrust::accessory::{
    motion_service_iids, CameraAccessory, DataStreamSetup, DataStreamWrite, HsvMotionSensorService,
};
use amcrust::hsv::recording::{supported_video_recording_config, HsvState, RECORDING_ATTRIBUTES};
use amcrust::tlv8::{find, find_u16, find_u8, parse, Writer};

#[test]
fn the_accessory_starts_with_its_services() {
    let hsv = HsvState::load(None, 0);
    let mut a = CameraAccessory::new(1, "Yard", "IP8M", &hsv, &RECORDING_ATTRIBUTES);
    assert_eq!(a.get_services(), vec![1, 20, 30, 40, 50, 60, 70]);
    assert_eq!(a.accessory_information.serial_number, "amcrust-Yard");
    assert_eq!(a.motion_person.inner.name, "Yard Person");
    assert_eq!(a.motion_vehicle.inner.name, "Yard Vehicle");
    assert_eq!(a.motion_vehicle.active.id, 48);
    assert_eq!(a.recording_management.linked_services, vec![30, 40, 70]);
    assert_eq!(a.recording_management.supported_video, supported_video_recording_config());
    assert_eq!((a.recording_management.active, a.recording_management.recording_audio_active), (0, 1));
    assert_eq!(a.data_stream.supported_transport, vec![1, 3, 1, 1, 0]);
    let (person, vehicle) = motion_service_iids();
    assert!(a.set_motion(person, true));
    assert!(a.motion_person.inner.motion_detected && !a.motion_vehicle.inner.motion_detected);
    assert!(a.set_motion(vehicle, true));
    assert!(a.set_motion(person, false));
    assert!(!a.motion_person.inner.motion_detected && a.motion_vehicle.inner.motion_detected);
    assert!(!a.set_motion(20, true));
}

#[test]
fn sensors_can_be_renamed() {
    let mut s = HsvMotionSensorService::new(30, "a".into());
    s.inner_mut().name = "b".into();
    assert_eq!(s.inner.name, "b");
    assert_eq!((s.get_id(), s.active.id, s.active.value), (30, 38, 1));
}

fn setup_request(command: u8, salt: usize) -> Vec<u8> {
    Writer::new().u8(0x01, command).u8(0x02, 0).bytes(0x03, &vec![9; salt]).build()
}

#[test]
fn the_salt_is_told_once() {
    let mut setup = DataStreamSetup::new();
    assert!(setup.read().is_none());
    match setup.write(&setup_request(0, 32), true) {
        DataStreamWrite::Prepare(salt) => assert_eq!(salt, vec![9; 32]),
        _ => panic!("a session is prepared"),
    }
    setup.prepared(4711, &[8; 32]);
    let full = setup.read().unwrap();
    let items = parse(&full);
    assert_eq!(find_u8(&items, 0x01), Some(0));
    assert_eq!(find_u16(&parse(find(&items, 0x02).unwrap()), 0x01), Some(4711));
    assert_eq!(find(&items, 0x03).unwrap(), &[8; 32]);
    assert!(matches!(setup.write(&full, true), DataStreamWrite::Ignored));
    let later = setup.read().unwrap();
    assert!(find(&parse(&later), 0x03).is_none());
    assert_eq!(setup.read().unwrap(), later);
}

#[test]
fn setups_are_refused() {
    let mut setup = DataStreamSetup::new();
    assert!(matches!(setup.write(&setup_request(0, 31), true), DataStreamWrite::Ignored));
    assert!(setup.read().is_none());
    assert!(matches!(setup.write(&setup_request(1, 32), true), DataStreamWrite::Refused));
    assert_eq!(setup.read().unwrap(), vec![1, 1, 1]);
    assert!(matches!(setup.write(&setup_request(0, 32), false), DataStreamWrite::Refused));
    assert_eq!(setup.read().unwrap(), vec![1, 1, 1]);
    setup.failed();
    assert_eq!(setup.read().unwrap(), vec![1, 1, 1]);
    assert!(setup.read().is_none());
}

#[test]
fn the_first_sensor_with_an_id_is_set() {
    let hsv = HsvState::load(None, 0);
    let mut a = CameraAccessory::new(1, "Yard", "IP8M", &hsv, &RECORDING_ATTRIBUTES);
    a.motion_vehicle.inner.id = a.motion_person.inner.id;
    assert!(a.set_motion(a.motion_person.inner.id, true));
    assert!(a.motion_person.inner.motion_detected);
    assert!(!a.motion_vehicle.inner.motion_detected);
}
