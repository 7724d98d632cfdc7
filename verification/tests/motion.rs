use amcrust::amcrest::event::CameraEvent;
use amcrust::metrics::Metrics;
use amcrust::motion::{MotionAction, MotionMapper};

fn event(code: &str, action: &str, data: &str) -> CameraEvent {
    CameraEvent {
        code: code.into(),
        action: action.into(),
        index: 0,
        data: data.into(),
        timestamp: 0,
    }
}

#[test]
fn motion_follows_starts_and_stops() {
    let mut metrics = Metrics::new();
    let mut mapper = MotionMapper::new();
    assert!(!mapper.motion_active());
    assert_eq!(
        mapper.handle(&event("SmartMotionHuman", "Start", "{}"), &mut metrics),
        MotionAction::Start { service: 30, vehicle: false, generation: 1 }
    );
    assert_eq!(
        mapper.handle(&event("SmartMotionVehicle", "Start", "{}"), &mut metrics),
        MotionAction::Start { service: 40, vehicle: true, generation: 1 }
    );
    assert_eq!(
        mapper.handle(&event("SmartMotionHuman", "Stop", "{}"), &mut metrics),
        MotionAction::Clear { service: 30 }
    );
    assert!(mapper.motion_active());
    mapper.handle(&event("SmartMotionVehicle", "Stop", "{}"), &mut metrics);
    assert!(!mapper.motion_active());
    assert!(!metrics.counters().motion_active);
}

#[test]
fn rules_tell_their_object_in_the_data() {
    let mut metrics = Metrics::new();
    let mut mapper = MotionMapper::new();
    let vehicle = event("CrossLineDetection", "Start", "{\"ObjectType\":\"Vehicle\"}");
    assert_eq!(
        mapper.handle(&vehicle, &mut metrics),
        MotionAction::Start { service: 40, vehicle: true, generation: 1 }
    );
    let human = event("CrossRegionDetection", "Start", "{\"ObjectType\":\"Human\"}");
    assert_eq!(
        mapper.handle(&human, &mut metrics),
        MotionAction::Start { service: 30, vehicle: false, generation: 1 }
    );
    let typed = event("SmartMotionHuman", "Stop", "{\"ObjectType\":\"Vehicle\"}");
    assert_eq!(mapper.handle(&typed, &mut metrics), MotionAction::Clear { service: 30 });
}

#[test]
fn only_the_last_start_times_out() {
    let mut metrics = Metrics::new();
    let mut mapper = MotionMapper::new();
    mapper.handle(&event("SmartMotionHuman", "Start", "{}"), &mut metrics);
    mapper.handle(&event("SmartMotionHuman", "Start", "{}"), &mut metrics);
    assert_eq!(mapper.timeout(false, 1, &mut metrics), None);
    assert!(mapper.motion_active());
    mapper.handle(&event("SmartMotionVehicle", "Stop", "{}"), &mut metrics);
    assert_eq!(mapper.timeout(false, 2, &mut metrics), Some(30));
    assert!(!mapper.motion_active());
}

#[test]
fn other_actions_are_counted_only() {
    let mut metrics = Metrics::new();
    let mut mapper = MotionMapper::new();
    assert_eq!(
        mapper.handle(&event("SmartMotionHuman", "Pulse", "{}"), &mut metrics),
        MotionAction::Unhandled
    );
    assert!(!mapper.motion_active());
    assert_eq!(metrics.counters().event_other, 1);
}
