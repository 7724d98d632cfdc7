//! From the camera's detection events to the two motion sensors.

use vstd::prelude::*;
use vstd::string::*;
use crate::accessory::motion_service_iids;
use crate::amcrest::event::CameraEvent;
use crate::metrics::{Counters, Metrics};
use crate::text::{chars_of, contains, holds, law_searching_finds_the_first_place, same};

verus! {

/// Safety net: a sensor is cleared this many milliseconds after the last start
/// if the camera never tells of a stop.
pub const MOTION_TIMEOUT: u64 = 90_000;

/// One sensor: whether it is set, and how many starts and stops it has seen.
#[derive(Clone, Copy, Debug, PartialEq, Eq, Structural)]
pub struct Sensor {
    pub active: bool,
    pub generation: u64,
}

/// Both sensors, and whether either is set.
#[derive(Clone, Copy, Debug, PartialEq, Eq, Structural)]
pub struct MotionState {
    pub person: Sensor,
    pub vehicle: Sensor,
    pub motion_active: bool,
}

/// What is to be done after an event.
#[derive(Clone, Copy, Debug, PartialEq, Eq, Structural)]
pub enum MotionAction {
    /// Set the sensor of this service, and call [`MotionMapper::timeout`] with
    /// `vehicle` and `generation` after [`MOTION_TIMEOUT`].
    Start { service: u64, vehicle: bool, generation: u64 },
    /// Clear the sensor of this service.
    Clear { service: u64 },
    /// An action that is not known.
    Unhandled,
}

/// Whether an event is about a vehicle. The smart motion events have a type of
/// their own; the others name the object in their data.
pub open spec fn about_vehicle(code: Seq<char>, data: Seq<char>) -> bool {
    if code == "SmartMotionVehicle"@ {
        true
    } else if code == "SmartMotionHuman"@ {
        false
    } else {
        holds(data, "Vehicle"@)
    }
}

/// The service of a sensor.
pub open spec fn service_of(vehicle: bool) -> u64 {
    if vehicle {
        40
    } else {
        30
    }
}

/// The sensors with one of them replaced.
pub open spec fn with_sensor(s: MotionState, vehicle: bool, sensor: Sensor) -> MotionState {
    if vehicle {
        MotionState {
            person: s.person,
            vehicle: sensor,
            motion_active: sensor.active || s.person.active,
        }
    } else {
        MotionState {
            person: sensor,
            vehicle: s.vehicle,
            motion_active: sensor.active || s.vehicle.active,
        }
    }
}

/// The sensor of a kind.
pub open spec fn sensor(s: MotionState, vehicle: bool) -> Sensor {
    if vehicle {
        s.vehicle
    } else {
        s.person
    }
}

/// The sensors after an event.
pub open spec fn after_event(s: MotionState, vehicle: bool, action: Seq<char>) -> MotionState {
    let next = sensor(s, vehicle).generation.wrapping_add(1);
    if action == "Start"@ {
        with_sensor(s, vehicle, Sensor { active: true, generation: next })
    } else if action == "Stop"@ {
        with_sensor(s, vehicle, Sensor { active: false, generation: next })
    } else {
        s
    }
}

/// The sensors after the time of a start has run out.
pub open spec fn after_timeout(s: MotionState, vehicle: bool, generation: u64) -> MotionState {
    if sensor(s, vehicle).generation == generation {
        with_sensor(s, vehicle, Sensor { active: false, generation })
    } else {
        s
    }
}

/// What is to be done after an event.
pub open spec fn action_for(s: MotionState, vehicle: bool, action: Seq<char>) -> MotionAction {
    if action == "Start"@ {
        MotionAction::Start {
            service: service_of(vehicle),
            vehicle,
            generation: sensor(s, vehicle).generation.wrapping_add(1),
        }
    } else if action == "Stop"@ {
        MotionAction::Clear { service: service_of(vehicle) }
    } else {
        MotionAction::Unhandled
    }
}

/// The counters once an event is counted.
pub open spec fn counted(c: Counters, vehicle: bool, action: Seq<char>) -> Counters {
    if !vehicle && action == "Start"@ {
        Counters { event_person_start: c.event_person_start.wrapping_add(1), ..c }
    } else if !vehicle && action == "Stop"@ {
        Counters { event_person_stop: c.event_person_stop.wrapping_add(1), ..c }
    } else if vehicle && action == "Start"@ {
        Counters { event_vehicle_start: c.event_vehicle_start.wrapping_add(1), ..c }
    } else if vehicle && action == "Stop"@ {
        Counters { event_vehicle_stop: c.event_vehicle_stop.wrapping_add(1), ..c }
    } else {
        Counters { event_other: c.event_other.wrapping_add(1), ..c }
    }
}

/// Keeps the motion sensors in step with the camera's events.
#[derive(Debug)]
pub struct MotionMapper {
    state: MotionState,
}

impl View for MotionMapper {
    type V = MotionState;

    closed spec fn view(&self) -> MotionState {
        self.state
    }
}

impl MotionMapper {
    /// Motion is active exactly while a sensor is set.
    pub open spec fn wf(&self) -> bool {
        self@.motion_active == (self@.person.active || self@.vehicle.active)
    }

    pub fn new() -> (m: Self)
        ensures
            m.wf(),
            m@ == (MotionState {
                person: Sensor { active: false, generation: 0 },
                vehicle: Sensor { active: false, generation: 0 },
                motion_active: false,
            }),
    {
        MotionMapper {
            state: MotionState {
                person: Sensor { active: false, generation: 0 },
                vehicle: Sensor { active: false, generation: 0 },
                motion_active: false,
            },
        }
    }

    /// Whether a sensor is set.
    pub fn motion_active(&self) -> (r: bool)
        ensures
            r == self@.motion_active,
    {
        self.state.motion_active
    }

    fn replace(&mut self, vehicle: bool, sensor: Sensor)
        ensures
            final(self)@ == with_sensor(old(self)@, vehicle, sensor),
    {
        if vehicle {
            self.state.vehicle = sensor;
        } else {
            self.state.person = sensor;
        }
        self.state.motion_active = self.state.person.active || self.state.vehicle.active;
    }

    /// Takes an event of the camera in.
    pub fn handle(&mut self, event: &CameraEvent, metrics: &mut Metrics) -> (r: MotionAction)
        requires
            old(self).wf(),
        ensures
            final(self).wf(),
            final(self)@ == after_event(
                old(self)@,
                about_vehicle(event@.code, event@.data),
                event@.action,
            ),
            r == action_for(old(self)@, about_vehicle(event@.code, event@.data), event@.action),
            ({
                let c = counted(
                    old(metrics)@,
                    about_vehicle(event@.code, event@.data),
                    event@.action,
                );
                final(metrics)@ == if r is Unhandled {
                    c
                } else {
                    Counters { motion_active: final(self)@.motion_active, ..c }
                }
            }),
    {
        let (person_iid, vehicle_iid) = motion_service_iids();
        let vehicle: bool = if same(event.code.as_str(), "SmartMotionVehicle") {
            true
        } else if same(event.code.as_str(), "SmartMotionHuman") {
            false
        } else {
            let data = chars_of(event.data.as_str());
            let name = chars_of("Vehicle");
            contains(&data, &name)
        };
        let service: u64 = if vehicle {
            vehicle_iid
        } else {
            person_iid
        };
        metrics.event(vehicle, event.action.as_str());
        let generation: u64 = if vehicle {
            self.state.vehicle.generation.wrapping_add(1)
        } else {
            self.state.person.generation.wrapping_add(1)
        };
        if same(event.action.as_str(), "Start") {
            self.replace(vehicle, Sensor { active: true, generation });
            metrics.motion_active(self.state.motion_active);
            MotionAction::Start { service, vehicle, generation }
        } else if same(event.action.as_str(), "Stop") {
            self.replace(vehicle, Sensor { active: false, generation });
            metrics.motion_active(self.state.motion_active);
            MotionAction::Clear { service }
        } else {
            MotionAction::Unhandled
        }
    }

    /// The time of a start has run out. The sensor is cleared if nothing was heard
    /// of it since; the result is then the service to clear.
    pub fn timeout(&mut self, vehicle: bool, generation: u64, metrics: &mut Metrics) -> (r: Option<
        u64,
    >)
        requires
            old(self).wf(),
        ensures
            final(self).wf(),
            final(self)@ == after_timeout(old(self)@, vehicle, generation),
            r == if sensor(old(self)@, vehicle).generation == generation {
                Some(service_of(vehicle))
            } else {
                None
            },
            final(metrics)@ == if r is Some {
                Counters { motion_active: final(self)@.motion_active, ..old(metrics)@ }
            } else {
                old(metrics)@
            },
    {
        let (person_iid, vehicle_iid) = motion_service_iids();
        let current: u64 = if vehicle {
            self.state.vehicle.generation
        } else {
            self.state.person.generation
        };
        if current == generation {
            self.replace(vehicle, Sensor { active: false, generation });
            metrics.motion_active(self.state.motion_active);
            if vehicle {
                Some(vehicle_iid)
            } else {
                Some(person_iid)
            }
        } else {
            None
        }
    }
}

/// A start that is followed by another start or stop of the same kind no longer
/// clears the sensor when its time runs out.
pub proof fn law_a_stale_timeout_changes_nothing(s: MotionState, vehicle: bool, action: Seq<char>)
    requires
        action == "Start"@ || action == "Stop"@,
    ensures
        ({
            let started = after_event(s, vehicle, "Start"@);
            let later = after_event(started, vehicle, action);
            after_timeout(later, vehicle, sensor(started, vehicle).generation) == later
        }),
{
}

/// A start clears its sensor when its time, 90 seconds, runs out, whatever was heard of
/// the other sensor in between.
pub proof fn law_a_start_times_out(s: MotionState, vehicle: bool, other_actions: Seq<Seq<char>>)
    ensures
        ({
            let started = after_event(s, vehicle, "Start"@);
            let later = after_events(started, !vehicle, other_actions);
            let cleared = after_timeout(later, vehicle, sensor(started, vehicle).generation);
            &&& !sensor(cleared, vehicle).active
            &&& sensor(cleared, !vehicle) == sensor(later, !vehicle)
        }),
        MOTION_TIMEOUT == 90_000,
{
    lemma_other_sensor_stays(after_event(s, vehicle, "Start"@), !vehicle, other_actions);
}

/// The sensors after events of one kind.
pub open spec fn after_events(s: MotionState, vehicle: bool, actions: Seq<Seq<char>>) -> MotionState
    decreases actions.len(),
{
    if actions.len() == 0 {
        s
    } else {
        after_event(after_events(s, vehicle, actions.drop_last()), vehicle, actions.last())
    }
}

proof fn lemma_other_sensor_stays(s: MotionState, vehicle: bool, actions: Seq<Seq<char>>)
    ensures
        sensor(after_events(s, vehicle, actions), !vehicle) == sensor(s, !vehicle),
    decreases actions.len(),
{
    if actions.len() > 0 {
        lemma_other_sensor_stays(s, vehicle, actions.drop_last());
    }
}

// --- Which sensor an event is for ---

/// An event is for the vehicle's sensor or the person's: a smart motion event by its
/// code, whatever its data say; any other one, whatever its code, by whether its data
/// hold the name `Vehicle`.
pub proof fn law_events_go_to_their_sensor(code: Seq<char>, data: Seq<char>)
    ensures
        about_vehicle("SmartMotionVehicle"@, data),
        !about_vehicle("SmartMotionHuman"@, data),
        code != "SmartMotionVehicle"@ && code != "SmartMotionHuman"@ ==> (about_vehicle(code, data)
            <==> exists|i: int|
            0 <= i <= data.len() - 7 && #[trigger] data.subrange(i, i + 7) == "Vehicle"@),
{
    reveal_strlit("SmartMotionVehicle");
    reveal_strlit("SmartMotionHuman");
    reveal_strlit("Vehicle");
    assert("SmartMotionVehicle"@.len() != "SmartMotionHuman"@.len());
    law_searching_finds_the_first_place(data, "Vehicle"@);
}

/// A start sets one sensor and a stop clears it; the other sensor stays as it is, and
/// so does everything after any other action. The service told of is 40 for the
/// vehicle's sensor and 30 for the person's.
pub proof fn law_an_event_changes_its_sensor_alone(
    s: MotionState,
    vehicle: bool,
    action: Seq<char>,
)
    ensures
        ({
            let after = after_event(s, vehicle, action);
            let own = if vehicle {
                after.vehicle
            } else {
                after.person
            };
            let before = if vehicle {
                s.vehicle
            } else {
                s.person
            };
            let service = if vehicle {
                40u64
            } else {
                30u64
            };
            &&& if vehicle {
                after.person == s.person
            } else {
                after.vehicle == s.vehicle
            }
            &&& action == "Start"@ ==> own.active && after.motion_active && own.generation
                != before.generation && action_for(s, vehicle, action) == (MotionAction::Start {
                service,
                vehicle,
                generation: own.generation,
            })
            &&& action == "Stop"@ ==> !own.active && own.generation != before.generation
                && action_for(s, vehicle, action) == (MotionAction::Clear { service })
            &&& action != "Start"@ && action != "Stop"@ ==> after == s && action_for(
                s,
                vehicle,
                action,
            ) == MotionAction::Unhandled
        }),
{
    reveal_strlit("Start");
    reveal_strlit("Stop");
    assert("Start"@.len() != "Stop"@.len());
}

/// A time that has run out clears the sensor of its own start, and nothing else.
pub proof fn law_a_timeout_clears_its_sensor_alone(s: MotionState, vehicle: bool, generation: u64)
    ensures
        ({
            let after = after_timeout(s, vehicle, generation);
            &&& vehicle ==> after.person == s.person
            &&& !vehicle ==> after.vehicle == s.vehicle
            &&& vehicle && s.vehicle.generation == generation ==> after.vehicle == (Sensor {
                active: false,
                generation,
            }) && after.motion_active == s.person.active
            &&& !vehicle && s.person.generation == generation ==> after.person == (Sensor {
                active: false,
                generation,
            }) && after.motion_active == s.vehicle.active
            &&& sensor(s, vehicle).generation != generation ==> after == s
        }),
{
}

/// Motion is active as long as one of the sensors is.
pub proof fn law_motion_is_active_while_a_sensor_is(
    s: MotionState,
    vehicle: bool,
    action: Seq<char>,
    generation: u64,
)
    requires
        s.motion_active == (s.person.active || s.vehicle.active),
    ensures
        ({
            let a = after_event(s, vehicle, action);
            let t = after_timeout(s, vehicle, generation);
            &&& a.motion_active == (a.person.active || a.vehicle.active)
            &&& t.motion_active == (t.person.active || t.vehicle.active)
        }),
{
}

/// Every event is counted once: starts and stops by the sensor that they are for, and
/// anything else apart. No other counter changes.
pub proof fn law_each_event_is_counted_once(c: Counters, vehicle: bool, action: Seq<char>)
    ensures
        ({
            let after = counted(c, vehicle, action);
            let other = action != "Start"@ && action != "Stop"@;
            &&& !vehicle && action == "Start"@ ==> after == (Counters {
                event_person_start: c.event_person_start.wrapping_add(1),
                ..c
            })
            &&& !vehicle && action == "Stop"@ ==> after == (Counters {
                event_person_stop: c.event_person_stop.wrapping_add(1),
                ..c
            })
            &&& vehicle && action == "Start"@ ==> after == (Counters {
                event_vehicle_start: c.event_vehicle_start.wrapping_add(1),
                ..c
            })
            &&& vehicle && action == "Stop"@ ==> after == (Counters {
                event_vehicle_stop: c.event_vehicle_stop.wrapping_add(1),
                ..c
            })
            &&& other ==> after == (Counters { event_other: c.event_other.wrapping_add(1), ..c })
        }),
{
    reveal_strlit("Start");
    reveal_strlit("Stop");
    assert("Start"@.len() != "Stop"@.len());
}

} // verus!
