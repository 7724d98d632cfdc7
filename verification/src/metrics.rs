//! Counters and gauges, and their exposition for Prometheus.

use vstd::prelude::*;
use vstd::string::*;
use crate::text::{decimal, digit_char, flat, lemma_flat_push, lemma_shown, push_decimal, same, shows};

verus! {

/// The version in the build information.
pub const VERSION: &'static str = "0.1.0";

/// The parts of the program that errors are counted by.
#[derive(Clone, Copy, Debug, PartialEq, Eq, Structural)]
pub enum ErrorSubsystem {
    EventStream,
    Snapshot,
    LiveStream,
    DataStream,
    Recording,
}

/// What is counted and gauged. All labels are from fixed sets.
#[derive(Clone, Copy, Debug, PartialEq, Eq, Structural)]
pub struct Counters {
    pub event_person_start: u64,
    pub event_person_stop: u64,
    pub event_vehicle_start: u64,
    pub event_vehicle_stop: u64,
    pub event_other: u64,
    pub event_reconnects: u64,
    pub snapshot_requests: u64,
    pub snapshot_successes: u64,
    pub snapshot_deliveries: u64,
    pub snapshot_delivery_bytes: u64,
    pub snapshot_delivery_errors: u64,
    pub live_stream_starts: u64,
    pub recording_fragments: u64,
    pub recording_bytes: u64,
    pub errors_event_stream: u64,
    pub errors_snapshot: u64,
    pub errors_live_stream: u64,
    pub errors_data_stream: u64,
    pub errors_recording: u64,
    pub event_stream_connected: bool,
    pub live_connections: u64,
    pub data_stream_connections: u64,
    pub recording_stream_active: bool,
    pub motion_active: bool,
}

/// The process-wide counters and gauges.
#[derive(Debug)]
pub struct Metrics {
    counters: Counters,
}

impl View for Metrics {
    type V = Counters;

    closed spec fn view(&self) -> Counters {
        self.counters
    }
}

/// The text before each number of the exposition.
pub const EXPOSITION: [&'static str; 26] = [
    "# HELP amcrust_camera_events_total Camera detection events received.\n# TYPE amcrust_camera_events_total counter\namcrust_camera_events_total{type=\"person\",action=\"start\"} ",
    "amcrust_camera_events_total{type=\"person\",action=\"stop\"} ",
    "amcrust_camera_events_total{type=\"vehicle\",action=\"start\"} ",
    "amcrust_camera_events_total{type=\"vehicle\",action=\"stop\"} ",
    "amcrust_camera_events_total{type=\"other\",action=\"other\"} ",
    "# HELP amcrust_errors_total Operational errors by subsystem.\n# TYPE amcrust_errors_total counter\namcrust_errors_total{subsystem=\"event_stream\"} ",
    "amcrust_errors_total{subsystem=\"snapshot\"} ",
    "amcrust_errors_total{subsystem=\"live_stream\"} ",
    "amcrust_errors_total{subsystem=\"data_stream\"} ",
    "amcrust_errors_total{subsystem=\"recording\"} ",
    "# HELP amcrust_connections_open Current open connections by type.\n# TYPE amcrust_connections_open gauge\namcrust_connections_open{type=\"event_stream\"} ",
    "amcrust_connections_open{type=\"live_stream\"} ",
    "amcrust_connections_open{type=\"data_stream\"} ",
    "# HELP amcrust_video_status Whether each video path is currently active.\n# TYPE amcrust_video_status gauge\namcrust_video_status{type=\"live\"} ",
    "amcrust_video_status{type=\"recording_pipeline\"} ",
    "amcrust_video_status{type=\"recording_delivery\"} ",
    "# HELP amcrust_motion_active Whether camera motion is currently active.\n# TYPE amcrust_motion_active gauge\namcrust_motion_active ",
    "# HELP amcrust_event_stream_reconnects_total Camera event-stream reconnects.\n# TYPE amcrust_event_stream_reconnects_total counter\namcrust_event_stream_reconnects_total ",
    "# HELP amcrust_snapshot_requests_total HomeKit snapshot requests.\n# TYPE amcrust_snapshot_requests_total counter\namcrust_snapshot_requests_total ",
    "# HELP amcrust_snapshot_successes_total Snapshot JPEGs generated successfully.\n# TYPE amcrust_snapshot_successes_total counter\namcrust_snapshot_successes_total ",
    "# HELP amcrust_snapshot_deliveries_total Snapshot responses written to controller sockets.\n# TYPE amcrust_snapshot_deliveries_total counter\namcrust_snapshot_deliveries_total ",
    "# HELP amcrust_snapshot_delivery_bytes_total Snapshot JPEG bytes written to controller sockets.\n# TYPE amcrust_snapshot_delivery_bytes_total counter\namcrust_snapshot_delivery_bytes_total ",
    "# HELP amcrust_snapshot_delivery_errors_total Snapshot responses that failed during socket delivery.\n# TYPE amcrust_snapshot_delivery_errors_total counter\namcrust_snapshot_delivery_errors_total ",
    "# HELP amcrust_live_stream_starts_total Live video streams started.\n# TYPE amcrust_live_stream_starts_total counter\namcrust_live_stream_starts_total ",
    "# HELP amcrust_recording_fragments_total Recording fragments produced.\n# TYPE amcrust_recording_fragments_total counter\namcrust_recording_fragments_total ",
    "# HELP amcrust_recording_bytes_total Recording fragment bytes produced.\n# TYPE amcrust_recording_bytes_total counter\namcrust_recording_bytes_total ",
];

pub open spec fn flag(b: bool) -> u64 {
    if b {
        1
    } else {
        0
    }
}

fn flag_value(b: bool) -> (n: u64)
    ensures
        n == flag(b),
{
    if b {
        1
    } else {
        0
    }
}

/// The numbers of the exposition, in their order.
pub open spec fn exposed_values(c: Counters, recording_pipeline_running: bool) -> Seq<u64> {
    seq![
        c.event_person_start,
        c.event_person_stop,
        c.event_vehicle_start,
        c.event_vehicle_stop,
        c.event_other,
        c.errors_event_stream,
        c.errors_snapshot,
        c.errors_live_stream,
        c.errors_data_stream,
        c.errors_recording,
        flag(c.event_stream_connected),
        c.live_connections,
        c.data_stream_connections,
        flag(c.live_connections > 0),
        flag(recording_pipeline_running),
        flag(c.recording_stream_active),
        flag(c.motion_active),
        c.event_reconnects,
        c.snapshot_requests,
        c.snapshot_successes,
        c.snapshot_deliveries,
        c.snapshot_delivery_bytes,
        c.snapshot_delivery_errors,
        c.live_stream_starts,
        c.recording_fragments,
        c.recording_bytes,
    ]
}

/// Texts, each with a number and a line feed behind it.
pub open spec fn exposed(texts: Seq<&str>, values: Seq<u64>) -> Seq<char>
    decreases texts.len(),
{
    if texts.len() == 0 || texts.len() != values.len() {
        Seq::empty()
    } else {
        exposed(texts.drop_last(), values.drop_last()) + texts.last()@ + decimal(
            values.last() as nat,
        ) + "\n"@
    }
}

/// A number of milliseconds as seconds, with three decimals.
pub open spec fn seconds_text(millis: u64) -> Seq<char> {
    decimal((millis / 1000) as nat) + "."@ + seq![
        digit_char((millis / 100 % 10) as nat),
        digit_char((millis / 10 % 10) as nat),
        digit_char((millis % 10) as nat),
    ]
}

/// The exposition: the version, the uptime, and every counter and gauge.
pub open spec fn exposition(
    c: Counters,
    recording_pipeline_running: bool,
    uptime_millis: u64,
) -> Seq<char> {
    "# HELP amcrust_build_info Build and version information.\n# TYPE amcrust_build_info gauge\namcrust_build_info{version=\""@
        + VERSION@ + "\"} 1\n# HELP amcrust_uptime_seconds Seconds since the process started.\n# TYPE amcrust_uptime_seconds gauge\namcrust_uptime_seconds "@
        + seconds_text(uptime_millis) + "\n"@ + exposed(
        EXPOSITION@,
        exposed_values(c, recording_pipeline_running),
    )
}

fn push_seconds(out: &mut String, millis: u64)
    ensures
        final(out)@ == old(out)@ + seconds_text(millis),
{
    push_decimal(out, millis / 1000);
    out.append(".");
    let ghost before = out@;
    out.push((48 + (millis / 100 % 10) as u8) as char);
    out.push((48 + (millis / 10 % 10) as u8) as char);
    out.push((48 + (millis % 10) as u8) as char);
    assert(out@ =~= before + seq![
        digit_char((millis / 100 % 10) as nat),
        digit_char((millis / 10 % 10) as nat),
        digit_char((millis % 10) as nat),
    ]);
    assert(out@ =~= old(out)@ + seconds_text(millis));
}

/// The sum of all errors.
pub open spec fn all_errors(c: Counters) -> int {
    c.errors_event_stream + c.errors_snapshot + c.errors_live_stream + c.errors_data_stream
        + c.errors_recording
}

/// The line that sums the process up.
pub open spec fn summary(c: Counters, uptime_secs: u64) -> Seq<char> {
    "amcrust stats: uptime="@ + decimal(uptime_secs as nat) + "s events(person="@ + decimal(
        (c.event_person_start + c.event_person_stop) as nat,
    ) + ", vehicle="@ + decimal((c.event_vehicle_start + c.event_vehicle_stop) as nat)
        + ", other="@ + decimal(c.event_other as nat) + ") snapshots(generated="@ + decimal(
        c.snapshot_successes as nat,
    ) + "/"@ + decimal(c.snapshot_requests as nat) + ", delivered="@ + decimal(
        c.snapshot_deliveries as nat,
    ) + ", delivery_errors="@ + decimal(c.snapshot_delivery_errors as nat) + ") live_streams="@
        + decimal(c.live_stream_starts as nat) + " recording_fragments="@ + decimal(
        c.recording_fragments as nat,
    ) + " recording_bytes="@ + decimal(c.recording_bytes as nat) + " errors="@ + decimal(
        all_errors(c) as nat,
    ) + " connections(event="@ + decimal(flag(c.event_stream_connected) as nat) + ", live="@
        + decimal(c.live_connections as nat) + ", data="@ + decimal(
        c.data_stream_connections as nat,
    ) + ") motion="@ + decimal(flag(c.motion_active) as nat)
}

/// Whether the sums in the summary fit 64 bits.
pub open spec fn sums_fit(c: Counters) -> bool {
    c.event_person_start + c.event_person_stop <= u64::MAX && c.event_vehicle_start
        + c.event_vehicle_stop <= u64::MAX && all_errors(c) <= u64::MAX
}

impl Metrics {
    pub fn new() -> (m: Self)
        ensures
            m@ == (Counters {
                event_person_start: 0,
                event_person_stop: 0,
                event_vehicle_start: 0,
                event_vehicle_stop: 0,
                event_other: 0,
                event_reconnects: 0,
                snapshot_requests: 0,
                snapshot_successes: 0,
                snapshot_deliveries: 0,
                snapshot_delivery_bytes: 0,
                snapshot_delivery_errors: 0,
                live_stream_starts: 0,
                recording_fragments: 0,
                recording_bytes: 0,
                errors_event_stream: 0,
                errors_snapshot: 0,
                errors_live_stream: 0,
                errors_data_stream: 0,
                errors_recording: 0,
                event_stream_connected: false,
                live_connections: 0,
                data_stream_connections: 0,
                recording_stream_active: false,
                motion_active: false,
            }),
    {
        Metrics {
            counters: Counters {
                event_person_start: 0,
                event_person_stop: 0,
                event_vehicle_start: 0,
                event_vehicle_stop: 0,
                event_other: 0,
                event_reconnects: 0,
                snapshot_requests: 0,
                snapshot_successes: 0,
                snapshot_deliveries: 0,
                snapshot_delivery_bytes: 0,
                snapshot_delivery_errors: 0,
                live_stream_starts: 0,
                recording_fragments: 0,
                recording_bytes: 0,
                errors_event_stream: 0,
                errors_snapshot: 0,
                errors_live_stream: 0,
                errors_data_stream: 0,
                errors_recording: 0,
                event_stream_connected: false,
                live_connections: 0,
                data_stream_connections: 0,
                recording_stream_active: false,
                motion_active: false,
            },
        }
    }

    /// The counters and gauges as they are.
    pub fn counters(&self) -> (c: Counters)
        ensures
            c == self@,
    {
        self.counters
    }

    /// Counts an event of the camera, by what it saw and whether it starts or stops.
    pub fn event(&mut self, vehicle: bool, action: &str)
        ensures
            final(self)@ == if !vehicle && action@ == "Start"@ {
                Counters {
                    event_person_start: old(self)@.event_person_start.wrapping_add(1),
                    ..old(self)@
                }
            } else if !vehicle && action@ == "Stop"@ {
                Counters {
                    event_person_stop: old(self)@.event_person_stop.wrapping_add(1),
                    ..old(self)@
                }
            } else if vehicle && action@ == "Start"@ {
                Counters {
                    event_vehicle_start: old(self)@.event_vehicle_start.wrapping_add(1),
                    ..old(self)@
                }
            } else if vehicle && action@ == "Stop"@ {
                Counters {
                    event_vehicle_stop: old(self)@.event_vehicle_stop.wrapping_add(1),
                    ..old(self)@
                }
            } else {
                Counters { event_other: old(self)@.event_other.wrapping_add(1), ..old(self)@ }
            },
    {
        let start: bool = same(action, "Start");
        let stop: bool = same(action, "Stop");
        if !vehicle && start {
            self.counters.event_person_start = self.counters.event_person_start.wrapping_add(1);
        } else if !vehicle && stop {
            self.counters.event_person_stop = self.counters.event_person_stop.wrapping_add(1);
        } else if vehicle && start {
            self.counters.event_vehicle_start = self.counters.event_vehicle_start.wrapping_add(1);
        } else if vehicle && stop {
            self.counters.event_vehicle_stop = self.counters.event_vehicle_stop.wrapping_add(1);
        } else {
            self.counters.event_other = self.counters.event_other.wrapping_add(1);
        }
    }

    /// Whether the camera's event stream is connected.
    pub fn event_stream_connected(&mut self, connected: bool)
        ensures
            final(self)@ == (Counters { event_stream_connected: connected, ..old(self)@ }),
    {
        self.counters.event_stream_connected = connected;
    }

    /// Counts a new connection to the camera's event stream.
    pub fn event_stream_reconnect(&mut self)
        ensures
            final(self)@ == (Counters {
                event_reconnects: old(self)@.event_reconnects.wrapping_add(1),
                ..old(self)@
            }),
    {
        self.counters.event_reconnects = self.counters.event_reconnects.wrapping_add(1);
    }

    /// Counts a request for a snapshot.
    pub fn snapshot_request(&mut self)
        ensures
            final(self)@ == (Counters {
                snapshot_requests: old(self)@.snapshot_requests.wrapping_add(1),
                ..old(self)@
            }),
    {
        self.counters.snapshot_requests = self.counters.snapshot_requests.wrapping_add(1);
    }

    /// Counts a snapshot that was made.
    pub fn snapshot_success(&mut self)
        ensures
            final(self)@ == (Counters {
                snapshot_successes: old(self)@.snapshot_successes.wrapping_add(1),
                ..old(self)@
            }),
    {
        self.counters.snapshot_successes = self.counters.snapshot_successes.wrapping_add(1);
    }

    /// Counts a snapshot that was delivered, and its bytes.
    pub fn snapshot_delivered(&mut self, bytes: usize)
        ensures
            final(self)@ == (Counters {
                snapshot_deliveries: old(self)@.snapshot_deliveries.wrapping_add(1),
                snapshot_delivery_bytes: old(self)@.snapshot_delivery_bytes.wrapping_add(bytes as u64),
                ..old(self)@
            }),
    {
        self.counters.snapshot_deliveries = self.counters.snapshot_deliveries.wrapping_add(1);
        self.counters.snapshot_delivery_bytes = self.counters.snapshot_delivery_bytes.wrapping_add(bytes as u64);
    }

    /// Counts a snapshot that was not delivered; it is an error of snapshots too.
    pub fn snapshot_delivery_failed(&mut self)
        ensures
            final(self)@ == (Counters {
                snapshot_delivery_errors: old(self)@.snapshot_delivery_errors.wrapping_add(1),
                errors_snapshot: old(self)@.errors_snapshot.wrapping_add(1),
                ..old(self)@
            }),
    {
        self.counters.snapshot_delivery_errors = self.counters.snapshot_delivery_errors.wrapping_add(1);
        self.counters.errors_snapshot = self.counters.errors_snapshot.wrapping_add(1);
    }

    /// Counts a live stream.
    pub fn live_stream_started(&mut self)
        ensures
            final(self)@ == (Counters {
                live_stream_starts: old(self)@.live_stream_starts.wrapping_add(1),
                ..old(self)@
            }),
    {
        self.counters.live_stream_starts = self.counters.live_stream_starts.wrapping_add(1);
    }

    /// Counts a recording fragment, and its bytes.
    pub fn recording_fragment(&mut self, bytes: usize)
        ensures
            final(self)@ == (Counters {
                recording_fragments: old(self)@.recording_fragments.wrapping_add(1),
                recording_bytes: old(self)@.recording_bytes.wrapping_add(bytes as u64),
                ..old(self)@
            }),
    {
        self.counters.recording_fragments = self.counters.recording_fragments.wrapping_add(1);
        self.counters.recording_bytes = self.counters.recording_bytes.wrapping_add(bytes as u64);
    }

    /// How many live connections are open.
    pub fn set_live_connections(&mut self, count: usize)
        ensures
            final(self)@ == (Counters { live_connections: count as u64, ..old(self)@ }),
    {
        self.counters.live_connections = count as u64;
    }

    /// Counts an open data stream connection.
    pub fn data_stream_opened(&mut self)
        ensures
            final(self)@ == (Counters {
                data_stream_connections: old(self)@.data_stream_connections.wrapping_add(1),
                ..old(self)@
            }),
    {
        self.counters.data_stream_connections = self.counters.data_stream_connections.wrapping_add(1);
    }

    /// Takes back an open data stream connection; there are never fewer than none.
    pub fn data_stream_closed(&mut self)
        ensures
            final(self)@ == (Counters {
                data_stream_connections: if old(self)@.data_stream_connections == 0 {
                    0
                } else {
                    (old(self)@.data_stream_connections - 1) as u64
                },
                ..old(self)@
            }),
    {
        if self.counters.data_stream_connections > 0 {
            self.counters.data_stream_connections = self.counters.data_stream_connections - 1;
        }
    }

    /// Whether a recording is being delivered.
    pub fn recording_stream_active(&mut self, active: bool)
        ensures
            final(self)@ == (Counters { recording_stream_active: active, ..old(self)@ }),
    {
        self.counters.recording_stream_active = active;
    }

    /// Whether there is motion.
    pub fn motion_active(&mut self, active: bool)
        ensures
            final(self)@ == (Counters { motion_active: active, ..old(self)@ }),
    {
        self.counters.motion_active = active;
    }

    /// Counts an error of a part of the program.
    pub fn error(&mut self, subsystem: ErrorSubsystem)
        ensures
            final(self)@ == match subsystem {
                ErrorSubsystem::EventStream => Counters {
                    errors_event_stream: old(self)@.errors_event_stream.wrapping_add(1),
                    ..old(self)@
                },
                ErrorSubsystem::Snapshot => Counters {
                    errors_snapshot: old(self)@.errors_snapshot.wrapping_add(1),
                    ..old(self)@
                },
                ErrorSubsystem::LiveStream => Counters {
                    errors_live_stream: old(self)@.errors_live_stream.wrapping_add(1),
                    ..old(self)@
                },
                ErrorSubsystem::DataStream => Counters {
                    errors_data_stream: old(self)@.errors_data_stream.wrapping_add(1),
                    ..old(self)@
                },
                ErrorSubsystem::Recording => Counters {
                    errors_recording: old(self)@.errors_recording.wrapping_add(1),
                    ..old(self)@
                },
            },
    {
        match subsystem {
            ErrorSubsystem::EventStream => {
                self.counters.errors_event_stream = self.counters.errors_event_stream.wrapping_add(
                    1,
                );
            },
            ErrorSubsystem::Snapshot => {
                self.counters.errors_snapshot = self.counters.errors_snapshot.wrapping_add(1);
            },
            ErrorSubsystem::LiveStream => {
                self.counters.errors_live_stream = self.counters.errors_live_stream.wrapping_add(1);
            },
            ErrorSubsystem::DataStream => {
                self.counters.errors_data_stream = self.counters.errors_data_stream.wrapping_add(1);
            },
            ErrorSubsystem::Recording => {
                self.counters.errors_recording = self.counters.errors_recording.wrapping_add(1);
            },
        }
    }

    /// The exposition.
    pub fn render(&self, recording_pipeline_running: bool, uptime_millis: u64) -> (out: String)
        ensures
            out@ == exposition(self@, recording_pipeline_running, uptime_millis),
    {
        let c = self.counters;
        let values: [u64; 26] = [
            c.event_person_start,
            c.event_person_stop,
            c.event_vehicle_start,
            c.event_vehicle_stop,
            c.event_other,
            c.errors_event_stream,
            c.errors_snapshot,
            c.errors_live_stream,
            c.errors_data_stream,
            c.errors_recording,
            flag_value(c.event_stream_connected),
            c.live_connections,
            c.data_stream_connections,
            flag_value(c.live_connections > 0),
            flag_value(recording_pipeline_running),
            flag_value(c.recording_stream_active),
            flag_value(c.motion_active),
            c.event_reconnects,
            c.snapshot_requests,
            c.snapshot_successes,
            c.snapshot_deliveries,
            c.snapshot_delivery_bytes,
            c.snapshot_delivery_errors,
            c.live_stream_starts,
            c.recording_fragments,
            c.recording_bytes,
        ];
        let texts = EXPOSITION;
        let ghost all = exposed_values(c, recording_pipeline_running);
        assert(values@ =~= all);
        let mut out = String::from_str(
            "# HELP amcrust_build_info Build and version information.\n# TYPE amcrust_build_info gauge\namcrust_build_info{version=\"",
        );
        out.append(VERSION);
        out.append(
            "\"} 1\n# HELP amcrust_uptime_seconds Seconds since the process started.\n# TYPE amcrust_uptime_seconds gauge\namcrust_uptime_seconds ",
        );
        push_seconds(&mut out, uptime_millis);
        out.append("\n");
        let ghost head = out@;
        let mut i: usize = 0;
        assert(head + exposed(texts@.take(0), all.take(0)) =~= head);
        while i < 26
            invariant
                i <= 26,
                texts@ == EXPOSITION@,
                texts@.len() == 26,
                values@ == all,
                all.len() == 26,
                out@ == head + exposed(texts@.take(i as int), all.take(i as int)),
            decreases 26 - i,
        {
            let ghost before = out@;
            out.append(texts[i]);
            push_decimal(&mut out, values[i]);
            out.append("\n");
            proof {
                let t = texts@.take(i + 1);
                let v = all.take(i + 1);
                assert(t.drop_last() =~= texts@.take(i as int));
                assert(v.drop_last() =~= all.take(i as int));
                assert(out@ =~= head + exposed(t, v));
            }
            i = i + 1;
        }
        assert(texts@.take(26) =~= texts@);
        assert(all.take(26) =~= all);
        assert(out@ =~= exposition(self@, recording_pipeline_running, uptime_millis));
        out
    }

    /// Whether the sums in the summary fit 64 bits.
    pub fn summary_fits(&self) -> (r: bool)
        ensures
            r == sums_fit(self@),
    {
        let c = self.counters;
        let limit: u128 = 0xffff_ffff_ffff_ffff;
        c.event_person_start as u128 + c.event_person_stop as u128 <= limit
            && c.event_vehicle_start as u128 + c.event_vehicle_stop as u128 <= limit
            && c.errors_event_stream as u128 + c.errors_snapshot as u128
            + c.errors_live_stream as u128 + c.errors_data_stream as u128
            + c.errors_recording as u128 <= limit
    }

    /// One line that sums the process up.
    pub fn stderr_summary(&self, uptime_secs: u64) -> (out: String)
        requires
            sums_fit(self@),
        ensures
            out@ == summary(self@, uptime_secs),
    {
        let c = self.counters;
        let mut out = String::from_str("amcrust stats: uptime=");
        push_decimal(&mut out, uptime_secs);
        out.append("s events(person=");
        push_decimal(&mut out, c.event_person_start + c.event_person_stop);
        out.append(", vehicle=");
        push_decimal(&mut out, c.event_vehicle_start + c.event_vehicle_stop);
        out.append(", other=");
        push_decimal(&mut out, c.event_other);
        out.append(") snapshots(generated=");
        push_decimal(&mut out, c.snapshot_successes);
        out.append("/");
        push_decimal(&mut out, c.snapshot_requests);
        out.append(", delivered=");
        push_decimal(&mut out, c.snapshot_deliveries);
        out.append(", delivery_errors=");
        push_decimal(&mut out, c.snapshot_delivery_errors);
        out.append(") live_streams=");
        push_decimal(&mut out, c.live_stream_starts);
        out.append(" recording_fragments=");
        push_decimal(&mut out, c.recording_fragments);
        out.append(" recording_bytes=");
        push_decimal(&mut out, c.recording_bytes);
        out.append(" errors=");
        push_decimal(
            &mut out,
            c.errors_event_stream + c.errors_snapshot + c.errors_live_stream
                + c.errors_data_stream + c.errors_recording,
        );
        out.append(" connections(event=");
        push_decimal(&mut out, flag_value(c.event_stream_connected));
        out.append(", live=");
        push_decimal(&mut out, c.live_connections);
        out.append(", data=");
        push_decimal(&mut out, c.data_stream_connections);
        out.append(") motion=");
        push_decimal(&mut out, flag_value(c.motion_active));
        out
    }
}

/// What the metrics server answers to a request.
#[derive(Debug)]
pub struct Answer {
    pub status: u16,
    pub content_type: &'static str,
    pub body: String,
}

pub open spec fn truth(b: bool) -> Seq<char> {
    if b {
        "true"@
    } else {
        "false"@
    }
}

fn push_truth(out: &mut String, b: bool)
    ensures
        final(out)@ == old(out)@ + truth(b),
{
    if b {
        out.append("true");
    } else {
        out.append("false");
    }
}

/// The health report, a JSON object. The uptime is the text of a JSON number.
pub open spec fn health(c: Counters, recording_pipeline_running: bool, uptime: Seq<char>) -> Seq<
    char,
> {
    "{\"event_stream_connected\":"@ + truth(c.event_stream_connected) + ",\"live_connections\":"@
        + decimal(c.live_connections as nat) + ",\"recording_pipeline_running\":"@ + truth(
        recording_pipeline_running,
    ) + ",\"snapshot_delivered\":"@ + decimal(c.snapshot_deliveries as nat)
        + ",\"snapshot_delivery_errors\":"@ + decimal(c.snapshot_delivery_errors as nat)
        + ",\"snapshot_generated\":"@ + decimal(c.snapshot_successes as nat)
        + ",\"snapshot_requests\":"@ + decimal(c.snapshot_requests as nat)
        + ",\"status\":\"ok\",\"uptime_seconds\":"@ + uptime + "}"@
}

impl Metrics {
    /// The health report.
    pub fn health_report(&self, recording_pipeline_running: bool, uptime: &str) -> (out: String)
        ensures
            out@ == health(self@, recording_pipeline_running, uptime@),
    {
        let c = self.counters;
        let mut out = String::from_str("{\"event_stream_connected\":");
        push_truth(&mut out, c.event_stream_connected);
        out.append(",\"live_connections\":");
        push_decimal(&mut out, c.live_connections);
        out.append(",\"recording_pipeline_running\":");
        push_truth(&mut out, recording_pipeline_running);
        out.append(",\"snapshot_delivered\":");
        push_decimal(&mut out, c.snapshot_deliveries);
        out.append(",\"snapshot_delivery_errors\":");
        push_decimal(&mut out, c.snapshot_delivery_errors);
        out.append(",\"snapshot_generated\":");
        push_decimal(&mut out, c.snapshot_successes);
        out.append(",\"snapshot_requests\":");
        push_decimal(&mut out, c.snapshot_requests);
        out.append(",\"status\":\"ok\",\"uptime_seconds\":");
        out.append(uptime);
        out.append("}");
        out
    }

    /// The answer to a request. The uptime comes twice: in milliseconds for the
    /// exposition, and as the text of a JSON number for the health report.
    pub fn answer(
        &self,
        method: &str,
        path: &str,
        recording_pipeline_running: bool,
        uptime_millis: u64,
        uptime: &str,
    ) -> (r: Answer)
        ensures
            method@ == "GET"@ && path@ == "/health"@ ==> {
                &&& r.status == 200
                &&& r.content_type@ == "application/json"@
                &&& r.body@ == health(self@, recording_pipeline_running, uptime@)
            },
            method@ == "GET"@ && path@ != "/health"@ && path@ == "/metrics"@ ==> {
                &&& r.status == 200
                &&& r.content_type@ == "text/plain; version=0.0.4; charset=utf-8"@
                &&& r.body@ == exposition(self@, recording_pipeline_running, uptime_millis)
            },
            method@ != "GET"@ || (path@ != "/health"@ && path@ != "/metrics"@) ==> {
                &&& r.status == 404
                &&& r.content_type@ == "text/plain; charset=utf-8"@
                &&& r.body@ == "not found\n"@
            },
    {
        if same(method, "GET") && same(path, "/health") {
            Answer {
                status: 200,
                content_type: "application/json",
                body: self.health_report(recording_pipeline_running, uptime),
            }
        } else if same(method, "GET") && same(path, "/metrics") {
            Answer {
                status: 200,
                content_type: "text/plain; version=0.0.4; charset=utf-8",
                body: self.render(recording_pipeline_running, uptime_millis),
            }
        } else {
            Answer {
                status: 404,
                content_type: "text/plain; charset=utf-8",
                body: String::from_str("not found\n"),
            }
        }
    }
}

/// An open data stream connection that is closed again leaves the count as it was.
pub proof fn law_closing_undoes_opening(before: Counters, opened: Counters, closed: Counters)
    requires
        before.data_stream_connections < u64::MAX,
        opened == (Counters {
            data_stream_connections: before.data_stream_connections.wrapping_add(1),
            ..before
        }),
        closed == (Counters {
            data_stream_connections: if opened.data_stream_connections == 0 {
                0
            } else {
                (opened.data_stream_connections - 1) as u64
            },
            ..opened
        }),
    ensures
        closed == before,
{
}

// --- What is shown of each counter ---

/// Whether a line of the exposition is this text with this number behind it.
pub open spec fn has_line(
    c: Counters,
    running: bool,
    uptime: u64,
    text: Seq<char>,
    value: u64,
) -> bool {
    shows(exposition(c, running, uptime), text, decimal(value as nat) + "\n"@)
}

proof fn lemma_exposed_line(texts: Seq<&str>, values: Seq<u64>, i: int) -> (ends: (
    Seq<char>,
    Seq<char>,
))
    requires
        0 <= i < texts.len(),
        texts.len() == values.len(),
        forall|k: int|
            0 <= k < texts.len() ==> (#[trigger] texts[k])@.len() > 0 && !('0' <= texts[k]@[0]
                <= '9'),
    ensures
        exposed(texts, values) == ends.0 + texts[i]@ + (decimal(values[i] as nat) + "\n"@) + ends.1,
        ends.1.len() == 0 || !('0' <= ends.1[0] <= '9'),
    decreases texts.len(),
{
    let front = exposed(texts.drop_last(), values.drop_last());
    let last = decimal(values.last() as nat) + "\n"@;
    assert(exposed(texts, values) =~= front + texts.last()@ + last);
    if i == texts.len() - 1 {
        let none = Seq::<char>::empty();
        assert(front + texts.last()@ + last =~= front + texts.last()@ + last + none);
        (front, none)
    } else {
        assert forall|k: int| 0 <= k < texts.drop_last().len() implies (#[trigger]
        texts.drop_last()[k])@.len() > 0 && !('0' <= texts.drop_last()[k]@[0] <= '9') by {
            assert(texts[k] == texts.drop_last()[k]);
        }
        let ends = lemma_exposed_line(texts.drop_last(), values.drop_last(), i);
        assert(texts[texts.len() - 1]@.len() > 0);
        let more = ends.1 + texts.last()@ + last;
        assert(exposed(texts, values) =~= ends.0 + texts[i]@ + (decimal(values[i] as nat) + "\n"@)
            + more);
        (ends.0, more)
    }
}

proof fn lemma_texts_start(k: int)
    requires
        0 <= k < 26,
    ensures
        EXPOSITION@[k]@.len() > 0,
        !('0' <= EXPOSITION@[k]@[0] <= '9'),
{
    if k == 0 {
        reveal_strlit("# HELP amcrust_camera_events_total Camera detection events received.\n# TYPE amcrust_camera_events_total counter\namcrust_camera_events_total{type=\"person\",action=\"start\"} ");
    }
    if k == 1 {
        reveal_strlit("amcrust_camera_events_total{type=\"person\",action=\"stop\"} ");
    }
    if k == 2 {
        reveal_strlit("amcrust_camera_events_total{type=\"vehicle\",action=\"start\"} ");
    }
    if k == 3 {
        reveal_strlit("amcrust_camera_events_total{type=\"vehicle\",action=\"stop\"} ");
    }
    if k == 4 {
        reveal_strlit("amcrust_camera_events_total{type=\"other\",action=\"other\"} ");
    }
    if k == 5 {
        reveal_strlit("# HELP amcrust_errors_total Operational errors by subsystem.\n# TYPE amcrust_errors_total counter\namcrust_errors_total{subsystem=\"event_stream\"} ");
    }
    if k == 6 {
        reveal_strlit("amcrust_errors_total{subsystem=\"snapshot\"} ");
    }
    if k == 7 {
        reveal_strlit("amcrust_errors_total{subsystem=\"live_stream\"} ");
    }
    if k == 8 {
        reveal_strlit("amcrust_errors_total{subsystem=\"data_stream\"} ");
    }
    if k == 9 {
        reveal_strlit("amcrust_errors_total{subsystem=\"recording\"} ");
    }
    if k == 10 {
        reveal_strlit("# HELP amcrust_connections_open Current open connections by type.\n# TYPE amcrust_connections_open gauge\namcrust_connections_open{type=\"event_stream\"} ");
    }
    if k == 11 {
        reveal_strlit("amcrust_connections_open{type=\"live_stream\"} ");
    }
    if k == 12 {
        reveal_strlit("amcrust_connections_open{type=\"data_stream\"} ");
    }
    if k == 13 {
        reveal_strlit("# HELP amcrust_video_status Whether each video path is currently active.\n# TYPE amcrust_video_status gauge\namcrust_video_status{type=\"live\"} ");
    }
    if k == 14 {
        reveal_strlit("amcrust_video_status{type=\"recording_pipeline\"} ");
    }
    if k == 15 {
        reveal_strlit("amcrust_video_status{type=\"recording_delivery\"} ");
    }
    if k == 16 {
        reveal_strlit("# HELP amcrust_motion_active Whether camera motion is currently active.\n# TYPE amcrust_motion_active gauge\namcrust_motion_active ");
    }
    if k == 17 {
        reveal_strlit("# HELP amcrust_event_stream_reconnects_total Camera event-stream reconnects.\n# TYPE amcrust_event_stream_reconnects_total counter\namcrust_event_stream_reconnects_total ");
    }
    if k == 18 {
        reveal_strlit("# HELP amcrust_snapshot_requests_total HomeKit snapshot requests.\n# TYPE amcrust_snapshot_requests_total counter\namcrust_snapshot_requests_total ");
    }
    if k == 19 {
        reveal_strlit("# HELP amcrust_snapshot_successes_total Snapshot JPEGs generated successfully.\n# TYPE amcrust_snapshot_successes_total counter\namcrust_snapshot_successes_total ");
    }
    if k == 20 {
        reveal_strlit("# HELP amcrust_snapshot_deliveries_total Snapshot responses written to controller sockets.\n# TYPE amcrust_snapshot_deliveries_total counter\namcrust_snapshot_deliveries_total ");
    }
    if k == 21 {
        reveal_strlit("# HELP amcrust_snapshot_delivery_bytes_total Snapshot JPEG bytes written to controller sockets.\n# TYPE amcrust_snapshot_delivery_bytes_total counter\namcrust_snapshot_delivery_bytes_total ");
    }
    if k == 22 {
        reveal_strlit("# HELP amcrust_snapshot_delivery_errors_total Snapshot responses that failed during socket delivery.\n# TYPE amcrust_snapshot_delivery_errors_total counter\namcrust_snapshot_delivery_errors_total ");
    }
    if k == 23 {
        reveal_strlit("# HELP amcrust_live_stream_starts_total Live video streams started.\n# TYPE amcrust_live_stream_starts_total counter\namcrust_live_stream_starts_total ");
    }
    if k == 24 {
        reveal_strlit("# HELP amcrust_recording_fragments_total Recording fragments produced.\n# TYPE amcrust_recording_fragments_total counter\namcrust_recording_fragments_total ");
    }
    if k == 25 {
        reveal_strlit("# HELP amcrust_recording_bytes_total Recording fragment bytes produced.\n# TYPE amcrust_recording_bytes_total counter\namcrust_recording_bytes_total ");
    }
}

proof fn lemma_line(c: Counters, running: bool, uptime: u64, i: int)
    requires
        0 <= i < 26,
    ensures
        has_line(c, running, uptime, EXPOSITION@[i]@, exposed_values(c, running)[i]),
{
    let texts = EXPOSITION@;
    let values = exposed_values(c, running);
    assert forall|k: int| 0 <= k < texts.len() implies (#[trigger] texts[k])@.len() > 0 && !('0'
        <= texts[k]@[0] <= '9') by {
        lemma_texts_start(k);
    }
    let ends = lemma_exposed_line(texts, values, i);
    let head = "# HELP amcrust_build_info Build and version information.\n# TYPE amcrust_build_info gauge\namcrust_build_info{version=\""@
        + VERSION@ + "\"} 1\n# HELP amcrust_uptime_seconds Seconds since the process started.\n# TYPE amcrust_uptime_seconds gauge\namcrust_uptime_seconds "@
        + seconds_text(uptime) + "\n"@;
    let value = decimal(values[i] as nat) + "\n"@;
    let text = exposition(c, running, uptime);
    assert(text == head + exposed(texts, values));
    assert(text =~= (head + ends.0) + texts[i]@ + value + ends.1);
}

/// Every counter and gauge has its line in the exposition, with its own labels and its
/// own number; what is on or off is 1 or 0.
#[verifier::rlimit(60)]
pub proof fn law_every_counter_has_its_line(c: Counters, running: bool, uptime: u64)
    ensures
        has_line(c, running, uptime, "# HELP amcrust_camera_events_total Camera detection events received.\n# TYPE amcrust_camera_events_total counter\namcrust_camera_events_total{type=\"person\",action=\"start\"} "@, c.event_person_start),
        has_line(c, running, uptime, "amcrust_camera_events_total{type=\"person\",action=\"stop\"} "@, c.event_person_stop),
        has_line(c, running, uptime, "amcrust_camera_events_total{type=\"vehicle\",action=\"start\"} "@, c.event_vehicle_start),
        has_line(c, running, uptime, "amcrust_camera_events_total{type=\"vehicle\",action=\"stop\"} "@, c.event_vehicle_stop),
        has_line(c, running, uptime, "amcrust_camera_events_total{type=\"other\",action=\"other\"} "@, c.event_other),
        has_line(c, running, uptime, "# HELP amcrust_errors_total Operational errors by subsystem.\n# TYPE amcrust_errors_total counter\namcrust_errors_total{subsystem=\"event_stream\"} "@, c.errors_event_stream),
        has_line(c, running, uptime, "amcrust_errors_total{subsystem=\"snapshot\"} "@, c.errors_snapshot),
        has_line(c, running, uptime, "amcrust_errors_total{subsystem=\"live_stream\"} "@, c.errors_live_stream),
        has_line(c, running, uptime, "amcrust_errors_total{subsystem=\"data_stream\"} "@, c.errors_data_stream),
        has_line(c, running, uptime, "amcrust_errors_total{subsystem=\"recording\"} "@, c.errors_recording),
        has_line(c, running, uptime, "# HELP amcrust_connections_open Current open connections by type.\n# TYPE amcrust_connections_open gauge\namcrust_connections_open{type=\"event_stream\"} "@, (if c.event_stream_connected { 1u64 } else { 0u64 })),
        has_line(c, running, uptime, "amcrust_connections_open{type=\"live_stream\"} "@, c.live_connections),
        has_line(c, running, uptime, "amcrust_connections_open{type=\"data_stream\"} "@, c.data_stream_connections),
        has_line(c, running, uptime, "# HELP amcrust_video_status Whether each video path is currently active.\n# TYPE amcrust_video_status gauge\namcrust_video_status{type=\"live\"} "@, (if c.live_connections > 0 { 1u64 } else { 0u64 })),
        has_line(c, running, uptime, "amcrust_video_status{type=\"recording_pipeline\"} "@, (if running { 1u64 } else { 0u64 })),
        has_line(c, running, uptime, "amcrust_video_status{type=\"recording_delivery\"} "@, (if c.recording_stream_active { 1u64 } else { 0u64 })),
        has_line(c, running, uptime, "# HELP amcrust_motion_active Whether camera motion is currently active.\n# TYPE amcrust_motion_active gauge\namcrust_motion_active "@, (if c.motion_active { 1u64 } else { 0u64 })),
        has_line(c, running, uptime, "# HELP amcrust_event_stream_reconnects_total Camera event-stream reconnects.\n# TYPE amcrust_event_stream_reconnects_total counter\namcrust_event_stream_reconnects_total "@, c.event_reconnects),
        has_line(c, running, uptime, "# HELP amcrust_snapshot_requests_total HomeKit snapshot requests.\n# TYPE amcrust_snapshot_requests_total counter\namcrust_snapshot_requests_total "@, c.snapshot_requests),
        has_line(c, running, uptime, "# HELP amcrust_snapshot_successes_total Snapshot JPEGs generated successfully.\n# TYPE amcrust_snapshot_successes_total counter\namcrust_snapshot_successes_total "@, c.snapshot_successes),
        has_line(c, running, uptime, "# HELP amcrust_snapshot_deliveries_total Snapshot responses written to controller sockets.\n# TYPE amcrust_snapshot_deliveries_total counter\namcrust_snapshot_deliveries_total "@, c.snapshot_deliveries),
        has_line(c, running, uptime, "# HELP amcrust_snapshot_delivery_bytes_total Snapshot JPEG bytes written to controller sockets.\n# TYPE amcrust_snapshot_delivery_bytes_total counter\namcrust_snapshot_delivery_bytes_total "@, c.snapshot_delivery_bytes),
        has_line(c, running, uptime, "# HELP amcrust_snapshot_delivery_errors_total Snapshot responses that failed during socket delivery.\n# TYPE amcrust_snapshot_delivery_errors_total counter\namcrust_snapshot_delivery_errors_total "@, c.snapshot_delivery_errors),
        has_line(c, running, uptime, "# HELP amcrust_live_stream_starts_total Live video streams started.\n# TYPE amcrust_live_stream_starts_total counter\namcrust_live_stream_starts_total "@, c.live_stream_starts),
        has_line(c, running, uptime, "# HELP amcrust_recording_fragments_total Recording fragments produced.\n# TYPE amcrust_recording_fragments_total counter\namcrust_recording_fragments_total "@, c.recording_fragments),
        has_line(c, running, uptime, "# HELP amcrust_recording_bytes_total Recording fragment bytes produced.\n# TYPE amcrust_recording_bytes_total counter\namcrust_recording_bytes_total "@, c.recording_bytes),
{
    lemma_line(c, running, uptime, 0);
    lemma_line(c, running, uptime, 1);
    lemma_line(c, running, uptime, 2);
    lemma_line(c, running, uptime, 3);
    lemma_line(c, running, uptime, 4);
    lemma_line(c, running, uptime, 5);
    lemma_line(c, running, uptime, 6);
    lemma_line(c, running, uptime, 7);
    lemma_line(c, running, uptime, 8);
    lemma_line(c, running, uptime, 9);
    lemma_line(c, running, uptime, 10);
    lemma_line(c, running, uptime, 11);
    lemma_line(c, running, uptime, 12);
    lemma_line(c, running, uptime, 13);
    lemma_line(c, running, uptime, 14);
    lemma_line(c, running, uptime, 15);
    lemma_line(c, running, uptime, 16);
    lemma_line(c, running, uptime, 17);
    lemma_line(c, running, uptime, 18);
    lemma_line(c, running, uptime, 19);
    lemma_line(c, running, uptime, 20);
    lemma_line(c, running, uptime, 21);
    lemma_line(c, running, uptime, 22);
    lemma_line(c, running, uptime, 23);
    lemma_line(c, running, uptime, 24);
    lemma_line(c, running, uptime, 25);
}

/// The uptime is in seconds, with a point and the three digits of the milliseconds behind
/// it.
pub proof fn law_seconds_have_three_decimals(seconds: u64, a: u64, b: u64, c: u64)
    requires
        a < 10 && b < 10 && c < 10,
        1000 * seconds + 100 * a + 10 * b + c <= u64::MAX,
    ensures
        seconds_text((1000 * seconds + 100 * a + 10 * b + c) as u64) == decimal(seconds as nat)
            + seq!['.', ('0' as u64 + a) as char, ('0' as u64 + b) as char, ('0' as u64 + c) as char],
{
    let millis = (1000 * seconds + 100 * a + 10 * b + c) as u64;
    reveal_strlit(".");
    assert(millis / 1000 == seconds);
    assert(millis / 100 == 10 * seconds + a);
    assert(millis / 10 == 100 * seconds + 10 * a + b);
    assert(millis / 100 % 10 == a);
    assert(millis / 10 % 10 == b);
    assert(millis % 10 == c);
    assert("."@ =~= seq!['.']);
    assert(seconds_text(millis) =~= decimal(seconds as nat) + seq![
        '.',
        ('0' as u64 + a) as char,
        ('0' as u64 + b) as char,
        ('0' as u64 + c) as char,
    ]);
}

/// The line that sums the process up shows, behind each label, the counters of its
/// kind: starts and stops together for events, and the errors of all parts together.
#[verifier::rlimit(60)]
pub proof fn law_the_summary_shows_each_count(c: Counters, uptime_secs: u64)
    ensures
        ({
            let text = summary(c, uptime_secs);
            &&& shows(text, "amcrust stats: uptime="@, decimal(uptime_secs as nat))
            &&& shows(text, "s events(person="@, decimal((c.event_person_start + c.event_person_stop) as nat))
            &&& shows(text, ", vehicle="@, decimal((c.event_vehicle_start + c.event_vehicle_stop) as nat))
            &&& shows(text, ", other="@, decimal(c.event_other as nat))
            &&& shows(text, ") snapshots(generated="@, decimal(c.snapshot_successes as nat))
            &&& shows(text, "/"@, decimal(c.snapshot_requests as nat))
            &&& shows(text, ", delivered="@, decimal(c.snapshot_deliveries as nat))
            &&& shows(text, ", delivery_errors="@, decimal(c.snapshot_delivery_errors as nat))
            &&& shows(text, ") live_streams="@, decimal(c.live_stream_starts as nat))
            &&& shows(text, " recording_fragments="@, decimal(c.recording_fragments as nat))
            &&& shows(text, " recording_bytes="@, decimal(c.recording_bytes as nat))
            &&& shows(text, " errors="@, decimal(all_errors(c) as nat))
            &&& shows(text, " connections(event="@, decimal(flag(c.event_stream_connected) as nat))
            &&& shows(text, ", live="@, decimal(c.live_connections as nat))
            &&& shows(text, ", data="@, decimal(c.data_stream_connections as nat))
            &&& shows(text, ") motion="@, decimal(flag(c.motion_active) as nat))
        }),
        all_errors(c) == c.errors_recording + c.errors_snapshot + c.errors_event_stream
            + c.errors_data_stream + c.errors_live_stream,
        flag(true) == 1 && flag(false) == 0,
{
    let text = summary(c, uptime_secs);
    reveal_strlit("s events(person=");
    assert("s events(person="@.len() > 0 && "s events(person="@[0] == 's');
    reveal_strlit(", vehicle=");
    assert(", vehicle="@.len() > 0 && ", vehicle="@[0] == ',');
    reveal_strlit(", other=");
    assert(", other="@.len() > 0 && ", other="@[0] == ',');
    reveal_strlit(") snapshots(generated=");
    assert(") snapshots(generated="@.len() > 0 && ") snapshots(generated="@[0] == ')');
    reveal_strlit("/");
    assert("/"@.len() > 0 && "/"@[0] == '/');
    reveal_strlit(", delivered=");
    assert(", delivered="@.len() > 0 && ", delivered="@[0] == ',');
    reveal_strlit(", delivery_errors=");
    assert(", delivery_errors="@.len() > 0 && ", delivery_errors="@[0] == ',');
    reveal_strlit(") live_streams=");
    assert(") live_streams="@.len() > 0 && ") live_streams="@[0] == ')');
    reveal_strlit(" recording_fragments=");
    assert(" recording_fragments="@.len() > 0 && " recording_fragments="@[0] == ' ');
    reveal_strlit(" recording_bytes=");
    assert(" recording_bytes="@.len() > 0 && " recording_bytes="@[0] == ' ');
    reveal_strlit(" errors=");
    assert(" errors="@.len() > 0 && " errors="@[0] == ' ');
    reveal_strlit(" connections(event=");
    assert(" connections(event="@.len() > 0 && " connections(event="@[0] == ' ');
    reveal_strlit(", live=");
    assert(", live="@.len() > 0 && ", live="@[0] == ',');
    reveal_strlit(", data=");
    assert(", data="@.len() > 0 && ", data="@[0] == ',');
    reveal_strlit(") motion=");
    assert(") motion="@.len() > 0 && ") motion="@[0] == ')');
    let none = Seq::<Seq<char>>::empty();
    let p0 = "amcrust stats: uptime="@;
    lemma_flat_push(none, p0);
    let s0 = none.push(p0);
    let p1 = decimal(uptime_secs as nat);
    lemma_flat_push(s0, p1);
    let s1 = s0.push(p1);
    let p2 = "s events(person="@;
    lemma_flat_push(s1, p2);
    let s2 = s1.push(p2);
    let p3 = decimal((c.event_person_start + c.event_person_stop) as nat);
    lemma_flat_push(s2, p3);
    let s3 = s2.push(p3);
    let p4 = ", vehicle="@;
    lemma_flat_push(s3, p4);
    let s4 = s3.push(p4);
    let p5 = decimal((c.event_vehicle_start + c.event_vehicle_stop) as nat);
    lemma_flat_push(s4, p5);
    let s5 = s4.push(p5);
    let p6 = ", other="@;
    lemma_flat_push(s5, p6);
    let s6 = s5.push(p6);
    let p7 = decimal(c.event_other as nat);
    lemma_flat_push(s6, p7);
    let s7 = s6.push(p7);
    let p8 = ") snapshots(generated="@;
    lemma_flat_push(s7, p8);
    let s8 = s7.push(p8);
    let p9 = decimal(c.snapshot_successes as nat);
    lemma_flat_push(s8, p9);
    let s9 = s8.push(p9);
    let p10 = "/"@;
    lemma_flat_push(s9, p10);
    let s10 = s9.push(p10);
    let p11 = decimal(c.snapshot_requests as nat);
    lemma_flat_push(s10, p11);
    let s11 = s10.push(p11);
    let p12 = ", delivered="@;
    lemma_flat_push(s11, p12);
    let s12 = s11.push(p12);
    let p13 = decimal(c.snapshot_deliveries as nat);
    lemma_flat_push(s12, p13);
    let s13 = s12.push(p13);
    let p14 = ", delivery_errors="@;
    lemma_flat_push(s13, p14);
    let s14 = s13.push(p14);
    let p15 = decimal(c.snapshot_delivery_errors as nat);
    lemma_flat_push(s14, p15);
    let s15 = s14.push(p15);
    let p16 = ") live_streams="@;
    lemma_flat_push(s15, p16);
    let s16 = s15.push(p16);
    let p17 = decimal(c.live_stream_starts as nat);
    lemma_flat_push(s16, p17);
    let s17 = s16.push(p17);
    let p18 = " recording_fragments="@;
    lemma_flat_push(s17, p18);
    let s18 = s17.push(p18);
    let p19 = decimal(c.recording_fragments as nat);
    lemma_flat_push(s18, p19);
    let s19 = s18.push(p19);
    let p20 = " recording_bytes="@;
    lemma_flat_push(s19, p20);
    let s20 = s19.push(p20);
    let p21 = decimal(c.recording_bytes as nat);
    lemma_flat_push(s20, p21);
    let s21 = s20.push(p21);
    let p22 = " errors="@;
    lemma_flat_push(s21, p22);
    let s22 = s21.push(p22);
    let p23 = decimal(all_errors(c) as nat);
    lemma_flat_push(s22, p23);
    let s23 = s22.push(p23);
    let p24 = " connections(event="@;
    lemma_flat_push(s23, p24);
    let s24 = s23.push(p24);
    let p25 = decimal(flag(c.event_stream_connected) as nat);
    lemma_flat_push(s24, p25);
    let s25 = s24.push(p25);
    let p26 = ", live="@;
    lemma_flat_push(s25, p26);
    let s26 = s25.push(p26);
    let p27 = decimal(c.live_connections as nat);
    lemma_flat_push(s26, p27);
    let s27 = s26.push(p27);
    let p28 = ", data="@;
    lemma_flat_push(s27, p28);
    let s28 = s27.push(p28);
    let p29 = decimal(c.data_stream_connections as nat);
    lemma_flat_push(s28, p29);
    let s29 = s28.push(p29);
    let p30 = ") motion="@;
    lemma_flat_push(s29, p30);
    let s30 = s29.push(p30);
    let p31 = decimal(flag(c.motion_active) as nat);
    lemma_flat_push(s30, p31);
    let s31 = s30.push(p31);
    assert(flat(none) + p0 =~= p0);
    assert(flat(s31) == text);
    assert(s31[0] == p0 && s31[1] == p1 && s31[2] == p2);
    lemma_shown(s31, 0);
    assert(s31[2] == p2 && s31[3] == p3 && s31[4] == p4);
    lemma_shown(s31, 2);
    assert(s31[4] == p4 && s31[5] == p5 && s31[6] == p6);
    lemma_shown(s31, 4);
    assert(s31[6] == p6 && s31[7] == p7 && s31[8] == p8);
    lemma_shown(s31, 6);
    assert(s31[8] == p8 && s31[9] == p9 && s31[10] == p10);
    lemma_shown(s31, 8);
    assert(s31[10] == p10 && s31[11] == p11 && s31[12] == p12);
    lemma_shown(s31, 10);
    assert(s31[12] == p12 && s31[13] == p13 && s31[14] == p14);
    lemma_shown(s31, 12);
    assert(s31[14] == p14 && s31[15] == p15 && s31[16] == p16);
    lemma_shown(s31, 14);
    assert(s31[16] == p16 && s31[17] == p17 && s31[18] == p18);
    lemma_shown(s31, 16);
    assert(s31[18] == p18 && s31[19] == p19 && s31[20] == p20);
    lemma_shown(s31, 18);
    assert(s31[20] == p20 && s31[21] == p21 && s31[22] == p22);
    lemma_shown(s31, 20);
    assert(s31[22] == p22 && s31[23] == p23 && s31[24] == p24);
    lemma_shown(s31, 22);
    assert(s31[24] == p24 && s31[25] == p25 && s31[26] == p26);
    lemma_shown(s31, 24);
    assert(s31[26] == p26 && s31[27] == p27 && s31[28] == p28);
    lemma_shown(s31, 26);
    assert(s31[28] == p28 && s31[29] == p29 && s31[30] == p30);
    lemma_shown(s31, 28);
    assert(s31[30] == p30 && s31[31] == p31);
    lemma_shown(s31, 30);
}

/// The health report shows, under each name, its own value.
#[verifier::rlimit(60)]
pub proof fn law_the_report_shows_each_value(
    c: Counters,
    recording_pipeline_running: bool,
    uptime: Seq<char>,
)
    ensures
        ({
            let text = health(c, recording_pipeline_running, uptime);
            &&& shows(text, "{\"event_stream_connected\":"@, truth(c.event_stream_connected))
            &&& shows(text, ",\"live_connections\":"@, decimal(c.live_connections as nat))
            &&& shows(text, ",\"recording_pipeline_running\":"@, truth(recording_pipeline_running))
            &&& shows(text, ",\"snapshot_delivered\":"@, decimal(c.snapshot_deliveries as nat))
            &&& shows(text, ",\"snapshot_delivery_errors\":"@, decimal(c.snapshot_delivery_errors as nat))
            &&& shows(text, ",\"snapshot_generated\":"@, decimal(c.snapshot_successes as nat))
            &&& shows(text, ",\"snapshot_requests\":"@, decimal(c.snapshot_requests as nat))
            &&& shows(text, ",\"status\":\"ok\",\"uptime_seconds\":"@, uptime)
        }),
        truth(true) == "true"@ && truth(false) == "false"@,
{
    let text = health(c, recording_pipeline_running, uptime);
    reveal_strlit(",\"live_connections\":");
    assert(",\"live_connections\":"@.len() > 0 && ",\"live_connections\":"@[0] == ',');
    reveal_strlit(",\"recording_pipeline_running\":");
    assert(",\"recording_pipeline_running\":"@.len() > 0 && ",\"recording_pipeline_running\":"@[0] == ',');
    reveal_strlit(",\"snapshot_delivered\":");
    assert(",\"snapshot_delivered\":"@.len() > 0 && ",\"snapshot_delivered\":"@[0] == ',');
    reveal_strlit(",\"snapshot_delivery_errors\":");
    assert(",\"snapshot_delivery_errors\":"@.len() > 0 && ",\"snapshot_delivery_errors\":"@[0] == ',');
    reveal_strlit(",\"snapshot_generated\":");
    assert(",\"snapshot_generated\":"@.len() > 0 && ",\"snapshot_generated\":"@[0] == ',');
    reveal_strlit(",\"snapshot_requests\":");
    assert(",\"snapshot_requests\":"@.len() > 0 && ",\"snapshot_requests\":"@[0] == ',');
    reveal_strlit(",\"status\":\"ok\",\"uptime_seconds\":");
    assert(",\"status\":\"ok\",\"uptime_seconds\":"@.len() > 0 && ",\"status\":\"ok\",\"uptime_seconds\":"@[0] == ',');
    reveal_strlit("}");
    assert("}"@.len() > 0 && "}"@[0] == '}');
    let none = Seq::<Seq<char>>::empty();
    let p0 = "{\"event_stream_connected\":"@;
    lemma_flat_push(none, p0);
    let s0 = none.push(p0);
    let p1 = truth(c.event_stream_connected);
    lemma_flat_push(s0, p1);
    let s1 = s0.push(p1);
    let p2 = ",\"live_connections\":"@;
    lemma_flat_push(s1, p2);
    let s2 = s1.push(p2);
    let p3 = decimal(c.live_connections as nat);
    lemma_flat_push(s2, p3);
    let s3 = s2.push(p3);
    let p4 = ",\"recording_pipeline_running\":"@;
    lemma_flat_push(s3, p4);
    let s4 = s3.push(p4);
    let p5 = truth(recording_pipeline_running);
    lemma_flat_push(s4, p5);
    let s5 = s4.push(p5);
    let p6 = ",\"snapshot_delivered\":"@;
    lemma_flat_push(s5, p6);
    let s6 = s5.push(p6);
    let p7 = decimal(c.snapshot_deliveries as nat);
    lemma_flat_push(s6, p7);
    let s7 = s6.push(p7);
    let p8 = ",\"snapshot_delivery_errors\":"@;
    lemma_flat_push(s7, p8);
    let s8 = s7.push(p8);
    let p9 = decimal(c.snapshot_delivery_errors as nat);
    lemma_flat_push(s8, p9);
    let s9 = s8.push(p9);
    let p10 = ",\"snapshot_generated\":"@;
    lemma_flat_push(s9, p10);
    let s10 = s9.push(p10);
    let p11 = decimal(c.snapshot_successes as nat);
    lemma_flat_push(s10, p11);
    let s11 = s10.push(p11);
    let p12 = ",\"snapshot_requests\":"@;
    lemma_flat_push(s11, p12);
    let s12 = s11.push(p12);
    let p13 = decimal(c.snapshot_requests as nat);
    lemma_flat_push(s12, p13);
    let s13 = s12.push(p13);
    let p14 = ",\"status\":\"ok\",\"uptime_seconds\":"@;
    lemma_flat_push(s13, p14);
    let s14 = s13.push(p14);
    let p15 = uptime;
    lemma_flat_push(s14, p15);
    let s15 = s14.push(p15);
    let p16 = "}"@;
    lemma_flat_push(s15, p16);
    let s16 = s15.push(p16);
    assert(flat(none) + p0 =~= p0);
    assert(flat(s16) == text);
    assert(s16[0] == p0 && s16[1] == p1 && s16[2] == p2);
    lemma_shown(s16, 0);
    assert(s16[2] == p2 && s16[3] == p3 && s16[4] == p4);
    lemma_shown(s16, 2);
    assert(s16[4] == p4 && s16[5] == p5 && s16[6] == p6);
    lemma_shown(s16, 4);
    assert(s16[6] == p6 && s16[7] == p7 && s16[8] == p8);
    lemma_shown(s16, 6);
    assert(s16[8] == p8 && s16[9] == p9 && s16[10] == p10);
    lemma_shown(s16, 8);
    assert(s16[10] == p10 && s16[11] == p11 && s16[12] == p12);
    lemma_shown(s16, 10);
    assert(s16[12] == p12 && s16[13] == p13 && s16[14] == p14);
    lemma_shown(s16, 12);
    assert(s16[14] == p14 && s16[15] == p15 && s16[16] == p16);
    lemma_shown(s16, 14);
}

/// The exposition starts with the version of the program and its uptime.
pub proof fn law_version_and_uptime_come_first(c: Counters, running: bool, uptime: u64)
    ensures
        exposition(c, running, uptime)
            == "# HELP amcrust_build_info Build and version information.\n# TYPE amcrust_build_info gauge\namcrust_build_info{version=\""@
            + "0.1.0"@
            + "\"} 1\n# HELP amcrust_uptime_seconds Seconds since the process started.\n# TYPE amcrust_uptime_seconds gauge\namcrust_uptime_seconds "@
            + seconds_text(uptime) + "\n"@ + exposed(EXPOSITION@, exposed_values(c, running)),
{
}

} // verus!
