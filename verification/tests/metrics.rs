use amcrust::metrics::{ErrorSubsystem, Metrics};

#[test]
fn exposition_contains_prometheus_types_and_fixed_labels() {
    let mut metrics = Metrics::new();
    metrics.event(false, "Start");
    metrics.snapshot_request();
    metrics.snapshot_success();
    metrics.snapshot_delivered(4096);
    metrics.snapshot_delivery_failed();
    let output = metrics.render(true, 0);
    assert!(output.contains("# TYPE amcrust_camera_events_total counter"));
    assert!(output.contains("amcrust_camera_events_total{type=\"person\",action=\"start\"} 1"));
    assert!(output.contains("amcrust_video_status{type=\"recording_pipeline\"} 1"));
    assert!(output.contains("amcrust_snapshot_successes_total 1"));
    assert!(output.contains("amcrust_snapshot_deliveries_total 1"));
    assert!(output.contains("amcrust_snapshot_delivery_bytes_total 4096"));
    assert!(output.contains("amcrust_snapshot_delivery_errors_total 1"));
}

#[test]
fn health_and_metrics_answers_are_scrapeable() {
    let metrics = Metrics::new();
    let health = metrics.answer("GET", "/health", false, 1500, "1.5");
    assert_eq!(health.status, 200);
    assert_eq!(health.content_type, "application/json");
    assert!(health.body.contains("\"status\":\"ok\""));
    assert_eq!(
        health.body,
        "{\"event_stream_connected\":false,\"live_connections\":0,\"recording_pipeline_running\":false,\"snapshot_delivered\":0,\"snapshot_delivery_errors\":0,\"snapshot_generated\":0,\"snapshot_requests\":0,\"status\":\"ok\",\"uptime_seconds\":1.5}"
    );
    let scrape = metrics.answer("GET", "/metrics", false, 1500, "1.5");
    assert_eq!(scrape.status, 200);
    assert!(scrape.content_type.starts_with("text/plain; version=0.0.4"));
    assert!(scrape.body.contains("amcrust_uptime_seconds 1.500\n"));
    assert!(scrape.body.contains("amcrust_build_info{version=\"0.1.0\"} 1\n"));
    for (method, path) in [("POST", "/health"), ("GET", "/"), ("GET", "/metrics/")] {
        let other = metrics.answer(method, path, false, 1500, "1.5");
        assert_eq!(other.status, 404);
        assert_eq!(other.body, "not found\n");
        assert_eq!(other.content_type, "text/plain; charset=utf-8");
    }
}

#[test]
fn every_event_has_its_counter() {
    let mut metrics = Metrics::new();
    metrics.event(false, "Start");
    metrics.event(false, "Stop");
    metrics.event(true, "Start");
    metrics.event(true, "Start");
    metrics.event(true, "Stop");
    metrics.event(true, "Pulse");
    let c = metrics.counters();
    assert_eq!(
        (c.event_person_start, c.event_person_stop, c.event_vehicle_start, c.event_vehicle_stop, c.event_other),
        (1, 1, 2, 1, 1)
    );
}

#[test]
fn every_error_has_its_counter() {
    let mut metrics = Metrics::new();
    metrics.error(ErrorSubsystem::EventStream);
    metrics.error(ErrorSubsystem::Snapshot);
    metrics.error(ErrorSubsystem::Snapshot);
    metrics.error(ErrorSubsystem::LiveStream);
    metrics.error(ErrorSubsystem::DataStream);
    metrics.error(ErrorSubsystem::Recording);
    let output = metrics.render(false, 0);
    assert!(output.contains("amcrust_errors_total{subsystem=\"event_stream\"} 1\n"));
    assert!(output.contains("amcrust_errors_total{subsystem=\"snapshot\"} 2\n"));
    assert!(output.contains("amcrust_errors_total{subsystem=\"live_stream\"} 1\n"));
    assert!(output.contains("amcrust_errors_total{subsystem=\"data_stream\"} 1\n"));
    assert!(output.contains("amcrust_errors_total{subsystem=\"recording\"} 1\n"));
}

#[test]
fn data_stream_connections_never_fall_below_none() {
    let mut metrics = Metrics::new();
    metrics.data_stream_closed();
    assert_eq!(metrics.counters().data_stream_connections, 0);
    metrics.data_stream_opened();
    metrics.data_stream_opened();
    metrics.data_stream_closed();
    assert_eq!(metrics.counters().data_stream_connections, 1);
}

#[test]
fn gauges_are_shown_as_numbers() {
    let mut metrics = Metrics::new();
    metrics.event_stream_connected(true);
    metrics.event_stream_reconnect();
    metrics.set_live_connections(2);
    metrics.recording_stream_active(true);
    metrics.motion_active(true);
    metrics.live_stream_started();
    metrics.recording_fragment(1000);
    let output = metrics.render(false, 61_007);
    assert!(output.contains("amcrust_uptime_seconds 61.007\n"));
    assert!(output.contains("amcrust_connections_open{type=\"event_stream\"} 1\n"));
    assert!(output.contains("amcrust_connections_open{type=\"live_stream\"} 2\n"));
    assert!(output.contains("amcrust_video_status{type=\"live\"} 1\n"));
    assert!(output.contains("amcrust_video_status{type=\"recording_pipeline\"} 0\n"));
    assert!(output.contains("amcrust_video_status{type=\"recording_delivery\"} 1\n"));
    assert!(output.contains("amcrust_motion_active 1\n"));
    assert!(output.contains("amcrust_event_stream_reconnects_total 1\n"));
    assert!(output.contains("amcrust_live_stream_starts_total 1\n"));
    assert!(output.contains("amcrust_recording_fragments_total 1\n"));
    assert!(output.ends_with("amcrust_recording_bytes_total 1000\n"));
}

#[test]
fn the_summary_is_one_line() {
    let mut metrics = Metrics::new();
    metrics.event(false, "Start");
    metrics.event(false, "Stop");
    metrics.snapshot_request();
    metrics.snapshot_delivery_failed();
    assert!(metrics.summary_fits());
    assert_eq!(
        metrics.stderr_summary(3600),
        "amcrust stats: uptime=3600s events(person=2, vehicle=0, other=0) snapshots(generated=0/1, delivered=0, delivery_errors=1) live_streams=0 recording_fragments=0 recording_bytes=0 errors=1 connections(event=0, live=0, data=0) motion=0"
    );
}
