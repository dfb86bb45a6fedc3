use rebit::telemetry::{TelemetryEvent, TelemetrySession};

#[test]
fn record_increases_count() {
    let mut s = TelemetrySession::new();
    s.record(TelemetryEvent {
        name: "startup".into(),
        properties: vec![],
    });
    assert_eq!(s.event_count(), 1);
}
