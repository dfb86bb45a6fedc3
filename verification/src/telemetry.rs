//! Telemetry: recorded events.
use vstd::prelude::*;

verus! {

/// A named event with string properties.
#[derive(Debug, Clone)]
pub struct TelemetryEvent {
    pub name: String,
    pub properties: Vec<(String, String)>,
}

/// A session collecting events in order.
#[derive(Debug)]
pub struct TelemetrySession {
    events: Vec<TelemetryEvent>,
}

impl View for TelemetrySession {
    type V = Seq<TelemetryEvent>;

    closed spec fn view(&self) -> Seq<TelemetryEvent> {
        self.events@
    }
}

impl Default for TelemetrySession {
    fn default() -> (s: Self)
        ensures
            s@ == Seq::<TelemetryEvent>::empty(),
    {
        TelemetrySession::new()
    }
}

impl TelemetrySession {
    /// An empty session.
    pub fn new() -> (s: Self)
        ensures
            s@ == Seq::<TelemetryEvent>::empty(),
    {
        TelemetrySession { events: Vec::new() }
    }

    /// Record an event.
    pub fn record(&mut self, event: TelemetryEvent)
        ensures
            final(self)@ == old(self)@.push(event),
    {
        self.events.push(event);
    }

    /// Number of recorded events.
    pub fn event_count(&self) -> (n: usize)
        ensures
            n == self@.len(),
    {
        self.events.len()
    }
}

} // verus!
