use remap_core::compliance::{
    has_tags, init, record_internal_event, str_ends_with, ComplianceError, ComponentTests,
    EventRecorder, Metric, MetricValue,
};

fn counter(name: &str, tags: &[(&str, &str)]) -> Metric {
    Metric {
        name: String::from(name),
        value: MetricValue::Counter,
        tags: Some(
            tags.iter()
                .map(|(k, v)| (String::from(*k), String::from(*v)))
                .collect(),
        ),
    }
}

fn untagged_counter(name: &str) -> Metric {
    Metric { name: String::from(name), value: MetricValue::Counter, tags: None }
}

fn source_tests() -> ComponentTests {
    ComponentTests::source_tests()
}

#[test]
fn source_tests_lists_the_standard_expectations() {
    let t = ComponentTests::source_tests();
    assert_eq!(t.events, vec!["BytesReceived", "EventsReceived", "EventsSent"]);
    assert_eq!(
        t.tagged_counters,
        vec![
            "component_received_bytes_total",
            "component_received_events_total",
            "component_received_event_bytes_total",
        ]
    );
    assert_eq!(
        t.untagged_counters,
        vec!["component_sent_events_total", "component_sent_event_bytes_total"]
    );
}

fn full_metrics() -> Vec<Metric> {
    vec![
        counter("component_received_bytes_total", &[("protocol", "http")]),
        counter("component_received_events_total", &[("protocol", "http")]),
        counter("component_received_event_bytes_total", &[("protocol", "http")]),
        untagged_counter("component_sent_events_total"),
        untagged_counter("component_sent_event_bytes_total"),
    ]
}

#[test]
fn record_internal_event_strips_sigil_and_fields() {
    let mut rec = EventRecorder { events: Vec::new() };
    record_internal_event(&mut rec, "&HttpBytesReceived{count: 12}");
    record_internal_event(&mut rec, "EventsReceived");
    assert_eq!(rec.events, vec!["HttpBytesReceived", "EventsReceived"]);
}

#[test]
fn init_clears_the_recorder() {
    let mut rec = EventRecorder { events: vec![String::from("Old")] };
    init(&mut rec);
    assert!(rec.events.is_empty());
}

#[test]
fn ends_with_matches_suffixes() {
    assert!(str_ends_with("HttpBytesReceived", "BytesReceived"));
    assert!(str_ends_with("BytesReceived", "BytesReceived"));
    assert!(!str_ends_with("Received", "BytesReceived"));
    assert!(!str_ends_with("BytesReceivedX", "BytesReceived"));
}

#[test]
fn has_tags_checks_names() {
    let m = counter("c", &[("protocol", "http"), ("endpoint", "/")]);
    assert!(has_tags(&m, &vec![String::from("protocol")]));
    assert!(has_tags(&m, &vec![String::from("protocol"), String::from("endpoint")]));
    assert!(!has_tags(&m, &vec![String::from("host")]));
    assert!(has_tags(&m, &vec![]));
    let bare = untagged_counter("c");
    assert!(has_tags(&bare, &vec![]));
    assert!(!has_tags(&bare, &vec![String::from("protocol")]));
}

#[test]
fn compliant_component_yields_no_errors() {
    let mut rec = EventRecorder { events: Vec::new() };
    init(&mut rec);
    record_internal_event(&mut rec, "&HttpBytesReceived{count: 1}");
    record_internal_event(&mut rec, "&HttpEventsReceived{count: 1}");
    record_internal_event(&mut rec, "&HttpEventsSent{count: 1}");
    let errors = source_tests().check(full_metrics(), &rec, &vec![String::from("protocol")]);
    assert!(errors.is_empty());
}

#[test]
fn missing_event_is_reported() {
    let mut rec = EventRecorder { events: Vec::new() };
    record_internal_event(&mut rec, "BytesReceived");
    record_internal_event(&mut rec, "EventsReceived");
    let errors = source_tests().check(full_metrics(), &rec, &vec![String::from("protocol")]);
    assert_eq!(errors.len(), 1);
    match &errors[0] {
        ComplianceError::MissingEvent { name } => assert_eq!(name, "EventsSent"),
        _ => panic!("expected a missing event"),
    }
}

#[test]
fn missing_counter_is_reported_with_tags() {
    let mut rec = EventRecorder { events: Vec::new() };
    record_internal_event(&mut rec, "BytesReceived");
    record_internal_event(&mut rec, "EventsReceived");
    record_internal_event(&mut rec, "EventsSent");
    // The received-bytes counter is there but lacks the expected tag.
    let mut metrics = full_metrics();
    metrics[0] = untagged_counter("component_received_bytes_total");
    let errors = source_tests().check(metrics, &rec, &vec![String::from("protocol")]);
    assert_eq!(errors.len(), 1);
    match &errors[0] {
        ComplianceError::MissingMetric { name, tags } => {
            assert_eq!(name, "component_received_bytes_total");
            assert_eq!(tags, &vec![String::from("protocol")]);
        }
        _ => panic!("expected a missing metric"),
    }
}

#[test]
fn gauge_does_not_satisfy_a_counter_expectation() {
    let mut rec = EventRecorder { events: Vec::new() };
    record_internal_event(&mut rec, "BytesReceived");
    record_internal_event(&mut rec, "EventsReceived");
    record_internal_event(&mut rec, "EventsSent");
    let mut metrics = full_metrics();
    metrics[3] = Metric {
        name: String::from("component_sent_events_total"),
        value: MetricValue::Gauge,
        tags: None,
    };
    let errors = source_tests().check(metrics, &rec, &vec![String::from("protocol")]);
    assert_eq!(errors.len(), 1);
    match &errors[0] {
        ComplianceError::MissingMetric { name, tags } => {
            assert_eq!(name, "component_sent_events_total");
            assert!(tags.is_empty());
        }
        _ => panic!("expected a missing metric"),
    }
}
