use firehose_metrics::errors::MetricsError;
use firehose_metrics::ingest::{record_metric, AppState};
use firehose_metrics::push::{classify_push_response, finish_push_cycle, Counters, PushClass};
use firehose_metrics::registry::{
    clear_collectors, get_or_register_metric, observe, snapshot, Registry,
};
use firehose_metrics::schema::DimensionSchema;
use firehose_metrics::structs::{CloudWatchMetric, DimensionMap, MetricValue};
use firehose_metrics::units::MetricUnit;

fn labels(names: &[&str]) -> Vec<String> {
    names.iter().map(|s| String::from(*s)).collect()
}

fn record(stream: &str, metric_name: &str, unit: MetricUnit) -> CloudWatchMetric {
    CloudWatchMetric {
        metric_stream_name: String::from(stream),
        account_id: String::from("123456789012"),
        region: String::from("us-east-1"),
        namespace: String::from("AWS/EC2"),
        metric_name: String::from(metric_name),
        dimensions: DimensionMap::new(),
        timestamp: 1700000000000,
        value: MetricValue { max: None, min: None, sum: None, count: None },
        unit,
    }
}

#[test]
fn test_get_or_register_at_most_once() {
    let mut reg = Registry::new();
    let l = labels(&["account_id", "region"]);
    let h1 = get_or_register_metric(&mut reg, String::from("fam_a"), &l);
    let h2 = get_or_register_metric(&mut reg, String::from("fam_a"), &l);
    let h3 = get_or_register_metric(&mut reg, String::from("fam_b"), &l);
    assert_eq!(h1, h2);
    assert_ne!(h1, h3);
    assert_eq!(reg.collectors.len(), 2);
    // The label order of the first registration is kept.
    let other = labels(&["region", "account_id"]);
    let h4 = get_or_register_metric(&mut reg, String::from("fam_a"), &other);
    assert_eq!(h4, h1);
    assert_eq!(reg.collectors[h1].label_names, labels(&["account_id", "region"]));
}

#[test]
fn test_observe_cardinality_and_last_write_wins() {
    let mut reg = Registry::new();
    let l = labels(&["account_id", "region"]);
    let h = get_or_register_metric(&mut reg, String::from("fam"), &l);
    let short = labels(&["only-one"]);
    match observe(&mut reg, h, short, 1, 2) {
        Err(MetricsError::CardinalityMismatch { expected, got }) => {
            assert_eq!(expected, 2);
            assert_eq!(got, 1);
        }
        other => panic!("expected a cardinality mismatch, got {:?}", other),
    }
    assert_eq!(reg.collectors[h].samples.len(), 0);

    let tuple = labels(&["123456789012", "us-east-1"]);
    observe(&mut reg, h, tuple.clone(), 10, 1.0f64.to_bits()).unwrap();
    assert_eq!(reg.collectors[h].samples.len(), 1);
    observe(&mut reg, h, tuple.clone(), 20, 2.0f64.to_bits()).unwrap();
    assert_eq!(reg.collectors[h].samples.len(), 1);
    assert_eq!(reg.collectors[h].samples[0].timestamp_ms, 20);
    assert_eq!(f64::from_bits(reg.collectors[h].samples[0].value_bits), 2.0);

    let other_tuple = labels(&["123456789012", "eu-west-1"]);
    observe(&mut reg, h, other_tuple, 30, 3.0f64.to_bits()).unwrap();
    assert_eq!(reg.collectors[h].samples.len(), 2);
}

#[test]
fn test_clear_idempotent_and_snapshot_empty() {
    let mut reg = Registry::new();
    clear_collectors(&mut reg);
    assert_eq!(reg.collectors.len(), 0);
    let l = labels(&["account_id"]);
    let h = get_or_register_metric(&mut reg, String::from("fam"), &l);
    observe(&mut reg, h, labels(&["123"]), 1, 2).unwrap();
    clear_collectors(&mut reg);
    assert_eq!(reg.collectors.len(), 0);
    clear_collectors(&mut reg);
    assert_eq!(reg.collectors.len(), 0);
    let snap = snapshot(&reg);
    assert_eq!(snap.collectors.len(), 0);
}

#[test]
fn test_snapshot_mirrors_registry() {
    let mut reg = Registry::new();
    let l = labels(&["account_id"]);
    let h = get_or_register_metric(&mut reg, String::from("fam"), &l);
    observe(&mut reg, h, labels(&["123"]), 7, 42).unwrap();
    let snap = snapshot(&reg);
    assert_eq!(snap.collectors.len(), 1);
    assert_eq!(snap.collectors[0].name, "fam");
    assert_eq!(snap.collectors[0].samples.len(), 1);
    assert_eq!(snap.collectors[0].samples[0].value_bits, 42);
    // The registry is untouched by the snapshot.
    assert_eq!(reg.collectors.len(), 1);
}

#[test]
fn test_record_metric_unknown_unit_isolation() {
    let mut reg = Registry::new();
    let schema = DimensionSchema::from_raw(&Vec::new());
    let mut good1 = record("s1", "NetworkIn", MetricUnit::Bytes);
    good1.value.sum = Some(1.0f64.to_bits());
    let mut bad = record("s1", "Mystery", MetricUnit::Unknown);
    bad.value.sum = Some(2.0f64.to_bits());
    let mut good2 = record("s1", "NetworkOut", MetricUnit::Bytes);
    good2.value.sum = Some(3.0f64.to_bits());

    record_metric(&mut reg, &good1, &schema).unwrap();
    assert_eq!(record_metric(&mut reg, &bad, &schema).unwrap_err(), MetricsError::UnknownUnit);
    record_metric(&mut reg, &good2, &schema).unwrap();

    assert_eq!(reg.collectors.len(), 2);
    assert_eq!(reg.collectors[0].name, "ec2_networkin_bytes_sum");
    assert_eq!(reg.collectors[1].name, "ec2_networkout_bytes_sum");
    assert_eq!(reg.collectors[0].samples.len(), 1);
    assert_eq!(reg.collectors[1].samples.len(), 1);
}

#[test]
fn test_scenario_b_same_family_different_stream() {
    let mut reg = Registry::new();
    let schema = DimensionSchema::from_raw(&Vec::new());
    let mut r1 = record("stream-a", "CPUUtilization", MetricUnit::Percent);
    r1.value.max = Some(1.0f64.to_bits());
    let mut r2 = record("stream-b", "CPUUtilization", MetricUnit::Percent);
    r2.value.max = Some(2.0f64.to_bits());

    record_metric(&mut reg, &r1, &schema).unwrap();
    record_metric(&mut reg, &r2, &schema).unwrap();

    // One family, two series that differ only in metric_stream_name.
    assert_eq!(reg.collectors.len(), 1);
    let fam = &reg.collectors[0];
    assert_eq!(fam.name, "ec2_cpuutilization_percent_max");
    assert_eq!(fam.label_names, labels(&["account_id", "metric_stream_name", "region"]));
    assert_eq!(fam.samples.len(), 2);
    assert_eq!(fam.samples[0].label_values, labels(&["123456789012", "stream-a", "us-east-1"]));
    assert_eq!(fam.samples[1].label_values, labels(&["123456789012", "stream-b", "us-east-1"]));
}

#[test]
fn test_classify_push_response() {
    assert_eq!(classify_push_response(200, ""), PushClass::Success);
    assert_eq!(classify_push_response(204, "anything"), PushClass::Success);
    assert_eq!(
        classify_push_response(400, "duplicate sample for timestamp"),
        PushClass::NonFatalDuplicate
    );
    assert_eq!(
        classify_push_response(400, "  out of order sample\n"),
        PushClass::NonFatalDuplicate
    );
    assert_eq!(
        classify_push_response(400, "Out of order sample from remote write"),
        PushClass::NonFatalDuplicate
    );
    assert_eq!(classify_push_response(400, "label mismatch"), PushClass::Fatal);
    assert_eq!(classify_push_response(500, "boom"), PushClass::Fatal);
    assert_eq!(classify_push_response(302, ""), PushClass::Fatal);
}

#[test]
fn test_scenario_c_duplicate_400_is_not_fatal() {
    let mut reg = Registry::new();
    let mut counters = Counters::new();
    let l = labels(&["account_id"]);
    let h = get_or_register_metric(&mut reg, String::from("fam"), &l);
    observe(&mut reg, h, labels(&["123"]), 1, 2).unwrap();

    let r = finish_push_cycle(
        &mut reg,
        &mut counters,
        400,
        String::from("duplicate sample for timestamp"),
    );
    assert!(r.is_ok());
    assert_eq!(reg.collectors.len(), 0);
    assert_eq!(counters.writes_client_error, 1);
}

#[test]
fn test_scenario_d_500_is_fatal_but_clears() {
    let mut reg = Registry::new();
    let mut counters = Counters::new();
    let l = labels(&["account_id"]);
    let h = get_or_register_metric(&mut reg, String::from("fam"), &l);
    observe(&mut reg, h, labels(&["123"]), 1, 2).unwrap();

    let e = finish_push_cycle(&mut reg, &mut counters, 500, String::from("boom")).unwrap_err();
    assert_eq!(e.status, 500);
    assert_eq!(e.body, "boom");
    assert_eq!(reg.collectors.len(), 0);
    assert_eq!(counters.writes_server_error, 1);
}

#[test]
fn test_counters_by_class() {
    let mut c = Counters::new();
    c.record_batch();
    c.record_batch();
    c.record_write(101);
    c.record_write(200);
    c.record_write(301);
    c.record_write(404);
    c.record_write(503);
    c.record_write(99);
    assert_eq!(c.batches_received, 2);
    assert_eq!(c.writes_informational, 1);
    assert_eq!(c.writes_success, 1);
    assert_eq!(c.writes_redirection, 1);
    assert_eq!(c.writes_client_error, 1);
    assert_eq!(c.writes_server_error, 1);
    assert_eq!(c.writes_other, 1);
}

#[test]
fn test_counters_saturate_at_ceiling() {
    let mut c = Counters::new();
    c.batches_received = u64::MAX;
    c.record_batch();
    assert_eq!(c.batches_received, u64::MAX);
    c.writes_success = u64::MAX;
    c.record_write(200);
    assert_eq!(c.writes_success, u64::MAX);
}

#[test]
fn test_app_state_starts_empty() {
    let state = AppState::new();
    assert_eq!(state.registry.collectors.len(), 0);
    assert_eq!(state.counters.batches_received, 0);
    let mut state = state;
    assert!(state.schema_cache.lookup("r", "n", "m").is_none());
    let schema = state.schema_cache.insert_resolved("r", "n", "m", &vec![String::from("Host")]);
    assert_eq!(schema.len(), 1);
    assert_eq!(schema.label_at(0).as_str(), "host");
}
