use firehose_metrics::errors::MetricsError;
use firehose_metrics::identity::{
    build_family_base, build_label_values, build_observations, build_ordered_labels,
    dropped_dimensions, extract_namespace_tail,
};
use firehose_metrics::ingest::{batch_text, decode_payloads};
use firehose_metrics::schema::{canonicalize_label, DimensionSchema, SchemaCache};
use firehose_metrics::structs::{CloudWatchMetric, DimensionMap, Firehose, FirehoseData, MetricValue};
use firehose_metrics::text::{sanitize_metric_name, split_lines};
use firehose_metrics::units::MetricUnit;

fn labels_of(schema: &DimensionSchema) -> Vec<String> {
    let mut out = Vec::new();
    let mut i = 0;
    while i < schema.len() {
        out.push(schema.label_at(i).clone());
        i += 1;
    }
    out
}

fn no_value() -> MetricValue {
    MetricValue { max: None, min: None, sum: None, count: None }
}

fn record(namespace: &str, metric_name: &str, unit: MetricUnit) -> CloudWatchMetric {
    CloudWatchMetric {
        metric_stream_name: String::from("stream-1"),
        account_id: String::from("123456789012"),
        region: String::from("us-east-1"),
        namespace: String::from(namespace),
        metric_name: String::from(metric_name),
        dimensions: DimensionMap::new(),
        timestamp: 1700000000000,
        value: no_value(),
        unit,
    }
}

#[test]
fn test_sanitize_metric_name() {
    assert_eq!(
        sanitize_metric_name(String::from("CPU-Utilization (avg)")),
        String::from("CPUUtilizationavg")
    );
    assert_eq!(sanitize_metric_name(String::from("already_ok_42")), "already_ok_42");
    assert_eq!(sanitize_metric_name(String::from("")), "");
}

#[test]
fn test_unit_from_tag() {
    assert_eq!(MetricUnit::from_tag("Percent"), MetricUnit::Percent);
    assert_eq!(MetricUnit::from_tag("Count/Second"), MetricUnit::CountPerSecond);
    assert_eq!(MetricUnit::from_tag("Bytes/Second"), MetricUnit::BytesPerSecond);
    assert_eq!(MetricUnit::from_tag("None"), MetricUnit::NoUnit);
    assert_eq!(MetricUnit::from_tag("Furlongs"), MetricUnit::Unknown);
    assert_eq!(MetricUnit::from_tag(""), MetricUnit::Unknown);
}

#[test]
fn test_unit_suffix() {
    assert_eq!(MetricUnit::Percent.suffix(), "percent");
    assert_eq!(MetricUnit::CountPerSecond.suffix(), "count_per_second");
    assert_eq!(MetricUnit::NoUnit.suffix(), "none");
    assert!(MetricUnit::Unknown.is_known() == false);
    assert!(MetricUnit::Count.is_known());
}

#[test]
fn test_canonicalize_label() {
    assert_eq!(canonicalize_label("InstanceId"), "instance_id");
    assert_eq!(canonicalize_label("Region"), "dimension_region");
    assert_eq!(canonicalize_label("region"), "dimension_region");
    assert_eq!(canonicalize_label("AutoScalingGroupName"), "auto_scaling_group_name");
}

#[test]
fn test_dimension_map_to_kv() {
    let mut dm = DimensionMap::new();
    dm.insert(String::from("a"), String::from("1"));
    dm.insert(String::from("b"), String::from("2"));
    assert_eq!(dm.to_kv(), "a=1,b=2");
    dm.insert(String::from("a"), String::from("3"));
    assert_eq!(dm.to_kv(), "a=3,b=2");
    assert_eq!(DimensionMap::new().to_kv(), "");
}

#[test]
fn test_convert_to_labels_values() {
    let mut dm = DimensionMap::new();
    dm.insert(String::from("InstanceId"), String::from("i-123"));
    dm.insert(String::from("Region"), String::from("us-west-2"));
    let lv = dm.to_labels_values();
    assert_eq!(lv.len(), 2);
    assert_eq!(lv[0].key, "instance_id");
    assert_eq!(lv[0].value, "i-123");
    assert_eq!(lv[1].key, "dimension_region");
    assert_eq!(lv[1].value, "us-west-2");
}

#[test]
fn test_schema_from_raw_sorted_deduplicated() {
    let raw = vec![
        String::from("InstanceId"),
        String::from("AutoScalingGroupName"),
        String::from("InstanceId"),
        String::from("Region"),
    ];
    let schema = DimensionSchema::from_raw(&raw);
    let labels = labels_of(&schema);
    assert_eq!(
        labels,
        vec![
            String::from("auto_scaling_group_name"),
            String::from("dimension_region"),
            String::from("instance_id"),
        ]
    );
}

#[test]
fn test_schema_cache_memoization() {
    let mut cache = SchemaCache::new();
    assert!(cache.lookup("us-east-1", "AWS/EC2", "CPUUtilization").is_none());
    let raw = vec![String::from("InstanceId")];
    let first = cache.insert_resolved("us-east-1", "AWS/EC2", "CPUUtilization", &raw);
    let second = cache.lookup("us-east-1", "AWS/EC2", "CPUUtilization").unwrap();
    let third = cache.lookup("us-east-1", "AWS/EC2", "CPUUtilization").unwrap();
    assert_eq!(labels_of(&first), labels_of(&second));
    assert_eq!(labels_of(&second), labels_of(&third));
    assert_eq!(labels_of(&second), vec![String::from("instance_id")]);
    assert!(cache.lookup("eu-west-1", "AWS/EC2", "CPUUtilization").is_none());
}

#[test]
fn test_extract_namespace_tail() {
    assert_eq!(extract_namespace_tail("AWS/EC2").unwrap(), "EC2");
    assert_eq!(extract_namespace_tail("AWS/ApplicationELB").unwrap(), "ApplicationELB");
    assert_eq!(extract_namespace_tail("a/b/c").unwrap(), "b");
    assert!(extract_namespace_tail("NoSlash").is_none());
}

#[test]
fn test_family_base_name() {
    let r = record("AWS/EC2", "CPUUtilization", MetricUnit::Percent);
    assert_eq!(build_family_base(&r).unwrap(), "ec2_cpuutilization_percent");
    let r2 = record("CustomApp", "latency", MetricUnit::Seconds);
    assert!(build_family_base(&r2).is_none());
}

#[test]
fn test_ordered_labels_lexicographic() {
    let raw = vec![String::from("InstanceId")];
    let schema = DimensionSchema::from_raw(&raw);
    let ordered = build_ordered_labels(&schema);
    assert_eq!(
        ordered,
        vec![
            String::from("account_id"),
            String::from("instance_id"),
            String::from("metric_stream_name"),
            String::from("region"),
        ]
    );
}

#[test]
fn test_scenario_a_observation() {
    let mut r = record("AWS/EC2", "CPUUtilization", MetricUnit::Percent);
    r.dimensions.insert(String::from("InstanceId"), String::from("i-123"));
    r.value.max = Some(42.5f64.to_bits());
    let schema = DimensionSchema::from_raw(&vec![String::from("InstanceId")]);
    let reqs = build_observations(&r, &schema).unwrap();
    assert_eq!(reqs.len(), 1);
    assert_eq!(reqs[0].family_name, "ec2_cpuutilization_percent_max");
    assert_eq!(
        reqs[0].label_names,
        vec![
            String::from("account_id"),
            String::from("instance_id"),
            String::from("metric_stream_name"),
            String::from("region"),
        ]
    );
    assert_eq!(
        reqs[0].label_values,
        vec![
            String::from("123456789012"),
            String::from("i-123"),
            String::from("stream-1"),
            String::from("us-east-1"),
        ]
    );
    assert_eq!(reqs[0].timestamp_ms, 1700000000000);
    assert_eq!(f64::from_bits(reqs[0].value_bits), 42.5);
}

#[test]
fn test_scenario_a_label_order_with_given_schema() {
    let mut r = record("AWS/EC2", "CPUUtilization", MetricUnit::Percent);
    r.dimensions.insert(String::from("InstanceId"), String::from("i-123"));
    r.value.max = Some(42.5f64.to_bits());
    let schema = DimensionSchema::from_raw(&vec![String::from("dimension_instance_id")]);
    let reqs = build_observations(&r, &schema).unwrap();
    assert_eq!(reqs.len(), 1);
    assert_eq!(reqs[0].family_name, "ec2_cpuutilization_percent_max");
    assert_eq!(
        reqs[0].label_names,
        vec![
            String::from("account_id"),
            String::from("dimension_instance_id"),
            String::from("metric_stream_name"),
            String::from("region"),
        ]
    );
    // The record's InstanceId dimension is not part of the given schema, so
    // it is dropped rather than appended: its slot stays empty.
    assert_eq!(
        reqs[0].label_values,
        vec![
            String::from("123456789012"),
            String::from(""),
            String::from("stream-1"),
            String::from("us-east-1"),
        ]
    );
}

#[test]
fn test_build_observations_aggregates_in_order() {
    let mut r = record("AWS/EC2", "NetworkIn", MetricUnit::Bytes);
    r.value = MetricValue {
        max: Some(4.0f64.to_bits()),
        min: Some(1.0f64.to_bits()),
        sum: Some(10.0f64.to_bits()),
        count: Some(3.0f64.to_bits()),
    };
    let schema = DimensionSchema::from_raw(&Vec::new());
    let reqs = build_observations(&r, &schema).unwrap();
    assert_eq!(reqs.len(), 4);
    assert_eq!(reqs[0].family_name, "ec2_networkin_bytes_max");
    assert_eq!(reqs[1].family_name, "ec2_networkin_bytes_min");
    assert_eq!(reqs[2].family_name, "ec2_networkin_bytes_sum");
    assert_eq!(reqs[3].family_name, "ec2_networkin_bytes_count");
}

#[test]
fn test_build_observations_zero_aggregates() {
    let r = record("AWS/EC2", "NetworkIn", MetricUnit::Bytes);
    let schema = DimensionSchema::from_raw(&Vec::new());
    let reqs = build_observations(&r, &schema).unwrap();
    assert_eq!(reqs.len(), 0);
}

#[test]
fn test_build_observations_unknown_unit() {
    let mut r = record("AWS/EC2", "NetworkIn", MetricUnit::Unknown);
    r.value.sum = Some(1.0f64.to_bits());
    let schema = DimensionSchema::from_raw(&Vec::new());
    assert_eq!(build_observations(&r, &schema).unwrap_err(), MetricsError::UnknownUnit);
}

#[test]
fn test_build_observations_malformed_namespace() {
    let mut r = record("NoSlash", "NetworkIn", MetricUnit::Bytes);
    r.value.sum = Some(1.0f64.to_bits());
    let schema = DimensionSchema::from_raw(&Vec::new());
    assert_eq!(build_observations(&r, &schema).unwrap_err(), MetricsError::MalformedNamespace);
}

#[test]
fn test_build_label_values_last_duplicate_wins() {
    let mut r = record("AWS/EC2", "NetworkIn", MetricUnit::Bytes);
    r.dimensions.insert(String::from("InstanceId"), String::from("first"));
    r.dimensions.insert(String::from("instance_id"), String::from("second"));
    let ordered = vec![String::from("instance_id")];
    let values = build_label_values(&r, &ordered);
    assert_eq!(values, vec![String::from("second")]);
}

#[test]
fn test_batch_text() {
    let envelope = |message: Option<&str>, records: Option<Vec<&str>>| Firehose {
        message: message.map(String::from),
        records: records.map(|rs| {
            rs.into_iter().map(|d| FirehoseData { data: String::from(d) }).collect()
        }),
        request_id: None,
        source_arn: None,
        source_type: None,
        timestamp: None,
    };
    // An inline message wins over the records.
    let f = envelope(Some("inline"), Some(vec!["aGVsbG8="]));
    assert_eq!(batch_text(&f).unwrap(), "inline");
    let f = envelope(None, Some(vec!["aGVsbG8=", "IHdvcmxk"]));
    assert_eq!(batch_text(&f).unwrap(), "hello world");
    let f = envelope(None, Some(vec!["%%%"]));
    assert!(batch_text(&f).is_none());
    let f = envelope(None, None);
    assert_eq!(batch_text(&f).unwrap(), "");
}

#[test]
fn test_split_lines() {
    let cases: &[&str] = &["", "\n", "one", "a\nb", "a\n", "a\r\nb", "a\n\nb", "tail\r"];
    for case in cases {
        let expected: Vec<String> = case.lines().map(String::from).collect();
        assert_eq!(split_lines(case), expected, "splitting {:?}", case);
    }
    assert_eq!(split_lines("a\r\nb\nc"), vec!["a", "b", "c"]);
}

#[test]
fn test_dropped_dimensions() {
    let mut r = record("AWS/EC2", "NetworkIn", MetricUnit::Bytes);
    r.dimensions.insert(String::from("InstanceId"), String::from("i-1"));
    r.dimensions.insert(String::from("ExtraDim"), String::from("x"));
    let schema = DimensionSchema::from_raw(&vec![String::from("InstanceId")]);
    let ordered = build_ordered_labels(&schema);
    let dropped = dropped_dimensions(&r, &ordered);
    assert_eq!(dropped, vec![String::from("ExtraDim")]);
}

#[test]
fn test_decode_payloads() {
    let records = vec![
        FirehoseData { data: String::from("aGVsbG8=") },
        FirehoseData { data: String::from("IHdvcmxk") },
    ];
    assert_eq!(decode_payloads(&records).unwrap(), "hello world");
    let bad = vec![FirehoseData { data: String::from("!!!not-base64!!!") }];
    assert!(decode_payloads(&bad).is_none());
    let empty: Vec<FirehoseData> = Vec::new();
    assert_eq!(decode_payloads(&empty).unwrap(), "");
}
