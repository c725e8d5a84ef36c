use std::time::{SystemTime, UNIX_EPOCH};

use relay_metrics::{
    AggregateMetricsErrorKind, Aggregator, AggregatorConfig, Bucket, BucketKey, BucketValue,
    CostTracker, InsertMetrics, Metric, MetricType, MetricUnit, MetricValue, ProjectKey, Tags,
    UnixTimestamp,
};

fn now_ms() -> u64 {
    SystemTime::now()
        .duration_since(UNIX_EPOCH)
        .unwrap()
        .as_millis() as u64
}

fn test_config() -> AggregatorConfig {
    AggregatorConfig {
        bucket_interval: 1,
        initial_delay: 0,
        debounce_delay: 0,
        max_secs_in_past: 50 * 365 * 24 * 60 * 60,
        max_secs_in_future: 50 * 365 * 24 * 60 * 60,
        max_name_length: 200,
        max_tag_key_length: 200,
        max_tag_value_length: 200,
        max_project_key_bucket_bytes: None,
        max_total_bucket_bytes: None,
    }
}

fn some_metric() -> Metric {
    Metric {
        name: "c:foo".to_owned(),
        unit: MetricUnit::Unitless,
        value: MetricValue::Counter(42),
        timestamp: UnixTimestamp::from_secs(999994711),
        tags: Tags::new(),
    }
}

fn project(key: &str) -> ProjectKey {
    ProjectKey::parse(key).unwrap()
}

fn tags_of(pairs: &[(&str, &str)]) -> Tags {
    let mut tags = Tags::new();
    for (k, v) in pairs {
        tags.insert(k.to_string(), v.to_string());
    }
    tags
}

fn key_with(name: &str, tags: Tags) -> BucketKey {
    BucketKey {
        project_key: project("a94ae32be2584e0bbd7a4cbb95971fee"),
        timestamp: UnixTimestamp::from_secs(now_ms() / 1000),
        metric_name: name.to_owned(),
        metric_type: MetricType::Counter,
        metric_unit: MetricUnit::Unitless,
        tags,
    }
}

#[test]
fn test_bucket_key_cost() {
    let bucket_key = BucketKey {
        project_key: project("a94ae32be2584e0bbd7a4cbb95971fee"),
        timestamp: UnixTimestamp::from_secs(now_ms() / 1000),
        metric_name: "12345".to_owned(),
        metric_type: MetricType::Counter,
        metric_unit: MetricUnit::Unitless,
        tags: tags_of(&[("hello", "world"), ("answer", "42")]),
    };
    assert_eq!(
        bucket_key.cost(),
        112 + // BucketKey
        5 + // name
        (5 + 5 + 6 + 2) // tags
    );
}

#[test]
fn test_aggregator_merge_counters() {
    let project_key = project("a94ae32be2584e0bbd7a4cbb95971fee");
    let mut aggregator = Aggregator::new(test_config());

    let metric1 = some_metric();
    let mut metric2 = metric1.clone();
    metric2.value = MetricValue::Counter(43);
    aggregator.insert(&project_key, metric1, now_ms()).unwrap();
    aggregator.insert(&project_key, metric2, now_ms()).unwrap();

    assert_eq!(aggregator.bucket_count(), 1);
    let (key, value, _) = aggregator.bucket_at(0);
    assert_eq!(key.project_key.as_str(), "a94ae32be2584e0bbd7a4cbb95971fee");
    assert_eq!(key.timestamp, UnixTimestamp::from_secs(999994711));
    assert_eq!(key.metric_name, "c:foo");
    assert_eq!(key.metric_type, MetricType::Counter);
    assert!(key.metric_unit.is_none());
    assert!(key.tags.is_empty());
    assert_eq!(*value, BucketValue::Counter(85));
}

#[test]
fn test_aggregator_merge_timestamps() {
    let config = AggregatorConfig {
        bucket_interval: 10,
        ..test_config()
    };
    let project_key = project("a94ae32be2584e0bbd7a4cbb95971fee");
    let mut aggregator = Aggregator::new(config);

    let metric1 = some_metric();
    let mut metric2 = metric1.clone();
    metric2.timestamp = UnixTimestamp::from_secs(999994712);
    let mut metric3 = metric1.clone();
    metric3.timestamp = UnixTimestamp::from_secs(999994721);
    aggregator.insert(&project_key, metric1, now_ms()).unwrap();
    aggregator.insert(&project_key, metric2, now_ms()).unwrap();
    aggregator.insert(&project_key, metric3, now_ms()).unwrap();

    let mut buckets: Vec<(u64, BucketValue)> = (0..aggregator.bucket_count())
        .map(|i| {
            let (k, v, _) = aggregator.bucket_at(i);
            (k.timestamp.as_secs(), v.clone())
        })
        .collect();
    buckets.sort_by(|a, b| a.0.cmp(&b.0));
    assert_eq!(
        buckets,
        vec![
            (999994710, BucketValue::Counter(84)),
            (999994720, BucketValue::Counter(42)),
        ]
    );
}

#[test]
fn test_aggregator_mixed_types() {
    let config = AggregatorConfig {
        bucket_interval: 10,
        ..test_config()
    };
    let project_key = project("a94ae32be2584e0bbd7a4cbb95971fee");
    let mut aggregator = Aggregator::new(config);

    let metric1 = some_metric();
    let mut metric2 = metric1.clone();
    metric2.value = MetricValue::UniqueSet(123);

    aggregator.insert(&project_key, metric1, now_ms()).unwrap();
    aggregator.insert(&project_key, metric2, now_ms()).unwrap();
    assert_eq!(aggregator.bucket_count(), 2);
}

#[test]
fn test_aggregator_mixed_units() {
    let config = AggregatorConfig {
        bucket_interval: 10,
        ..test_config()
    };
    let project_key = project("a94ae32be2584e0bbd7a4cbb95971fee");
    let mut aggregator = Aggregator::new(config);

    let metric1 = some_metric();
    let mut metric2 = metric1.clone();
    metric2.unit = MetricUnit::Named("second".to_owned());

    aggregator.insert(&project_key, metric1, now_ms()).unwrap();
    aggregator.insert(&project_key, metric2, now_ms()).unwrap();
    assert_eq!(aggregator.bucket_count(), 2);
}

#[test]
fn test_aggregator_mixed_projects() {
    let config = AggregatorConfig {
        bucket_interval: 10,
        ..test_config()
    };
    let project_key1 = project("a94ae32be2584e0bbd7a4cbb95971fed");
    let project_key2 = project("a94ae32be2584e0bbd7a4cbb95971fee");
    let mut aggregator = Aggregator::new(config);

    aggregator.insert(&project_key1, some_metric(), now_ms()).unwrap();
    aggregator.insert(&project_key2, some_metric(), now_ms()).unwrap();
    assert_eq!(aggregator.bucket_count(), 2);
}

#[test]
fn test_cost_tracker() {
    let project_key1 = project("a94ae32be2584e0bbd7a4cbb95971fed");
    let project_key2 = project("a94ae32be2584e0bbd7a4cbb95971fee");
    let project_key3 = project("a94ae32be2584e0bbd7a4cbb95971fef");
    let mut cost_tracker = CostTracker::new();
    assert_eq!(cost_tracker.total_cost(), 0);
    assert_eq!(cost_tracker.tracked_projects(), 0);

    cost_tracker.add_cost(&project_key1, 100);
    assert_eq!(cost_tracker.total_cost(), 100);
    assert_eq!(cost_tracker.project_cost(&project_key1), 100);
    assert_eq!(cost_tracker.tracked_projects(), 1);

    cost_tracker.add_cost(&project_key2, 200);
    assert_eq!(cost_tracker.total_cost(), 300);
    assert_eq!(cost_tracker.project_cost(&project_key1), 100);
    assert_eq!(cost_tracker.project_cost(&project_key2), 200);

    // Unknown project: nothing changes
    cost_tracker.subtract_cost(&project_key3, 666);
    assert_eq!(cost_tracker.total_cost(), 300);
    assert_eq!(cost_tracker.tracked_projects(), 2);

    // Subtract too much: clamped to what is tracked
    cost_tracker.subtract_cost(&project_key1, 666);
    assert_eq!(cost_tracker.total_cost(), 200);
    assert_eq!(cost_tracker.project_cost(&project_key1), 0);
    assert_eq!(cost_tracker.tracked_projects(), 1);

    cost_tracker.subtract_cost(&project_key2, 20);
    assert_eq!(cost_tracker.total_cost(), 180);
    assert_eq!(cost_tracker.project_cost(&project_key2), 180);

    cost_tracker.subtract_cost(&project_key2, 180);
    assert_eq!(cost_tracker.total_cost(), 0);
    assert_eq!(cost_tracker.tracked_projects(), 0);
}

#[test]
fn test_aggregator_cost_tracking() {
    let mut aggregator = Aggregator::new(test_config());
    let project_key = project("a94ae32be2584e0bbd7a4cbb95971fed");

    let mut metric = Metric {
        name: "c:foo".to_owned(),
        unit: MetricUnit::Unitless,
        value: MetricValue::Counter(42),
        timestamp: UnixTimestamp::from_secs(999994711),
        tags: Tags::new(),
    };
    let bucket_key = BucketKey {
        project_key: project_key.clone(),
        timestamp: UnixTimestamp::from_secs(now_ms() / 1000),
        metric_name: "c:foo".to_owned(),
        metric_type: MetricType::Counter,
        metric_unit: MetricUnit::Unitless,
        tags: Tags::new(),
    };
    let fixed_cost = bucket_key.cost() + 48;
    let now = now_ms();
    for (metric_value, expected_added_cost) in [
        (MetricValue::Counter(42), fixed_cost),
        (MetricValue::Counter(42), 0),
        (MetricValue::UniqueSet(123), fixed_cost + 4),
        (MetricValue::UniqueSet(123), 0),
        (MetricValue::UniqueSet(456), 4),
        (MetricValue::Distribution(1), fixed_cost + 12),
        (MetricValue::Distribution(1), 0),
        (MetricValue::Distribution(2), 12),
        (MetricValue::Gauge(3), fixed_cost),
        (MetricValue::Gauge(2), 0),
    ] {
        metric.value = metric_value;
        let current_cost = aggregator.total_cost();
        aggregator.insert(&project_key, metric.clone(), now).unwrap();
        assert_eq!(aggregator.total_cost(), current_cost + expected_added_cost);
    }

    aggregator.pop_flush_buckets(now + 1);
    assert_eq!(aggregator.total_cost(), 0);
}

#[test]
fn test_flush_bucket() {
    let config = AggregatorConfig {
        bucket_interval: 1,
        initial_delay: 0,
        debounce_delay: 0,
        ..Default::default()
    };
    let project_key = project("a94ae32be2584e0bbd7a4cbb95971fee");
    let mut aggregator = Aggregator::new(config);

    let now = now_ms();
    let mut metric = some_metric();
    metric.timestamp = UnixTimestamp::from_secs(now / 1000);
    aggregator.insert(&project_key, metric, now).unwrap();

    // Immediately after sending the metric, nothing has been flushed:
    assert_eq!(aggregator.bucket_count(), 1);
    assert!(aggregator.pop_flush_buckets(now).is_empty());

    // After the flush delay has passed, the bucket is handed out:
    let flushed = aggregator.pop_flush_buckets(now + 2100);
    assert_eq!(flushed.len(), 1);
    assert_eq!(flushed[0].project_key().as_str(), project_key.as_str());
    assert_eq!(flushed[0].clone().into_buckets().len(), 1);
    assert_eq!(aggregator.bucket_count(), 0);
}

#[test]
fn test_merge_back() {
    let config = AggregatorConfig {
        bucket_interval: 1,
        initial_delay: 0,
        debounce_delay: 0,
        ..Default::default()
    };
    let project_key = project("a94ae32be2584e0bbd7a4cbb95971fee");
    let mut aggregator = Aggregator::new(config);

    let now = now_ms();
    let mut metric = some_metric();
    metric.timestamp = UnixTimestamp::from_secs(now / 1000);
    aggregator.insert(&project_key, metric, now).unwrap();

    // The receiver rejects everything: the buckets are merged back.
    let later = now + 1100;
    for flush in aggregator.pop_flush_buckets(later + 1000) {
        let key = flush.project_key();
        aggregator
            .merge_all(&key, flush.into_buckets(), later + 1000)
            .unwrap();
    }
    assert_eq!(aggregator.bucket_count(), 1);
}

#[test]
fn test_get_bucket_timestamp_overflow() {
    let config = AggregatorConfig {
        bucket_interval: 10,
        initial_delay: 0,
        debounce_delay: 0,
        ..Default::default()
    };
    let now = UnixTimestamp::from_secs(now_ms() / 1000);
    assert!(matches!(
        config
            .get_bucket_timestamp(UnixTimestamp::from_secs(u64::MAX), 2, now)
            .unwrap_err()
            .kind(),
        AggregateMetricsErrorKind::InvalidTimestamp
    ));
}

#[test]
fn test_get_bucket_timestamp_zero() {
    let config = AggregatorConfig {
        bucket_interval: 10,
        initial_delay: 0,
        debounce_delay: 0,
        ..Default::default()
    };
    let now = now_ms() / 1000;
    let rounded_now = UnixTimestamp::from_secs(now / 10 * 10);
    assert_eq!(
        config
            .get_bucket_timestamp(UnixTimestamp::from_secs(now), 0, UnixTimestamp::from_secs(now))
            .unwrap(),
        rounded_now
    );
}

#[test]
fn test_get_bucket_timestamp_multiple() {
    let config = AggregatorConfig {
        bucket_interval: 10,
        initial_delay: 0,
        debounce_delay: 0,
        ..Default::default()
    };
    let current = now_ms() / 1000;
    let rounded_now = current / 10 * 10;
    let now = rounded_now + 3;
    assert_eq!(
        config
            .get_bucket_timestamp(UnixTimestamp::from_secs(now), 20, UnixTimestamp::from_secs(current))
            .unwrap()
            .as_secs(),
        rounded_now + 10
    );
}

#[test]
fn test_get_bucket_timestamp_non_multiple() {
    let config = AggregatorConfig {
        bucket_interval: 10,
        initial_delay: 0,
        debounce_delay: 0,
        ..Default::default()
    };
    let current = now_ms() / 1000;
    let rounded_now = current / 10 * 10;
    let now = rounded_now + 3;
    assert_eq!(
        config
            .get_bucket_timestamp(UnixTimestamp::from_secs(now), 23, UnixTimestamp::from_secs(current))
            .unwrap()
            .as_secs(),
        rounded_now + 10
    );
}

#[test]
fn test_validate_bucket_key_chars() {
    let bucket_key = key_with(
        "c:hergus.bergus",
        tags_of(&[
            ("is_it_garbage", "a\0b\0s\0o\0l\0u\0t\0e\0l\0y"),
            ("another\0garbage", "bye"),
        ]),
    );
    let aggregator_config = test_config();

    let mut bucket_key = Aggregator::validate_bucket_key(bucket_key, &aggregator_config).unwrap();

    assert_eq!(bucket_key.tags.len(), 1);
    assert_eq!(
        bucket_key.tags.get("is_it_garbage"),
        Some(&"absolutely".to_owned())
    );
    assert_eq!(bucket_key.tags.get("another\0garbage"), None);

    bucket_key.metric_name = "hergus\0bergus".to_owned();
    Aggregator::validate_bucket_key(bucket_key, &aggregator_config).unwrap_err();
}

#[test]
fn test_validate_bucket_key_str_lens() {
    let aggregator_config = test_config();

    let short_metric = key_with("c:a_short_metric", Tags::new());
    assert!(Aggregator::validate_bucket_key(short_metric, &aggregator_config).is_ok());

    let long_metric = key_with("c:long_name_a_very_long_name_its_super_long_really_but_like_super_long_probably_the_longest_name_youve_seen_and_even_the_longest_name_ever_its_extremly_long_i_cant_tell_how_long_it_is_because_i_dont_have_that_many_fingers_thus_i_cant_count_the_many_characters_this_long_name_is", Tags::new());
    let validation = Aggregator::validate_bucket_key(long_metric, &aggregator_config);
    assert_eq!(
        validation.unwrap_err(),
        AggregateMetricsErrorKind::InvalidStringLength.into()
    );

    let short_metric_long_tag_key = key_with(
        "c:a_short_metric_with_long_tag_key",
        tags_of(&[("i_run_out_of_creativity_so_here_we_go_Lorem_Ipsum_is_simply_dummy_text_of_the_printing_and_typesetting_industry_Lorem_Ipsum_has_been_the_industrys_standard_dummy_text_ever_since_the_1500s_when_an_unknown_printer_took_a_galley_of_type_and_scrambled_it_to_make_a_type_specimen_book", "tag_value")]),
    );
    let validation =
        Aggregator::validate_bucket_key(short_metric_long_tag_key, &aggregator_config).unwrap();
    assert_eq!(validation.tags.len(), 0);

    let short_metric_long_tag_value = key_with(
        "c:a_short_metric_with_long_tag_value",
        tags_of(&[("tag_key", "i_run_out_of_creativity_so_here_we_go_Lorem_Ipsum_is_simply_dummy_text_of_the_printing_and_typesetting_industry_Lorem_Ipsum_has_been_the_industrys_standard_dummy_text_ever_since_the_1500s_when_an_unknown_printer_took_a_galley_of_type_and_scrambled_it_to_make_a_type_specimen_book")]),
    );
    let validation =
        Aggregator::validate_bucket_key(short_metric_long_tag_value, &aggregator_config).unwrap();
    assert_eq!(validation.tags.len(), 0);
}

#[test]
fn test_aggregator_cost_enforcement_total() {
    let config = AggregatorConfig {
        max_total_bucket_bytes: Some(1),
        ..test_config()
    };
    let metric = some_metric();
    let mut aggregator = Aggregator::new(config);
    let project_key = project("a94ae32be2584e0bbd7a4cbb95971fed");

    aggregator.insert(&project_key, metric.clone(), now_ms()).unwrap();
    assert_eq!(
        aggregator.insert(&project_key, metric, now_ms()).unwrap_err().kind(),
        AggregateMetricsErrorKind::TotalLimitExceeded
    );
}

#[test]
fn test_aggregator_cost_enforcement_project() {
    let config = AggregatorConfig {
        max_project_key_bucket_bytes: Some(1),
        ..test_config()
    };
    let metric = some_metric();
    let mut aggregator = Aggregator::new(config);
    let project_key = project("a94ae32be2584e0bbd7a4cbb95971fed");

    aggregator.insert(&project_key, metric.clone(), now_ms()).unwrap();
    assert_eq!(
        aggregator.insert(&project_key, metric, now_ms()).unwrap_err().kind(),
        AggregateMetricsErrorKind::ProjectLimitExceeded
    );
}

#[test]
fn test_total_limit_refuses_distinct_key() {
    let config = AggregatorConfig {
        max_total_bucket_bytes: Some(1),
        ..test_config()
    };
    let mut aggregator = Aggregator::new(config);
    let project_key = project("a94ae32be2584e0bbd7a4cbb95971fed");
    aggregator.insert(&project_key, some_metric(), now_ms()).unwrap();
    assert!(!aggregator.accepts_metrics());

    let mut other = some_metric();
    other.name = "c:bar".to_owned();
    assert_eq!(
        aggregator.insert(&project_key, other.clone(), now_ms()).unwrap_err().kind(),
        AggregateMetricsErrorKind::TotalLimitExceeded
    );
    // Any project is refused while the total is exceeded.
    let second = project("a94ae32be2584e0bbd7a4cbb95971fee");
    assert_eq!(
        aggregator.insert(&second, other, now_ms()).unwrap_err().kind(),
        AggregateMetricsErrorKind::TotalLimitExceeded
    );
    assert_eq!(aggregator.bucket_count(), 1);
}

#[test]
fn test_tag_normalization_admits_bucket() {
    let mut aggregator = Aggregator::new(test_config());
    let project_key = project("a94ae32be2584e0bbd7a4cbb95971fed");
    let long_key = "k".repeat(201);
    let bucket = Bucket {
        timestamp: UnixTimestamp::from_secs(999994711),
        width: 1,
        name: "c:foo".to_owned(),
        unit: MetricUnit::Unitless,
        value: BucketValue::Counter(1),
        tags: tags_of(&[("release", "1\0.\00"), (&long_key, "x")]),
    };
    aggregator.merge(&project_key, bucket, now_ms()).unwrap();
    let (key, _, _) = aggregator.bucket_at(0);
    assert_eq!(key.tags.len(), 1);
    assert_eq!(key.tags.get("release"), Some(&"1.0".to_owned()));
}

#[test]
fn test_invalid_name_and_timestamp_errors() {
    let mut aggregator = Aggregator::new(test_config());
    let project_key = project("a94ae32be2584e0bbd7a4cbb95971fed");
    let mut metric = some_metric();
    metric.name = "foo".to_owned();
    assert_eq!(
        aggregator.insert(&project_key, metric, now_ms()).unwrap_err().kind(),
        AggregateMetricsErrorKind::InvalidCharacters
    );

    let config = AggregatorConfig::default();
    let mut aggregator = Aggregator::new(config);
    assert_eq!(
        aggregator.insert(&project_key, some_metric(), now_ms()).unwrap_err().kind(),
        AggregateMetricsErrorKind::InvalidTimestamp
    );
    assert_eq!(aggregator.bucket_count(), 0);
}

#[test]
fn test_shutdown_drains_and_conserves_cost() {
    let mut aggregator = Aggregator::new(AggregatorConfig::default());
    let project_key = project("a94ae32be2584e0bbd7a4cbb95971fed");
    let now = now_ms();
    let mut metric = some_metric();
    metric.timestamp = UnixTimestamp::from_secs(now / 1000);
    aggregator.insert(&project_key, metric.clone(), now).unwrap();
    metric.value = MetricValue::Distribution(3);
    aggregator.insert(&project_key, metric, now).unwrap();
    assert!(aggregator.total_cost() > 0);

    // Not yet due, and a shutdown without a timeout is ignored.
    aggregator.shutdown(None);
    assert!(aggregator.pop_flush_buckets(now).is_empty());

    aggregator.shutdown(Some(5));
    let flushed = aggregator.pop_flush_buckets(now);
    assert_eq!(flushed.len(), 1);
    assert_eq!(flushed[0].clone().into_buckets().len(), 2);
    assert_eq!(aggregator.bucket_count(), 0);
    assert_eq!(aggregator.total_cost(), 0);
    assert_eq!(aggregator.tracked_projects(), 0);
}

#[test]
fn test_counter_order_independent() {
    let project_key = project("a94ae32be2584e0bbd7a4cbb95971fed");
    let mut first = Aggregator::new(test_config());
    let mut second = Aggregator::new(test_config());
    let values = [5, -3, 40];
    for v in values {
        let mut m = some_metric();
        m.value = MetricValue::Counter(v);
        first.insert(&project_key, m, now_ms()).unwrap();
    }
    for v in values.iter().rev() {
        let mut m = some_metric();
        m.value = MetricValue::Counter(*v);
        second.insert(&project_key, m, now_ms()).unwrap();
    }
    assert_eq!(*first.bucket_at(0).1, BucketValue::Counter(42));
    assert_eq!(*second.bucket_at(0).1, BucketValue::Counter(42));
}

fn fnv1a(bytes: &[u8]) -> u32 {
    let mut h: u32 = 0x811c9dc5;
    for b in bytes {
        h ^= *b as u32;
        h = h.wrapping_mul(0x1000193);
    }
    h
}

#[test]
fn test_flush_time_jitter() {
    let config = AggregatorConfig::default();
    let key = project("a94ae32be2584e0bbd7a4cbb95971fed");
    let now_secs = 1_700_000_000u64;
    let now = now_secs * 1000;
    let shift = (fnv1a(key.as_str().as_bytes()) as u64) % 10_000;
    for ts in [now_secs / 10 * 10, now_secs / 10 * 10 + 10] {
        let deadline = config.get_flush_time(UnixTimestamp::from_secs(ts), &key, now);
        assert_eq!(deadline - (ts + 10 + 30) * 1000, shift);
        assert!(shift < 10_000);
    }
    // A backdated bucket is flushed after the debounce delay.
    let old = config.get_flush_time(UnixTimestamp::from_secs(now_secs - 3600), &key, now);
    assert_eq!(old, now + 10_000);
}

#[test]
fn test_timestamp_alignment_range() {
    let config = AggregatorConfig {
        bucket_interval: 7,
        ..test_config()
    };
    let now = UnixTimestamp::from_secs(1_000_000_000);
    for (t, width) in [(999_999_990u64, 0u64), (999_999_995, 9), (1_000_000_001, 4)] {
        let aligned = config
            .get_bucket_timestamp(UnixTimestamp::from_secs(t), width, now)
            .unwrap()
            .as_secs();
        let center = t + width / 2;
        assert_eq!(aligned % 7, 0);
        assert!(aligned <= center && center < aligned + 7);
    }
}

#[test]
fn test_project_key_parse() {
    assert!(ProjectKey::parse("a94ae32be2584e0bbd7a4cbb95971fee").is_some());
    assert!(ProjectKey::parse("short").is_none());
}

#[test]
fn test_insert_metrics_stops_at_first_refusal() {
    let mut aggregator = Aggregator::new(test_config());
    let project_key = project("a94ae32be2584e0bbd7a4cbb95971fed");
    let mut bad = some_metric();
    bad.name = "not a name".to_owned();
    let mut third = some_metric();
    third.value = MetricValue::Gauge(1);
    let message = InsertMetrics::new(project_key.clone(), vec![some_metric(), bad, third]);
    let err = aggregator
        .insert_metrics(&message.project_key, message.metrics, now_ms())
        .unwrap_err();
    assert_eq!(err.kind(), AggregateMetricsErrorKind::InvalidCharacters);
    // The first sample was inserted, the third never was.
    assert_eq!(aggregator.bucket_count(), 1);
    assert_eq!(*aggregator.bucket_at(0).1, BucketValue::Counter(42));
}

#[test]
fn test_merge_all_skips_refused_buckets() {
    let mut aggregator = Aggregator::new(test_config());
    let project_key = project("a94ae32be2584e0bbd7a4cbb95971fed");
    let good = Bucket {
        timestamp: UnixTimestamp::from_secs(999994711),
        width: 1,
        name: "c:foo".to_owned(),
        unit: MetricUnit::Unitless,
        value: BucketValue::Counter(4),
        tags: Tags::new(),
    };
    let mut bad = good.clone();
    bad.name = "9:foo".to_owned();
    aggregator
        .merge_all(&project_key, vec![good.clone(), bad, good], now_ms())
        .unwrap();
    assert_eq!(aggregator.bucket_count(), 1);
    assert_eq!(*aggregator.bucket_at(0).1, BucketValue::Counter(8));
}

#[test]
fn test_bucket_from_parts() {
    let key = key_with("c:foo", tags_of(&[("a", "b")]));
    let ts = key.timestamp;
    let bucket = Bucket::from_parts(key, 10, BucketValue::Counter(3));
    assert_eq!(bucket.timestamp, ts);
    assert_eq!(bucket.width, 10);
    assert_eq!(bucket.name, "c:foo");
    assert_eq!(bucket.tags.get("a"), Some(&"b".to_owned()));
    assert_eq!(bucket.value, BucketValue::Counter(3));
}
