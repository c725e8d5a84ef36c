use relay_metrics::{
    AggregateMetricsErrorKind, BucketValue, DistributionValue, GaugeValue, MetricValue, SetValue,
};

fn dist(values: &[i64]) -> DistributionValue {
    let mut distribution = DistributionValue::new();
    for v in values {
        distribution.insert(*v);
    }
    distribution
}

#[test]
fn test_distribution_insert() {
    let mut distribution = DistributionValue::new();
    assert_eq!(distribution.insert(2), 1);
    assert_eq!(distribution.insert(1), 1);
    assert_eq!(distribution.insert(2), 2);

    assert_eq!(distribution.len(), 3);

    assert!(!distribution.contains(0));
    assert!(distribution.contains(1));
    assert!(distribution.contains(2));

    assert_eq!(distribution.get(0), 0);
    assert_eq!(distribution.get(1), 1);
    assert_eq!(distribution.get(2), 2);
}

#[test]
fn test_distribution_insert_multi() {
    let mut distribution = DistributionValue::new();
    assert_eq!(distribution.insert_multi(0, 0), 0);
    assert_eq!(distribution.insert_multi(2, 2), 2);
    assert_eq!(distribution.insert_multi(1, 1), 1);
    assert_eq!(distribution.insert_multi(3, 1), 1);
    assert_eq!(distribution.insert_multi(3, 2), 3);

    assert_eq!(distribution.len(), 6);

    assert!(!distribution.contains(0));
    assert!(distribution.contains(1));
    assert!(distribution.contains(2));
    assert!(distribution.contains(3));

    assert_eq!(distribution.get(0), 0);
    assert_eq!(distribution.get(1), 1);
    assert_eq!(distribution.get(2), 2);
    assert_eq!(distribution.get(3), 3);
}

#[test]
fn test_distribution_iter_values() {
    let distribution = dist(&[2, 1, 2]);

    let mut iter = distribution.iter_values().into_iter();
    assert_eq!(iter.len(), 3);
    assert_eq!(iter.next(), Some(1));
    assert_eq!(iter.len(), 2);
    assert_eq!(iter.next(), Some(2));
    assert_eq!(iter.len(), 1);
    assert_eq!(iter.next(), Some(2));
    assert_eq!(iter.len(), 0);
    assert_eq!(iter.next(), None);
}

#[test]
fn test_distribution_iter_values_empty() {
    let distribution = DistributionValue::new();
    let mut iter = distribution.iter_values().into_iter();
    assert_eq!(iter.len(), 0);
    assert_eq!(iter.next(), None);
}

#[test]
fn test_distribution_iter() {
    let distribution = dist(&[2, 1, 2]);

    let mut iter = distribution.iter().into_iter();
    assert_eq!(iter.next(), Some((1, 1)));
    assert_eq!(iter.next(), Some((2, 2)));
    assert_eq!(iter.next(), None);
}

#[test]
fn test_distribution_is_empty_and_negative_values() {
    let mut distribution = DistributionValue::new();
    assert!(distribution.is_empty());
    distribution.insert(-5);
    distribution.insert(7);
    distribution.insert(-5);
    assert!(!distribution.is_empty());
    assert_eq!(distribution.iter_values(), vec![-5, -5, 7]);
    assert_eq!(distribution.unique_len(), 2);
}

#[test]
fn test_distribution_merge_adds_counts() {
    let mut a = dist(&[1, 2, 3]);
    let b = dist(&[2, 4]);
    a.merge(&b);
    assert_eq!(a.iter(), vec![(1, 1), (2, 2), (3, 1), (4, 1)]);
    assert_eq!(a.len(), 5);
}

#[test]
fn test_bucket_value_merge_counter() {
    let mut value = BucketValue::Counter(42);
    BucketValue::Counter(43).merge_into(&mut value).unwrap();
    assert_eq!(value, BucketValue::Counter(85));
}

#[test]
fn test_bucket_value_merge_distribution() {
    let mut value = BucketValue::Distribution(dist(&[1, 2, 3]));
    BucketValue::Distribution(dist(&[2, 4]))
        .merge_into(&mut value)
        .unwrap();
    assert_eq!(value, BucketValue::Distribution(dist(&[1, 2, 2, 3, 4])));
}

#[test]
fn test_bucket_value_merge_set() {
    let mut value = BucketValue::UniqueSet(SetValue::from_members(&[1, 2]));
    BucketValue::UniqueSet(SetValue::from_members(&[2, 3]))
        .merge_into(&mut value)
        .unwrap();
    assert_eq!(value, BucketValue::UniqueSet(SetValue::from_members(&[1, 2, 3])));
}

#[test]
fn test_bucket_value_merge_gauge() {
    let mut value = BucketValue::Gauge(GaugeValue::single(42));
    BucketValue::Gauge(GaugeValue::single(43))
        .merge_into(&mut value)
        .unwrap();

    assert_eq!(
        value,
        BucketValue::Gauge(GaugeValue {
            max: 43,
            min: 42,
            sum: 85,
            last: 43,
            count: 2,
        })
    );
}

#[test]
fn test_bucket_value_insert_counter() {
    let mut value = BucketValue::Counter(42);
    MetricValue::Counter(43).merge_into(&mut value).unwrap();
    assert_eq!(value, BucketValue::Counter(85));
}

#[test]
fn test_bucket_value_insert_distribution() {
    let mut value = BucketValue::Distribution(dist(&[1, 2, 3]));
    MetricValue::Distribution(2).merge_into(&mut value).unwrap();
    assert_eq!(value, BucketValue::Distribution(dist(&[1, 2, 3, 2])));
}

#[test]
fn test_bucket_value_insert_set() {
    let mut value = BucketValue::UniqueSet(SetValue::from_members(&[1, 2]));
    MetricValue::UniqueSet(3).merge_into(&mut value).unwrap();
    assert_eq!(value, BucketValue::UniqueSet(SetValue::from_members(&[1, 2, 3])));
    MetricValue::UniqueSet(2).merge_into(&mut value).unwrap();
    assert_eq!(value, BucketValue::UniqueSet(SetValue::from_members(&[1, 2, 3])));
}

#[test]
fn test_bucket_value_insert_gauge() {
    let mut value = BucketValue::Gauge(GaugeValue::single(42));
    MetricValue::Gauge(43).merge_into(&mut value).unwrap();
    assert_eq!(
        value,
        BucketValue::Gauge(GaugeValue {
            max: 43,
            min: 42,
            sum: 85,
            last: 43,
            count: 2,
        })
    );
}

#[test]
fn test_bucket_value_cost() {
    let expected_bucket_value_size = 48;
    let expected_set_entry_size = 4;

    let counter = BucketValue::Counter(123);
    assert_eq!(counter.cost(), expected_bucket_value_size);
    let set = BucketValue::UniqueSet(SetValue::from_members(&[1, 2, 3, 4, 5]));
    assert_eq!(
        set.cost(),
        expected_bucket_value_size + 5 * expected_set_entry_size
    );
    let distribution = BucketValue::Distribution(dist(&[1, 2, 3]));
    assert_eq!(
        distribution.cost(),
        expected_bucket_value_size + 3 * (8 + 4)
    );
    let gauge = BucketValue::Gauge(GaugeValue {
        max: 43,
        min: 42,
        sum: 85,
        last: 43,
        count: 2,
    });
    assert_eq!(gauge.cost(), expected_bucket_value_size);
}

#[test]
fn test_bucket_value_merge_mismatched_types() {
    let mut value = BucketValue::Counter(1);
    let err = BucketValue::Gauge(GaugeValue::single(2))
        .merge_into(&mut value)
        .unwrap_err();
    assert_eq!(err.kind(), AggregateMetricsErrorKind::InvalidTypes);
    assert_eq!(value, BucketValue::Counter(1));

    let err = MetricValue::UniqueSet(3).merge_into(&mut value).unwrap_err();
    assert_eq!(err.kind(), AggregateMetricsErrorKind::InvalidTypes);
}

#[test]
fn test_bucket_value_sample_count_exceeded() {
    let mut full = DistributionValue::new();
    full.insert_multi(1, u32::MAX);
    let mut value = BucketValue::Distribution(full);
    let err = MetricValue::Distribution(2).merge_into(&mut value).unwrap_err();
    assert_eq!(err.kind(), AggregateMetricsErrorKind::SampleCountExceeded);
    let err = BucketValue::Distribution(dist(&[3]))
        .merge_into(&mut value)
        .unwrap_err();
    assert_eq!(err.kind(), AggregateMetricsErrorKind::SampleCountExceeded);
}

#[test]
fn test_counter_saturates() {
    let mut value = BucketValue::Counter(i64::MAX - 1);
    MetricValue::Counter(5).merge_into(&mut value).unwrap();
    assert_eq!(value, BucketValue::Counter(i64::MAX));
}

#[test]
fn test_gauge_avg() {
    let mut gauge = GaugeValue::single(4);
    gauge.insert(-9);
    gauge.insert(10);
    assert_eq!(gauge.avg(), 1);
    let negative = GaugeValue {
        max: -1,
        min: -8,
        sum: -7,
        last: -1,
        count: 2,
    };
    assert_eq!(negative.avg(), -3);
    let empty = GaugeValue {
        max: 0,
        min: 0,
        sum: 5,
        last: 0,
        count: 0,
    };
    assert_eq!(empty.avg(), 0);
}

#[test]
fn test_gauge_merge_order() {
    let a = GaugeValue::single(3);
    let mut b = GaugeValue::single(10);
    b.insert(1);

    let mut ab = a;
    ab.merge(b);
    let mut ba = b;
    ba.merge(a);

    assert_eq!((ab.max, ab.min, ab.sum, ab.count), (ba.max, ba.min, ba.sum, ba.count));
    assert_eq!(ab.last, b.last);
    assert_eq!(ba.last, a.last);
}

#[test]
fn test_distribution_multiset_order_independent() {
    let a = dist(&[5, -1, 5, 3]);
    let b = dist(&[3, 5, -1, 5]);
    assert_eq!(a.iter_values(), vec![-1, 3, 5, 5]);
    assert_eq!(a.iter_values(), b.iter_values());
}

#[test]
fn test_set_insert_idempotent() {
    let mut once = SetValue::new();
    assert!(once.insert(7));
    let mut twice = SetValue::new();
    assert!(twice.insert(7));
    assert!(!twice.insert(7));
    assert_eq!(once, twice);
    assert_eq!(twice.iter(), vec![7]);
    assert_eq!(twice.len(), 1);
}
