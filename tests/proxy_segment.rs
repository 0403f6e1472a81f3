use collection::fields::FieldSet;
use collection::payload::{Payload, PayloadType};
use collection::proxy::ProxySegment;
use collection::segment::{
    Condition, Distance, Filter, Indexes, Segment, SegmentConfig, SegmentError, SegmentType, StorageType,
};
use std::collections::HashSet;

fn config() -> SegmentConfig {
    SegmentConfig {
        vector_size: 4,
        distance: Distance::Dot,
        index: Indexes::Plain,
        storage_type: StorageType::InMemory,
    }
}

fn bits(v: &[f32]) -> Vec<u32> {
    v.iter().map(|x| x.to_bits()).collect()
}

fn keyword(s: &str) -> PayloadType {
    PayloadType::Keyword(s.to_owned())
}

/// Points 1, 2, 3, each with a colour.
fn build_segment_1() -> Segment {
    let mut segment = Segment::new(config(), SegmentType::Plain, true);
    let color = "color".to_owned();
    segment.upsert_point(1, 1, &bits(&[1.0, 0.0, 1.0, 1.0])).unwrap();
    segment.upsert_point(2, 2, &bits(&[1.0, 0.0, 1.0, 0.0])).unwrap();
    segment.upsert_point(3, 3, &bits(&[1.0, 1.0, 1.0, 1.0])).unwrap();
    segment.set_payload(4, 1, &color, keyword("red")).unwrap();
    segment.set_payload(5, 2, &color, keyword("red")).unwrap();
    segment.set_payload(6, 3, &color, keyword("blue")).unwrap();
    segment
}

fn empty_segment() -> Segment {
    Segment::new(config(), SegmentType::Plain, true)
}

fn proxy_over_segment_1() -> ProxySegment {
    ProxySegment::new(
        build_segment_1(),
        empty_segment(),
        HashSet::new(),
        FieldSet::new(),
        FieldSet::new(),
    )
}

#[test]
fn test_writing() {
    let mut proxy_segment = proxy_over_segment_1();

    let vec4 = bits(&[1.1, 1.0, 0.0, 1.0]);
    proxy_segment.upsert_point(100, 4, &vec4).unwrap();
    let vec6 = bits(&[1.0, 1.0, 0.5, 1.0]);
    proxy_segment.upsert_point(101, 6, &vec6).unwrap();
    proxy_segment.delete_point(102, 1).unwrap();

    let search_result = proxy_segment.search(None, 10);

    let mut seen_points: HashSet<u64> = Default::default();
    for id in search_result {
        if seen_points.contains(&id) {
            panic!("point {} appears multiple times", id);
        }
        seen_points.insert(id);
    }

    assert!(seen_points.contains(&4));
    assert!(seen_points.contains(&6));
    assert!(!seen_points.contains(&1));

    assert!(!proxy_segment.write_segment.has_point(2));

    let payload_key = "color".to_owned();
    proxy_segment.delete_payload(103, 2, &payload_key).unwrap();

    assert!(proxy_segment.write_segment.has_point(2))
}

#[test]
fn write_through_proxy_finds_exactly_the_live_points() {
    let mut proxy = proxy_over_segment_1();
    proxy.upsert_point(100, 4, &bits(&[1.1, 1.0, 0.0, 1.0])).unwrap();
    proxy.upsert_point(101, 6, &bits(&[1.0, 1.0, 0.5, 1.0])).unwrap();
    proxy.delete_point(102, 1).unwrap();
    let mut found = proxy.search(None, 10);
    found.sort();
    assert_eq!(found, vec![2, 3, 4, 6]);
}

#[test]
fn payload_change_moves_point_and_keeps_its_vector() {
    let mut proxy = proxy_over_segment_1();
    let color = "color".to_owned();
    assert_eq!(proxy.delete_payload(103, 2, &color), Ok(true));
    assert!(proxy.write_segment.has_point(2));
    assert!(proxy.deleted_points.contains(&2));
    assert_eq!(proxy.vector(2).unwrap(), bits(&[1.0, 0.0, 1.0, 0.0]));
    assert!(proxy.payload(2).unwrap().get(&color).is_none());
    assert!(proxy.wrapped_segment.payload(2).unwrap().get(&color).is_some());
}

#[test]
fn replayed_upsert_is_not_applied() {
    let mut proxy = proxy_over_segment_1();
    let v = bits(&[0.5, 0.5, 0.5, 0.5]);
    assert_eq!(proxy.upsert_point(100, 4, &v), Ok(true));
    assert!(proxy.version() >= 100);
    let count = proxy.vectors_count();
    assert_eq!(proxy.upsert_point(100, 4, &v), Ok(false));
    assert_eq!(proxy.vectors_count(), count);
    assert_eq!(count, 4);
}

#[test]
fn deleted_point_hidden_under_any_filter() {
    let mut proxy = proxy_over_segment_1();
    proxy.delete_point(10, 3).unwrap();
    let mut ids = HashSet::new();
    ids.insert(3);
    ids.insert(2);
    let must_have = Filter { must: vec![Condition::HasId(ids)], must_not: vec![] };
    assert_eq!(proxy.search(Some(&must_have), 10), vec![2]);
    assert!(!proxy.search(None, 10).contains(&3));
    let mut other = HashSet::new();
    other.insert(1);
    let excluding = Filter { must: vec![], must_not: vec![Condition::HasId(other)] };
    assert_eq!(proxy.search(Some(&excluding), 10), vec![2]);
}

#[test]
fn search_keeps_each_point_once_after_moves() {
    let mut proxy = proxy_over_segment_1();
    let key = "size".to_owned();
    proxy.set_payload(10, 1, &key, PayloadType::Integer(3)).unwrap();
    proxy.set_payload(11, 2, &key, PayloadType::Integer(4)).unwrap();
    proxy.upsert_point(12, 1, &bits(&[0.0, 0.0, 0.0, 1.0])).unwrap();
    let found = proxy.search(None, 10);
    assert_eq!(found.len(), 3);
    let unique: HashSet<u64> = found.iter().cloned().collect();
    assert_eq!(unique.len(), 3);
}

#[test]
fn version_is_the_larger_of_both_segments() {
    let mut proxy = proxy_over_segment_1();
    assert_eq!(proxy.version(), 6);
    proxy.upsert_point(50, 9, &bits(&[1.0, 1.0, 1.0, 1.0])).unwrap();
    assert_eq!(proxy.version(), 50);
    assert_eq!(proxy.flush(), 6);
    assert_eq!(proxy.wrapped_segment.version(), 6);
}

#[test]
fn stale_operations_change_nothing() {
    let mut proxy = proxy_over_segment_1();
    assert_eq!(proxy.delete_point(6, 1), Ok(false));
    assert!(proxy.has_point(1));
    assert_eq!(proxy.clear_payload(3, 1), Ok(false));
    assert_eq!(proxy.create_field_index(1, &"color".to_owned()), Ok(false));
}

#[test]
fn payload_change_on_missing_point_fails() {
    let mut proxy = proxy_over_segment_1();
    let key = "color".to_owned();
    assert_eq!(proxy.set_payload(10, 42, &key, keyword("green")), Err(SegmentError::PointIdError(42)));
    assert_eq!(proxy.version(), 6);
}

#[test]
fn full_payload_replaces_and_clear_empties() {
    let mut proxy = proxy_over_segment_1();
    let mut p = Payload::new();
    p.set(&"kind".to_owned(), PayloadType::FloatBits(2.5f64.to_bits()));
    proxy.set_full_payload(10, 3, p).unwrap();
    let got = proxy.payload(3).unwrap();
    assert!(got.get(&"color".to_owned()).is_none());
    assert!(matches!(got.get(&"kind".to_owned()), Some(PayloadType::FloatBits(b)) if *b == 2.5f64.to_bits()));
    proxy.clear_payload(11, 3).unwrap();
    assert!(proxy.payload(3).unwrap().entries.is_empty());
}

#[test]
fn counts_through_proxy() {
    let mut proxy = proxy_over_segment_1();
    assert_eq!(proxy.vectors_count(), 3);
    proxy.upsert_point(10, 7, &bits(&[0.0, 0.0, 0.0, 0.0])).unwrap();
    proxy.delete_point(11, 1).unwrap();
    proxy.set_payload(12, 2, &"a".to_owned(), PayloadType::Integer(1)).unwrap();
    assert_eq!(proxy.vectors_count(), 3);
    assert_eq!(proxy.deleted_count(), 0);
    proxy.delete_point(13, 2).unwrap();
    assert_eq!(proxy.vectors_count(), 2);
    assert_eq!(proxy.deleted_count(), 1);
    let info = proxy.info();
    assert_eq!(info.segment_type, SegmentType::Special);
    assert_eq!(info.num_vectors, 2);
    assert!(proxy.is_appendable());
    assert_eq!(proxy.segment_type(), SegmentType::Special);
}

#[test]
fn index_diff_follows_last_operation() {
    let mut wrapped = build_segment_1();
    wrapped.create_field_index(7, &"color".to_owned()).unwrap();
    wrapped.create_field_index(8, &"size".to_owned()).unwrap();
    let mut proxy = ProxySegment::new(wrapped, empty_segment(), HashSet::new(), FieldSet::new(), FieldSet::new());
    let city = "city".to_owned();
    let color = "color".to_owned();
    proxy.create_field_index(10, &city).unwrap();
    proxy.delete_field_index(11, &color).unwrap();
    proxy.delete_field_index(12, &city).unwrap();
    proxy.create_field_index(13, &city).unwrap();
    let fields = proxy.get_indexed_fields();
    assert!(fields.contains(&city));
    assert!(!fields.contains(&color));
    assert!(fields.contains(&"size".to_owned()));
    assert_eq!(fields.keys.len(), 2);
    proxy.create_field_index(14, &color).unwrap();
    assert!(proxy.get_indexed_fields().contains(&color));
}

#[test]
fn plain_segment_rejects_new_points_when_not_appendable() {
    let mut segment = Segment::new(config(), SegmentType::Indexed, false);
    assert_eq!(segment.upsert_point(1, 5, &bits(&[1.0, 1.0, 1.0, 1.0])), Err(SegmentError::ServiceError));
    assert_eq!(segment.version(), 0);
}

#[test]
fn segment_search_respects_top_and_order() {
    let segment = build_segment_1();
    assert_eq!(segment.search(None, 2), vec![1, 2]);
    assert_eq!(segment.search(None, 0), Vec::<u64>::new());
    let mut all = segment.iter_points();
    all.sort();
    assert_eq!(all, vec![1, 2, 3]);
}

#[test]
fn segment_counts_deleted_points() {
    let mut segment = build_segment_1();
    assert_eq!(segment.delete_point(10, 2), Ok(true));
    assert_eq!(segment.delete_point(11, 2), Ok(false));
    assert_eq!(segment.vectors_count(), 2);
    assert_eq!(segment.deleted_count(), 1);
    assert_eq!(segment.vector(2), Err(SegmentError::PointIdError(2)));
}

#[test]
fn new_point_reads_through_proxy() {
    let mut proxy = proxy_over_segment_1();
    let v = bits(&[1.1, 1.0, 0.0, 1.0]);
    proxy.upsert_point(100, 4, &v).unwrap();
    assert!(proxy.has_point(4));
    assert_eq!(proxy.vector(4).unwrap(), v);
    assert!(proxy.payload(4).unwrap().entries.is_empty());
    assert!(!proxy.deleted_points.contains(&4));
    assert_eq!(proxy.vectors_count(), 4);
    proxy.delete_point(101, 4).unwrap();
    assert!(!proxy.has_point(4));
    assert_eq!(proxy.vector(4), Err(SegmentError::PointIdError(4)));
    assert_eq!(proxy.vectors_count(), 3);
}

#[test]
fn proxy_info_sums_sizes_and_keeps_schema() {
    let mut wrapped = build_segment_1();
    wrapped.create_field_index(7, &"color".to_owned()).unwrap();
    let mut proxy = ProxySegment::new(wrapped, empty_segment(), HashSet::new(), FieldSet::new(), FieldSet::new());
    proxy.upsert_point(10, 9, &bits(&[0.0, 0.0, 0.0, 0.0])).unwrap();
    let info = proxy.info();
    assert_eq!(info.ram_usage_bytes, 4 * 4 * 3 + 4 * 4 * 1);
    assert_eq!(info.disk_usage_bytes, 0);
    assert!(info.is_appendable);
    assert!(info.schema.contains(&"color".to_owned()));
}

#[test]
fn search_is_wrapped_part_then_write_part() {
    let mut proxy = proxy_over_segment_1();
    proxy.upsert_point(10, 9, &bits(&[0.0, 0.0, 0.0, 0.0])).unwrap();
    proxy.set_payload(11, 1, &"a".to_owned(), PayloadType::Integer(1)).unwrap();
    assert_eq!(proxy.search(None, 10), vec![2, 3, 9, 1]);
    assert_eq!(proxy.search(None, 1), vec![2, 9]);
}
