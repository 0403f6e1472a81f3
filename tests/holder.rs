use collection::holder::{HeldSegment, SegmentHolder};
use collection::optimizers::{merge_candidates, OptimizerThresholds};
use collection::segment::{Distance, Indexes, Segment, SegmentConfig, SegmentError, SegmentType, StorageType};

fn config() -> SegmentConfig {
    SegmentConfig {
        vector_size: 2,
        distance: Distance::Euclid,
        index: Indexes::Plain,
        storage_type: StorageType::InMemory,
    }
}

fn thresholds() -> OptimizerThresholds {
    OptimizerThresholds { memmap_threshold: 100000, indexing_threshold: 210, payload_indexing_threshold: 1000 }
}

fn filled(first_id: u64, n: u64, appendable: bool) -> Segment {
    let mut s = Segment::new(config(), SegmentType::Plain, true);
    for k in 0..n {
        s.upsert_point(k + 1, first_id + k, &vec![1, k as u32]).unwrap();
    }
    s.appendable = appendable;
    s
}

#[test]
fn ids_are_fresh_and_never_reused() {
    let mut holder = SegmentHolder::new();
    let a = holder.add(HeldSegment::Direct(filled(0, 1, true)));
    let b = holder.add(HeldSegment::Direct(filled(10, 1, true)));
    assert_eq!((a, b), (0, 1));
    let c = holder.swap(HeldSegment::Direct(filled(20, 1, true)), &vec![a, b]);
    assert_eq!(c, 2);
    assert!(holder.get(a).is_none());
    assert!(holder.get(b).is_none());
    let d = holder.add(HeldSegment::Direct(filled(30, 1, true)));
    assert_eq!(d, 3);
}

#[test]
fn routing_prefers_appendable_segments() {
    let mut holder = SegmentHolder::new();
    let frozen = holder.add(HeldSegment::Direct(filled(0, 5, false)));
    let open = holder.add(HeldSegment::Direct(filled(3, 5, true)));
    assert_eq!(holder.segment_of(1), Some(frozen));
    assert_eq!(holder.segment_of(4), Some(open));
    assert_eq!(holder.segment_of(99), None);
    assert_eq!(holder.appendable_segment(), Some(open));
    holder.upsert_point(100, 99, &vec![5, 5]).unwrap();
    assert_eq!(holder.segment_of(99), Some(open));
}

#[test]
fn upsert_without_any_target_fails() {
    let mut holder = SegmentHolder::new();
    holder.add(HeldSegment::Direct(filled(0, 2, false)));
    assert_eq!(holder.upsert_point(10, 77, &vec![0, 0]), Err(SegmentError::ServiceError));
}

#[test]
fn merge_pipeline_through_holder() {
    let mut holder = SegmentHolder::new();
    let a = holder.add(HeldSegment::Direct(filled(0, 100, false)));
    let b = holder.add(HeldSegment::Direct(filled(1000, 120, false)));
    let c = holder.add(HeldSegment::Direct(filled(10000, 5000, false)));
    let scratch = holder.add(HeldSegment::Direct(filled(900000, 0, true)));
    let chosen = merge_candidates(&holder.summaries(), 3, 1000);
    assert_eq!(chosen, vec![scratch, a, b]);
    let chosen = vec![a, b];

    holder.freeze(&chosen, config());
    assert!(matches!(holder.get(a), Some(HeldSegment::Proxy(_))));
    assert!(matches!(holder.get(c), Some(HeldSegment::Direct(_))));

    // writes that land while the rebuild runs
    holder.upsert_point(7000, 5, &vec![42, 42]).unwrap();
    holder.upsert_point(7001, 1005, &vec![43, 43]).unwrap();

    let merged = holder.finish_optimization(&chosen, config(), thresholds());
    assert!(holder.get(a).is_none());
    assert!(holder.get(b).is_none());
    match holder.get(merged) {
        Some(HeldSegment::Direct(s)) => {
            assert_eq!(s.vectors_count(), 220);
            assert_eq!(s.vector(5).unwrap(), vec![42, 42]);
            assert_eq!(s.vector(1005).unwrap(), vec![43, 43]);
            assert_eq!(s.version(), 7001);
            assert_eq!(s.config().index, Indexes::Hnsw);
            assert_eq!(s.segment_type(), SegmentType::Indexed);
            assert!(!s.is_appendable());
        }
        _ => panic!("merged segment missing"),
    }
    match holder.get(c) {
        Some(HeldSegment::Direct(s)) => assert_eq!(s.vectors_count(), 5000),
        _ => panic!("segment c changed"),
    }
}

#[test]
fn concurrent_upserts_during_rebuild_are_kept() {
    let mut holder = SegmentHolder::new();
    let victim = holder.add(HeldSegment::Direct(filled(0, 200, false)));
    holder.freeze(&vec![victim], config());
    for k in 0..1000u64 {
        holder.upsert_point(1000 + k, k % 300, &vec![k as u32, 1]).unwrap();
    }
    let rebuilt = holder.finish_optimization(&vec![victim], config(), thresholds());
    match holder.get(rebuilt) {
        Some(HeldSegment::Direct(s)) => {
            for k in 700..1000u64 {
                assert_eq!(s.vector(k % 300).unwrap(), vec![k as u32, 1]);
            }
            assert_eq!(s.vectors_count(), 300);
            assert_eq!(s.segment_type(), SegmentType::Indexed);
        }
        _ => panic!("rebuilt segment missing"),
    }
}

#[test]
fn new_point_through_proxy_is_routed_back_to_it() {
    let mut holder = SegmentHolder::new();
    let victim = holder.add(HeldSegment::Direct(filled(0, 3, false)));
    holder.freeze(&vec![victim], config());
    holder.upsert_point(50, 77, &vec![7, 7]).unwrap();
    assert_eq!(holder.segment_of(77), Some(victim));
    assert_eq!(holder.upsert_point(51, 77, &vec![8, 8]), Ok(true));
}

#[test]
fn summaries_describe_each_segment() {
    let mut holder = SegmentHolder::new();
    let mut s = filled(0, 4, true);
    s.delete_point(100, 1).unwrap();
    let a = holder.add(HeldSegment::Direct(s));
    let sums = holder.summaries();
    assert_eq!(sums.len(), 1);
    assert_eq!(sums[0].id, a);
    assert_eq!(sums[0].num_vectors, 3);
    assert_eq!(sums[0].num_deleted_vectors, 1);
    holder.freeze(&vec![a], config());
    assert_eq!(holder.summaries()[0].segment_type, SegmentType::Special);
}
