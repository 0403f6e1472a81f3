use std::collections::HashSet;
use collection::fields::FieldSet;
use collection::holder::{HeldSegment, SegmentHolder};
use collection::optimizers::{
    build_optimized, indexing_candidates, merge_candidates, target_config, vacuum_candidate, Fraction,
    OptimizerThresholds, SegmentSummary,
};
use collection::optimizers_builder::{build_optimizers, next_optimization, OptimizerKind, OptimizersConfig};
use collection::proxy::ProxySegment;
use collection::segment::{Distance, Indexes, Segment, SegmentConfig, SegmentType, StorageType};
use collection::settings::{ServiceConfig, Settings, StorageConfig};

fn config() -> SegmentConfig {
    SegmentConfig {
        vector_size: 2,
        distance: Distance::Cosine,
        index: Indexes::Plain,
        storage_type: StorageType::InMemory,
    }
}

fn summary(id: u64, num_vectors: usize, num_deleted_vectors: usize) -> SegmentSummary {
    SegmentSummary { id, segment_type: SegmentType::Plain, num_vectors, num_deleted_vectors, config: config() }
}

fn thresholds(memmap: usize, indexing: usize) -> OptimizerThresholds {
    OptimizerThresholds { memmap_threshold: memmap, indexing_threshold: indexing, payload_indexing_threshold: 10 }
}

fn segment_with(first_id: u64, n: u64) -> Segment {
    let mut s = Segment::new(config(), SegmentType::Plain, true);
    for k in 0..n {
        s.upsert_point(k + 1, first_id + k, &vec![k as u32, 1]).unwrap();
    }
    s
}

fn proxy_over(s: Segment) -> ProxySegment {
    let write = Segment::new(config(), SegmentType::Plain, true);
    ProxySegment::new(s, write, HashSet::new(), FieldSet::new(), FieldSet::new())
}

#[test]
fn merge_picks_the_two_small_segments() {
    let segments = vec![summary(0, 100, 0), summary(1, 120, 0), summary(2, 5000, 0)];
    assert_eq!(merge_candidates(&segments, 2, 1000), vec![0, 1]);
    assert_eq!(merge_candidates(&segments, 3, 1000), Vec::<u64>::new());
}

#[test]
fn merge_needs_two_that_fit() {
    let segments = vec![summary(0, 900, 0), summary(1, 800, 0), summary(2, 5000, 0)];
    assert_eq!(merge_candidates(&segments, 1, 1000), Vec::<u64>::new());
    let ties = vec![summary(5, 10, 0), summary(3, 10, 0), summary(4, 10, 0)];
    assert_eq!(merge_candidates(&ties, 1, 20), vec![3, 4]);
    assert_eq!(merge_candidates(&ties, 1, 30), vec![3, 4, 5]);
}

#[test]
fn merge_swap_replaces_a_and_b() {
    let mut holder = SegmentHolder::new();
    let a = holder.add(HeldSegment::Direct(segment_with(0, 100)));
    let b = holder.add(HeldSegment::Direct(segment_with(1000, 120)));
    let c = holder.add(HeldSegment::Direct(segment_with(10000, 5000)));
    let chosen = merge_candidates(&holder.summaries(), 2, 1000);
    assert_eq!(chosen, vec![a, b]);

    let mut proxies = vec![proxy_over(segment_with(0, 100)), proxy_over(segment_with(1000, 120))];
    proxies[0].upsert_point(500, 50000, &vec![9, 9]).unwrap();
    proxies[1].delete_point(500, 1000).unwrap();
    let optimized = build_optimized(&proxies, config());
    assert_eq!(optimized.vectors_count(), 220);
    assert!(optimized.has_point(50000));
    assert!(!optimized.has_point(1000));
    assert_eq!(optimized.version(), 500);

    let merged = holder.swap(HeldSegment::Direct(optimized), &chosen);
    assert!(holder.get(a).is_none());
    assert!(holder.get(b).is_none());
    assert!(holder.get(merged).is_some());
    match holder.get(c) {
        Some(HeldSegment::Direct(s)) => assert_eq!(s.vectors_count(), 5000),
        _ => panic!("segment c is gone"),
    }
    assert_eq!(holder.summaries().len(), 2);
}

#[test]
fn vacuum_threshold_is_reached_at_half() {
    let half = Fraction { numerator: 1, denominator: 2 };
    let s = vec![summary(7, 1000, 600)];
    assert_eq!(vacuum_candidate(&s, half, 500), None);
    let s = vec![summary(7, 1000, 1000)];
    assert_eq!(vacuum_candidate(&s, half, 500), Some(7));
    let small = vec![summary(7, 400, 1000)];
    assert_eq!(vacuum_candidate(&small, half, 500), None);
}

#[test]
fn vacuum_prefers_highest_ratio() {
    let tenth = Fraction { numerator: 1, denominator: 10 };
    let s = vec![summary(1, 100, 20), summary(2, 100, 90), summary(3, 100, 50)];
    assert_eq!(vacuum_candidate(&s, tenth, 0), Some(2));
}

#[test]
fn indexing_selects_weak_configurations() {
    let mut big = summary(3, 5000, 0);
    big.config.index = Indexes::Hnsw;
    let segments = vec![summary(1, 10, 0), summary(2, 2000, 0), big];
    assert_eq!(indexing_candidates(&segments, thresholds(10000, 1000)), vec![2]);
    assert_eq!(indexing_candidates(&segments, thresholds(3000, 1000)), vec![2, 3]);
}

#[test]
fn target_config_follows_thresholds() {
    let t = thresholds(5000, 1000);
    let c = target_config(config(), t, 1000);
    assert_eq!(c.index, Indexes::Hnsw);
    assert_eq!(c.storage_type, StorageType::InMemory);
    let c = target_config(config(), t, 999);
    assert_eq!(c.index, Indexes::Plain);
    let c = target_config(config(), t, 5000);
    assert_eq!(c.storage_type, StorageType::Mmap);
    assert_eq!(c.vector_size, 2);
}

#[test]
fn concurrent_writes_during_rebuild_reach_the_replacement() {
    let mut proxies = vec![proxy_over(segment_with(0, 300))];
    for k in 0..1000u64 {
        let point = k % 500;
        proxies[0].upsert_point(1000 + k, point, &vec![k as u32, 7]).unwrap();
    }
    let optimized = build_optimized(&proxies, config());
    assert_eq!(optimized.vectors_count(), 500);
    for k in 500..1000u64 {
        assert_eq!(optimized.vector(k % 500).unwrap(), vec![k as u32, 7]);
    }
}

#[test]
fn optimizers_are_built_in_order() {
    let oc = OptimizersConfig {
        deleted_threshold: Fraction { numerator: 1, denominator: 5 },
        vacuum_min_vector_number: 100,
        max_segment_number: 4,
        memmap_threshold: 50000,
        indexing_threshold: 20000,
        payload_indexing_threshold: 10000,
        flush_interval_sec: 1,
    };
    let opts = build_optimizers(&"/data/c".to_owned(), &config(), &oc);
    assert_eq!(opts.len(), 3);
    assert_eq!(opts[0].kind, OptimizerKind::Indexing);
    assert_eq!(opts[1].kind, OptimizerKind::Merge { max_segment_number: 4 });
    assert_eq!(opts[2].segments_path, "/data/c/segments");
    assert_eq!(opts[2].temp_segments_path, "/data/c/temp_segments");
    assert_eq!(opts[1].thresholds.indexing_threshold, 20000);

    let segments = vec![summary(1, 200, 100)];
    assert_eq!(next_optimization(&opts, &segments), Some((2, vec![1])));
    let quiet = vec![summary(1, 200, 0)];
    assert_eq!(next_optimization(&opts, &quiet), None);
}

#[test]
fn settings_hold_their_values() {
    let s = Settings {
        debug: true,
        log_level: "info".to_owned(),
        storage: StorageConfig { wal: "./wal".to_owned() },
        service: ServiceConfig { host: "0.0.0.0".to_owned(), port: 6333 },
    };
    assert_eq!(s.service.port, 6333);
    assert_eq!(s.storage.wal, "./wal");
}
