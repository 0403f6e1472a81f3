use vstd::prelude::*;

use crate::optimizers::{
    indexing_candidates, merge_candidates, vacuum_candidate, ids_distinct, Fraction, OptimizerThresholds,
    SegmentSummary,
};
use crate::segment::SegmentConfig;

verus! {

/// Settings of the three optimizers. The vacuum threshold is the fraction of
/// deleted points at which a segment is rebuilt.
#[derive(Clone, Copy, Debug, PartialEq, Eq, Structural)]
pub struct OptimizersConfig {
    pub deleted_threshold: Fraction,
    pub vacuum_min_vector_number: usize,
    pub max_segment_number: usize,
    pub memmap_threshold: usize,
    pub indexing_threshold: usize,
    pub payload_indexing_threshold: usize,
    pub flush_interval_sec: u64,
}

/// The selection policy of an optimizer.
#[derive(Clone, Copy, Debug, PartialEq, Eq, Structural)]
pub enum OptimizerKind {
    /// Rebuilds segments whose configuration is weaker than their size asks for.
    Indexing,
    /// Joins the smallest segments when there are too many.
    Merge { max_segment_number: usize },
    /// Rebuilds the segment with the largest share of deleted points.
    Vacuum { deleted_threshold: Fraction, min_vectors: usize },
}

/// An optimizer: its policy and where it builds.
pub struct Optimizer {
    pub kind: OptimizerKind,
    pub thresholds: OptimizerThresholds,
    pub segments_path: String,
    pub temp_segments_path: String,
    pub segment_config: SegmentConfig,
}

/// The two parts with a `/` between them.
fn join_path(base: &String, name: &str) -> (r: String)
    ensures
        r@ == base@ + seq!['/'] + name@,
{
    let mut r = base.clone();
    r.append("/");
    proof {
        reveal_strlit("/");
    }
    r.append(name);
    r
}

/// The optimizers of a collection, in the order in which they are consulted:
/// indexing, merge, vacuum.
pub fn build_optimizers(
    collection_path: &String,
    segment_config: &SegmentConfig,
    optimizers_config: &OptimizersConfig,
) -> (r: Vec<Optimizer>)
    ensures
        r@.len() == 3,
        r@[0].kind == OptimizerKind::Indexing,
        r@[1].kind == (OptimizerKind::Merge { max_segment_number: optimizers_config.max_segment_number }),
        r@[2].kind == (OptimizerKind::Vacuum {
            deleted_threshold: optimizers_config.deleted_threshold,
            min_vectors: optimizers_config.vacuum_min_vector_number,
        }),
        forall|i: int| 0 <= i < 3 ==> {
            &&& (#[trigger] r@[i]).thresholds.memmap_threshold == optimizers_config.memmap_threshold
            &&& r@[i].thresholds.indexing_threshold == optimizers_config.indexing_threshold
            &&& r@[i].thresholds.payload_indexing_threshold == optimizers_config.payload_indexing_threshold
            &&& r@[i].segments_path@ == collection_path@ + seq!['/'] + "segments"@
            &&& r@[i].temp_segments_path@ == collection_path@ + seq!['/'] + "temp_segments"@
            &&& r@[i].segment_config == *segment_config
        },
{
    let thresholds = OptimizerThresholds {
        memmap_threshold: optimizers_config.memmap_threshold,
        indexing_threshold: optimizers_config.indexing_threshold,
        payload_indexing_threshold: optimizers_config.payload_indexing_threshold,
    };
    let kinds = [
        OptimizerKind::Indexing,
        OptimizerKind::Merge { max_segment_number: optimizers_config.max_segment_number },
        OptimizerKind::Vacuum {
            deleted_threshold: optimizers_config.deleted_threshold,
            min_vectors: optimizers_config.vacuum_min_vector_number,
        },
    ];
    let mut r: Vec<Optimizer> = Vec::new();
    let mut i: usize = 0;
    while i < 3
        invariant
            0 <= i <= 3,
            r@.len() == i,
            forall|j: int| 0 <= j < i ==> (#[trigger] r@[j]).kind == kinds@[j],
            forall|j: int| 0 <= j < i ==> {
                &&& (#[trigger] r@[j]).thresholds == thresholds
                &&& r@[j].segments_path@ == collection_path@ + seq!['/'] + "segments"@
                &&& r@[j].temp_segments_path@ == collection_path@ + seq!['/'] + "temp_segments"@
                &&& r@[j].segment_config == *segment_config
            },
        decreases 3 - i,
    {
        r.push(Optimizer {
            kind: kinds[i],
            thresholds,
            segments_path: join_path(collection_path, "segments"),
            temp_segments_path: join_path(collection_path, "temp_segments"),
            segment_config: *segment_config,
        });
        i = i + 1;
    }
    r
}

impl Optimizer {
    pub open spec fn wf(&self) -> bool {
        self.kind matches OptimizerKind::Vacuum { deleted_threshold, .. } ==> deleted_threshold.wf()
    }

    /// Whether the optimizer's policy selects anything among `segments`.
    pub open spec fn has_candidates(&self, segments: Seq<SegmentSummary>) -> bool {
        match self.kind {
            OptimizerKind::Indexing => exists|i: int|
                0 <= i < segments.len() && crate::optimizers::needs_indexing(#[trigger] segments[i], self.thresholds),
            OptimizerKind::Merge { max_segment_number } => crate::optimizers::count_non_special(segments)
                > max_segment_number && crate::optimizers::two_fit(segments, self.thresholds.memmap_threshold),
            OptimizerKind::Vacuum { deleted_threshold, min_vectors } => exists|i: int|
                0 <= i < segments.len() && crate::optimizers::vacuum_eligible(
                    #[trigger] segments[i],
                    deleted_threshold,
                    min_vectors,
                ),
        }
    }

    /// The segments that this optimizer would rebuild now; empty when none.
    pub fn check_condition(&self, segments: &Vec<SegmentSummary>) -> (r: Vec<u64>)
        requires
            self.wf(),
            ids_distinct(segments@),
        ensures
            r@.len() > 0 <==> self.has_candidates(segments@),
            self.kind == OptimizerKind::Indexing ==> forall|id: u64| r@.contains(id)
                <==> crate::optimizers::is_indexing_candidate(segments@, self.thresholds, id),
            self.kind matches OptimizerKind::Merge { max_segment_number } ==> {
                &&& crate::optimizers::count_non_special(segments@) <= max_segment_number ==> r@.len() == 0
                &&& r@.len() > 0 ==> exists|sel: Seq<int>|
                    #[trigger] crate::optimizers::is_merge_selection(segments@, self.thresholds.memmap_threshold, sel)
                        && r@ == crate::optimizers::selection_ids(segments@, sel)
            },
            self.kind matches OptimizerKind::Vacuum { deleted_threshold, min_vectors } ==> {
                &&& r@.len() <= 1
                &&& r@.len() == 0 <==> forall|i: int| 0 <= i < segments@.len() ==> !crate::optimizers::vacuum_eligible(
                    #[trigger] segments@[i],
                    deleted_threshold,
                    min_vectors,
                )
                &&& r@.len() == 1 ==> exists|i: int| 0 <= i < segments@.len() && #[trigger] segments@[i].id == r@[0]
                    && crate::optimizers::vacuum_eligible(segments@[i], deleted_threshold, min_vectors)
                    && forall|j: int| 0 <= j < segments@.len() && crate::optimizers::vacuum_eligible(
                        #[trigger] segments@[j],
                        deleted_threshold,
                        min_vectors,
                    ) ==> crate::optimizers::ratio_at_least(segments@[i], segments@[j])
            },
    {
        match self.kind {
            OptimizerKind::Indexing => {
                let r = indexing_candidates(segments, self.thresholds);
                proof {
                    assert forall|id: u64| r@.contains(id) <==> crate::optimizers::is_indexing_candidate(
                        segments@,
                        self.thresholds,
                        id,
                    ) by {
                        if r@.contains(id) {
                            let j = choose|j: int| 0 <= j < r@.len() && r@[j] == id;
                            assert(crate::optimizers::is_indexing_candidate(segments@, self.thresholds, r@[j]));
                        }
                        if crate::optimizers::is_indexing_candidate(segments@, self.thresholds, id) {
                            let i = choose|i: int| 0 <= i < segments@.len() && #[trigger] segments@[i].id == id
                                && crate::optimizers::needs_indexing(segments@[i], self.thresholds);
                            assert(crate::optimizers::needs_indexing(segments@[i], self.thresholds));
                        }
                    }
                    if r@.len() > 0 {
                        assert(crate::optimizers::is_indexing_candidate(segments@, self.thresholds, r@[0]));
                    }
                    if self.has_candidates(segments@) {
                        let i = choose|i: int| 0 <= i < segments@.len() && crate::optimizers::needs_indexing(
                            #[trigger] segments@[i],
                            self.thresholds,
                        );
                        assert(r@.contains(segments@[i].id));
                    }
                }
                r
            },
            OptimizerKind::Merge { max_segment_number } => {
                merge_candidates(segments, max_segment_number, self.thresholds.memmap_threshold)
            },
            OptimizerKind::Vacuum { deleted_threshold, min_vectors } => {
                let mut r: Vec<u64> = Vec::new();
                match vacuum_candidate(segments, deleted_threshold, min_vectors) {
                    Some(id) => {
                        r.push(id);
                    },
                    None => {},
                }
                r
            },
        }
    }
}

/// One step of the update loop: the first optimizer, in order, that has
/// candidates, with them; none if no optimizer has any.
pub fn next_optimization(optimizers: &Vec<Optimizer>, segments: &Vec<SegmentSummary>) -> (r: Option<(usize, Vec<u64>)>)
    requires
        forall|i: int| 0 <= i < optimizers@.len() ==> (#[trigger] optimizers@[i]).wf(),
        ids_distinct(segments@),
    ensures
        r matches Some((k, ids)) ==> {
            &&& k < optimizers@.len()
            &&& ids@.len() > 0
            &&& optimizers@[k as int].has_candidates(segments@)
            &&& forall|j: int| 0 <= j < k ==> !(#[trigger] optimizers@[j]).has_candidates(segments@)
        },
        r is None ==> forall|j: int| 0 <= j < optimizers@.len() ==> !(#[trigger] optimizers@[j]).has_candidates(segments@),
{
    let mut k: usize = 0;
    while k < optimizers.len()
        invariant
            forall|i: int| 0 <= i < optimizers@.len() ==> (#[trigger] optimizers@[i]).wf(),
            ids_distinct(segments@),
            0 <= k <= optimizers@.len(),
            forall|j: int| 0 <= j < k ==> !(#[trigger] optimizers@[j]).has_candidates(segments@),
        decreases optimizers@.len() - k,
    {
        let ids = optimizers[k].check_condition(segments);
        if ids.len() > 0 {
            return Some((k, ids));
        }
        k = k + 1;
    }
    None
}

} // verus!
