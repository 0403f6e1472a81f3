use vstd::prelude::*;

use crate::fields::{keys_set, lemma_keys_prefix_step, FieldSet};
use crate::ids::{ids_set, lemma_ids_prefix_step, lemma_ids_set_contains};
use crate::proxy::ProxySegment;
use crate::segment::{Indexes, PointState, Segment, SegmentConfig, SegmentType, StorageType};

verus! {

broadcast use vstd::std_specs::hash::group_hash_axioms;

/// Sizes at which a rebuilt segment gets stronger storage and indexes.
#[derive(Clone, Copy, Debug, PartialEq, Eq, Structural)]
pub struct OptimizerThresholds {
    pub memmap_threshold: usize,
    pub indexing_threshold: usize,
    pub payload_indexing_threshold: usize,
}

/// The configuration that the thresholds prescribe for a segment of
/// `num_vectors` points.
pub open spec fn prescribed(base: SegmentConfig, t: OptimizerThresholds, num_vectors: usize) -> SegmentConfig {
    SegmentConfig {
        storage_type: if num_vectors >= t.memmap_threshold { StorageType::Mmap } else { StorageType::InMemory },
        index: if num_vectors >= t.indexing_threshold { Indexes::Hnsw } else { Indexes::Plain },
        ..base
    }
}

/// The configuration that the thresholds prescribe for a segment of
/// `num_vectors` points: memory-mapped storage from `memmap_threshold` on, an
/// HNSW index from `indexing_threshold` on.
pub fn target_config(base: SegmentConfig, t: OptimizerThresholds, num_vectors: usize) -> (r: SegmentConfig)
    ensures
        r == prescribed(base, t, num_vectors),
{
    SegmentConfig {
        vector_size: base.vector_size,
        distance: base.distance,
        storage_type: if num_vectors >= t.memmap_threshold { StorageType::Mmap } else { StorageType::InMemory },
        index: if num_vectors >= t.indexing_threshold { Indexes::Hnsw } else { Indexes::Plain },
    }
}

/// What the optimizers read of a segment in the holder.
#[derive(Clone, Copy, Debug, PartialEq, Eq, Structural)]
pub struct SegmentSummary {
    pub id: u64,
    pub segment_type: SegmentType,
    pub num_vectors: usize,
    pub num_deleted_vectors: usize,
    pub config: SegmentConfig,
}

/// Whether a segment's configuration is weaker than what its size now asks for.
pub open spec fn needs_indexing(s: SegmentSummary, t: OptimizerThresholds) -> bool {
    &&& s.segment_type != SegmentType::Special
    &&& {
        ||| s.num_vectors >= t.indexing_threshold && s.config.index == Indexes::Plain
        ||| s.num_vectors >= t.memmap_threshold && s.config.storage_type == StorageType::InMemory
    }
}

/// Whether `id` is the id of a segment that needs indexing.
pub open spec fn is_indexing_candidate(segments: Seq<SegmentSummary>, t: OptimizerThresholds, id: u64) -> bool {
    exists|i: int| 0 <= i < segments.len() && #[trigger] segments[i].id == id && needs_indexing(segments[i], t)
}

/// The segments that the indexing optimizer rebuilds, in the given order.
pub fn indexing_candidates(segments: &Vec<SegmentSummary>, t: OptimizerThresholds) -> (r: Vec<u64>)
    ensures
        r@.len() <= segments@.len(),
        forall|j: int| 0 <= j < r@.len() ==> is_indexing_candidate(segments@, t, #[trigger] r@[j]),
        forall|i: int| 0 <= i < segments@.len() && needs_indexing(#[trigger] segments@[i], t) ==> r@.contains(segments@[i].id),
{
    let mut out: Vec<u64> = Vec::new();
    let mut i: usize = 0;
    while i < segments.len()
        invariant
            0 <= i <= segments@.len(),
            out@.len() <= i,
            forall|j: int| 0 <= j < out@.len() ==> exists|k: int| 0 <= k < i && segments@[k].id == #[trigger] out@[j]
                && needs_indexing(segments@[k], t),
            forall|k: int| 0 <= k < i && needs_indexing(#[trigger] segments@[k], t) ==> out@.contains(segments@[k].id),
        decreases segments@.len() - i,
    {
        let s = segments[i];
        let weak = s.segment_type != SegmentType::Special && (
            (s.num_vectors >= t.indexing_threshold && s.config.index == Indexes::Plain)
            || (s.num_vectors >= t.memmap_threshold && s.config.storage_type == StorageType::InMemory));
        if weak {
            let ghost before = out@;
            out.push(s.id);
            proof {
                assert(out@[before.len() as int] == s.id);
                assert forall|k: int| 0 <= k < i + 1 && needs_indexing(#[trigger] segments@[k], t) implies out@.contains(segments@[k].id) by {
                    if k < i {
                        let j = choose|j: int| 0 <= j < before.len() && before[j] == segments@[k].id;
                        assert(out@[j] == segments@[k].id);
                    }
                }
                assert forall|j: int| 0 <= j < out@.len() implies exists|k: int| 0 <= k < i + 1 && segments@[k].id == #[trigger] out@[j]
                    && needs_indexing(segments@[k], t) by {
                    if j < before.len() {
                        assert(out@[j] == before[j]);
                    } else {
                        assert(segments@[i as int].id == out@[j]);
                    }
                }
            }
        }
        i = i + 1;
    }
    proof {
        assert forall|j: int| 0 <= j < out@.len() implies is_indexing_candidate(segments@, t, #[trigger] out@[j]) by {
            let k = choose|k: int| 0 <= k < i && segments@[k].id == out@[j] && needs_indexing(segments@[k], t);
            assert(segments@[k].id == out@[j]);
        }
    }
    out
}

/// A fraction `numerator / denominator` in `[0, 1]`.
#[derive(Clone, Copy, Debug, PartialEq, Eq, Structural)]
pub struct Fraction {
    pub numerator: u64,
    pub denominator: u64,
}

impl Fraction {
    pub open spec fn wf(&self) -> bool {
        0 < self.denominator && self.numerator <= self.denominator
    }
}

/// `deleted / (live + deleted) >= f`, with an empty segment never over it.
pub open spec fn over_threshold(live: int, deleted: int, f: Fraction) -> bool {
    live + deleted > 0 && deleted * f.denominator >= f.numerator * (live + deleted)
}

/// Whether the vacuum optimizer may pick the segment.
pub open spec fn vacuum_eligible(s: SegmentSummary, f: Fraction, min_vectors: usize) -> bool {
    &&& s.segment_type != SegmentType::Special
    &&& s.num_vectors >= min_vectors
    &&& over_threshold(s.num_vectors as int, s.num_deleted_vectors as int, f)
}

/// Whether the deleted share of `a` is at least that of `b`.
pub open spec fn ratio_at_least(a: SegmentSummary, b: SegmentSummary) -> bool {
    a.num_deleted_vectors * (b.num_vectors + b.num_deleted_vectors) >= b.num_deleted_vectors * (a.num_vectors
        + a.num_deleted_vectors)
}

/// The exact product of two 64-bit numbers.
fn wide_mul(a: u64, b: u64) -> (r: u128)
    ensures
        r == a * b,
{
    assert(a * b <= u64::MAX * u64::MAX) by (nonlinear_arith)
        requires
            a <= u64::MAX,
            b <= u64::MAX,
    ;
    (a as u128) * (b as u128)
}

fn is_over_threshold(live: usize, deleted: usize, f: Fraction) -> (r: bool)
    requires
        f.wf(),
    ensures
        r == over_threshold(live as int, deleted as int, f),
{
    if live == 0 && deleted == 0 {
        return false;
    }
    let lhs: u128 = wide_mul(deleted as u64, f.denominator - f.numerator);
    let rhs: u128 = wide_mul(f.numerator, live as u64);
    proof {
        let (d, l, n, m) = (deleted as int, live as int, f.numerator as int, f.denominator as int);
        assert(d * m >= n * (l + d) <==> d * (m - n) >= n * l) by (nonlinear_arith);
    }
    lhs >= rhs
}

fn has_ratio_at_least(a: SegmentSummary, b: SegmentSummary) -> (r: bool)
    ensures
        r == ratio_at_least(a, b),
{
    let lhs: u128 = wide_mul(a.num_deleted_vectors as u64, b.num_vectors as u64);
    let rhs: u128 = wide_mul(b.num_deleted_vectors as u64, a.num_vectors as u64);
    proof {
        let (da, la, db, lb) = (
            a.num_deleted_vectors as int,
            a.num_vectors as int,
            b.num_deleted_vectors as int,
            b.num_vectors as int,
        );
        assert(da * (lb + db) >= db * (la + da) <==> da * lb >= db * la) by (nonlinear_arith);
    }
    lhs >= rhs
}

/// The segment that the vacuum optimizer rebuilds: among those with at least
/// `min_vectors` live points whose deleted share reaches the threshold, one
/// with the highest share (the first such); none if there is none.
pub fn vacuum_candidate(segments: &Vec<SegmentSummary>, deleted_threshold: Fraction, min_vectors: usize) -> (r: Option<u64>)
    requires
        deleted_threshold.wf(),
    ensures
        r is None <==> forall|i: int| 0 <= i < segments@.len() ==> !vacuum_eligible(#[trigger] segments@[i], deleted_threshold, min_vectors),
        r matches Some(id) ==> exists|i: int| 0 <= i < segments@.len() && #[trigger] segments@[i].id == id
            && vacuum_eligible(segments@[i], deleted_threshold, min_vectors)
            && forall|j: int| 0 <= j < segments@.len() && vacuum_eligible(#[trigger] segments@[j], deleted_threshold, min_vectors)
                ==> ratio_at_least(segments@[i], segments@[j]),
{
    let mut best: Option<usize> = None;
    let mut i: usize = 0;
    while i < segments.len()
        invariant
            0 <= i <= segments@.len(),
            best is None ==> forall|k: int| 0 <= k < i ==> !vacuum_eligible(#[trigger] segments@[k], deleted_threshold, min_vectors),
            best matches Some(b) ==> b < i && vacuum_eligible(segments@[b as int], deleted_threshold, min_vectors)
                && forall|k: int| 0 <= k < i && vacuum_eligible(#[trigger] segments@[k], deleted_threshold, min_vectors)
                    ==> ratio_at_least(segments@[b as int], segments@[k]),
            deleted_threshold.wf(),
        decreases segments@.len() - i,
    {
        let s = segments[i];
        if s.segment_type != SegmentType::Special && s.num_vectors >= min_vectors
            && is_over_threshold(s.num_vectors, s.num_deleted_vectors, deleted_threshold) {
            match best {
                None => {
                    best = Some(i);
                },
                Some(b) => {
                    if !has_ratio_at_least(segments[b], s) {
                        proof {
                            let (sb, si) = (segments@[b as int], segments@[i as int]);
                            assert forall|k: int| 0 <= k < i + 1 && vacuum_eligible(#[trigger] segments@[k], deleted_threshold, min_vectors)
                                implies ratio_at_least(si, segments@[k]) by {
                                let sk = segments@[k];
                                if k < i {
                                    assert(ratio_at_least(sb, sk));
                                    let (da, ta, db, tb, dk, tk) = (
                                        sb.num_deleted_vectors as int, sb.num_vectors + sb.num_deleted_vectors,
                                        si.num_deleted_vectors as int, si.num_vectors + si.num_deleted_vectors,
                                        sk.num_deleted_vectors as int, sk.num_vectors + sk.num_deleted_vectors,
                                    );
                                    assert(tb > 0 && ta > 0 && tk > 0);
                                    assert(da * tk >= dk * ta && !(da * tb >= db * ta) && ta > 0 && tb > 0 && tk > 0
                                        && da >= 0 && db >= 0 && dk >= 0 ==> db * tk >= dk * tb) by (nonlinear_arith);
                                }
                            }
                        }
                        best = Some(i);
                    }
                },
            }
        }
        i = i + 1;
    }
    match best {
        None => None,
        Some(b) => Some(segments[b].id),
    }
}

/// Copies into `out` every point that `proxy` shows: the wrapped segment's
/// points that were not moved or deleted, then the write segment's points.
fn copy_visible(out: &mut Segment, proxy: &ProxySegment)
    requires
        old(out).wf(),
        proxy.wf(),
    ensures
        final(out).wf(),
        final(out).state() == old(out).state().union_prefer_right(proxy.visible()),
        final(out).version == old(out).version,
        final(out).same_frame(old(out)),
{
    let ghost w = proxy.wrapped_segment.state();
    let ghost d = proxy.deleted_points@;
    let ids = proxy.wrapped_segment.iter_points();
    let mut i: usize = 0;
    while i < ids.len()
        invariant
            proxy.wf(),
            w == proxy.wrapped_segment.state(),
            d == proxy.deleted_points@,
            forall|id: u64| ids@.contains(id) <==> w.contains_key(id),
            0 <= i <= ids@.len(),
            out.wf(),
            out.state() == old(out).state().union_prefer_right(
                w.restrict(ids_set(ids@.subrange(0, i as int)).difference(d)),
            ),
            out.version == old(out).version,
            out.same_frame(old(out)),
        decreases ids@.len() - i,
    {
        proof {
            lemma_ids_prefix_step(ids@, i as int);
        }
        let id = ids[i];
        assert(ids@.contains(id));
        if !proxy.deleted_points.contains(&id) {
            let vector = match proxy.wrapped_segment.vector(id) {
                Ok(v) => v,
                Err(_) => Vec::new(),
            };
            let payload = match proxy.wrapped_segment.payload(id) {
                Ok(p) => p,
                Err(_) => crate::payload::Payload::new(),
            };
            out.put_point(id, vector, payload);
        }
        i = i + 1;
        assert(out.state() =~= old(out).state().union_prefer_right(
            w.restrict(ids_set(ids@.subrange(0, i as int)).difference(d)),
        ));
    }
    proof {
        assert(ids@.subrange(0, ids@.len() as int) =~= ids@);
        assert forall|id: u64| ids_set(ids@).contains(id) <==> w.contains_key(id) by {
            lemma_ids_set_contains(ids@, id);
        }
        assert(ids_set(ids@) =~= w.dom());
    }
    let ghost mid = out.state();
    let ghost ws = proxy.write_segment.state();
    let wids = proxy.write_segment.iter_points();
    let mut k: usize = 0;
    while k < wids.len()
        invariant
            proxy.wf(),
            ws == proxy.write_segment.state(),
            forall|id: u64| wids@.contains(id) <==> ws.contains_key(id),
            0 <= k <= wids@.len(),
            out.wf(),
            out.state() == mid.union_prefer_right(ws.restrict(ids_set(wids@.subrange(0, k as int)))),
            out.version == old(out).version,
            out.same_frame(old(out)),
        decreases wids@.len() - k,
    {
        proof {
            lemma_ids_prefix_step(wids@, k as int);
        }
        let id = wids[k];
        assert(wids@.contains(id));
        let vector = match proxy.write_segment.vector(id) {
            Ok(v) => v,
            Err(_) => Vec::new(),
        };
        let payload = match proxy.write_segment.payload(id) {
            Ok(p) => p,
            Err(_) => crate::payload::Payload::new(),
        };
        out.put_point(id, vector, payload);
        k = k + 1;
        assert(out.state() =~= mid.union_prefer_right(ws.restrict(ids_set(wids@.subrange(0, k as int)))));
    }
    proof {
        assert(wids@.subrange(0, wids@.len() as int) =~= wids@);
        assert forall|id: u64| ids_set(wids@).contains(id) <==> ws.contains_key(id) by {
            lemma_ids_set_contains(wids@, id);
        }
        assert(ids_set(wids@) =~= ws.dom());
        assert(out.state() =~= old(out).state().union_prefer_right(proxy.visible()));
    }
}

/// What a batch of proxies shows together.
pub open spec fn merged_visible(s: Seq<ProxySegment>) -> Map<u64, PointState>
    decreases s.len(),
{
    if s.len() == 0 {
        Map::empty()
    } else {
        merged_visible(s.drop_last()).union_prefer_right(s.last().visible())
    }
}

/// The fields indexed in any proxy of a batch.
pub open spec fn merged_indexed(s: Seq<ProxySegment>) -> Set<Seq<char>>
    decreases s.len(),
{
    if s.len() == 0 {
        Set::empty()
    } else {
        merged_indexed(s.drop_last()).union(s.last().indexed())
    }
}

/// The highest version in a batch of proxies.
pub open spec fn merged_version(s: Seq<ProxySegment>) -> u64
    decreases s.len(),
{
    if s.len() == 0 {
        0
    } else {
        let v = merged_version(s.drop_last());
        let w = s.last().version_spec();
        if v >= w { v } else { w }
    }
}

/// The kind of segment that a configuration gives.
pub open spec fn type_of_config(config: SegmentConfig) -> SegmentType {
    if config.index == Indexes::Hnsw { SegmentType::Indexed } else { SegmentType::Plain }
}

/// Builds the optimized segment that replaces a batch of proxies: it holds
/// every point that the proxies show, the indexed fields they show (the index
/// diffs applied) and their highest version.
pub fn build_optimized(proxies: &Vec<ProxySegment>, config: SegmentConfig) -> (r: Segment)
    requires
        forall|i: int| 0 <= i < proxies@.len() ==> (#[trigger] proxies@[i]).wf(),
    ensures
        r.wf(),
        r.state() == merged_visible(proxies@),
        r.indexed_fields@ == merged_indexed(proxies@),
        r.version == merged_version(proxies@),
        r.config == config,
        r.segment_type == type_of_config(config),
        !r.appendable,
{
    let segment_type = if config.index == Indexes::Hnsw { SegmentType::Indexed } else { SegmentType::Plain };
    let mut out = Segment::new(config, segment_type, false);
    let mut fields = FieldSet::new();
    let mut version: u64 = 0;
    let mut i: usize = 0;
    while i < proxies.len()
        invariant
            forall|j: int| 0 <= j < proxies@.len() ==> (#[trigger] proxies@[j]).wf(),
            0 <= i <= proxies@.len(),
            out.wf(),
            out.state() == merged_visible(proxies@.subrange(0, i as int)),
            fields@ == merged_indexed(proxies@.subrange(0, i as int)),
            version == merged_version(proxies@.subrange(0, i as int)),
            out.config == config,
            out.segment_type == segment_type,
            !out.appendable,
        decreases proxies@.len() - i,
    {
        let proxy = &proxies[i];
        assert(proxies@[i as int].wf());
        assert(proxies@.subrange(0, i + 1).drop_last() =~= proxies@.subrange(0, i as int));
        copy_visible(&mut out, proxy);
        let keys = proxy.get_indexed_fields();
        let ghost before = fields@;
        let mut k: usize = 0;
        while k < keys.keys.len()
            invariant
                0 <= k <= keys.keys@.len(),
                fields@ == before.union(keys_set(keys.keys@.subrange(0, k as int))),
            decreases keys.keys@.len() - k,
        {
            proof {
                lemma_keys_prefix_step(keys.keys@, k as int);
            }
            fields.insert(&keys.keys[k]);
            k = k + 1;
            assert(fields@ =~= before.union(keys_set(keys.keys@.subrange(0, k as int))));
        }
        assert(keys.keys@.subrange(0, keys.keys@.len() as int) =~= keys.keys@);
        let v = proxy.version();
        if v > version {
            version = v;
        }
        i = i + 1;
    }
    assert(proxies@.subrange(0, proxies@.len() as int) =~= proxies@);
    out.indexed_fields = fields;
    out.version = version;
    out
}

/// Order of the merge optimizer: smaller segments first, then lower ids.
pub open spec fn before(a: SegmentSummary, b: SegmentSummary) -> bool {
    a.num_vectors < b.num_vectors || (a.num_vectors == b.num_vectors && a.id < b.id)
}

pub open spec fn ids_distinct(s: Seq<SegmentSummary>) -> bool {
    forall|i: int, j: int| 0 <= i < s.len() && 0 <= j < s.len() && i != j ==> s[i].id != s[j].id
}

pub open spec fn count_non_special(s: Seq<SegmentSummary>) -> nat
    decreases s.len(),
{
    if s.len() == 0 {
        0
    } else {
        count_non_special(s.drop_last()) + if s.last().segment_type != SegmentType::Special { 1nat } else { 0nat }
    }
}

/// Total number of points of the chosen segments.
pub open spec fn total_size(s: Seq<SegmentSummary>, sel: Seq<int>) -> int
    decreases sel.len(),
{
    if sel.len() == 0 {
        0
    } else {
        total_size(s, sel.drop_last()) + s[sel.last()].num_vectors
    }
}

pub open spec fn selection_ids(s: Seq<SegmentSummary>, sel: Seq<int>) -> Seq<u64> {
    sel.map_values(|k: int| s[k].id)
}

/// `sel` picks distinct non-special segments, together no larger than
/// `threshold`, each smaller than every segment left out, and no segment
/// left out would still fit.
pub open spec fn is_merge_selection(s: Seq<SegmentSummary>, threshold: usize, sel: Seq<int>) -> bool {
    &&& sel.no_duplicates()
    &&& forall|k: int| 0 <= k < sel.len() ==> 0 <= #[trigger] sel[k] < s.len() && s[sel[k]].segment_type != SegmentType::Special
    &&& total_size(s, sel) <= threshold
    &&& forall|k: int, u: int|
        0 <= k < sel.len() && 0 <= u < s.len() && s[u].segment_type != SegmentType::Special && !sel.contains(u)
            ==> before(s[#[trigger] sel[k]], #[trigger] s[u])
    &&& forall|u: int|
        0 <= u < s.len() && s[u].segment_type != SegmentType::Special && !sel.contains(u)
            ==> total_size(s, sel) + (#[trigger] s[u]).num_vectors > threshold
}

/// Two distinct non-special segments fit together within `threshold`.
pub open spec fn two_fit(s: Seq<SegmentSummary>, threshold: usize) -> bool {
    exists|a: int, b: int|
        0 <= a < s.len() && 0 <= b < s.len() && a != b && s[a].segment_type != SegmentType::Special
            && s[b].segment_type != SegmentType::Special
            && (#[trigger] s[a]).num_vectors + (#[trigger] s[b]).num_vectors <= threshold
}

proof fn lemma_total_prefix(s: Seq<SegmentSummary>, sel: Seq<int>, k: int)
    requires
        0 <= k <= sel.len(),
    ensures
        total_size(s, sel.subrange(0, k)) <= total_size(s, sel),
    decreases sel.len(),
{
    if k < sel.len() {
        lemma_total_prefix(s, sel.drop_last(), k);
        assert(sel.drop_last().subrange(0, k) =~= sel.subrange(0, k));
    } else {
        assert(sel.subrange(0, k) =~= sel);
    }
}

fn count_non_special_segments(segments: &Vec<SegmentSummary>) -> (r: usize)
    ensures
        r == count_non_special(segments@),
{
    let mut n: usize = 0;
    let mut i: usize = 0;
    while i < segments.len()
        invariant
            0 <= i <= segments@.len(),
            n == count_non_special(segments@.subrange(0, i as int)),
            n <= i,
        decreases segments@.len() - i,
    {
        assert(segments@.subrange(0, i + 1).drop_last() =~= segments@.subrange(0, i as int));
        if segments[i].segment_type != SegmentType::Special {
            n = n + 1;
        }
        i = i + 1;
    }
    assert(segments@.subrange(0, segments@.len() as int) =~= segments@);
    n
}

/// The smallest non-special segment not picked yet, in the merge order.
fn smallest_unpicked(segments: &Vec<SegmentSummary>, picked: &Vec<bool>) -> (r: Option<usize>)
    requires
        picked@.len() == segments@.len(),
        ids_distinct(segments@),
    ensures
        r matches Some(m) ==> m < segments@.len() && segments@[m as int].segment_type != SegmentType::Special
            && !picked@[m as int] && forall|u: int| 0 <= u < segments@.len() && u != m
                && segments@[u].segment_type != SegmentType::Special && !picked@[u] ==> before(
                segments@[m as int],
                #[trigger] segments@[u],
            ),
        r is None ==> forall|u: int| 0 <= u < segments@.len() && (#[trigger] segments@[u]).segment_type
            != SegmentType::Special ==> picked@[u],
{
    let mut best: Option<usize> = None;
    let mut i: usize = 0;
    while i < segments.len()
        invariant
            picked@.len() == segments@.len(),
            ids_distinct(segments@),
            0 <= i <= segments@.len(),
            best matches Some(m) ==> m < i && segments@[m as int].segment_type != SegmentType::Special
                && !picked@[m as int] && forall|u: int| 0 <= u < i && u != m
                    && segments@[u].segment_type != SegmentType::Special && !picked@[u] ==> before(
                    segments@[m as int],
                    #[trigger] segments@[u],
                ),
            best is None ==> forall|u: int| 0 <= u < i && (#[trigger] segments@[u]).segment_type
                != SegmentType::Special ==> picked@[u],
        decreases segments@.len() - i,
    {
        let s = segments[i];
        if s.segment_type != SegmentType::Special && !picked[i] {
            match best {
                None => {
                    best = Some(i);
                },
                Some(m) => {
                    let b = segments[m];
                    if s.num_vectors < b.num_vectors || (s.num_vectors == b.num_vectors && s.id < b.id) {
                        best = Some(i);
                    } else {
                        assert(segments@[m as int].id != segments@[i as int].id);
                    }
                },
            }
        }
        i = i + 1;
    }
    best
}

/// The segments that the merge optimizer joins. When more than
/// `max_segment_number` non-special segments exist: the smallest ones, in
/// order of size and then id, as many as fit together within
/// `memmap_threshold` points, if that is at least two. Otherwise none.
pub fn merge_candidates(segments: &Vec<SegmentSummary>, max_segment_number: usize, memmap_threshold: usize) -> (r: Vec<u64>)
    requires
        ids_distinct(segments@),
    ensures
        count_non_special(segments@) <= max_segment_number ==> r@.len() == 0,
        r@.len() == 0 || r@.len() >= 2,
        r@.len() > 0 ==> exists|sel: Seq<int>| #[trigger] is_merge_selection(segments@, memmap_threshold, sel)
            && r@ == selection_ids(segments@, sel),
        r@.len() > 0 <==> count_non_special(segments@) > max_segment_number && two_fit(segments@, memmap_threshold),
        r@.len() == 0 && count_non_special(segments@) > max_segment_number ==> forall|a: int, b: int|
            0 <= a < segments@.len() && 0 <= b < segments@.len() && a != b
                && segments@[a].segment_type != SegmentType::Special
                && segments@[b].segment_type != SegmentType::Special
                ==> (#[trigger] segments@[a]).num_vectors + (#[trigger] segments@[b]).num_vectors > memmap_threshold,
{
    let n = count_non_special_segments(segments);
    if n <= max_segment_number {
        return Vec::new();
    }
    let mut picked: Vec<bool> = Vec::new();
    let mut i: usize = 0;
    while i < segments.len()
        invariant
            0 <= i <= segments@.len(),
            picked@.len() == i,
            forall|k: int| 0 <= k < i ==> !picked@[k],
        decreases segments@.len() - i,
    {
        picked.push(false);
        i = i + 1;
    }
    let mut out: Vec<u64> = Vec::new();
    let ghost mut sel: Seq<int> = Seq::empty();
    let mut sum: usize = 0;
    let mut done = false;
    assert(out@ =~= selection_ids(segments@, sel));
    while !done
        invariant
            ids_distinct(segments@),
            picked@.len() == segments@.len(),
            forall|u: int| 0 <= u < segments@.len() ==> (picked@[u] <==> sel.contains(u)),
            sel.no_duplicates(),
            sel.len() <= segments@.len(),
            forall|k: int| 0 <= k < sel.len() ==> 0 <= #[trigger] sel[k] < segments@.len()
                && segments@[sel[k]].segment_type != SegmentType::Special,
            sum == total_size(segments@, sel),
            sum <= memmap_threshold,
            out@ == selection_ids(segments@, sel),
            forall|k: int, u: int|
                0 <= k < sel.len() && 0 <= u < segments@.len() && segments@[u].segment_type != SegmentType::Special
                    && !sel.contains(u) ==> before(segments@[#[trigger] sel[k]], #[trigger] segments@[u]),
            sel.len() >= 1 ==> forall|e: int| 0 <= e < segments@.len() && segments@[e].segment_type
                != SegmentType::Special ==> segments@[sel[0]].num_vectors <= (#[trigger] segments@[e]).num_vectors,
            done ==> forall|u: int|
                0 <= u < segments@.len() && segments@[u].segment_type != SegmentType::Special && !sel.contains(u)
                    ==> total_size(segments@, sel) + (#[trigger] segments@[u]).num_vectors > memmap_threshold,
        decreases segments@.len() - sel.len() + if done { 0int } else { 1int },
    {
        match smallest_unpicked(segments, &picked) {
            None => {
                done = true;
            },
            Some(m) => {
                let size = segments[m].num_vectors;
                if size > memmap_threshold - sum {
                    done = true;
                    proof {
                        assert forall|u: int|
                            0 <= u < segments@.len() && segments@[u].segment_type != SegmentType::Special
                                && !sel.contains(u) implies total_size(segments@, sel) + (#[trigger] segments@[u]).num_vectors
                            > memmap_threshold by {
                            assert(!picked@[u]);
                        }
                    }
                } else {
                    proof {
                        assert(!sel.contains(m as int));
                        vstd::set_lib::lemma_int_range(0, segments@.len() as int);
                        sel.unique_seq_to_set();
                        assert(sel.to_set().subset_of(vstd::set_lib::set_int_range(0, segments@.len() as int).remove(m as int)));
                        vstd::set_lib::lemma_len_subset(
                            sel.to_set(),
                            vstd::set_lib::set_int_range(0, segments@.len() as int).remove(m as int),
                        );
                    }
                    let ghost old_sel = sel;
                    let ghost old_picked = picked@;
                    assert(forall|u: int| 0 <= u < segments@.len() ==> (old_picked[u] <==> old_sel.contains(u)));
                    picked.set(m, true);
                    out.push(segments[m].id);
                    sum = sum + size;
                    proof {
                        sel = sel.push(m as int);
                        assert(sel.drop_last() =~= old_sel);
                        assert(sel[old_sel.len() as int] == m as int);
                        assert(out@ =~= selection_ids(segments@, sel));
                        assert forall|u: int| 0 <= u < segments@.len() implies (picked@[u] <==> sel.contains(u)) by {
                            if u == m {
                                assert(sel[old_sel.len() as int] == u);
                            } else if old_sel.contains(u) {
                                let k = choose|k: int| 0 <= k < old_sel.len() && old_sel[k] == u;
                                assert(sel[k] == u);
                            } else if sel.contains(u) {
                                let k = choose|k: int| 0 <= k < sel.len() && sel[k] == u;
                                assert(k < old_sel.len());
                                assert(old_sel[k] == u);
                            }
                        }
                        assert forall|k: int, u: int|
                            0 <= k < sel.len() && 0 <= u < segments@.len() && segments@[u].segment_type
                                != SegmentType::Special && !sel.contains(u) implies before(
                            segments@[#[trigger] sel[k]],
                            #[trigger] segments@[u],
                        ) by {
                            assert(!picked@[u]);
                            assert(!old_sel.contains(u)) by {
                                if old_sel.contains(u) {
                                    let j = choose|j: int| 0 <= j < old_sel.len() && old_sel[j] == u;
                                    assert(sel[j] == u);
                                }
                            }
                            if k < old_sel.len() {
                                assert(sel[k] == old_sel[k]);
                            } else {
                                assert(u != m);
                            }
                        }
                        if old_sel.len() == 0 {
                            assert forall|e: int| 0 <= e < segments@.len() && segments@[e].segment_type
                                != SegmentType::Special implies segments@[sel[0]].num_vectors
                                <= (#[trigger] segments@[e]).num_vectors by {
                                if e != m {
                                    assert(!old_sel.contains(e));
                                    assert(!old_picked[e]);
                                }
                            }
                        }
                    }
                }
            },
        }
    }
    if out.len() < 2 {
        proof {
            if sel.len() == 1 {
                assert forall|a: int, b: int|
                    0 <= a < segments@.len() && 0 <= b < segments@.len() && a != b
                        && segments@[a].segment_type != SegmentType::Special
                        && segments@[b].segment_type != SegmentType::Special
                        implies (#[trigger] segments@[a]).num_vectors + (#[trigger] segments@[b]).num_vectors
                        > memmap_threshold by {
                    assert(sel.drop_last() =~= Seq::<int>::empty());
                    assert(total_size(segments@, Seq::<int>::empty()) == 0);
                    assert(sel.last() == sel[0]);
                    assert(total_size(segments@, sel) == segments@[sel[0]].num_vectors);
                    if a == sel[0] {
                        assert(!sel.contains(b)) by {
                            if sel.contains(b) {
                                let k = choose|k: int| 0 <= k < sel.len() && sel[k] == b;
                            }
                        }
                        assert(segments@[sel[0]].num_vectors <= segments@[a].num_vectors);
                    } else {
                        assert(!sel.contains(a)) by {
                            if sel.contains(a) {
                                let k = choose|k: int| 0 <= k < sel.len() && sel[k] == a;
                            }
                        }
                        assert(segments@[sel[0]].num_vectors <= segments@[b].num_vectors);
                    }
                }
            } else {
                assert(sel.len() == 0);
                assert forall|a: int, b: int|
                    0 <= a < segments@.len() && 0 <= b < segments@.len() && a != b
                        && segments@[a].segment_type != SegmentType::Special
                        && segments@[b].segment_type != SegmentType::Special
                        implies (#[trigger] segments@[a]).num_vectors + (#[trigger] segments@[b]).num_vectors
                        > memmap_threshold by {
                    assert(!sel.contains(a));
                    assert(total_size(segments@, sel) == 0);
                }
            }
        }
        return Vec::new();
    }
    assert(is_merge_selection(segments@, memmap_threshold, sel));
    proof {
        lemma_total_prefix(segments@, sel, 2);
        let two = sel.subrange(0, 2);
        assert(two.drop_last().drop_last() =~= Seq::<int>::empty());
        assert(two.drop_last() =~= seq![sel[0]]);
        assert(total_size(segments@, Seq::<int>::empty()) == 0);
        assert(two.drop_last().last() == sel[0]);
        assert(two.last() == sel[1]);
        assert(total_size(segments@, two.drop_last()) == total_size(segments@, two.drop_last().drop_last())
            + segments@[sel[0]].num_vectors);
        assert(total_size(segments@, two) == segments@[sel[0]].num_vectors + segments@[sel[1]].num_vectors);
        assert(sel[0] != sel[1]);
        assert(segments@[sel[0]].num_vectors + segments@[sel[1]].num_vectors <= memmap_threshold);
    }
    out
}

} // verus!
