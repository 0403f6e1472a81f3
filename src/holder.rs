use vstd::prelude::*;

use crate::fields::FieldSet;
use std::collections::HashSet;
use crate::optimizers::{
    build_optimized, ids_distinct, merged_indexed, merged_version, merged_visible, prescribed, target_config,
    type_of_config, OptimizerThresholds, SegmentSummary,
};
use crate::proxy::{proxy_count, ProxySegment};
use crate::segment::{Indexes, upserted, PointState, Segment, SegmentConfig, SegmentError, SegmentType};

verus! {

broadcast use vstd::std_specs::hash::group_hash_axioms;

/// A segment in the holder: a plain or indexed one, or a proxy over one that
/// is being rebuilt.
pub enum HeldSegment {
    Direct(Segment),
    Proxy(ProxySegment),
}

impl HeldSegment {
    pub open spec fn wf(&self) -> bool {
        match self {
            HeldSegment::Direct(s) => s.wf(),
            HeldSegment::Proxy(p) => p.wf(),
        }
    }

    /// Whether reads of `point_id` find it in this segment.
    pub open spec fn holds(&self, point_id: u64) -> bool {
        match self {
            HeldSegment::Direct(s) => s.state().contains_key(point_id),
            HeldSegment::Proxy(p) => p.visible().contains_key(point_id),
        }
    }

    /// The points that the segment shows.
    pub open spec fn shown(&self) -> Map<u64, PointState> {
        match self {
            HeldSegment::Direct(s) => s.state(),
            HeldSegment::Proxy(p) => p.visible(),
        }
    }

    pub open spec fn version_of(&self) -> u64 {
        match self {
            HeldSegment::Direct(s) => s.version,
            HeldSegment::Proxy(p) => p.version_spec(),
        }
    }

    pub open spec fn appendable(&self) -> bool {
        match self {
            HeldSegment::Direct(s) => s.appendable,
            HeldSegment::Proxy(_) => true,
        }
    }

    pub fn has_point(&self, point_id: u64) -> (r: bool)
        ensures
            r == self.holds(point_id),
    {
        match self {
            HeldSegment::Direct(s) => s.has_point(point_id),
            HeldSegment::Proxy(p) => p.has_point(point_id),
        }
    }

    pub fn is_appendable(&self) -> (r: bool)
        ensures
            r == self.appendable(),
    {
        match self {
            HeldSegment::Direct(s) => s.is_appendable(),
            HeldSegment::Proxy(p) => p.is_appendable(),
        }
    }

    /// What the optimizers read of the segment.
    pub open spec fn summary_spec(&self, id: u64) -> SegmentSummary {
        match self {
            HeldSegment::Direct(s) => SegmentSummary {
                id,
                segment_type: s.segment_type,
                num_vectors: s.state().dom().len() as usize,
                num_deleted_vectors: (s.order@.len() - s.state().dom().len()) as usize,
                config: s.config,
            },
            HeldSegment::Proxy(p) => SegmentSummary {
                id,
                segment_type: SegmentType::Special,
                num_vectors: proxy_count(
                    p.wrapped_segment.state().dom().len() as usize,
                    p.deleted_points@.len() as usize,
                    p.write_segment.state().dom().len() as usize,
                ),
                num_deleted_vectors: (p.write_segment.order@.len() - p.write_segment.state().dom().len()) as usize,
                config: p.wrapped_segment.config,
            },
        }
    }

    /// What the optimizers read of the segment.
    pub fn summary(&self, id: u64) -> (r: SegmentSummary)
        requires
            self.wf(),
        ensures
            r == self.summary_spec(id),
    {
        match self {
            HeldSegment::Direct(s) => SegmentSummary {
                id,
                segment_type: s.segment_type(),
                num_vectors: s.vectors_count(),
                num_deleted_vectors: s.deleted_count(),
                config: s.config(),
            },
            HeldSegment::Proxy(p) => SegmentSummary {
                id,
                segment_type: p.segment_type(),
                num_vectors: p.vectors_count(),
                num_deleted_vectors: p.deleted_count(),
                config: p.config(),
            },
        }
    }
}

/// The map that a list of entries denotes.
pub open spec fn held_map(s: Seq<(u64, HeldSegment)>) -> Map<u64, HeldSegment>
    decreases s.len(),
{
    if s.len() == 0 {
        Map::empty()
    } else {
        held_map(s.drop_last()).insert(s.last().0, s.last().1)
    }
}

proof fn lemma_held_prefix_step(s: Seq<(u64, HeldSegment)>, i: int)
    requires
        0 <= i < s.len(),
    ensures
        held_map(s.subrange(0, i + 1)) == held_map(s.subrange(0, i)).insert(s[i].0, s[i].1),
{
    assert(s.subrange(0, i + 1).drop_last() =~= s.subrange(0, i));
}

proof fn lemma_held_dom(s: Seq<(u64, HeldSegment)>, id: u64)
    ensures
        held_map(s).contains_key(id) <==> exists|i: int| 0 <= i < s.len() && (#[trigger] s[i]).0 == id,
    decreases s.len(),
{
    if s.len() > 0 {
        lemma_held_dom(s.drop_last(), id);
        if exists|i: int| 0 <= i < s.drop_last().len() && (#[trigger] s.drop_last()[i]).0 == id {
            let i = choose|i: int| 0 <= i < s.drop_last().len() && (#[trigger] s.drop_last()[i]).0 == id;
            assert(s[i].0 == id);
        }
        if exists|i: int| 0 <= i < s.len() && (#[trigger] s[i]).0 == id {
            let i = choose|i: int| 0 <= i < s.len() && (#[trigger] s[i]).0 == id;
            if i < s.len() - 1 {
                assert(s.drop_last()[i].0 == id);
            }
        }
    }
}

/// An entry that an optimization of `ids` has frozen into a proxy.
pub open spec fn is_frozen(e: (u64, HeldSegment), ids: Seq<u64>) -> bool {
    ids.contains(e.0) && e.1 is Proxy
}

/// The entries that an optimization of `ids` leaves in place.
pub open spec fn kept_entries(s: Seq<(u64, HeldSegment)>, ids: Seq<u64>) -> Seq<(u64, HeldSegment)>
    decreases s.len(),
{
    if s.len() == 0 {
        s
    } else if is_frozen(s.last(), ids) {
        kept_entries(s.drop_last(), ids)
    } else {
        kept_entries(s.drop_last(), ids).push(s.last())
    }
}

/// The proxies that an optimization of `ids` rebuilds, in the holder's order.
pub open spec fn frozen_proxies(s: Seq<(u64, HeldSegment)>, ids: Seq<u64>) -> Seq<ProxySegment>
    decreases s.len(),
{
    if s.len() == 0 {
        Seq::empty()
    } else if is_frozen(s.last(), ids) {
        frozen_proxies(s.drop_last(), ids).push(s.last().1->Proxy_0)
    } else {
        frozen_proxies(s.drop_last(), ids)
    }
}

/// Whether `v` holds `x`.
fn list_contains(v: &Vec<u64>, x: u64) -> (r: bool)
    ensures
        r == v@.contains(x),
{
    let mut i: usize = 0;
    while i < v.len()
        invariant
            0 <= i <= v@.len(),
            forall|j: int| 0 <= j < i ==> v@[j] != x,
        decreases v@.len() - i,
    {
        if v[i] == x {
            return true;
        }
        i = i + 1;
    }
    false
}

/// The registry of a collection's segments, keyed by ids that are never
/// reused.
pub struct SegmentHolder {
    pub segments: Vec<(u64, HeldSegment)>,
    pub next_id: u64,
}

impl View for SegmentHolder {
    type V = Map<u64, HeldSegment>;

    open spec fn view(&self) -> Map<u64, HeldSegment> {
        held_map(self.segments@)
    }
}

impl SegmentHolder {
    pub open spec fn wf(&self) -> bool {
        &&& forall|i: int, j: int|
            0 <= i < self.segments@.len() && 0 <= j < self.segments@.len() && i != j
                ==> (#[trigger] self.segments@[i]).0 != (#[trigger] self.segments@[j]).0
        &&& forall|i: int| 0 <= i < self.segments@.len() ==> (#[trigger] self.segments@[i]).0 < self.next_id
        &&& forall|i: int| 0 <= i < self.segments@.len() ==> (#[trigger] self.segments@[i]).1.wf()
    }

    /// An empty holder.
    pub fn new() -> (r: SegmentHolder)
        ensures
            r.wf(),
            r@ == Map::<u64, HeldSegment>::empty(),
            r.next_id == 0,
    {
        SegmentHolder { segments: Vec::new(), next_id: 0 }
    }

    /// Registers a segment under a fresh id, which it returns.
    pub fn add(&mut self, segment: HeldSegment) -> (r: u64)
        requires
            old(self).wf(),
            segment.wf(),
            old(self).next_id < u64::MAX,
        ensures
            final(self).wf(),
            r == old(self).next_id,
            !old(self)@.contains_key(r),
            final(self)@ == old(self)@.insert(r, segment),
            final(self).next_id == r + 1,
    {
        let id = self.next_id;
        proof {
            lemma_held_dom(self.segments@, id);
        }
        let ghost before = self.segments@;
        self.segments.push((id, segment));
        self.next_id = id + 1;
        assert(self.segments@.drop_last() =~= before);
        id
    }

    /// The segment registered under `id`.
    pub fn get(&self, id: u64) -> (r: Option<&HeldSegment>)
        ensures
            r matches Some(s) ==> self@.contains_key(id) && self@[id] == *s,
            r is None ==> !self@.contains_key(id),
    {
        let mut found: Option<&HeldSegment> = None;
        let mut i: usize = 0;
        while i < self.segments.len()
            invariant
                0 <= i <= self.segments@.len(),
                found matches Some(s) ==> held_map(self.segments@.subrange(0, i as int)).contains_key(id)
                    && held_map(self.segments@.subrange(0, i as int))[id] == *s,
                found is None ==> !held_map(self.segments@.subrange(0, i as int)).contains_key(id),
            decreases self.segments@.len() - i,
        {
            proof {
                lemma_held_prefix_step(self.segments@, i as int);
            }
            if self.segments[i].0 == id {
                found = Some(&self.segments[i].1);
            }
            i = i + 1;
        }
        assert(self.segments@.subrange(0, self.segments@.len() as int) =~= self.segments@);
        found
    }

    /// Removes the segments under `remove_ids` and registers `new_segment`
    /// under a fresh id, in one step.
    pub fn swap(&mut self, new_segment: HeldSegment, remove_ids: &Vec<u64>) -> (r: u64)
        requires
            old(self).wf(),
            new_segment.wf(),
            old(self).next_id < u64::MAX,
        ensures
            final(self).wf(),
            r == old(self).next_id,
            !old(self)@.contains_key(r),
            final(self)@ == old(self)@.remove_keys(Set::new(|x: u64| remove_ids@.contains(x))).insert(r, new_segment),
            final(self).next_id == r + 1,
    {
        let ghost removed = Set::new(|x: u64| remove_ids@.contains(x));
        let mut rest: Vec<(u64, HeldSegment)> = Vec::new();
        std::mem::swap(&mut self.segments, &mut rest);
        let ghost orig = rest@;
        let ghost mut taken: int = 0;
        let ghost mut pos: Seq<int> = Seq::empty();
        while rest.len() > 0
            invariant
                0 <= taken <= orig.len(),
                rest@ == orig.subrange(taken, orig.len() as int),
                removed == Set::new(|x: u64| remove_ids@.contains(x)),
                held_map(self.segments@) == held_map(orig.subrange(0, taken)).remove_keys(removed),
                pos.len() == self.segments@.len(),
                forall|j: int| 0 <= j < pos.len() ==> 0 <= #[trigger] pos[j] < taken && orig[pos[j]] == self.segments@[j],
                forall|j: int, k: int| 0 <= j < k < pos.len() ==> pos[j] < pos[k],
                forall|i: int, j: int|
                    0 <= i < orig.len() && 0 <= j < orig.len() && i != j ==> (#[trigger] orig[i]).0 != (#[trigger] orig[j]).0,
                forall|i: int| 0 <= i < orig.len() ==> (#[trigger] orig[i]).0 < self.next_id,
                forall|i: int| 0 <= i < orig.len() ==> (#[trigger] orig[i]).1.wf(),
                self.next_id == old(self).next_id,
                orig == old(self).segments@,
            decreases rest@.len(),
        {
            proof {
                lemma_held_prefix_step(orig, taken);
            }
            let entry = rest.remove(0);
            assert(entry == orig[taken]);
            if !list_contains(remove_ids, entry.0) {
                let ghost before = self.segments@;
                self.segments.push(entry);
                proof {
                    pos = pos.push(taken);
                    assert(self.segments@.drop_last() =~= before);
                }
            }
            proof {
                taken = taken + 1;
                assert(rest@ =~= orig.subrange(taken, orig.len() as int));
                assert(held_map(self.segments@) =~= held_map(orig.subrange(0, taken)).remove_keys(removed));
            }
        }
        proof {
            assert(orig.subrange(0, orig.len() as int) =~= orig);
            lemma_held_dom(orig, self.next_id);
        }
        let id = self.next_id;
        let ghost kept = self.segments@;
        self.segments.push((id, new_segment));
        self.next_id = id + 1;
        proof {
            assert(self.segments@.drop_last() =~= kept);
            assert forall|i: int, j: int|
                0 <= i < self.segments@.len() && 0 <= j < self.segments@.len() && i != j
                    implies (#[trigger] self.segments@[i]).0 != (#[trigger] self.segments@[j]).0 by {
                if i < kept.len() && j < kept.len() {
                    assert(orig[pos[i]] == kept[i]);
                    assert(orig[pos[j]] == kept[j]);
                    if i < j {
                        assert(pos[i] < pos[j]);
                    } else {
                        assert(pos[j] < pos[i]);
                    }
                } else if i < kept.len() {
                    assert(orig[pos[i]] == kept[i]);
                } else if j < kept.len() {
                    assert(orig[pos[j]] == kept[j]);
                }
            }
            assert forall|i: int| 0 <= i < self.segments@.len() implies (#[trigger] self.segments@[i]).0 < self.next_id
                && self.segments@[i].1.wf() by {
                if i < kept.len() {
                    assert(orig[pos[i]] == kept[i]);
                }
            }
        }
        id
    }

    /// The segment that holds `point_id`: an appendable one if any holds it,
    /// the first in the holder's order among equals.
    pub fn segment_of(&self, point_id: u64) -> (r: Option<u64>)
        ensures
            r is None ==> forall|i: int| 0 <= i < self.segments@.len() ==> !(#[trigger] self.segments@[i]).1.holds(point_id),
            r matches Some(id) ==> exists|i: int| 0 <= i < self.segments@.len() && (#[trigger] self.segments@[i]).0 == id
                && self.segments@[i].1.holds(point_id) && (self.segments@[i].1.appendable() || forall|j: int|
                0 <= j < self.segments@.len() && (#[trigger] self.segments@[j]).1.holds(point_id) ==> !self.segments@[j].1.appendable()),
    {
        match self.segment_index_of(point_id) {
            None => None,
            Some(f) => Some(self.segments[f].0),
        }
    }

    /// Stores `vector` at `point_id` in the segment that holds the point
    /// (an appendable one first), or else in the first appendable segment.
    /// Fails with `ServiceError` when neither exists.
    pub fn upsert_point(&mut self, op_num: u64, point_id: u64, vector: &Vec<u32>) -> (r: Result<bool, SegmentError>)
        requires
            old(self).wf(),
        ensures
            final(self).wf(),
            final(self).next_id == old(self).next_id,
            final(self).segments@.len() == old(self).segments@.len(),
            forall|i: int| 0 <= i < final(self).segments@.len() ==> (#[trigger] final(self).segments@[i]).0
                == old(self).segments@[i].0,
            (forall|i: int| 0 <= i < old(self).segments@.len() ==> !(#[trigger] old(self).segments@[i]).1.holds(point_id)
                && !old(self).segments@[i].1.appendable()) ==> r == Err::<bool, SegmentError>(SegmentError::ServiceError)
                && final(self).segments@ == old(self).segments@,
            (exists|i: int| 0 <= i < old(self).segments@.len() && ((#[trigger] old(self).segments@[i]).1.holds(point_id)
                || old(self).segments@[i].1.appendable())) ==> r is Ok,
            r is Ok ==> exists|t: int| {
                &&& 0 <= t < old(self).segments@.len()
                &&& (#[trigger] old(self).segments@[t]).1.holds(point_id) || (old(self).segments@[t].1.appendable()
                    && forall|j: int| 0 <= j < old(self).segments@.len() ==> !(#[trigger] old(self).segments@[j]).1.holds(point_id))
                &&& forall|j: int| 0 <= j < old(self).segments@.len() && j != t ==> (#[trigger] final(self).segments@[j])
                    == old(self).segments@[j]
                &&& final(self).segments@[t].1.shown() == if op_num > old(self).segments@[t].1.version_of() {
                    upserted(old(self).segments@[t].1.shown(), point_id, vector@)
                } else {
                    old(self).segments@[t].1.shown()
                }
            },
    {
        let target = match self.segment_index_of(point_id) {
            Some(i) => Some(i),
            None => self.appendable_index(),
        };
        match target {
            None => Err(SegmentError::ServiceError),
            Some(i) => {
                let mut rest: Vec<(u64, HeldSegment)> = Vec::new();
                std::mem::swap(&mut self.segments, &mut rest);
                let ghost orig = rest@;
                let (id, held) = rest.remove(i);
                assert(orig[i as int].1.wf());
                let (held, r) = match held {
                    HeldSegment::Direct(mut s) => {
                        let r = s.upsert_point(op_num, point_id, vector);
                        (HeldSegment::Direct(s), r)
                    },
                    HeldSegment::Proxy(mut p) => {
                        let r = p.upsert_point(op_num, point_id, vector);
                        (HeldSegment::Proxy(p), r)
                    },
                };
                rest.insert(i, (id, held));
                self.segments = rest;
                proof {
                    assert(self.segments@[i as int].1.shown() == if op_num > orig[i as int].1.version_of() {
                        upserted(orig[i as int].1.shown(), point_id, vector@)
                    } else {
                        orig[i as int].1.shown()
                    });
                    assert forall|j: int| 0 <= j < orig.len() && j != i implies (#[trigger] self.segments@[j]) == orig[j] by {
                        assert(self.segments@[j] == orig[j]);
                    }
                    assert forall|a: int| 0 <= a < self.segments@.len() implies (#[trigger] self.segments@[a]).0 == orig[a].0
                        && self.segments@[a].1.wf() by {
                        if a < i {
                            assert(self.segments@[a] == orig[a]);
                        } else if a > i {
                            assert(self.segments@[a] == orig[a]);
                        }
                    }
                    assert forall|a: int, b: int|
                        0 <= a < self.segments@.len() && 0 <= b < self.segments@.len() && a != b
                            implies (#[trigger] self.segments@[a]).0 != (#[trigger] self.segments@[b]).0 by {
                        assert(self.segments@[a].0 == orig[a].0);
                        assert(self.segments@[b].0 == orig[b].0);
                    }
                    assert forall|a: int| 0 <= a < self.segments@.len() implies (#[trigger] self.segments@[a]).0 < self.next_id by {
                        assert(self.segments@[a].0 == orig[a].0);
                    }
                }
                r
            },
        }
    }

    /// Position of the first appendable segment.
    fn appendable_index(&self) -> (r: Option<usize>)
        ensures
            r is None ==> forall|i: int| 0 <= i < self.segments@.len() ==> !(#[trigger] self.segments@[i]).1.appendable(),
            r matches Some(i) ==> i < self.segments@.len() && self.segments@[i as int].1.appendable(),
    {
        let mut i: usize = 0;
        while i < self.segments.len()
            invariant
                0 <= i <= self.segments@.len(),
                forall|j: int| 0 <= j < i ==> !(#[trigger] self.segments@[j]).1.appendable(),
            decreases self.segments@.len() - i,
        {
            if self.segments[i].1.is_appendable() {
                return Some(i);
            }
            i = i + 1;
        }
        None
    }

    /// Position of the segment that holds `point_id`: an appendable one if
    /// any holds it, the first among equals.
    fn segment_index_of(&self, point_id: u64) -> (r: Option<usize>)
        ensures
            r is None ==> forall|i: int| 0 <= i < self.segments@.len() ==> !(#[trigger] self.segments@[i]).1.holds(point_id),
            r matches Some(f) ==> f < self.segments@.len() && self.segments@[f as int].1.holds(point_id)
                && (self.segments@[f as int].1.appendable() || forall|j: int|
                0 <= j < self.segments@.len() && (#[trigger] self.segments@[j]).1.holds(point_id) ==> !self.segments@[j].1.appendable()),
    {
        let mut found: Option<usize> = None;
        let mut i: usize = 0;
        while i < self.segments.len()
            invariant
                0 <= i <= self.segments@.len(),
                found is None ==> forall|j: int| 0 <= j < i ==> !(#[trigger] self.segments@[j]).1.holds(point_id),
                found matches Some(f) ==> f < i && self.segments@[f as int].1.holds(point_id) && (self.segments@[f as int].1.appendable()
                    || forall|j: int| 0 <= j < i && (#[trigger] self.segments@[j]).1.holds(point_id) ==> !self.segments@[j].1.appendable()),
            decreases self.segments@.len() - i,
        {
            let entry = &self.segments[i];
            if entry.1.has_point(point_id) {
                match found {
                    None => {
                        found = Some(i);
                    },
                    Some(f) => {
                        if !self.segments[f].1.is_appendable() && entry.1.is_appendable() {
                            found = Some(i);
                        }
                    },
                }
            }
            i = i + 1;
        }
        found
    }

    /// The first appendable segment, for writes of new points.
    pub fn appendable_segment(&self) -> (r: Option<u64>)
        ensures
            r is None ==> forall|i: int| 0 <= i < self.segments@.len() ==> !(#[trigger] self.segments@[i]).1.appendable(),
            r matches Some(id) ==> exists|i: int| 0 <= i < self.segments@.len() && (#[trigger] self.segments@[i]).0 == id
                && self.segments@[i].1.appendable(),
    {
        match self.appendable_index() {
            None => None,
            Some(i) => Some(self.segments[i].0),
        }
    }

    /// First step of an optimization: each segment under `ids` that is not a
    /// proxy yet is wrapped in a proxy with an empty write segment of
    /// configuration `write_config`, under the same id.
    pub fn freeze(&mut self, ids: &Vec<u64>, write_config: SegmentConfig)
        requires
            old(self).wf(),
        ensures
            final(self).wf(),
            final(self).next_id == old(self).next_id,
            final(self).segments@.len() == old(self).segments@.len(),
            forall|i: int| 0 <= i < final(self).segments@.len() ==> (#[trigger] final(self).segments@[i]).0
                == old(self).segments@[i].0,
            forall|i: int| 0 <= i < final(self).segments@.len() ==> {
                let before = old(self).segments@[i];
                let after = #[trigger] final(self).segments@[i];
                if ids@.contains(before.0) && before.1 is Direct {
                    &&& after.1 is Proxy
                    &&& after.1->Proxy_0.wrapped_segment == before.1->Direct_0
                    &&& after.1->Proxy_0.visible() == before.1->Direct_0.state()
                    &&& after.1->Proxy_0.indexed() == before.1->Direct_0.indexed_fields@
                } else {
                    after == before
                }
            },
    {
        let mut rest: Vec<(u64, HeldSegment)> = Vec::new();
        std::mem::swap(&mut self.segments, &mut rest);
        let ghost orig = rest@;
        let ghost mut taken: int = 0;
        while rest.len() > 0
            invariant
                0 <= taken <= orig.len(),
                rest@ == orig.subrange(taken, orig.len() as int),
                orig == old(self).segments@,
                self.next_id == old(self).next_id,
                self.segments@.len() == taken,
                forall|i: int, j: int|
                    0 <= i < orig.len() && 0 <= j < orig.len() && i != j ==> (#[trigger] orig[i]).0 != (#[trigger] orig[j]).0,
                forall|i: int| 0 <= i < orig.len() ==> (#[trigger] orig[i]).0 < self.next_id,
                forall|i: int| 0 <= i < orig.len() ==> (#[trigger] orig[i]).1.wf(),
                forall|i: int| 0 <= i < taken ==> (#[trigger] self.segments@[i]).0 == orig[i].0,
                forall|i: int| 0 <= i < taken ==> (#[trigger] self.segments@[i]).1.wf(),
                forall|i: int| 0 <= i < taken ==> {
                    let before = orig[i];
                    let after = #[trigger] self.segments@[i];
                    if ids@.contains(before.0) && before.1 is Direct {
                        &&& after.1 is Proxy
                        &&& after.1->Proxy_0.wrapped_segment == before.1->Direct_0
                        &&& after.1->Proxy_0.visible() == before.1->Direct_0.state()
                        &&& after.1->Proxy_0.indexed() == before.1->Direct_0.indexed_fields@
                    } else {
                        after == before
                    }
                },
            decreases rest@.len(),
        {
            let entry = rest.remove(0);
            assert(entry == orig[taken]);
            assert(orig[taken].1.wf());
            let (id, held) = entry;
            let frozen = list_contains(ids, id);
            let next = match held {
                HeldSegment::Direct(segment) => {
                    if frozen {
                        let write = Segment::new(write_config, SegmentType::Plain, true);
                        let proxy = ProxySegment::new(segment, write, HashSet::new(), FieldSet::new(), FieldSet::new());
                        assert(proxy.visible() =~= proxy.wrapped_segment.state());
                        assert(proxy.indexed() =~= proxy.wrapped_segment.indexed_fields@);
                        HeldSegment::Proxy(proxy)
                    } else {
                        HeldSegment::Direct(segment)
                    }
                },
                HeldSegment::Proxy(proxy) => HeldSegment::Proxy(proxy),
            };
            self.segments.push((id, next));
            proof {
                taken = taken + 1;
                assert(rest@ =~= orig.subrange(taken, orig.len() as int));
            }
        }
        proof {
            assert forall|i: int, j: int|
                0 <= i < self.segments@.len() && 0 <= j < self.segments@.len() && i != j
                    implies (#[trigger] self.segments@[i]).0 != (#[trigger] self.segments@[j]).0 by {
                assert(orig[i].0 != orig[j].0);
            }
            assert forall|i: int| 0 <= i < self.segments@.len() implies (#[trigger] self.segments@[i]).0 < self.next_id by {
                assert(orig[i].0 < self.next_id);
            }
        }
    }

    /// Last step of an optimization: the proxies under `ids` are rebuilt into
    /// one segment, configured as `thresholds` prescribe for its size, which
    /// replaces them under a fresh id. Every other entry stays, in order.
    pub fn finish_optimization(&mut self, ids: &Vec<u64>, base: SegmentConfig, thresholds: OptimizerThresholds) -> (r: u64)
        requires
            old(self).wf(),
            old(self).next_id < u64::MAX,
        ensures
            final(self).wf(),
            r == old(self).next_id,
            final(self).next_id == r + 1,
            final(self).segments@.drop_last() == kept_entries(old(self).segments@, ids@),
            final(self).segments@.last().0 == r,
            final(self).segments@.last().1 matches HeldSegment::Direct(s) && {
                &&& s.state() == merged_visible(frozen_proxies(old(self).segments@, ids@))
                &&& s.indexed_fields@ == merged_indexed(frozen_proxies(old(self).segments@, ids@))
                &&& s.version == merged_version(frozen_proxies(old(self).segments@, ids@))
                &&& s.config == prescribed(base, thresholds, s.state().dom().len() as usize)
                &&& s.segment_type == type_of_config(s.config)
                &&& !s.appendable
            },
    {
        let mut rest: Vec<(u64, HeldSegment)> = Vec::new();
        std::mem::swap(&mut self.segments, &mut rest);
        let ghost orig = rest@;
        let ghost mut taken: int = 0;
        let ghost mut pos: Seq<int> = Seq::empty();
        let mut proxies: Vec<ProxySegment> = Vec::new();
        while rest.len() > 0
            invariant
                0 <= taken <= orig.len(),
                rest@ == orig.subrange(taken, orig.len() as int),
                orig == old(self).segments@,
                self.next_id == old(self).next_id,
                self.segments@ == kept_entries(orig.subrange(0, taken), ids@),
                proxies@ == frozen_proxies(orig.subrange(0, taken), ids@),
                forall|j: int| 0 <= j < proxies@.len() ==> (#[trigger] proxies@[j]).wf(),
                pos.len() == self.segments@.len(),
                forall|j: int| 0 <= j < pos.len() ==> 0 <= #[trigger] pos[j] < taken && orig[pos[j]] == self.segments@[j],
                forall|j: int, k: int| 0 <= j < k < pos.len() ==> pos[j] < pos[k],
                forall|i: int, j: int|
                    0 <= i < orig.len() && 0 <= j < orig.len() && i != j ==> (#[trigger] orig[i]).0 != (#[trigger] orig[j]).0,
                forall|i: int| 0 <= i < orig.len() ==> (#[trigger] orig[i]).0 < self.next_id,
                forall|i: int| 0 <= i < orig.len() ==> (#[trigger] orig[i]).1.wf(),
            decreases rest@.len(),
        {
            let entry = rest.remove(0);
            assert(entry == orig[taken]);
            assert(orig.subrange(0, taken + 1).drop_last() =~= orig.subrange(0, taken));
            assert(orig.subrange(0, taken + 1).last() == orig[taken]);
            let frozen = list_contains(ids, entry.0);
            let (id, held) = entry;
            match held {
                HeldSegment::Proxy(proxy) => {
                    if frozen {
                        proxies.push(proxy);
                    } else {
                        self.segments.push((id, HeldSegment::Proxy(proxy)));
                        proof {
                            pos = pos.push(taken);
                        }
                    }
                },
                HeldSegment::Direct(segment) => {
                    self.segments.push((id, HeldSegment::Direct(segment)));
                    proof {
                        pos = pos.push(taken);
                    }
                },
            }
            proof {
                taken = taken + 1;
                assert(rest@ =~= orig.subrange(taken, orig.len() as int));
            }
        }
        assert(orig.subrange(0, orig.len() as int) =~= orig);
        let mut optimized = build_optimized(&proxies, base);
        let config = target_config(base, thresholds, optimized.vectors_count());
        optimized.config = config;
        optimized.segment_type = if config.index == Indexes::Hnsw { SegmentType::Indexed } else { SegmentType::Plain };
        let id = self.next_id;
        let ghost kept = self.segments@;
        self.segments.push((id, HeldSegment::Direct(optimized)));
        self.next_id = id + 1;
        proof {
            assert(self.segments@.drop_last() =~= kept);
            assert forall|i: int, j: int|
                0 <= i < self.segments@.len() && 0 <= j < self.segments@.len() && i != j
                    implies (#[trigger] self.segments@[i]).0 != (#[trigger] self.segments@[j]).0 by {
                if i < kept.len() && j < kept.len() {
                    assert(orig[pos[i]] == kept[i]);
                    assert(orig[pos[j]] == kept[j]);
                    if i < j {
                        assert(pos[i] < pos[j]);
                    } else {
                        assert(pos[j] < pos[i]);
                    }
                } else if i < kept.len() {
                    assert(orig[pos[i]] == kept[i]);
                } else if j < kept.len() {
                    assert(orig[pos[j]] == kept[j]);
                }
            }
            assert forall|i: int| 0 <= i < self.segments@.len() implies (#[trigger] self.segments@[i]).0 < self.next_id
                && self.segments@[i].1.wf() by {
                if i < kept.len() {
                    assert(orig[pos[i]] == kept[i]);
                }
            }
        }
        id
    }

    /// What the optimizers read of every segment, in the holder's order.
    pub fn summaries(&self) -> (r: Vec<SegmentSummary>)
        requires
            self.wf(),
        ensures
            r@.len() == self.segments@.len(),
            forall|i: int| 0 <= i < r@.len() ==> #[trigger] r@[i] == self.segments@[i].1.summary_spec(self.segments@[i].0),
            ids_distinct(r@),
    {
        let mut r: Vec<SegmentSummary> = Vec::new();
        let mut i: usize = 0;
        while i < self.segments.len()
            invariant
                self.wf(),
                0 <= i <= self.segments@.len(),
                r@.len() == i,
                forall|j: int| 0 <= j < i ==> #[trigger] r@[j] == self.segments@[j].1.summary_spec(self.segments@[j].0),
            decreases self.segments@.len() - i,
        {
            let entry = &self.segments[i];
            assert(self.segments@[i as int].1.wf());
            r.push(entry.1.summary(entry.0));
            i = i + 1;
        }
        proof {
            assert forall|a: int, b: int| 0 <= a < r@.len() && 0 <= b < r@.len() && a != b implies r@[a].id != r@[b].id by {
                assert(self.segments@[a].0 != self.segments@[b].0);
            }
        }
        r
    }
}

/// Swap atomicity: right after a swap, the holder shows the new segment and
/// none of the removed ones, and every other segment as before.
pub proof fn lemma_swap_shows_new_not_removed(
    before: Map<u64, HeldSegment>,
    after: Map<u64, HeldSegment>,
    remove_ids: Seq<u64>,
    new_id: u64,
    new_segment: HeldSegment,
)
    requires
        after == before.remove_keys(Set::new(|x: u64| remove_ids.contains(x))).insert(new_id, new_segment),
    ensures
        after.contains_key(new_id),
        forall|x: u64| remove_ids.contains(x) && x != new_id ==> !after.contains_key(x),
        forall|x: u64| !remove_ids.contains(x) && x != new_id ==> (after.contains_key(x) == before.contains_key(x)),
{
}

} // verus!
