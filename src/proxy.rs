use vstd::prelude::*;

use crate::fields::{keys_set, lemma_keys_prefix_step, FieldSet};
use std::collections::HashSet;
use crate::payload::{Payload, PayloadType};
use crate::segment::{
    allows, upserted, with_payload, Filter, PointState,
    capped, Segment, SegmentConfig, SegmentError, SegmentInfo, SegmentType,
};

verus! {

broadcast use vstd::std_specs::hash::group_hash_axioms;

/// A segment under optimization, seen as one appendable segment.
///
/// Reads of the frozen `wrapped_segment` go through unchanged, except for the
/// points in `deleted_points`: those were deleted, or moved into the
/// appendable `write_segment` before their first change. The wrapped segment
/// is never written.
pub struct ProxySegment {
    pub write_segment: Segment,
    pub wrapped_segment: Segment,
    pub deleted_points: HashSet<u64>,
    pub created_indexes: FieldSet,
    pub deleted_indexes: FieldSet,
}

/// The larger of two sequence numbers.
pub open spec fn max_seq(a: u64, b: u64) -> u64 {
    if a >= b { a } else { b }
}

/// The index-diff rule: `(wrapped ∪ created) \ deleted`.
pub open spec fn indexed_through(
    wrapped: Set<Seq<char>>,
    created: Set<Seq<char>>,
    deleted: Set<Seq<char>>,
) -> Set<Seq<char>> {
    wrapped.union(created).difference(deleted)
}

impl ProxySegment {
    pub open spec fn wf(&self) -> bool {
        &&& self.wrapped_segment.wf()
        &&& self.write_segment.wf()
        &&& self.write_segment.appendable
        &&& self.deleted_points@.subset_of(self.wrapped_segment.state().dom())
        &&& forall|id: u64|
            #[trigger] self.write_segment.state().contains_key(id) && self.wrapped_segment.state().contains_key(id)
                ==> self.deleted_points@.contains(id)
    }

    /// The points that the proxy shows: those of the wrapped segment that were
    /// not deleted or moved, and those of the write segment.
    pub open spec fn visible(&self) -> Map<u64, PointState> {
        self.wrapped_segment.state().restrict(
            self.wrapped_segment.state().dom().difference(self.deleted_points@),
        ).union_prefer_right(self.write_segment.state())
    }

    /// Whether a change of `point_id` first moves it into the write segment.
    pub open spec fn moves(&self, point_id: u64) -> bool {
        self.wrapped_segment.state().contains_key(point_id) && !self.deleted_points@.contains(point_id)
    }

    /// The write segment's points once `point_id` has been moved if needed.
    pub open spec fn write_after_move(&self, point_id: u64) -> Map<u64, PointState> {
        if self.moves(point_id) {
            self.write_segment.state().insert(point_id, self.wrapped_segment.state()[point_id])
        } else {
            self.write_segment.state()
        }
    }

    /// The moved or deleted points once `point_id` has been moved if needed.
    pub open spec fn deleted_after_move(&self, point_id: u64) -> Set<u64> {
        if self.moves(point_id) { self.deleted_points@.insert(point_id) } else { self.deleted_points@ }
    }

    pub open spec fn version_spec(&self) -> u64 {
        max_seq(self.wrapped_segment.version, self.write_segment.version)
    }

    /// The fields that carry an index, as seen through the proxy.
    pub open spec fn indexed(&self) -> Set<Seq<char>> {
        indexed_through(self.wrapped_segment.indexed_fields@, self.created_indexes@, self.deleted_indexes@)
    }

    /// The parts of the proxy that a point mutator leaves alone.
    pub open spec fn same_frame(&self, other: &ProxySegment) -> bool {
        &&& self.wrapped_segment == other.wrapped_segment
        &&& self.created_indexes == other.created_indexes
        &&& self.deleted_indexes == other.deleted_indexes
        &&& self.write_segment.same_frame(&other.write_segment)
    }

    /// Builds a proxy over `segment`, writing into `write_segment`.
    pub fn new(
        segment: Segment,
        write_segment: Segment,
        deleted_points: HashSet<u64>,
        created_indexes: FieldSet,
        deleted_indexes: FieldSet,
    ) -> (r: ProxySegment)
        ensures
            r.wrapped_segment == segment,
            r.write_segment == write_segment,
            r.deleted_points == deleted_points,
            r.created_indexes == created_indexes,
            r.deleted_indexes == deleted_indexes,
    {
        ProxySegment {
            write_segment,
            wrapped_segment: segment,
            deleted_points,
            created_indexes,
            deleted_indexes,
        }
    }

    pub fn version(&self) -> (r: u64)
        ensures
            r == self.version_spec(),
    {
        let a = self.wrapped_segment.version();
        let b = self.write_segment.version();
        if a >= b { a } else { b }
    }

    /// Copies a point of the wrapped segment into the write segment and marks
    /// it as moved. The copy keeps the version of the write segment, so that
    /// the change that follows it, under the same sequence number, still
    /// applies.
    fn move_point(&mut self, point_id: u64)
        requires
            old(self).wf(),
            old(self).wrapped_segment.state().contains_key(point_id),
            !old(self).deleted_points@.contains(point_id),
        ensures
            final(self).wf(),
            final(self).visible() == old(self).visible(),
            final(self).write_segment.state().contains_key(point_id),
            final(self).write_segment.state() == old(self).write_after_move(point_id),
            final(self).deleted_points@ == old(self).deleted_points@.insert(point_id),
            final(self).write_segment.version == old(self).write_segment.version,
            final(self).same_frame(old(self)),
    {
        let vector = match self.wrapped_segment.vector(point_id) {
            Ok(v) => v,
            Err(_) => Vec::new(),
        };
        let payload = match self.wrapped_segment.payload(point_id) {
            Ok(p) => p,
            Err(_) => Payload::new(),
        };
        self.deleted_points.insert(point_id);
        self.write_segment.put_point(point_id, vector, payload);
        proof {
            let o = old(self).wrapped_segment.state();
            assert(o[point_id] == (vector@, payload@));
            assert(self.visible() =~= old(self).visible());
        }
    }

    /// Moves `point_id` into the write segment if the proxy still shows it
    /// from the wrapped segment; says whether it did.
    fn move_if_exists(&mut self, point_id: u64) -> (r: bool)
        requires
            old(self).wf(),
        ensures
            final(self).wf(),
            final(self).visible() == old(self).visible(),
            old(self).visible().contains_key(point_id) ==> final(self).write_segment.state().contains_key(point_id),
            r == (old(self).wrapped_segment.state().contains_key(point_id) && !old(self).deleted_points@.contains(point_id)),
            !r ==> *final(self) == *old(self),
            final(self).deleted_points@ == old(self).deleted_after_move(point_id),
            final(self).write_segment.state() == old(self).write_after_move(point_id),
            final(self).write_segment.version == old(self).write_segment.version,
            final(self).same_frame(old(self)),
    {
        let wrapped_has_point = self.wrapped_segment.has_point(point_id);
        let already_deleted = self.deleted_points.contains(&point_id);
        if wrapped_has_point && !already_deleted {
            self.move_point(point_id);
            return true;
        }
        false
    }
}


impl ProxySegment {
    /// Stores `vector` at `point_id`; a point shown from the wrapped segment is
    /// first moved into the write segment, so its payload is kept.
    pub fn upsert_point(&mut self, op_num: u64, point_id: u64, vector: &Vec<u32>) -> (r: Result<bool, SegmentError>)
        requires
            old(self).wf(),
        ensures
            final(self).wf(),
            final(self).wrapped_segment == old(self).wrapped_segment,
            final(self).indexed() == old(self).indexed(),
            op_num <= old(self).version_spec() ==> r == Ok::<bool, SegmentError>(false) && *final(self) == *old(self),
            op_num > old(self).version_spec() ==> {
                &&& r == Ok::<bool, SegmentError>(true)
                &&& final(self).visible() == upserted(old(self).visible(), point_id, vector@)
                &&& final(self).deleted_points@ == old(self).deleted_after_move(point_id)
                &&& final(self).write_segment.state() == upserted(old(self).write_after_move(point_id), point_id, vector@)
                &&& final(self).version_spec() == op_num
            },
    {
        if op_num <= self.version() {
            return Ok(false);
        }
        self.move_if_exists(point_id);
        let r = self.write_segment.upsert_point(op_num, point_id, vector);
        assert(self.visible() =~= upserted(old(self).visible(), point_id, vector@));
        r
    }

    /// Deletes `point_id`; says whether either segment held it.
    pub fn delete_point(&mut self, op_num: u64, point_id: u64) -> (r: Result<bool, SegmentError>)
        requires
            old(self).wf(),
        ensures
            final(self).wf(),
            final(self).wrapped_segment == old(self).wrapped_segment,
            final(self).indexed() == old(self).indexed(),
            op_num <= old(self).version_spec() ==> r == Ok::<bool, SegmentError>(false) && *final(self) == *old(self),
            op_num > old(self).version_spec() ==> {
                &&& r == Ok::<bool, SegmentError>(
                    old(self).wrapped_segment.state().contains_key(point_id)
                        || old(self).write_segment.state().contains_key(point_id),
                )
                &&& final(self).visible() == old(self).visible().remove(point_id)
                &&& final(self).deleted_points@ == if old(self).wrapped_segment.state().contains_key(point_id) {
                    old(self).deleted_points@.insert(point_id)
                } else {
                    old(self).deleted_points@
                }
                &&& final(self).write_segment.state() == old(self).write_segment.state().remove(point_id)
                &&& final(self).version_spec() == op_num
            },
    {
        if op_num <= self.version() {
            return Ok(false);
        }
        let mut was_deleted = false;
        if self.wrapped_segment.has_point(point_id) {
            self.deleted_points.insert(point_id);
            was_deleted = true;
        }
        let r = match self.write_segment.delete_point(op_num, point_id) {
            Ok(in_write) => Ok(was_deleted || in_write),
            Err(e) => Err(e),
        };
        assert(self.visible() =~= old(self).visible().remove(point_id));
        r
    }

    /// Replaces the payload of a point that the proxy shows.
    pub fn set_full_payload(&mut self, op_num: u64, point_id: u64, full_payload: Payload) -> (r: Result<bool, SegmentError>)
        requires
            old(self).wf(),
        ensures
            final(self).wf(),
            final(self).wrapped_segment == old(self).wrapped_segment,
            final(self).indexed() == old(self).indexed(),
            op_num <= old(self).version_spec() ==> r == Ok::<bool, SegmentError>(false) && *final(self) == *old(self),
            op_num > old(self).version_spec() && !old(self).visible().contains_key(point_id) ==> r == Err::<bool, SegmentError>(
                SegmentError::PointIdError(point_id),
            ) && *final(self) == *old(self),
            op_num > old(self).version_spec() && old(self).visible().contains_key(point_id) ==> {
                &&& r == Ok::<bool, SegmentError>(true)
                &&& final(self).visible() == with_payload(old(self).visible(), point_id, full_payload@)
                &&& final(self).deleted_points@ == old(self).deleted_after_move(point_id)
                &&& final(self).write_segment.state() == with_payload(old(self).write_after_move(point_id), point_id, full_payload@)
                &&& final(self).version_spec() == op_num
            },
    {
        if op_num <= self.version() {
            return Ok(false);
        }
        self.move_if_exists(point_id);
        let r = self.write_segment.set_full_payload(op_num, point_id, full_payload);
        proof {
            if old(self).visible().contains_key(point_id) {
                assert(self.visible() =~= with_payload(old(self).visible(), point_id, full_payload@));
            }
        }
        r
    }

    /// Stores `payload` under `key` in the payload of a point that the proxy shows.
    pub fn set_payload(&mut self, op_num: u64, point_id: u64, key: &String, payload: PayloadType) -> (r: Result<bool, SegmentError>)
        requires
            old(self).wf(),
        ensures
            final(self).wf(),
            final(self).wrapped_segment == old(self).wrapped_segment,
            final(self).indexed() == old(self).indexed(),
            op_num <= old(self).version_spec() ==> r == Ok::<bool, SegmentError>(false) && *final(self) == *old(self),
            op_num > old(self).version_spec() && !old(self).visible().contains_key(point_id) ==> r == Err::<bool, SegmentError>(
                SegmentError::PointIdError(point_id),
            ) && *final(self) == *old(self),
            op_num > old(self).version_spec() && old(self).visible().contains_key(point_id) ==> {
                &&& r == Ok::<bool, SegmentError>(true)
                &&& final(self).visible() == with_payload(old(self).visible(), point_id, old(self).visible()[point_id].1.insert(key@, payload))
                &&& final(self).deleted_points@ == old(self).deleted_after_move(point_id)
                &&& final(self).write_segment.state() == with_payload(old(self).write_after_move(point_id), point_id, old(self).visible()[point_id].1.insert(key@, payload))
                &&& final(self).version_spec() == op_num
            },
    {
        if op_num <= self.version() {
            return Ok(false);
        }
        self.move_if_exists(point_id);
        let r = self.write_segment.set_payload(op_num, point_id, key, payload);
        proof {
            if old(self).visible().contains_key(point_id) {
                assert(self.visible() =~= with_payload(old(self).visible(), point_id, old(self).visible()[point_id].1.insert(key@, payload)));
            }
        }
        r
    }

    /// Removes `key` from the payload of a point that the proxy shows.
    pub fn delete_payload(&mut self, op_num: u64, point_id: u64, key: &String) -> (r: Result<bool, SegmentError>)
        requires
            old(self).wf(),
        ensures
            final(self).wf(),
            final(self).wrapped_segment == old(self).wrapped_segment,
            final(self).indexed() == old(self).indexed(),
            op_num <= old(self).version_spec() ==> r == Ok::<bool, SegmentError>(false) && *final(self) == *old(self),
            op_num > old(self).version_spec() && !old(self).visible().contains_key(point_id) ==> r == Err::<bool, SegmentError>(
                SegmentError::PointIdError(point_id),
            ) && *final(self) == *old(self),
            op_num > old(self).version_spec() && old(self).visible().contains_key(point_id) ==> {
                &&& r == Ok::<bool, SegmentError>(true)
                &&& final(self).visible() == with_payload(old(self).visible(), point_id, old(self).visible()[point_id].1.remove(key@))
                &&& final(self).deleted_points@ == old(self).deleted_after_move(point_id)
                &&& final(self).write_segment.state() == with_payload(old(self).write_after_move(point_id), point_id, old(self).visible()[point_id].1.remove(key@))
                &&& final(self).version_spec() == op_num
            },
    {
        if op_num <= self.version() {
            return Ok(false);
        }
        self.move_if_exists(point_id);
        let r = self.write_segment.delete_payload(op_num, point_id, key);
        proof {
            if old(self).visible().contains_key(point_id) {
                assert(self.visible() =~= with_payload(old(self).visible(), point_id, old(self).visible()[point_id].1.remove(key@)));
            }
        }
        r
    }

    /// Empties the payload of a point that the proxy shows.
    pub fn clear_payload(&mut self, op_num: u64, point_id: u64) -> (r: Result<bool, SegmentError>)
        requires
            old(self).wf(),
        ensures
            final(self).wf(),
            final(self).wrapped_segment == old(self).wrapped_segment,
            final(self).indexed() == old(self).indexed(),
            op_num <= old(self).version_spec() ==> r == Ok::<bool, SegmentError>(false) && *final(self) == *old(self),
            op_num > old(self).version_spec() && !old(self).visible().contains_key(point_id) ==> r == Err::<bool, SegmentError>(
                SegmentError::PointIdError(point_id),
            ) && *final(self) == *old(self),
            op_num > old(self).version_spec() && old(self).visible().contains_key(point_id) ==> {
                &&& r == Ok::<bool, SegmentError>(true)
                &&& final(self).visible() == with_payload(old(self).visible(), point_id, Map::<Seq<char>, PayloadType>::empty())
                &&& final(self).deleted_points@ == old(self).deleted_after_move(point_id)
                &&& final(self).write_segment.state() == with_payload(old(self).write_after_move(point_id), point_id, Map::<Seq<char>, PayloadType>::empty())
                &&& final(self).version_spec() == op_num
            },
    {
        if op_num <= self.version() {
            return Ok(false);
        }
        self.move_if_exists(point_id);
        let r = self.write_segment.clear_payload(op_num, point_id);
        proof {
            if old(self).visible().contains_key(point_id) {
                assert(self.visible() =~= with_payload(old(self).visible(), point_id, Map::<Seq<char>, PayloadType>::empty()));
            }
        }
        r
    }

    /// Marks `key` as indexed; the diff is kept for the rebuilt segment.
    pub fn create_field_index(&mut self, op_num: u64, key: &String) -> (r: Result<bool, SegmentError>)
        requires
            old(self).wf(),
        ensures
            final(self).wf(),
            final(self).wrapped_segment == old(self).wrapped_segment,
            final(self).visible() == old(self).visible(),
            op_num <= old(self).version_spec() ==> r == Ok::<bool, SegmentError>(false) && *final(self) == *old(self),
            op_num > old(self).version_spec() ==> {
                &&& r == Ok::<bool, SegmentError>(true)
                &&& final(self).indexed() == old(self).indexed().insert(key@)
                &&& final(self).created_indexes@ == old(self).created_indexes@.insert(key@)
                &&& final(self).deleted_indexes@ == old(self).deleted_indexes@.remove(key@)
                &&& final(self).version_spec() == op_num
            },
    {
        if op_num <= self.version() {
            return Ok(false);
        }
        self.created_indexes.insert(key);
        self.deleted_indexes.remove(key);
        let r = self.write_segment.create_field_index(op_num, key);
        assert(self.indexed() =~= old(self).indexed().insert(key@));
        assert(self.visible() =~= old(self).visible());
        r
    }

    /// Marks `key` as no longer indexed; the diff is kept for the rebuilt segment.
    pub fn delete_field_index(&mut self, op_num: u64, key: &String) -> (r: Result<bool, SegmentError>)
        requires
            old(self).wf(),
        ensures
            final(self).wf(),
            final(self).wrapped_segment == old(self).wrapped_segment,
            final(self).visible() == old(self).visible(),
            op_num <= old(self).version_spec() ==> r == Ok::<bool, SegmentError>(false) && *final(self) == *old(self),
            op_num > old(self).version_spec() ==> {
                &&& r == Ok::<bool, SegmentError>(true)
                &&& final(self).indexed() == old(self).indexed().remove(key@)
                &&& final(self).created_indexes@ == old(self).created_indexes@.remove(key@)
                &&& final(self).deleted_indexes@ == old(self).deleted_indexes@.insert(key@)
                &&& final(self).version_spec() == op_num
            },
    {
        if op_num <= self.version() {
            return Ok(false);
        }
        self.deleted_indexes.insert(key);
        self.created_indexes.remove(key);
        let r = self.write_segment.delete_field_index(op_num, key);
        assert(self.indexed() =~= old(self).indexed().remove(key@));
        assert(self.visible() =~= old(self).visible());
        r
    }
}

/// `a - b + c` on counts, saturating at both ends.
pub open spec fn proxy_count(a: usize, b: usize, c: usize) -> usize {
    let d: int = if a >= b { a - b } else { 0 };
    if d + c > usize::MAX { usize::MAX } else { (d + c) as usize }
}

impl ProxySegment {
    /// What a search through the proxy returns: each shown point at most once,
    /// only points that the proxy shows and the filter lets through, and all
    /// of them when fewer than `top` come back.
    pub open spec fn is_search_result(&self, filter: Option<&Filter>, top: usize, r: Seq<u64>) -> bool {
        &&& r.no_duplicates()
        &&& forall|i: int| 0 <= i < r.len() ==> self.visible().contains_key(#[trigger] r[i]) && allows(filter, r[i])
        &&& r.len() < top ==> forall|id: u64| self.visible().contains_key(id) && allows(filter, id) ==> r.contains(id)
    }

    /// `r` is up to `top` ids from the wrapped segment, none of them moved or
    /// deleted, followed at `k` by up to `top` ids from the write segment.
    pub open spec fn splits_at(&self, top: usize, r: Seq<u64>, k: int) -> bool {
        &&& 0 <= k <= r.len()
        &&& k <= top
        &&& r.len() - k <= top
        &&& forall|i: int| 0 <= i < k ==> self.wrapped_segment.state().contains_key(#[trigger] r[i])
            && !self.deleted_points@.contains(r[i])
        &&& forall|i: int| k <= i < r.len() ==> self.write_segment.state().contains_key(#[trigger] r[i])
    }

    /// The segment that reads of `point_id` go to: the write segment when it
    /// holds the point or the point was moved or deleted, the wrapped one
    /// otherwise. Either way a read sees what the proxy shows.
    pub open spec fn read_source(&self, point_id: u64) -> Segment {
        if self.write_segment.state().contains_key(point_id) || self.deleted_points@.contains(point_id) {
            self.write_segment
        } else {
            self.wrapped_segment
        }
    }

    fn reads_write_segment(&self, point_id: u64) -> (r: bool)
        ensures
            r == (self.write_segment.state().contains_key(point_id) || self.deleted_points@.contains(point_id)),
            r ==> (self.read_source(point_id) == self.write_segment),
            !r ==> (self.read_source(point_id) == self.wrapped_segment),
    {
        self.write_segment.has_point(point_id) || self.deleted_points.contains(&point_id)
    }

    pub fn has_point(&self, point_id: u64) -> (r: bool)
        ensures
            r == self.visible().contains_key(point_id),
    {
        if self.reads_write_segment(point_id) {
            self.write_segment.has_point(point_id)
        } else {
            self.wrapped_segment.has_point(point_id)
        }
    }

    pub fn vector(&self, point_id: u64) -> (r: Result<Vec<u32>, SegmentError>)
        ensures
            self.visible().contains_key(point_id) ==> (r matches Ok(v) && v@ == self.visible()[point_id].0),
            !self.visible().contains_key(point_id) ==> r == Err::<Vec<u32>, SegmentError>(
                SegmentError::PointIdError(point_id),
            ),
    {
        if self.reads_write_segment(point_id) {
            self.write_segment.vector(point_id)
        } else {
            self.wrapped_segment.vector(point_id)
        }
    }

    pub fn payload(&self, point_id: u64) -> (r: Result<Payload, SegmentError>)
        ensures
            self.visible().contains_key(point_id) ==> (r matches Ok(p) && p@ == self.visible()[point_id].1),
            !self.visible().contains_key(point_id) ==> r == Err::<Payload, SegmentError>(
                SegmentError::PointIdError(point_id),
            ),
    {
        if self.reads_write_segment(point_id) {
            self.write_segment.payload(point_id)
        } else {
            self.wrapped_segment.payload(point_id)
        }
    }

    /// Live points of the wrapped segment, less the moved or deleted ones,
    /// plus those of the write segment.
    pub fn vectors_count(&self) -> (r: usize)
        ensures
            r == proxy_count(
                self.wrapped_segment.state().dom().len() as usize,
                self.deleted_points@.len() as usize,
                self.write_segment.state().dom().len() as usize,
            ),
            self.wf() && self.visible().dom().len() <= usize::MAX ==> r == self.visible().dom().len(),
    {
        proof {
            if self.wf() {
                self.lemma_visible_count();
            }
        }
        let count = self.wrapped_segment.vectors_count();
        let count = count.saturating_sub(self.deleted_points.len());
        count.saturating_add(self.write_segment.vectors_count())
    }

    /// The proxy shows as many points as the wrapped segment holds, less
    /// the moved or deleted ones, plus those of the write segment.
    pub proof fn lemma_visible_count(&self)
        requires
            self.wf(),
        ensures
            self.deleted_points@.len() <= self.wrapped_segment.state().dom().len(),
            self.visible().dom().len() == self.wrapped_segment.state().dom().len() - self.deleted_points@.len()
                + self.write_segment.state().dom().len(),
    {
        let w = self.wrapped_segment.state().dom();
        let d = self.deleted_points@;
        let wr = self.write_segment.state().dom();
        assert(w =~= self.wrapped_segment.points@.dom());
        assert(wr =~= self.write_segment.points@.dom());
        vstd::set_lib::lemma_set_subset_finite(w, d);
        vstd::set_lib::lemma_len_subset(d, w);
        vstd::set_lib::lemma_set_difference_len(w, d);
        assert(w.intersect(d) =~= d);
        vstd::set_lib::lemma_set_subset_finite(w, w.difference(d));
        assert(w.difference(d).disjoint(wr));
        vstd::set_lib::lemma_set_disjoint_lens(w.difference(d), wr);
        assert(self.visible().dom() =~= w.difference(d) + wr);
    }

    /// Deletions of the write segment; those of the wrapped one are counted
    /// in `deleted_points`.
    pub fn deleted_count(&self) -> (r: usize)
        requires
            self.wf(),
        ensures
            r == self.write_segment.order@.len() - self.write_segment.state().dom().len(),
    {
        self.write_segment.deleted_count()
    }

    pub fn segment_type(&self) -> (r: SegmentType)
        ensures
            r == SegmentType::Special,
    {
        SegmentType::Special
    }

    pub fn is_appendable(&self) -> (r: bool)
        ensures
            r,
    {
        true
    }

    pub fn config(&self) -> (r: SegmentConfig)
        ensures
            r == self.wrapped_segment.config,
    {
        self.wrapped_segment.config()
    }

    /// The durable baseline is the wrapped segment's version.
    pub fn flush(&self) -> (r: u64)
        ensures
            r == self.wrapped_segment.version,
    {
        self.wrapped_segment.flush()
    }

    pub fn info(&self) -> (r: SegmentInfo)
        requires
            self.wf(),
        ensures
            r.segment_type == SegmentType::Special,
            r.num_vectors == proxy_count(
                self.wrapped_segment.state().dom().len() as usize,
                self.deleted_points@.len() as usize,
                self.write_segment.state().dom().len() as usize,
            ),
            r.num_deleted_vectors == self.write_segment.order@.len() - self.write_segment.state().dom().len(),
            r.ram_usage_bytes == capped(
                capped(4 * self.wrapped_segment.config.vector_size * self.wrapped_segment.state().dom().len())
                    + capped(4 * self.write_segment.config.vector_size * self.write_segment.state().dom().len()),
            ),
            r.disk_usage_bytes == 0,
            r.is_appendable,
            r.schema@ == self.wrapped_segment.indexed_fields@,
    {
        let wrapped_info = self.wrapped_segment.info();
        let write_info = self.write_segment.info();
        SegmentInfo {
            segment_type: SegmentType::Special,
            num_vectors: self.vectors_count(),
            num_deleted_vectors: write_info.num_deleted_vectors,
            ram_usage_bytes: wrapped_info.ram_usage_bytes.saturating_add(write_info.ram_usage_bytes),
            disk_usage_bytes: wrapped_info.disk_usage_bytes.saturating_add(write_info.disk_usage_bytes),
            is_appendable: true,
            schema: wrapped_info.schema,
        }
    }

    /// `(wrapped ∪ created) \ deleted`.
    pub fn get_indexed_fields(&self) -> (r: FieldSet)
        ensures
            r@ == self.indexed(),
            r.wf(),
    {
        let mut out = FieldSet::new();
        let wrapped = &self.wrapped_segment.indexed_fields.keys;
        let mut i: usize = 0;
        while i < wrapped.len()
            invariant
                0 <= i <= wrapped@.len(),
                out@ == keys_set(wrapped@.subrange(0, i as int)).difference(self.deleted_indexes@),
                out.wf(),
            decreases wrapped@.len() - i,
        {
            proof {
                lemma_keys_prefix_step(wrapped@, i as int);
            }
            if !self.deleted_indexes.contains(&wrapped[i]) {
                out.insert(&wrapped[i]);
            }
            i = i + 1;
            assert(out@ =~= keys_set(wrapped@.subrange(0, i as int)).difference(self.deleted_indexes@));
        }
        assert(wrapped@.subrange(0, wrapped@.len() as int) =~= wrapped@);
        let created = &self.created_indexes.keys;
        let mut k: usize = 0;
        while k < created.len()
            invariant
                0 <= k <= created@.len(),
                out@ == keys_set(wrapped@).union(keys_set(created@.subrange(0, k as int))).difference(
                    self.deleted_indexes@,
                ),
                out.wf(),
            decreases created@.len() - k,
        {
            proof {
                lemma_keys_prefix_step(created@, k as int);
            }
            if !self.deleted_indexes.contains(&created[k]) {
                out.insert(&created[k]);
            }
            k = k + 1;
            assert(out@ =~= keys_set(wrapped@).union(keys_set(created@.subrange(0, k as int))).difference(
                self.deleted_indexes@,
            ));
        }
        assert(created@.subrange(0, created@.len() as int) =~= created@);
        out
    }

    /// The points that the proxy shows and the filter lets through: up to
    /// `top` from the wrapped segment, with moved and deleted points filtered
    /// out, followed by up to `top` from the write segment. Neither sorted
    /// nor truncated further. Fewer than `top` in all means all of them.
    pub fn search(&self, filter: Option<&Filter>, top: usize) -> (r: Vec<u64>)
        requires
            self.wf(),
        ensures
            self.is_search_result(filter, top, r@),
            r@.len() <= 2 * top,
            exists|k: int| #[trigger] self.splits_at(top, r@, k),
    {
        let ghost wrapped_filter_ok = |id: u64| allows(filter, id) && !self.deleted_points@.contains(id);
        let mut wrapped_result = self.wrapped_segment.search_excluding(filter, &self.deleted_points, top);
        assert(wrapped_result@.len() < top ==> forall|id: u64| self.wrapped_segment.state().contains_key(id)
            && #[trigger] wrapped_filter_ok(id) ==> wrapped_result@.contains(id));
        let ghost a = wrapped_result@;
        assert forall|i: int| 0 <= i < a.len() implies wrapped_filter_ok(#[trigger] a[i])
            && self.wrapped_segment.state().contains_key(a[i]) by {
        }
        let mut write_result = self.write_segment.search(filter, top);
        let ghost b = write_result@;
        wrapped_result.append(&mut write_result);
        proof {
            assert forall|i: int, j: int| 0 <= i < a.len() && 0 <= j < b.len() implies a[i] != b[j] by {
                assert(wrapped_filter_ok(a[i]));
                assert(self.write_segment.state().contains_key(b[j]));
            }
            vstd::seq_lib::lemma_no_dup_in_concat(a, b);
            assert(wrapped_result@ == a + b);
            assert(forall|i: int| 0 <= i < a.len() ==> wrapped_result@[i] == a[i]);
            assert(forall|i: int| a.len() <= i < wrapped_result@.len() ==> wrapped_result@[i] == b[i - a.len()]);
            assert(self.splits_at(top, wrapped_result@, a.len() as int)) by {
                assert forall|i: int| 0 <= i < a.len() implies self.wrapped_segment.state().contains_key(
                    #[trigger] wrapped_result@[i],
                ) && !self.deleted_points@.contains(wrapped_result@[i]) by {
                    assert(wrapped_filter_ok(a[i]));
                }
            }
            assert forall|i: int| 0 <= i < wrapped_result@.len() implies self.visible().contains_key(
                #[trigger] wrapped_result@[i],
            ) && allows(filter, wrapped_result@[i]) by {
                if i < a.len() {
                    assert(wrapped_result@[i] == a[i]);
                    assert(wrapped_filter_ok(a[i]));
                } else {
                    assert(wrapped_result@[i] == b[i - a.len()]);
                }
            }
            if wrapped_result@.len() < top {
                assert forall|id: u64| self.visible().contains_key(id) && allows(filter, id) implies wrapped_result@.contains(id) by {
                    if self.write_segment.state().contains_key(id) {
                        assert(b.contains(id));
                        let j = choose|j: int| 0 <= j < b.len() && b[j] == id;
                        assert(wrapped_result@[a.len() + j] == id);
                    } else {
                        assert(self.wrapped_segment.state().contains_key(id));
                        assert(!self.deleted_points@.contains(id));
                        assert(wrapped_filter_ok(id));
                        assert(a.contains(id));
                        let j = choose|j: int| 0 <= j < a.len() && a[j] == id;
                        assert(wrapped_result@[j] == id);
                    }
                }
            }
        }
        wrapped_result
    }
}

/// Deleted points are hidden: once a delete of `point_id` has gone through
/// the proxy, no search returns it, whatever the filter.
pub proof fn lemma_deleted_point_not_found(
    before: ProxySegment,
    after: ProxySegment,
    point_id: u64,
    filter: Option<&Filter>,
    top: usize,
    found: Seq<u64>,
)
    requires
        after.visible() == before.visible().remove(point_id),
        after.is_search_result(filter, top, found),
    ensures
        !found.contains(point_id),
{
    if found.contains(point_id) {
        let i = choose|i: int| 0 <= i < found.len() && found[i] == point_id;
        assert(after.visible().contains_key(found[i]));
    }
}

/// The index diff follows the last operation on a key: after a create the key
/// is indexed and after a delete it is not, in either order, and no other key
/// changes.
pub proof fn lemma_index_diff_last_op_wins(
    wrapped: Set<Seq<char>>,
    created: Set<Seq<char>>,
    deleted: Set<Seq<char>>,
    key: Seq<char>,
)
    ensures
        indexed_through(wrapped, created.insert(key), deleted.remove(key)) == indexed_through(wrapped, created, deleted).insert(key),
        indexed_through(wrapped, created.remove(key), deleted.insert(key)) == indexed_through(wrapped, created, deleted).remove(key),
{
    assert(indexed_through(wrapped, created.insert(key), deleted.remove(key)) =~= indexed_through(wrapped, created, deleted).insert(key));
    assert(indexed_through(wrapped, created.remove(key), deleted.insert(key)) =~= indexed_through(wrapped, created, deleted).remove(key));
}

} // verus!
