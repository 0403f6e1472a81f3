use std::collections::{HashMap, HashSet};
use vstd::prelude::*;

use crate::fields::FieldSet;
use crate::ids::copy_vector;
use crate::payload::{Payload, PayloadType};

verus! {

broadcast use vstd::std_specs::hash::group_hash_axioms;

/// What a point holds: its vector (each component the bit pattern of an `f32`)
/// and its payload.
pub type PointState = (Seq<u32>, Map<Seq<char>, PayloadType>);

/// The kind of a segment. `Special` is a proxy under optimization.
#[derive(Clone, Copy, Debug, PartialEq, Eq, Structural)]
pub enum SegmentType {
    Plain,
    Indexed,
    Special,
}

/// Distance metric of a collection.
#[derive(Clone, Copy, Debug, PartialEq, Eq, Structural)]
pub enum Distance {
    Cosine,
    Euclid,
    Dot,
}

/// Vector index kind.
#[derive(Clone, Copy, Debug, PartialEq, Eq, Structural)]
pub enum Indexes {
    Plain,
    Hnsw,
}

/// Where vectors are stored.
#[derive(Clone, Copy, Debug, PartialEq, Eq, Structural)]
pub enum StorageType {
    InMemory,
    Mmap,
}

/// Immutable descriptor of a segment.
#[derive(Clone, Copy, Debug, PartialEq, Eq, Structural)]
pub struct SegmentConfig {
    pub vector_size: u64,
    pub distance: Distance,
    pub index: Indexes,
    pub storage_type: StorageType,
}

/// The errors of the segment layer.
#[derive(Debug, PartialEq, Eq, Structural)]
pub enum SegmentError {
    /// The operation needs a point that is not there.
    PointIdError(u64),
    /// The engine failed, or refused a write it cannot take.
    ServiceError,
    /// A payload value does not fit an existing field index.
    TypeInferenceError,
    /// The segment is full.
    OutOfVectorsSpace,
}

/// Summary of a segment.
pub struct SegmentInfo {
    pub segment_type: SegmentType,
    pub num_vectors: usize,
    pub num_deleted_vectors: usize,
    /// Bytes that the live vectors take, at four bytes per component.
    pub ram_usage_bytes: u64,
    /// Bytes on disk; an in-memory segment keeps nothing there.
    pub disk_usage_bytes: u64,
    pub is_appendable: bool,
    /// The payload fields that carry an index.
    pub schema: FieldSet,
}

/// `x`, or the largest `u64` where `x` does not fit.
pub open spec fn capped(x: int) -> u64 {
    if x > u64::MAX { u64::MAX } else { x as u64 }
}

/// `4 * components * count`, capped at the largest `u64`.
pub fn vector_bytes(components: u64, count: usize) -> (r: u64)
    ensures
        r == capped(4 * components * count),
{
    let n = count as u64;
    match components.checked_mul(4) {
        Some(per_vector) => match per_vector.checked_mul(n) {
            Some(total) => {
                assert(per_vector * n == 4 * components * count) by (nonlinear_arith)
                    requires
                        per_vector == components * 4,
                        n == count,
                ;
                total
            },
            None => {
                assert(per_vector * n == 4 * components * count) by (nonlinear_arith)
                    requires
                        per_vector == components * 4,
                        n == count,
                ;
                u64::MAX
            },
        },
        None => {
            if n == 0 {
                assert(4 * components * count == 0) by (nonlinear_arith)
                    requires
                        count == 0,
                ;
                0
            } else {
                assert(4 * components * count >= 4 * components) by (nonlinear_arith)
                    requires
                        count >= 1,
                        components >= 0,
                ;
                u64::MAX
            }
        },
    }
}

/// A filter condition.
pub enum Condition {
    /// The point's id is in the set.
    HasId(HashSet<u64>),
}

/// A filter: every `must` condition holds and no `must_not` condition does.
pub struct Filter {
    pub must: Vec<Condition>,
    pub must_not: Vec<Condition>,
}

pub open spec fn condition_holds(c: Condition, id: u64) -> bool {
    match c {
        Condition::HasId(s) => s@.contains(id),
    }
}

pub open spec fn filter_holds(f: Filter, id: u64) -> bool {
    &&& forall|i: int| 0 <= i < f.must@.len() ==> condition_holds(#[trigger] f.must@[i], id)
    &&& forall|i: int| 0 <= i < f.must_not@.len() ==> !condition_holds(#[trigger] f.must_not@[i], id)
}

/// Whether an optional filter lets `id` through: no filter lets all through.
pub open spec fn allows(f: Option<&Filter>, id: u64) -> bool {
    match f {
        None => true,
        Some(f) => filter_holds(*f, id),
    }
}

impl Condition {
    /// Whether the condition holds of `id`.
    pub fn check(&self, id: u64) -> (r: bool)
        ensures
            r == condition_holds(*self, id),
    {
        match self {
            Condition::HasId(s) => s.contains(&id),
        }
    }
}

impl Filter {
    /// A filter with one `must_not` condition.
    pub fn new_must_not(c: Condition) -> (r: Filter)
        ensures
            r.must@.len() == 0,
            r.must_not@ == seq![c],
    {
        let mut must_not: Vec<Condition> = Vec::new();
        must_not.push(c);
        Filter { must: Vec::new(), must_not }
    }

    /// Whether the filter lets `id` through.
    pub fn check(&self, id: u64) -> (r: bool)
        ensures
            r == filter_holds(*self, id),
    {
        let mut i: usize = 0;
        while i < self.must.len()
            invariant
                0 <= i <= self.must@.len(),
                forall|j: int| 0 <= j < i ==> condition_holds(#[trigger] self.must@[j], id),
            decreases self.must@.len() - i,
        {
            if !self.must[i].check(id) {
                return false;
            }
            i = i + 1;
        }
        let mut k: usize = 0;
        while k < self.must_not.len()
            invariant
                0 <= k <= self.must_not@.len(),
                forall|j: int| 0 <= j < self.must@.len() ==> condition_holds(#[trigger] self.must@[j], id),
                forall|j: int| 0 <= j < k ==> !condition_holds(#[trigger] self.must_not@[j], id),
            decreases self.must_not@.len() - k,
        {
            if self.must_not[k].check(id) {
                return false;
            }
            k = k + 1;
        }
        true
    }
}

/// Whether an optional filter lets `id` through and `id` is not excluded.
pub open spec fn passes(f: Option<&Filter>, excluded: Set<u64>, id: u64) -> bool {
    allows(f, id) && !excluded.contains(id)
}

/// Whether an optional filter lets `id` through.
pub fn filter_allows(f: Option<&Filter>, id: u64) -> (r: bool)
    ensures
        r == allows(f, id),
{
    match f {
        None => true,
        Some(f) => f.check(id),
    }
}

/// A stored point.
pub struct PointRecord {
    pub vector: Vec<u32>,
    pub payload: Payload,
}

pub open spec fn record_state(r: PointRecord) -> PointState {
    (r.vector@, r.payload@)
}

/// The state after an upsert of `vector` at `id`: the vector is replaced and
/// the payload kept (a new point starts with an empty payload).
pub open spec fn upserted(s: Map<u64, PointState>, id: u64, vector: Seq<u32>) -> Map<u64, PointState> {
    s.insert(
        id,
        (vector, if s.contains_key(id) { s[id].1 } else { Map::<Seq<char>, PayloadType>::empty() }),
    )
}

/// The state after the payload of an existing point `id` is replaced by `p`.
pub open spec fn with_payload(
    s: Map<u64, PointState>,
    id: u64,
    p: Map<Seq<char>, PayloadType>,
) -> Map<u64, PointState> {
    s.insert(id, (s[id].0, p))
}

/// An in-memory segment: the live points, keyed by id, and every id it has
/// ever stored, in the order of first storage.
pub struct Segment {
    pub points: HashMap<u64, PointRecord>,
    pub order: Vec<u64>,
    pub version: u64,
    pub indexed_fields: FieldSet,
    pub segment_type: SegmentType,
    pub appendable: bool,
    pub config: SegmentConfig,
}

impl Segment {
    pub open spec fn wf(&self) -> bool {
        &&& self.order@.no_duplicates()
        &&& forall|id: u64| #[trigger] self.points@.contains_key(id) ==> self.order@.contains(id)
    }

    /// The live points and what each holds.
    pub open spec fn state(&self) -> Map<u64, PointState> {
        self.points@.map_values(|r: PointRecord| record_state(r))
    }

    /// What a mutator leaves alone besides the points.
    pub open spec fn same_frame(&self, other: &Segment) -> bool {
        &&& self.indexed_fields@ == other.indexed_fields@
        &&& self.segment_type == other.segment_type
        &&& self.appendable == other.appendable
        &&& self.config == other.config
    }

    /// An empty segment at version 0.
    pub fn new(config: SegmentConfig, segment_type: SegmentType, appendable: bool) -> (r: Segment)
        ensures
            r.wf(),
            r.state() == Map::<u64, PointState>::empty(),
            r.version == 0,
            r.indexed_fields@ == Set::<Seq<char>>::empty(),
            r.segment_type == segment_type,
            r.appendable == appendable,
            r.config == config,
    {
        let r = Segment {
            points: HashMap::new(),
            order: Vec::new(),
            version: 0,
            indexed_fields: FieldSet::new(),
            segment_type,
            appendable,
            config,
        };
        assert(r.state() =~= Map::<u64, PointState>::empty());
        r
    }

    pub fn version(&self) -> (r: u64)
        ensures
            r == self.version,
    {
        self.version
    }

    pub fn segment_type(&self) -> (r: SegmentType)
        ensures
            r == self.segment_type,
    {
        self.segment_type
    }

    pub fn is_appendable(&self) -> (r: bool)
        ensures
            r == self.appendable,
    {
        self.appendable
    }

    pub fn config(&self) -> (r: SegmentConfig)
        ensures
            r == self.config,
    {
        self.config
    }

    /// Persists the segment and returns the highest stored sequence number.
    /// An in-memory segment holds everything it has seen.
    pub fn flush(&self) -> (r: u64)
        ensures
            r == self.version,
    {
        self.version
    }

    pub fn has_point(&self, id: u64) -> (r: bool)
        ensures
            r == self.state().contains_key(id),
    {
        self.points.contains_key(&id)
    }

    /// Whether `id` was ever stored here.
    fn order_contains(&self, id: u64) -> (r: bool)
        ensures
            r == self.order@.contains(id),
    {
        let mut i: usize = 0;
        while i < self.order.len()
            invariant
                0 <= i <= self.order@.len(),
                forall|j: int| 0 <= j < i ==> self.order@[j] != id,
            decreases self.order@.len() - i,
        {
            if self.order[i] == id {
                return true;
            }
            i = i + 1;
        }
        false
    }

    /// Stores a point as given, without a version check and without moving
    /// the version.
    pub fn put_point(&mut self, id: u64, vector: Vec<u32>, payload: Payload)
        requires
            old(self).wf(),
        ensures
            final(self).wf(),
            final(self).state() == old(self).state().insert(id, (vector@, payload@)),
            final(self).version == old(self).version,
            final(self).same_frame(old(self)),
    {
        if !self.order_contains(id) {
            let ghost before = self.order@;
            self.order.push(id);
            proof {
                assert(before.push(id)[before.len() as int] == id);
                assert forall|k: u64| self.points@.contains_key(k) implies self.order@.contains(k) by {
                    let j = choose|j: int| 0 <= j < before.len() && before[j] == k;
                    assert(self.order@[j] == k);
                }
            }
        }
        let ghost old_order = self.order@;
        let ghost old_state = self.state();
        self.points.insert(id, PointRecord { vector, payload });
        proof {
            assert forall|k: u64| self.points@.contains_key(k) implies self.order@.contains(k) by {
                if k != id {
                    assert(old(self).points@.contains_key(k));
                }
            }
            assert(self.state() =~= old_state.insert(id, (vector@, payload@)));
        }
    }

    /// Removes a point, without a version check; says whether it was there.
    fn take_point(&mut self, id: u64) -> (r: Option<PointRecord>)
        requires
            old(self).wf(),
        ensures
            final(self).wf(),
            final(self).state() == old(self).state().remove(id),
            r matches Some(rec) ==> old(self).state().contains_key(id) && old(self).state()[id]
                == record_state(rec),
            r is None ==> !old(self).state().contains_key(id),
            final(self).version == old(self).version,
            final(self).order == old(self).order,
            final(self).same_frame(old(self)),
    {
        let r = self.points.remove(&id);
        assert(self.state() =~= old(self).state().remove(id));
        r
    }

    pub fn upsert_point(&mut self, op_num: u64, id: u64, vector: &Vec<u32>) -> (r: Result<bool, SegmentError>)
        requires
            old(self).wf(),
        ensures
            final(self).wf(),
            final(self).same_frame(old(self)),
            op_num <= old(self).version ==> r == Ok::<bool, SegmentError>(false) && *final(self) == *old(self),
            op_num > old(self).version && !old(self).appendable && !old(self).state().contains_key(id)
                ==> r == Err::<bool, SegmentError>(SegmentError::ServiceError) && *final(self) == *old(self),
            op_num > old(self).version && (old(self).appendable || old(self).state().contains_key(id)) ==> {
                &&& r == Ok::<bool, SegmentError>(true)
                &&& final(self).state() == upserted(old(self).state(), id, vector@)
                &&& final(self).version == op_num
            },
    {
        if op_num <= self.version {
            return Ok(false);
        }
        if !self.appendable && !self.has_point(id) {
            return Err(SegmentError::ServiceError);
        }
        let existing = self.take_point(id);
        let payload = match existing {
            Some(rec) => rec.payload,
            None => Payload::new(),
        };
        self.put_point(id, copy_vector(vector), payload);
        self.version = op_num;
        assert(self.state() =~= upserted(old(self).state(), id, vector@));
        Ok(true)
    }

    pub fn delete_point(&mut self, op_num: u64, id: u64) -> (r: Result<bool, SegmentError>)
        requires
            old(self).wf(),
        ensures
            final(self).wf(),
            final(self).same_frame(old(self)),
            op_num <= old(self).version ==> r == Ok::<bool, SegmentError>(false) && *final(self) == *old(self),
            op_num > old(self).version ==> {
                &&& r == Ok::<bool, SegmentError>(old(self).state().contains_key(id))
                &&& final(self).state() == old(self).state().remove(id)
                &&& final(self).version == op_num
            },
    {
        if op_num <= self.version {
            return Ok(false);
        }
        let existing = self.take_point(id);
        self.version = op_num;
        Ok(existing.is_some())
    }

    /// Replaces the payload of an existing point, after the version check.
    fn replace_payload(&mut self, op_num: u64, id: u64, payload: Payload) -> (r: Result<bool, SegmentError>)
        requires
            old(self).wf(),
            op_num > old(self).version,
        ensures
            final(self).wf(),
            final(self).same_frame(old(self)),
            !old(self).state().contains_key(id) ==> r == Err::<bool, SegmentError>(
                SegmentError::PointIdError(id),
            ) && *final(self) == *old(self),
            old(self).state().contains_key(id) ==> {
                &&& r == Ok::<bool, SegmentError>(true)
                &&& final(self).state() == with_payload(old(self).state(), id, payload@)
                &&& final(self).version == op_num
            },
    {
        if !self.has_point(id) {
            return Err(SegmentError::PointIdError(id));
        }
        let existing = self.take_point(id);
        match existing {
            Some(rec) => {
                self.put_point(id, rec.vector, payload);
                self.version = op_num;
                assert(self.state() =~= with_payload(old(self).state(), id, payload@));
                Ok(true)
            },
            None => Err(SegmentError::PointIdError(id)),
        }
    }

    /// The payload of `id`, for a mutator that changes it.
    fn payload_of(&self, id: u64) -> (r: Option<Payload>)
        ensures
            r matches Some(p) ==> self.state().contains_key(id) && p@ == self.state()[id].1,
            r is None ==> !self.state().contains_key(id),
    {
        match self.points.get(&id) {
            Some(rec) => Some(rec.payload.duplicate()),
            None => None,
        }
    }

    pub fn set_full_payload(&mut self, op_num: u64, id: u64, payload: Payload) -> (r: Result<bool, SegmentError>)
        requires
            old(self).wf(),
        ensures
            final(self).wf(),
            final(self).same_frame(old(self)),
            op_num <= old(self).version ==> r == Ok::<bool, SegmentError>(false) && *final(self) == *old(self),
            op_num > old(self).version && !old(self).state().contains_key(id) ==> r == Err::<bool, SegmentError>(
                SegmentError::PointIdError(id),
            ) && *final(self) == *old(self),
            op_num > old(self).version && old(self).state().contains_key(id) ==> {
                &&& r == Ok::<bool, SegmentError>(true)
                &&& final(self).state() == with_payload(old(self).state(), id, payload@)
                &&& final(self).version == op_num
            },
    {
        if op_num <= self.version {
            return Ok(false);
        }
        self.replace_payload(op_num, id, payload)
    }

    pub fn set_payload(&mut self, op_num: u64, id: u64, key: &String, value: PayloadType) -> (r: Result<bool, SegmentError>)
        requires
            old(self).wf(),
        ensures
            final(self).wf(),
            final(self).same_frame(old(self)),
            op_num <= old(self).version ==> r == Ok::<bool, SegmentError>(false) && *final(self) == *old(self),
            op_num > old(self).version && !old(self).state().contains_key(id) ==> r == Err::<bool, SegmentError>(
                SegmentError::PointIdError(id),
            ) && *final(self) == *old(self),
            op_num > old(self).version && old(self).state().contains_key(id) ==> {
                &&& r == Ok::<bool, SegmentError>(true)
                &&& final(self).state() == with_payload(
                    old(self).state(),
                    id,
                    old(self).state()[id].1.insert(key@, value),
                )
                &&& final(self).version == op_num
            },
    {
        if op_num <= self.version {
            return Ok(false);
        }
        match self.payload_of(id) {
            Some(mut p) => {
                p.set(key, value);
                self.replace_payload(op_num, id, p)
            },
            None => Err(SegmentError::PointIdError(id)),
        }
    }

    pub fn delete_payload(&mut self, op_num: u64, id: u64, key: &String) -> (r: Result<bool, SegmentError>)
        requires
            old(self).wf(),
        ensures
            final(self).wf(),
            final(self).same_frame(old(self)),
            op_num <= old(self).version ==> r == Ok::<bool, SegmentError>(false) && *final(self) == *old(self),
            op_num > old(self).version && !old(self).state().contains_key(id) ==> r == Err::<bool, SegmentError>(
                SegmentError::PointIdError(id),
            ) && *final(self) == *old(self),
            op_num > old(self).version && old(self).state().contains_key(id) ==> {
                &&& r == Ok::<bool, SegmentError>(true)
                &&& final(self).state() == with_payload(
                    old(self).state(),
                    id,
                    old(self).state()[id].1.remove(key@),
                )
                &&& final(self).version == op_num
            },
    {
        if op_num <= self.version {
            return Ok(false);
        }
        match self.payload_of(id) {
            Some(mut p) => {
                p.remove(key);
                self.replace_payload(op_num, id, p)
            },
            None => Err(SegmentError::PointIdError(id)),
        }
    }

    pub fn clear_payload(&mut self, op_num: u64, id: u64) -> (r: Result<bool, SegmentError>)
        requires
            old(self).wf(),
        ensures
            final(self).wf(),
            final(self).same_frame(old(self)),
            op_num <= old(self).version ==> r == Ok::<bool, SegmentError>(false) && *final(self) == *old(self),
            op_num > old(self).version && !old(self).state().contains_key(id) ==> r == Err::<bool, SegmentError>(
                SegmentError::PointIdError(id),
            ) && *final(self) == *old(self),
            op_num > old(self).version && old(self).state().contains_key(id) ==> {
                &&& r == Ok::<bool, SegmentError>(true)
                &&& final(self).state() == with_payload(
                    old(self).state(),
                    id,
                    Map::<Seq<char>, PayloadType>::empty(),
                )
                &&& final(self).version == op_num
            },
    {
        if op_num <= self.version {
            return Ok(false);
        }
        self.replace_payload(op_num, id, Payload::new())
    }


    pub fn create_field_index(&mut self, op_num: u64, key: &String) -> (r: Result<bool, SegmentError>)
        requires
            old(self).wf(),
        ensures
            final(self).wf(),
            final(self).segment_type == old(self).segment_type,
            final(self).appendable == old(self).appendable,
            final(self).config == old(self).config,
            op_num <= old(self).version ==> r == Ok::<bool, SegmentError>(false) && *final(self) == *old(self),
            op_num > old(self).version ==> {
                &&& r == Ok::<bool, SegmentError>(true)
                &&& final(self).indexed_fields@ == old(self).indexed_fields@.insert(key@)
                &&& final(self).state() == old(self).state()
                &&& final(self).version == op_num
            },
    {
        if op_num <= self.version {
            return Ok(false);
        }
        self.indexed_fields.insert(key);
        self.version = op_num;
        Ok(true)
    }

    pub fn delete_field_index(&mut self, op_num: u64, key: &String) -> (r: Result<bool, SegmentError>)
        requires
            old(self).wf(),
        ensures
            final(self).wf(),
            final(self).segment_type == old(self).segment_type,
            final(self).appendable == old(self).appendable,
            final(self).config == old(self).config,
            op_num <= old(self).version ==> r == Ok::<bool, SegmentError>(false) && *final(self) == *old(self),
            op_num > old(self).version ==> {
                &&& r == Ok::<bool, SegmentError>(true)
                &&& final(self).indexed_fields@ == old(self).indexed_fields@.remove(key@)
                &&& final(self).state() == old(self).state()
                &&& final(self).version == op_num
            },
    {
        if op_num <= self.version {
            return Ok(false);
        }
        self.indexed_fields.remove(key);
        self.version = op_num;
        Ok(true)
    }

    /// The fields that carry a payload index.
    pub fn get_indexed_fields(&self) -> (r: FieldSet)
        ensures
            r@ == self.indexed_fields@,
    {
        self.indexed_fields.duplicate()
    }

    pub fn vector(&self, id: u64) -> (r: Result<Vec<u32>, SegmentError>)
        ensures
            self.state().contains_key(id) ==> (r matches Ok(v) && v@ == self.state()[id].0),
            !self.state().contains_key(id) ==> r == Err::<Vec<u32>, SegmentError>(SegmentError::PointIdError(id)),
    {
        match self.points.get(&id) {
            Some(rec) => Ok(copy_vector(&rec.vector)),
            None => Err(SegmentError::PointIdError(id)),
        }
    }

    pub fn payload(&self, id: u64) -> (r: Result<Payload, SegmentError>)
        ensures
            self.state().contains_key(id) ==> (r matches Ok(p) && p@ == self.state()[id].1),
            !self.state().contains_key(id) ==> r == Err::<Payload, SegmentError>(SegmentError::PointIdError(id)),
    {
        match self.points.get(&id) {
            Some(rec) => Ok(rec.payload.duplicate()),
            None => Err(SegmentError::PointIdError(id)),
        }
    }

    /// The number of live points.
    pub fn vectors_count(&self) -> (r: usize)
        ensures
            r == self.state().dom().len(),
    {
        assert(self.state().dom() =~= self.points@.dom());
        self.points.len()
    }

    proof fn lemma_live_within_order(&self)
        requires
            self.wf(),
        ensures
            self.points@.dom().len() <= self.order@.len(),
    {
        self.order@.unique_seq_to_set();
        assert(self.points@.dom().subset_of(self.order@.to_set()));
        vstd::set_lib::lemma_len_subset(self.points@.dom(), self.order@.to_set());
    }

    /// The number of ids once stored here whose point has since been deleted.
    pub fn deleted_count(&self) -> (r: usize)
        requires
            self.wf(),
        ensures
            r == self.order@.len() - self.state().dom().len(),
    {
        proof {
            self.lemma_live_within_order();
        }
        let live = self.vectors_count();
        assert(self.state().dom() =~= self.points@.dom());
        self.order.len() - live
    }

    pub fn info(&self) -> (r: SegmentInfo)
        requires
            self.wf(),
        ensures
            r.segment_type == self.segment_type,
            r.num_vectors == self.state().dom().len(),
            r.num_deleted_vectors == self.order@.len() - self.state().dom().len(),
            r.ram_usage_bytes == capped(4 * self.config.vector_size * self.state().dom().len()),
            r.disk_usage_bytes == 0,
            r.is_appendable == self.appendable,
            r.schema@ == self.indexed_fields@,
    {
        let num_vectors = self.vectors_count();
        SegmentInfo {
            segment_type: self.segment_type,
            num_vectors,
            num_deleted_vectors: self.deleted_count(),
            ram_usage_bytes: vector_bytes(self.config.vector_size, num_vectors),
            disk_usage_bytes: 0,
            is_appendable: self.appendable,
            schema: self.get_indexed_fields(),
        }
    }

    /// Up to `top` live points that the filter lets through, each once, in the
    /// order in which they were first stored. Fewer than `top` means all of them.
    /// The cut at `top` follows storage order, not score: a caller that ranks
    /// the candidates by score passes a `top` above the number of points.
    pub fn search(&self, filter: Option<&Filter>, top: usize) -> (r: Vec<u64>)
        requires
            self.wf(),
        ensures
            r@.no_duplicates(),
            r@.len() <= top,
            forall|i: int| 0 <= i < r@.len() ==> self.state().contains_key(#[trigger] r@[i]) && allows(filter, r@[i]),
            r@.len() < top ==> forall|id: u64| self.state().contains_key(id) && allows(filter, id) ==> r@.contains(id),
    {
        let none: HashSet<u64> = HashSet::new();
        self.search_excluding(filter, &none, top)
    }

    /// Up to `top` live points that the filter lets through and that are not
    /// in `excluded`, each once, in the
    /// order in which they were first stored. Fewer than `top` means all of them.
    /// The cut at `top` follows storage order, not score: a caller that ranks
    /// the candidates by score passes a `top` above the number of points.
    pub fn search_excluding(&self, filter: Option<&Filter>, excluded: &HashSet<u64>, top: usize) -> (r: Vec<u64>)
        requires
            self.wf(),
        ensures
            r@.no_duplicates(),
            r@.len() <= top,
            forall|i: int| 0 <= i < r@.len() ==> self.state().contains_key(#[trigger] r@[i]) && passes(filter, excluded@, r@[i]),
            r@.len() < top ==> forall|id: u64| self.state().contains_key(id) && passes(filter, excluded@, id) ==> r@.contains(id),
    {
        let mut out: Vec<u64> = Vec::new();
        let ghost mut pos: Seq<int> = Seq::empty();
        let mut i: usize = 0;
        while i < self.order.len() && out.len() < top
            invariant
                self.wf(),
                0 <= i <= self.order@.len(),
                out@.len() <= top,
                pos.len() == out@.len(),
                forall|j: int| 0 <= j < pos.len() ==> 0 <= #[trigger] pos[j] < i && self.order@[pos[j]] == out@[j],
                forall|j: int, k: int| 0 <= j < k < pos.len() ==> pos[j] < pos[k],
                forall|j: int| 0 <= j < out@.len() ==> self.points@.contains_key(#[trigger] out@[j]) && passes(filter, excluded@, out@[j]),
                out@.len() < top ==> forall|k: int| 0 <= k < i && self.points@.contains_key(#[trigger] self.order@[k])
                    && passes(filter, excluded@, self.order@[k]) ==> out@.contains(self.order@[k]),
            decreases self.order@.len() - i,
        {
            let id = self.order[i];
            if self.points.contains_key(&id) && filter_allows(filter, id) && !excluded.contains(&id) {
                let ghost before = out@;
                out.push(id);
                proof {
                    pos = pos.push(i as int);
                    assert(out@[before.len() as int] == id);
                    assert forall|k: int| 0 <= k < i + 1 && self.points@.contains_key(#[trigger] self.order@[k])
                        && passes(filter, excluded@, self.order@[k]) && out@.len() < top implies out@.contains(self.order@[k]) by {
                        if k < i {
                            let j = choose|j: int| 0 <= j < before.len() && before[j] == self.order@[k];
                            assert(out@[j] == self.order@[k]);
                        }
                    }
                }
            }
            i = i + 1;
        }
        proof {
            assert forall|a: int, b: int| 0 <= a < out@.len() && 0 <= b < out@.len() && a != b implies out@[a] != out@[b] by {
                if a < b {
                    assert(pos[a] < pos[b]);
                } else {
                    assert(pos[b] < pos[a]);
                }
            }
            if out@.len() < top {
                assert forall|id: u64| self.state().contains_key(id) && passes(filter, excluded@, id) implies out@.contains(id) by {
                    assert(self.points@.contains_key(id));
                    assert(self.order@.contains(id));
                    let k = choose|k: int| 0 <= k < self.order@.len() && self.order@[k] == id;
                    assert(self.points@.contains_key(self.order@[k]));
                }
            }
        }
        out
    }

    /// The ids of all live points, each once, in the order in which they were
    /// first stored.
    pub fn iter_points(&self) -> (r: Vec<u64>)
        requires
            self.wf(),
        ensures
            r@.no_duplicates(),
            forall|id: u64| r@.contains(id) <==> self.state().contains_key(id),
    {
        let mut out: Vec<u64> = Vec::new();
        let ghost mut pos: Seq<int> = Seq::empty();
        let mut i: usize = 0;
        while i < self.order.len()
            invariant
                self.wf(),
                0 <= i <= self.order@.len(),
                pos.len() == out@.len(),
                forall|j: int| 0 <= j < pos.len() ==> 0 <= #[trigger] pos[j] < i && self.order@[pos[j]] == out@[j],
                forall|j: int, k: int| 0 <= j < k < pos.len() ==> pos[j] < pos[k],
                forall|j: int| 0 <= j < out@.len() ==> self.points@.contains_key(#[trigger] out@[j]),
                forall|k: int| 0 <= k < i && self.points@.contains_key(#[trigger] self.order@[k])
                    ==> out@.contains(self.order@[k]),
            decreases self.order@.len() - i,
        {
            let id = self.order[i];
            if self.points.contains_key(&id) {
                let ghost before = out@;
                out.push(id);
                proof {
                    pos = pos.push(i as int);
                    assert(out@[before.len() as int] == id);
                    assert forall|k: int| 0 <= k < i + 1 && self.points@.contains_key(#[trigger] self.order@[k])
                        implies out@.contains(self.order@[k]) by {
                        if k < i {
                            let j = choose|j: int| 0 <= j < before.len() && before[j] == self.order@[k];
                            assert(out@[j] == self.order@[k]);
                        }
                    }
                }
            }
            i = i + 1;
        }
        proof {
            assert forall|a: int, b: int| 0 <= a < out@.len() && 0 <= b < out@.len() && a != b implies out@[a] != out@[b] by {
                if a < b {
                    assert(pos[a] < pos[b]);
                } else {
                    assert(pos[b] < pos[a]);
                }
            }
            assert forall|id: u64| out@.contains(id) <==> self.state().contains_key(id) by {
                if out@.contains(id) {
                    let j = choose|j: int| 0 <= j < out@.len() && out@[j] == id;
                }
                if self.state().contains_key(id) {
                    assert(self.points@.contains_key(id));
                    assert(self.order@.contains(id));
                    let k = choose|k: int| 0 <= k < self.order@.len() && self.order@[k] == id;
                    assert(self.points@.contains_key(self.order@[k]));
                }
            }
        }
        out
    }

} // impl Segment

} // verus!
