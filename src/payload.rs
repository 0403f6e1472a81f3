use vstd::prelude::*;

verus! {

/// A value stored under a payload key. A floating-point value is held as the
/// bit pattern of its `f64`: the library stores it and never computes with it.
pub enum PayloadType {
    Keyword(String),
    Integer(i64),
    FloatBits(u64),
}

impl PayloadType {
    /// An equal copy of the value.
    pub fn duplicate(&self) -> (r: PayloadType)
        ensures
            r == *self,
    {
        match self {
            PayloadType::Keyword(s) => PayloadType::Keyword(s.clone()),
            PayloadType::Integer(i) => PayloadType::Integer(*i),
            PayloadType::FloatBits(b) => PayloadType::FloatBits(*b),
        }
    }
}

/// The map that a list of entries denotes: a later entry overrides an earlier
/// one with the same key.
pub open spec fn entries_map(s: Seq<(String, PayloadType)>) -> Map<Seq<char>, PayloadType>
    decreases s.len(),
{
    if s.len() == 0 {
        Map::empty()
    } else {
        entries_map(s.drop_last()).insert(s.last().0@, s.last().1)
    }
}

/// The payload of a point: a map from string keys to values.
pub struct Payload {
    pub entries: Vec<(String, PayloadType)>,
}

impl View for Payload {
    type V = Map<Seq<char>, PayloadType>;

    open spec fn view(&self) -> Map<Seq<char>, PayloadType> {
        entries_map(self.entries@)
    }
}

proof fn lemma_prefix_step(s: Seq<(String, PayloadType)>, i: int)
    requires
        0 <= i < s.len(),
    ensures
        entries_map(s.subrange(0, i + 1)) == entries_map(s.subrange(0, i)).insert(s[i].0@, s[i].1),
{
    assert(s.subrange(0, i + 1).drop_last() =~= s.subrange(0, i));
}

impl Payload {
    /// An empty payload.
    pub fn new() -> (r: Payload)
        ensures
            r@ == Map::<Seq<char>, PayloadType>::empty(),
    {
        Payload { entries: Vec::new() }
    }

    /// The value stored under `key`, if any.
    pub fn get(&self, key: &String) -> (r: Option<&PayloadType>)
        ensures
            r matches Some(v) ==> self@.contains_key(key@) && self@[key@] == *v,
            r is None ==> !self@.contains_key(key@),
    {
        let mut found: Option<&PayloadType> = None;
        let mut i: usize = 0;
        while i < self.entries.len()
            invariant
                0 <= i <= self.entries@.len(),
                found matches Some(v) ==> entries_map(self.entries@.subrange(0, i as int)).contains_key(key@)
                    && entries_map(self.entries@.subrange(0, i as int))[key@] == *v,
                found is None ==> !entries_map(self.entries@.subrange(0, i as int)).contains_key(key@),
            decreases self.entries@.len() - i,
        {
            proof {
                lemma_prefix_step(self.entries@, i as int);
            }
            if self.entries[i].0 == *key {
                found = Some(&self.entries[i].1);
            }
            i = i + 1;
        }
        assert(self.entries@.subrange(0, self.entries@.len() as int) =~= self.entries@);
        found
    }

    /// Removes `key` from the payload.
    pub fn remove(&mut self, key: &String)
        ensures
            final(self)@ == old(self)@.remove(key@),
    {
        let mut kept: Vec<(String, PayloadType)> = Vec::new();
        let mut i: usize = 0;
        while i < self.entries.len()
            invariant
                0 <= i <= self.entries@.len(),
                entries_map(kept@) =~= entries_map(self.entries@.subrange(0, i as int)).remove(key@),
            decreases self.entries@.len() - i,
        {
            proof {
                lemma_prefix_step(self.entries@, i as int);
            }
            if self.entries[i].0 != *key {
                let entry = (self.entries[i].0.clone(), self.entries[i].1.duplicate());
                let ghost before = kept@;
                kept.push(entry);
                assert(kept@.drop_last() =~= before);
            }
            i = i + 1;
        }
        assert(self.entries@.subrange(0, self.entries@.len() as int) =~= self.entries@);
        self.entries = kept;
    }

    /// Stores `value` under `key`, replacing what was there.
    pub fn set(&mut self, key: &String, value: PayloadType)
        ensures
            final(self)@ == old(self)@.insert(key@, value),
    {
        self.remove(key);
        let ghost before = self.entries@;
        self.entries.push((key.clone(), value));
        assert(self.entries@.drop_last() =~= before);
        assert(self@ =~= old(self)@.insert(key@, value));
    }

    /// An equal copy of the payload.
    pub fn duplicate(&self) -> (r: Payload)
        ensures
            r@ == self@,
    {
        let mut entries: Vec<(String, PayloadType)> = Vec::new();
        let mut i: usize = 0;
        while i < self.entries.len()
            invariant
                0 <= i <= self.entries@.len(),
                entries@ =~= self.entries@.subrange(0, i as int),
            decreases self.entries@.len() - i,
        {
            entries.push((self.entries[i].0.clone(), self.entries[i].1.duplicate()));
            i = i + 1;
        }
        assert(self.entries@.subrange(0, self.entries@.len() as int) =~= self.entries@);
        Payload { entries }
    }
}

} // verus!
