use vstd::prelude::*;

verus! {

/// The set of keys that a list of strings holds.
pub open spec fn keys_set(s: Seq<String>) -> Set<Seq<char>>
    decreases s.len(),
{
    if s.len() == 0 {
        Set::empty()
    } else {
        keys_set(s.drop_last()).insert(s.last()@)
    }
}

/// A set of payload keys, such as the fields that carry an index.
pub struct FieldSet {
    pub keys: Vec<String>,
}

impl View for FieldSet {
    type V = Set<Seq<char>>;

    open spec fn view(&self) -> Set<Seq<char>> {
        keys_set(self.keys@)
    }
}

pub proof fn lemma_keys_prefix_step(s: Seq<String>, i: int)
    requires
        0 <= i < s.len(),
    ensures
        keys_set(s.subrange(0, i + 1)) == keys_set(s.subrange(0, i)).insert(s[i]@),
{
    assert(s.subrange(0, i + 1).drop_last() =~= s.subrange(0, i));
}

/// A key is in the set view exactly when some entry of the list spells it.
pub proof fn lemma_keys_set_contains(s: Seq<String>, k: Seq<char>)
    ensures
        keys_set(s).contains(k) <==> exists|i: int| 0 <= i < s.len() && (#[trigger] s[i])@ == k,
    decreases s.len(),
{
    if s.len() > 0 {
        lemma_keys_set_contains(s.drop_last(), k);
        if exists|i: int| 0 <= i < s.drop_last().len() && (#[trigger] s.drop_last()[i])@ == k {
            let i = choose|i: int| 0 <= i < s.drop_last().len() && (#[trigger] s.drop_last()[i])@ == k;
            assert(s[i]@ == k);
        }
        if exists|i: int| 0 <= i < s.len() && (#[trigger] s[i])@ == k {
            let i = choose|i: int| 0 <= i < s.len() && (#[trigger] s[i])@ == k;
            if i < s.len() - 1 {
                assert(s.drop_last()[i]@ == k);
            }
        }
    }
}

impl FieldSet {
    /// No key is listed twice.
    pub open spec fn wf(&self) -> bool {
        forall|i: int, j: int| 0 <= i < self.keys@.len() && 0 <= j < self.keys@.len() && i != j
            ==> (#[trigger] self.keys@[i])@ != (#[trigger] self.keys@[j])@
    }

    /// The empty set.
    pub fn new() -> (r: FieldSet)
        ensures
            r@ == Set::<Seq<char>>::empty(),
            r.wf(),
    {
        FieldSet { keys: Vec::new() }
    }

    /// Whether `key` is in the set.
    pub fn contains(&self, key: &String) -> (r: bool)
        ensures
            r == self@.contains(key@),
    {
        let mut found = false;
        let mut i: usize = 0;
        while i < self.keys.len()
            invariant
                0 <= i <= self.keys@.len(),
                found == keys_set(self.keys@.subrange(0, i as int)).contains(key@),
            decreases self.keys@.len() - i,
        {
            proof {
                lemma_keys_prefix_step(self.keys@, i as int);
            }
            if self.keys[i] == *key {
                found = true;
            }
            i = i + 1;
        }
        assert(self.keys@.subrange(0, self.keys@.len() as int) =~= self.keys@);
        found
    }

    /// Adds `key` to the set.
    pub fn insert(&mut self, key: &String)
        ensures
            final(self)@ == old(self)@.insert(key@),
            old(self).wf() ==> final(self).wf(),
    {
        if !self.contains(key) {
            let ghost before = self.keys@;
            self.keys.push(key.clone());
            assert(self.keys@.drop_last() =~= before);
            proof {
                lemma_keys_set_contains(before, key@);
                if old(self).wf() {
                    assert forall|i: int, j: int| 0 <= i < self.keys@.len() && 0 <= j < self.keys@.len() && i != j
                        implies (#[trigger] self.keys@[i])@ != (#[trigger] self.keys@[j])@ by {
                        if i == before.len() {
                            assert(before[j] == self.keys@[j]);
                        } else if j == before.len() {
                            assert(before[i] == self.keys@[i]);
                        } else {
                            assert(before[i] == self.keys@[i] && before[j] == self.keys@[j]);
                        }
                    }
                }
            }
        } else {
            assert(self@ =~= old(self)@.insert(key@));
        }
    }

    /// Removes `key` from the set.
    pub fn remove(&mut self, key: &String)
        ensures
            final(self)@ == old(self)@.remove(key@),
    {
        let mut kept: Vec<String> = Vec::new();
        let mut i: usize = 0;
        while i < self.keys.len()
            invariant
                0 <= i <= self.keys@.len(),
                keys_set(kept@) =~= keys_set(self.keys@.subrange(0, i as int)).remove(key@),
            decreases self.keys@.len() - i,
        {
            proof {
                lemma_keys_prefix_step(self.keys@, i as int);
            }
            if self.keys[i] != *key {
                let ghost before = kept@;
                kept.push(self.keys[i].clone());
                assert(kept@.drop_last() =~= before);
            }
            i = i + 1;
        }
        assert(self.keys@.subrange(0, self.keys@.len() as int) =~= self.keys@);
        self.keys = kept;
    }

    /// An equal copy of the set.
    pub fn duplicate(&self) -> (r: FieldSet)
        ensures
            r@ == self@,
    {
        let mut keys: Vec<String> = Vec::new();
        let mut i: usize = 0;
        while i < self.keys.len()
            invariant
                0 <= i <= self.keys@.len(),
                keys@ =~= self.keys@.subrange(0, i as int),
            decreases self.keys@.len() - i,
        {
            keys.push(self.keys[i].clone());
            i = i + 1;
        }
        assert(self.keys@.subrange(0, self.keys@.len() as int) =~= self.keys@);
        FieldSet { keys }
    }
}

} // verus!
