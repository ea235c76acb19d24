//! Counting distinct values, exactly up to a cap.
use std::collections::HashSet;

use vstd::hash_set::StringHashSet;
use vstd::prelude::*;

use crate::text::{dec, dec_usize};

verus! {

broadcast use {vstd::std_specs::hash::group_hash_axioms, vstd::hash_set::group_hash_set_axioms};

/// Maximum number of distinct values tracked per column. Beyond it tracking stops
/// and the count is reported as a marker.
pub const DISTINCT_CAP: usize = 10_000;

/// A value as it is told apart from others.
#[derive(Debug)]
pub enum DistinctKey {
    Int(i64),
    UInt(u64),
    /// Float bits, with all NaNs and both zeros made one.
    Float(u64),
    Str(String),
    Bool(bool),
}

/// The model of a key.
pub enum KeyModel {
    Int(i64),
    UInt(u64),
    Float(u64),
    Str(Seq<char>),
    Bool(bool),
}

impl View for DistinctKey {
    type V = KeyModel;

    open spec fn view(&self) -> KeyModel {
        match self {
            DistinctKey::Int(v) => KeyModel::Int(*v),
            DistinctKey::UInt(v) => KeyModel::UInt(*v),
            DistinctKey::Float(v) => KeyModel::Float(*v),
            DistinctKey::Str(s) => KeyModel::Str(s@),
            DistinctKey::Bool(b) => KeyModel::Bool(*b),
        }
    }
}

/// The distinct keys, each kind in a set of its own.
pub struct KeySet {
    ints: HashSet<i64>,
    uints: HashSet<u64>,
    floats: HashSet<u64>,
    texts: StringHashSet,
    bools: HashSet<bool>,
    len: usize,
}

impl View for KeySet {
    type V = Set<KeyModel>;

    closed spec fn view(&self) -> Set<KeyModel> {
        Set::new(
            |k: KeyModel|
                match k {
                    KeyModel::Int(v) => self.ints@.contains(v),
                    KeyModel::UInt(v) => self.uints@.contains(v),
                    KeyModel::Float(v) => self.floats@.contains(v),
                    KeyModel::Str(s) => self.texts@.contains(s),
                    KeyModel::Bool(b) => self.bools@.contains(b),
                },
        )
    }
}

impl KeySet {
    /// The keys are counted.
    pub closed spec fn wf(&self) -> bool {
        self@.finite() && self.len == self@.len()
    }

    pub fn new() -> (r: Self)
        ensures
            r.wf(),
            r@ == Set::<KeyModel>::empty(),
    {
        let r = KeySet {
            ints: HashSet::new(),
            uints: HashSet::new(),
            floats: HashSet::new(),
            texts: StringHashSet::new(),
            bools: HashSet::new(),
            len: 0,
        };
        proof {
            assert(r@ =~= Set::<KeyModel>::empty());
        }
        r
    }

    pub fn is_empty(&self) -> (r: bool)
        requires
            self.wf(),
        ensures
            r == (self@ == Set::<KeyModel>::empty()),
    {
        proof {
            if self.len == 0 {
                self@.lemma_len0_is_empty();
            }
        }
        self.len == 0
    }

    pub fn len(&self) -> (r: usize)
        requires
            self.wf(),
        ensures
            r == self@.len(),
            self@.finite(),
    {
        self.len
    }

    pub fn insert(&mut self, key: DistinctKey)
        requires
            old(self).wf(),
            old(self)@.len() < usize::MAX,
        ensures
            final(self).wf(),
            final(self)@ == old(self)@.insert(key@),
    {
        let ghost before = self@;
        let ghost model = key@;
        let new = match key {
            DistinctKey::Int(v) => self.ints.insert(v),
            DistinctKey::UInt(v) => self.uints.insert(v),
            DistinctKey::Float(v) => self.floats.insert(v),
            DistinctKey::Str(s) => self.texts.insert(s),
            DistinctKey::Bool(b) => self.bools.insert(b),
        };
        proof {
            assert(self@ =~= before.insert(model));
            assert(new == !before.contains(model));
        }
        if new {
            self.len = self.len + 1;
        } else {
            proof {
                assert(before.insert(model) =~= before);
            }
        }
        proof {
            assert(self@ =~= before.insert(model));
        }
    }
}

/// A distinct-value counter. Once more than [`DISTINCT_CAP`] values have been seen,
/// tracking stops and the set is dropped, so that memory stays bounded.
pub struct Distinct {
    set: KeySet,
    capped: bool,
    seen: Ghost<Set<KeyModel>>,
}

impl View for Distinct {
    type V = Set<KeyModel>;

    /// All keys that were added.
    closed spec fn view(&self) -> Set<KeyModel> {
        self.seen@
    }
}

/// How a number of distinct values is reported.
pub open spec fn distinct_text(n: nat) -> Seq<char> {
    if n > DISTINCT_CAP {
        ">"@ + dec(DISTINCT_CAP as nat)
    } else {
        dec(n)
    }
}

impl Distinct {
    /// Tracking goes on exactly while the cap holds the keys, and what is tracked is
    /// then what was added.
    pub closed spec fn wf(&self) -> bool {
        &&& self.set.wf()
        &&& self.seen@.finite()
        &&& self.capped == (self.seen@.len() > DISTINCT_CAP)
        &&& !self.capped ==> self.set@ == self.seen@
        &&& self.capped ==> self.set@ == Set::<KeyModel>::empty()
    }

    /// The keys that are held.
    pub closed spec fn held(&self) -> Set<KeyModel> {
        self.set@
    }

    /// The set of tracked keys.
    pub fn set(&self) -> (r: &KeySet)
        requires
            self.wf(),
        ensures
            r.wf(),
            r@ == self.held(),
    {
        &self.set
    }

    pub fn add(&mut self, key: DistinctKey)
        requires
            old(self).wf(),
        ensures
            final(self).wf(),
            final(self)@ == old(self)@.insert(key@),
    {
        let ghost model = key@;
        let ghost before = self.seen@;
        proof {
            assert(before.contains(model) ==> before.insert(model) =~= before);
        }
        self.seen = Ghost(self.seen@.insert(model));
        if self.capped {
            return ;
        }
        self.set.insert(key);
        if self.set.len() > DISTINCT_CAP {
            self.capped = true;
            self.set = KeySet::new();
        }
    }

    /// The number of distinct keys, or the marker that it exceeds the cap.
    pub fn finish(&self) -> (r: String)
        requires
            self.wf(),
        ensures
            r@ == distinct_text(self@.len()),
    {
        if self.capped {
            let mut s = ">".to_owned();
            s.append(dec_usize(DISTINCT_CAP).as_str());
            s
        } else {
            dec_usize(self.set.len())
        }
    }

    /// However many keys were added, no more than the cap are held, and none beyond
    /// it.
    pub proof fn law_memory_is_bounded(&self)
        requires
            self.wf(),
        ensures
            self.held().len() <= DISTINCT_CAP,
            self@.len() > DISTINCT_CAP ==> self.held() == Set::<KeyModel>::empty(),
            self@.len() <= DISTINCT_CAP ==> self.held() == self@,
    {
    }
}

impl Default for Distinct {
    fn default() -> (r: Self)
        ensures
            r.wf(),
            r@ == Set::<KeyModel>::empty(),
    {
        Distinct { set: KeySet::new(), capped: false, seen: Ghost(Set::empty()) }
    }
}

} // verus!
