//! A resource: the property-value pairs of one subject.

use crate::assoc::{distinct_keys, has_key, lemma_position_unique, lemma_put, lookup, put, Pairs};
use vstd::prelude::*;

verus! {

/// The raw values of one subject, keyed by property URL.
pub struct Resource {
    entries: Vec<(String, String)>,
}

/// The pairs of `entries` as text.
pub open spec fn pairs_view(entries: Seq<(String, String)>) -> Pairs {
    Seq::new(entries.len(), |i: int| (entries[i].0@, entries[i].1@))
}

impl View for Resource {
    type V = Pairs;

    closed spec fn view(&self) -> Self::V {
        pairs_view(self.entries@)
    }
}

impl Resource {
    /// No property occurs twice.
    #[verifier::type_invariant]
    pub open spec fn inv(self) -> bool {
        distinct_keys(self@)
    }

    /// A resource without properties.
    pub fn new() -> (r: Self)
        ensures
            r@ == Pairs::empty(),
    {
        Resource { entries: Vec::new() }
    }

    /// The number of properties.
    pub fn len(&self) -> (n: usize)
        ensures
            n == self@.len(),
    {
        self.entries.len()
    }

    fn find(&self, property: &str) -> (r: Option<usize>)
        ensures
            match r {
                Some(i) => i < self@.len() && self@[i as int].0 == property@,
                None => !has_key(self@, property@),
            },
    {
        let mut i: usize = 0;
        while i < self.entries.len()
            invariant
                i <= self.entries.len(),
                forall|j: int| 0 <= j < i ==> (#[trigger] self@[j]).0 != property@,
            decreases self.entries.len() - i,
        {
            if self.entries[i].0.as_str().eq(property) {
                return Some(i);
            }
            i += 1;
        }
        None
    }

    /// The property at place `i`.
    pub fn property_at(&self, i: usize) -> (property: &String)
        requires
            i < self@.len(),
        ensures
            property@ == self@[i as int].0,
    {
        &self.entries[i].0
    }

    /// The value at place `i`.
    pub fn value_at(&self, i: usize) -> (value: &String)
        requires
            i < self@.len(),
        ensures
            value@ == self@[i as int].1,
    {
        &self.entries[i].1
    }

    /// Whether the resource has a value for `property`.
    pub fn contains_key(&self, property: &str) -> (r: bool)
        ensures
            r == has_key(self@, property@),
    {
        self.find(property).is_some()
    }

    /// The value of `property`, if the resource has one.
    pub fn get(&self, property: &str) -> (r: Option<&String>)
        ensures
            match r {
                Some(value) => lookup(self@, property@) == Some(value@),
                None => lookup(self@, property@) is None,
            },
    {
        proof {
            use_type_invariant(self);
        }
        match self.find(property) {
            Some(i) => {
                proof {
                    lemma_position_unique(self@, i as int);
                }
                Some(&self.entries[i].1)
            },
            None => None,
        }
    }

    /// Binds `property` to `value`, and returns the value it had before.
    /// Every other property keeps its value.
    pub fn insert(&mut self, property: String, value: String) -> (before: Option<String>)
        ensures
            final(self)@ == put(old(self)@, property@, value@),
            lookup(final(self)@, property@) == Some(value@),
            forall|other: Seq<char>|
                other != property@ ==> lookup(final(self)@, other) == lookup(old(self)@, other),
            match before {
                Some(v) => lookup(old(self)@, property@) == Some(v@),
                None => lookup(old(self)@, property@) is None,
            },
    {
        proof {
            use_type_invariant(&*self);
            lemma_put(self@, property@, value@);
        }
        match self.find(property.as_str()) {
            Some(i) => {
                proof {
                    lemma_position_unique(self@, i as int);
                }
                let mut entries: Vec<(String, String)> = Vec::new();
                std::mem::swap(&mut entries, &mut self.entries);
                let before = entries[i].1.clone();
                entries.set(i, (property, value));
                assert(pairs_view(entries@) =~= put(old(self)@, property@, value@));
                self.entries = entries;
                Some(before)
            },
            None => {
                let mut entries: Vec<(String, String)> = Vec::new();
                std::mem::swap(&mut entries, &mut self.entries);
                entries.push((property, value));
                assert(pairs_view(entries@) =~= put(old(self)@, property@, value@));
                self.entries = entries;
                None
            },
        }
    }
}

impl Clone for Resource {
    /// A resource with the same pairs in the same order.
    fn clone(&self) -> (r: Self)
        ensures
            r@ == self@,
    {
        proof {
            use_type_invariant(self);
        }
        let mut entries: Vec<(String, String)> = Vec::new();
        let mut i: usize = 0;
        while i < self.entries.len()
            invariant
                i <= self.entries.len(),
                pairs_view(entries@) == self@.take(i as int),
            decreases self.entries.len() - i,
        {
            let ghost before = pairs_view(entries@);
            let key = self.entries[i].0.clone();
            let value = self.entries[i].1.clone();
            entries.push((key, value));
            assert(pairs_view(entries@) =~= before.push(self@[i as int]));
            assert(self@.take(i + 1) =~= self@.take(i as int).push(self@[i as int]));
            i += 1;
        }
        assert(self@.take(self.entries.len() as int) =~= self@);
        Resource { entries }
    }
}

} // verus!
