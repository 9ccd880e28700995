//! The store: resources keyed by subject, filled atom by atom.

use crate::assoc::{
    distinct_keys, has_key, lemma_position_unique, lemma_put, lookup, position, put, Resources,
};
use crate::errors::Error;
use crate::resource::Resource;
use crate::values::{Value, ValueView};
use vstd::hash_map::StringHashMap;
use vstd::prelude::*;

verus! {

/// One fact: `subject` has `value` for `property`.
#[derive(Debug, Clone, PartialEq, Eq)]
pub struct Atom {
    pub subject: String,
    pub property: String,
    pub value: String,
    /// The value decoded under the property's datatype, where that was done.
    pub native_value: Option<Value>,
}

/// [`Atom`] as a mathematical value.
pub ghost struct AtomView {
    pub subject: Seq<char>,
    pub property: Seq<char>,
    pub value: Seq<char>,
    pub native_value: Option<ValueView>,
}

impl View for Atom {
    type V = AtomView;

    open spec fn view(&self) -> AtomView {
        AtomView {
            subject: self.subject@,
            property: self.property@,
            value: self.value@,
            native_value: match self.native_value {
                Some(v) => Some(v@),
                None => None,
            },
        }
    }
}

impl Atom {
    /// An atom that has not been decoded.
    pub fn new(subject: String, property: String, value: String) -> (atom: Atom)
        ensures
            atom@ == (AtomView {
                subject: subject@,
                property: property@,
                value: value@,
                native_value: None,
            }),
    {
        Atom { subject, property, value, native_value: None }
    }
}

/// The in-memory store of data: at most one resource for each subject.
/// Resources are kept in the order in which their subjects came, and are
/// found by subject through an index.
pub struct Store {
    entries: Vec<(String, Resource)>,
    index: StringHashMap<usize>,
}

/// The resources of `entries`, by subject, as text.
pub open spec fn resources_view(entries: Seq<(String, Resource)>) -> Resources {
    Seq::new(entries.len(), |i: int| (entries[i].0@, entries[i].1@))
}

/// No subject occurs twice, and no property twice in a resource.
pub open spec fn store_wf(store: Resources) -> bool {
    &&& distinct_keys(store)
    &&& forall|i: int| 0 <= i < store.len() ==> distinct_keys(#[trigger] store[i].1)
}

/// `store` after the atom (`subject`, `property`, `value`): the value
/// replaces the one that the subject had for the property, or is added to the
/// subject's resource, or makes a resource for a subject that had none.
pub open spec fn with_atom(
    store: Resources,
    subject: Seq<char>,
    property: Seq<char>,
    value: Seq<char>,
) -> Resources {
    match lookup(store, subject) {
        Some(resource) => put(store, subject, put(resource, property, value)),
        None => put(store, subject, seq![(property, value)]),
    }
}

/// `store` after `atoms`, applied in order.
pub open spec fn with_atoms(store: Resources, atoms: Seq<AtomView>) -> Resources
    decreases atoms.len(),
{
    if atoms.len() == 0 {
        store
    } else {
        let last = atoms.last();
        with_atom(with_atoms(store, atoms.drop_last()), last.subject, last.property, last.value)
    }
}

/// The value that `subject` has for `property` in `store`.
pub open spec fn value_in(
    store: Resources,
    subject: Seq<char>,
    property: Seq<char>,
) -> Option<Seq<char>> {
    match lookup(store, subject) {
        Some(resource) => lookup(resource, property),
        None => None,
    }
}

/// An atom keeps a store well formed, can be read back, and leaves every
/// other value and subject as it was.
pub proof fn lemma_with_atom(
    store: Resources,
    subject: Seq<char>,
    property: Seq<char>,
    value: Seq<char>,
)
    requires
        store_wf(store),
    ensures
        store_wf(with_atom(store, subject, property, value)),
        value_in(with_atom(store, subject, property, value), subject, property) == Some(value),
        forall|s: Seq<char>, p: Seq<char>|
            (s != subject || p != property) ==> value_in(
                with_atom(store, subject, property, value),
                s,
                p,
            ) == value_in(store, s, p),
        forall|s: Seq<char>|
            has_key(with_atom(store, subject, property, value), s) <==> (s == subject || has_key(
                store,
                s,
            )),
{
    let after = with_atom(store, subject, property, value);
    match lookup(store, subject) {
        Some(resource) => {
            let p = position(store, subject);
            assert(0 <= p < store.len() && store[p].0 == subject);
            assert(distinct_keys(store[p].1));
            lemma_put(resource, property, value);
            lemma_put(store, subject, put(resource, property, value));
            assert forall|i: int| 0 <= i < after.len() implies distinct_keys(
                #[trigger] after[i].1,
            ) by {
                if i != p {
                    assert(after[i] == store[i]);
                }
            }
        },
        None => {
            let fresh = seq![(property, value)];
            lemma_put(store, subject, fresh);
            lemma_position_unique(fresh, 0);
            assert forall|other: Seq<char>| other != property implies lookup(fresh, other)
                is None by {
                if has_key(fresh, other) {
                    let k = position(fresh, other);
                    assert(fresh[k].0 == property);
                }
            }
            assert forall|i: int| 0 <= i < after.len() implies distinct_keys(
                #[trigger] after[i].1,
            ) by {
                if i < store.len() {
                    assert(after[i] == store[i]);
                }
            }
        },
    }
}

impl View for Store {
    type V = Resources;

    closed spec fn view(&self) -> Self::V {
        resources_view(self.entries@)
    }
}

/// `index` gives for each subject its place in `entries`, and for nothing else.
spec fn index_of(entries: Seq<(String, Resource)>, index: Map<Seq<char>, usize>) -> bool {
    &&& forall|i: int|
        0 <= i < entries.len() ==> index.contains_key(#[trigger] entries[i].0@) && index[entries[i].0@]
            == i
    &&& forall|key: Seq<char>| #[trigger]
        index.contains_key(key) ==> index[key] < entries.len() && entries[index[key] as int].0@
            == key
}

/// A subject without a resource is none of the listed subjects.
proof fn lemma_new_subject(entries: Seq<(String, Resource)>, subject: Seq<char>)
    requires
        !has_key(resources_view(entries), subject),
    ensures
        forall|k: int| 0 <= k < entries.len() ==> (#[trigger] entries[k]).0@ != subject,
{
    assert forall|k: int| 0 <= k < entries.len() implies (#[trigger] entries[k]).0@ != subject by {
        assert(resources_view(entries)[k].0 == entries[k].0@);
    }
}

impl Store {
    /// The index agrees with the resources.
    pub closed spec fn indexed(self) -> bool {
        index_of(self.entries@, self.index@)
    }

    /// The store is well formed, and its index agrees with it.
    #[verifier::type_invariant]
    pub open spec fn inv(self) -> bool {
        store_wf(self@) && self.indexed()
    }

    /// Create an empty Store. This is where you start.
    pub fn init() -> (store: Store)
        ensures
            store@ == Resources::empty(),
    {
        Store { entries: Vec::new(), index: StringHashMap::new() }
    }

    /// The number of resources.
    pub fn len(&self) -> (n: usize)
        ensures
            n == self@.len(),
    {
        self.entries.len()
    }

    /// The subject at place `i`.
    pub fn subject_at(&self, i: usize) -> (subject: &String)
        requires
            i < self@.len(),
        ensures
            subject@ == self@[i as int].0,
    {
        &self.entries[i].0
    }

    /// The resource at place `i`.
    pub fn resource_at(&self, i: usize) -> (resource: &Resource)
        requires
            i < self@.len(),
        ensures
            resource@ == self@[i as int].1,
    {
        &self.entries[i].1
    }

    fn find(&self, subject: &str) -> (r: Option<usize>)
        ensures
            match r {
                Some(i) => i < self@.len() && self@[i as int].0 == subject@,
                None => !has_key(self@, subject@),
            },
    {
        proof {
            use_type_invariant(self);
        }
        match self.index.get(subject) {
            Some(i) => Some(*i),
            None => {
                assert(!has_key(self@, subject@)) by {
                    if has_key(self@, subject@) {
                        let k = position(self@, subject@);
                        assert(self.entries@[k].0@ == subject@);
                    }
                }
                None
            },
        }
    }

    /// The resource of `subject`, if the store has one.
    pub fn resource_of(&self, subject: &str) -> (r: Option<&Resource>)
        ensures
            match r {
                Some(resource) => lookup(self@, subject@) == Some(resource@),
                None => lookup(self@, subject@) is None,
            },
    {
        proof {
            use_type_invariant(self);
        }
        match self.find(subject) {
            Some(i) => {
                proof {
                    lemma_position_unique(self@, i as int);
                }
                Some(&self.entries[i].1)
            },
            None => None,
        }
    }

    /// The resource of `resource_url`, if the store has one.
    pub fn get(&self, resource_url: &String) -> (r: Option<&Resource>)
        ensures
            match r {
                Some(resource) => lookup(self@, resource_url@) == Some(resource@),
                None => lookup(self@, resource_url@) is None,
            },
    {
        self.resource_of(resource_url.as_str())
    }

    /// Adds one atom: `subject` then has `value` for `property`, and nothing
    /// else has changed. See [`with_atom`] for where the value is put.
    pub fn add_atom(&mut self, subject: &str, property: &str, value: &str)
        ensures
            final(self)@ == with_atom(old(self)@, subject@, property@, value@),
            value_in(final(self)@, subject@, property@) == Some(value@),
            forall|s: Seq<char>, p: Seq<char>|
                (s != subject@ || p != property@) ==> value_in(final(self)@, s, p) == value_in(
                    old(self)@,
                    s,
                    p,
                ),
            forall|s: Seq<char>|
                has_key(final(self)@, s) <==> (s == subject@ || has_key(old(self)@, s)),
    {
        proof {
            use_type_invariant(&*self);
            lemma_with_atom(self@, subject@, property@, value@);
        }
        let found = self.find(subject);
        let ghost listed = self.entries@;
        let mut taken = Store::init();
        std::mem::swap(self, &mut taken);
        let Store { mut entries, mut index } = taken;
        assert(index_of(listed, index@));
        match found {
            Some(i) => {
                proof {
                    lemma_position_unique(old(self)@, i as int);
                }
                entries[i].1.insert(property.to_owned(), value.to_owned());
                assert(resources_view(entries@) =~= with_atom(
                    old(self)@,
                    subject@,
                    property@,
                    value@,
                ));
                assert forall|k: int| 0 <= k < entries@.len() implies (#[trigger] entries@[k]).0
                    == listed[k].0 by {}
            },
            None => {
                let mut resource = Resource::new();
                resource.insert(property.to_owned(), value.to_owned());
                assert(resource@ =~= seq![(property@, value@)]);
                proof {
                    lemma_new_subject(listed, subject@);
                }
                index.insert(subject.to_owned(), entries.len());
                entries.push((subject.to_owned(), resource));
                assert(resources_view(entries@) =~= with_atom(
                    old(self)@,
                    subject@,
                    property@,
                    value@,
                ));
                assert forall|k: int| 0 <= k < listed.len() implies (#[trigger] entries@[k])
                    == listed[k] by {}
            },
        }
        assert(index_of(entries@, index@));
        *self = Store { entries, index };
    }

    /// Add individual Atoms to the store.
    /// Will replace existing Atoms that share Subject / Property combination.
    pub fn add_atoms(&mut self, atoms: Vec<&Atom>) -> (r: Result<(), Error>)
        ensures
            r is Ok,
            final(self)@ == with_atoms(old(self)@, Seq::new(atoms@.len(), |i: int| atoms@[i]@)),
    {
        let ghost all = Seq::new(atoms@.len(), |i: int| atoms@[i]@);
        let mut i: usize = 0;
        assert(all.take(0) =~= Seq::<AtomView>::empty());
        while i < atoms.len()
            invariant
                i <= atoms.len(),
                all == Seq::new(atoms@.len(), |i: int| atoms@[i]@),
                self@ == with_atoms(old(self)@, all.take(i as int)),
            decreases atoms.len() - i,
        {
            let atom = atoms[i];
            assert(all.take(i + 1).drop_last() =~= all.take(i as int));
            assert(all.take(i + 1).last() == atom@);
            self.add_atom(atom.subject.as_str(), atom.property.as_str(), atom.value.as_str());
            i += 1;
        }
        assert(all.take(atoms.len() as int) =~= all);
        Ok(())
    }

    /// Replaces existing resource with the contents
    pub fn add_resource(&mut self, subject: String, resource: Resource) -> (r: Result<(), Error>)
        ensures
            r is Ok,
            final(self)@ == put(old(self)@, subject@, resource@),
            lookup(final(self)@, subject@) == Some(resource@),
            forall|other: Seq<char>|
                other != subject@ ==> lookup(final(self)@, other) == lookup(old(self)@, other),
    {
        proof {
            use_type_invariant(&*self);
            use_type_invariant(&resource);
            lemma_put(self@, subject@, resource@);
        }
        let found = self.find(subject.as_str());
        let ghost listed = self.entries@;
        let mut taken = Store::init();
        std::mem::swap(self, &mut taken);
        let Store { mut entries, mut index } = taken;
        assert(index_of(listed, index@));
        let ghost after = put(old(self)@, subject@, resource@);
        match found {
            Some(i) => {
                proof {
                    lemma_position_unique(old(self)@, i as int);
                }
                entries.set(i, (subject, resource));
                assert(resources_view(entries@) =~= after);
                assert forall|k: int| 0 <= k < entries@.len() implies (#[trigger] entries@[k]).0@
                    == listed[k].0@ by {}
            },
            None => {
                proof {
                    lemma_new_subject(listed, subject@);
                }
                index.insert(subject.clone(), entries.len());
                entries.push((subject, resource));
                assert(resources_view(entries@) =~= after);
                assert forall|k: int| 0 <= k < listed.len() implies (#[trigger] entries@[k])
                    == listed[k] by {}
            },
        }
        assert(index_of(entries@, index@));
        proof {
            assert forall|k: int| 0 <= k < after.len() implies distinct_keys(
                #[trigger] after[k].1,
            ) by {
                if after[k] != (subject@, resource@) {
                    assert(after[k] == old(self)@[k]);
                }
            }
        }
        *self = Store { entries, index };
        Ok(())
    }
}

impl Clone for Store {
    /// A store with the same resources in the same order.
    fn clone(&self) -> (r: Self)
        ensures
            r@ == self@,
    {
        proof {
            use_type_invariant(self);
        }
        let mut entries: Vec<(String, Resource)> = Vec::new();
        let mut index: StringHashMap<usize> = StringHashMap::new();
        let mut i: usize = 0;
        while i < self.entries.len()
            invariant
                i <= self.entries.len(),
                distinct_keys(self@),
                entries@.len() == i,
                resources_view(entries@) == self@.take(i as int),
                index_of(entries@, index@),
            decreases self.entries.len() - i,
        {
            let ghost before = resources_view(entries@);
            let ghost listed = entries@;
            let subject = self.entries[i].0.clone();
            let resource = self.entries[i].1.clone();
            assert(!index@.contains_key(subject@)) by {
                if index@.contains_key(subject@) {
                    let k = index@[subject@] as int;
                    assert(0 <= k < i && listed[k].0@ == subject@);
                    assert(before[k].0 == subject@);
                    assert(self@.take(i as int)[k] == self@[k]);
                    assert(self@[k].0 != self@[i as int].0);
                }
            }
            index.insert(subject.clone(), i);
            entries.push((subject, resource));
            assert(resources_view(entries@) =~= before.push(self@[i as int]));
            assert(self@.take(i + 1) =~= self@.take(i as int).push(self@[i as int]));
            assert(index_of(entries@, index@)) by {
                assert forall|k: int| 0 <= k < entries@.len() implies index@.contains_key(
                    #[trigger] entries@[k].0@,
                ) && index@[entries@[k].0@] == k by {
                    if k < i {
                        assert(entries@[k] == listed[k]);
                    }
                }
            }
            i += 1;
        }
        assert(self@.take(self.entries.len() as int) =~= self@);
        Store { entries, index }
    }
}

} // verus!
