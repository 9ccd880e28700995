//! What a full-text index is given: which subjects, and which of their
//! values as text. The index itself lives outside this library.

use crate::assoc::{lookup, Pairs, Resources};
use crate::errors::{Error, ErrorView};
use crate::resource::Resource;
use crate::schema::property_of;
use crate::store::{resources_view, Atom, AtomView, Store};
use crate::text::{contains, occurs_in, texts};
use crate::values::{decode, encode, Value, ValueView};
use vstd::prelude::*;

verus! {

/// What marks the subject of a commit.
pub const COMMIT_MARK: &'static str = "/commits/";

/// `subject` is indexed: it is not the subject of a commit.
pub open spec fn searchable(subject: Seq<char>) -> bool {
    !occurs_in(subject, COMMIT_MARK@)
}

/// The text under which `value` is indexed. Links are not indexed: a URL and
/// a resource array have none.
pub open spec fn indexed_text(value: ValueView) -> Option<Seq<char>> {
    match value {
        ValueView::AtomicUrl(_) => None,
        ValueView::ResourceArray(_) => None,
        _ => Some(encode(value)),
    }
}

/// The triples indexed for the `pairs` of `subject`, in order: one for each
/// value that has an indexed text. The first property that does not resolve,
/// or value that does not decode, is the failure.
pub open spec fn triples(
    store: Resources,
    subject: Seq<char>,
    pairs: Pairs,
) -> Result<Seq<AtomView>, ErrorView>
    decreases pairs.len(),
{
    if pairs.len() == 0 {
        Ok(Seq::empty())
    } else {
        match triples(store, subject, pairs.drop_last()) {
            Err(e) => Err(e),
            Ok(before) => match property_of(store, pairs.last().0) {
                Err(e) => Err(e),
                Ok(property) => match decode(pairs.last().1, property.data_type) {
                    Err(e) => Err(e),
                    Ok(value) => match indexed_text(value) {
                        None => Ok(before),
                        Some(text) => Ok(
                            before.push(
                                AtomView {
                                    subject,
                                    property: pairs.last().0,
                                    value: text,
                                    native_value: None,
                                },
                            ),
                        ),
                    },
                },
            },
        }
    }
}

/// The triples indexed for the resource at `subject`.
pub open spec fn triples_of(
    store: Resources,
    subject: Seq<char>,
) -> Result<Seq<AtomView>, ErrorView> {
    match lookup(store, subject) {
        None => Err(ErrorView::ResourceNotFound { subject }),
        Some(pairs) => triples(store, subject, pairs),
    }
}

/// The subjects of `store` that are indexed, in order.
pub open spec fn searchable_subjects(store: Resources) -> Seq<Seq<char>>
    decreases store.len(),
{
    if store.len() == 0 {
        Seq::empty()
    } else if searchable(store.last().0) {
        searchable_subjects(store.drop_last()).push(store.last().0)
    } else {
        searchable_subjects(store.drop_last())
    }
}

/// The atoms of `atoms` as mathematical values.
pub open spec fn atoms_view(atoms: Seq<Atom>) -> Seq<AtomView> {
    Seq::new(atoms.len(), |i: int| atoms[i]@)
}

/// Whether `subject` is indexed.
pub fn is_searchable(subject: &str) -> (r: bool)
    ensures
        r == searchable(subject@),
{
    !contains(subject, COMMIT_MARK)
}

impl Value {
    /// The text under which this value is indexed, if it is.
    pub fn indexed_text(&self) -> (r: Option<String>)
        ensures
            match r {
                Some(text) => indexed_text(self@) == Some(text@),
                None => indexed_text(self@) is None,
            },
    {
        match self {
            Value::AtomicUrl(_) => None,
            Value::ResourceArray(_) => None,
            _ => Some(self.to_string()),
        }
    }
}

impl Store {
    /// Every resource with its subject, in the order of the store: a copy
    /// that later changes to the store do not touch. Nothing is left out.
    pub fn all_resources(&self) -> (all: Vec<(String, Resource)>)
        ensures
            resources_view(all@) == self@,
    {
        let mut all: Vec<(String, Resource)> = Vec::new();
        let mut i: usize = 0;
        assert(resources_view(all@) =~= self@.take(0));
        while i < self.len()
            invariant
                i <= self@.len(),
                resources_view(all@) == self@.take(i as int),
            decreases self@.len() - i,
        {
            let ghost before = resources_view(all@);
            let subject = self.subject_at(i).clone();
            let resource = self.resource_at(i).clone();
            all.push((subject, resource));
            assert(resources_view(all@) =~= before.push(self@[i as int]));
            assert(self@.take(i + 1) =~= self@.take(i as int).push(self@[i as int]));
            i += 1;
        }
        assert(self@.take(self@.len() as int) =~= self@);
        all
    }

    /// The subjects that are indexed, in the order of the store.
    pub fn subjects_to_index(&self) -> (subjects: Vec<String>)
        ensures
            texts(subjects@) == searchable_subjects(self@),
    {
        let mut subjects: Vec<String> = Vec::new();
        let mut i: usize = 0;
        assert(self@.take(0) =~= Resources::empty());
        assert(texts(subjects@) =~= Seq::<Seq<char>>::empty());
        while i < self.len()
            invariant
                i <= self@.len(),
                texts(subjects@) == searchable_subjects(self@.take(i as int)),
            decreases self@.len() - i,
        {
            assert(self@.take(i + 1).drop_last() =~= self@.take(i as int));
            assert(self@.take(i + 1).last() == self@[i as int]);
            let subject = self.subject_at(i);
            if is_searchable(subject.as_str()) {
                let ghost before = texts(subjects@);
                subjects.push(subject.clone());
                assert(texts(subjects@) =~= before.push(subject@));
            }
            i += 1;
        }
        assert(self@.take(self@.len() as int) =~= self@);
        subjects
    }

    /// The triples to index for the resource at `subject`: see [`triples_of`].
    pub fn triples_to_index(&self, subject: &String) -> (r: Result<Vec<Atom>, Error>)
        ensures
            match r {
                Ok(atoms) => triples_of(self@, subject@) == Ok::<Seq<AtomView>, ErrorView>(
                    atoms_view(atoms@),
                ),
                Err(e) => triples_of(self@, subject@) == Err::<Seq<AtomView>, ErrorView>(e@),
            },
    {
        let resource = match self.get(subject) {
            Some(resource) => resource,
            None => return Err(Error::ResourceNotFound { subject: subject.clone() }),
        };
        let mut atoms: Vec<Atom> = Vec::new();
        let mut i: usize = 0;
        assert(resource@.take(0) =~= Pairs::empty());
        assert(atoms_view(atoms@) =~= Seq::<AtomView>::empty());
        while i < resource.len()
            invariant
                i <= resource@.len(),
                lookup(self@, subject@) == Some(resource@),
                triples(self@, subject@, resource@.take(i as int)) == Ok::<
                    Seq<AtomView>,
                    ErrorView,
                >(atoms_view(atoms@)),
            decreases resource@.len() - i,
        {
            assert(resource@.take(i + 1).drop_last() =~= resource@.take(i as int));
            assert(resource@.take(i + 1).last() == resource@[i as int]);
            let url = resource.property_at(i);
            let property = match self.get_property(url) {
                Ok(property) => property,
                Err(e) => {
                    proof {
                        lemma_triples_fail(self@, subject@, resource@, i + 1);
                    }
                    return Err(e);
                },
            };
            let value = match Value::new(resource.value_at(i).as_str(), &property.data_type) {
                Ok(value) => value,
                Err(e) => {
                    proof {
                        lemma_triples_fail(self@, subject@, resource@, i + 1);
                    }
                    return Err(e);
                },
            };
            match value.indexed_text() {
                None => {},
                Some(text) => {
                    let ghost before = atoms_view(atoms@);
                    let atom = Atom::new(subject.clone(), url.clone(), text);
                    atoms.push(atom);
                    assert(atoms_view(atoms@) =~= before.push(atom@));
                },
            }
            i += 1;
        }
        assert(resource@.take(resource@.len() as int) =~= resource@);
        Ok(atoms)
    }
}

/// Where a beginning of `pairs` fails, the whole fails in the same way.
pub proof fn lemma_triples_fail(store: Resources, subject: Seq<char>, pairs: Pairs, k: int)
    requires
        0 <= k <= pairs.len(),
        triples(store, subject, pairs.take(k)) is Err,
    ensures
        triples(store, subject, pairs) == triples(store, subject, pairs.take(k)),
    decreases pairs.len() - k,
{
    if k < pairs.len() {
        assert(pairs.take(k + 1).drop_last() =~= pairs.take(k));
        lemma_triples_fail(store, subject, pairs, k + 1);
    } else {
        assert(pairs.take(k) =~= pairs);
    }
}

} // verus!
