//! Validation: every value fits its datatype, and every subject has the
//! properties that its classes require.

use crate::assoc::{has_key, Pairs, Resources};
use crate::errors::{outcome, Error, ErrorView};
use crate::resource::Resource;
use crate::schema::{classes_of, classes_view, property_of, Class, ClassView, PropertyView};
use crate::store::Store;
use crate::values::{decode, DataType, Value};
use vstd::prelude::*;

verus! {

/// What is wrong with one value: its property does not resolve, or the value
/// does not decode under the property's datatype.
pub open spec fn value_fault(store: Resources, pair: (Seq<char>, Seq<char>)) -> Option<ErrorView> {
    match property_of(store, pair.0) {
        Err(e) => Some(e),
        Ok(property) => match decode(pair.1, property.data_type) {
            Err(e) => Some(e),
            Ok(_) => None,
        },
    }
}

/// What is wrong with the first value of `pairs` that has a fault.
pub open spec fn values_fault(store: Resources, pairs: Pairs) -> Option<ErrorView>
    decreases pairs.len(),
{
    if pairs.len() == 0 {
        None
    } else {
        match values_fault(store, pairs.drop_last()) {
            Some(e) => Some(e),
            None => value_fault(store, pairs.last()),
        }
    }
}

/// The first of the `required` properties of `class` that `resource` lacks,
/// as a failure that names the subject, the property's shortname and the class.
pub open spec fn required_fault(
    subject: Seq<char>,
    resource: Pairs,
    class: Seq<char>,
    required: Seq<PropertyView>,
) -> Option<ErrorView>
    decreases required.len(),
{
    if required.len() == 0 {
        None
    } else {
        match required_fault(subject, resource, class, required.drop_last()) {
            Some(e) => Some(e),
            None => if has_key(resource, required.last().subject) {
                None
            } else {
                Some(
                    ErrorView::RequiredMissing {
                        subject,
                        shortname: required.last().shortname,
                        class,
                    },
                )
            },
        }
    }
}

/// The first required property, of the first of `classes`, that `resource` lacks.
pub open spec fn classes_fault(
    subject: Seq<char>,
    resource: Pairs,
    classes: Seq<ClassView>,
) -> Option<ErrorView>
    decreases classes.len(),
{
    if classes.len() == 0 {
        None
    } else {
        match classes_fault(subject, resource, classes.drop_last()) {
            Some(e) => Some(e),
            None => required_fault(
                subject,
                resource,
                classes.last().subject,
                classes.last().requires,
            ),
        }
    }
}

/// What is wrong with one resource: first its values, in order; then the
/// classes it asserts, which must resolve; then what those classes require.
pub open spec fn resource_fault(
    store: Resources,
    subject: Seq<char>,
    resource: Pairs,
) -> Option<ErrorView> {
    match values_fault(store, resource) {
        Some(e) => Some(e),
        None => match classes_of(store, subject) {
            Err(e) => Some(e),
            Ok(classes) => classes_fault(subject, resource, classes),
        },
    }
}

/// What is wrong with the first of `resources` that has a fault.
pub open spec fn resources_fault(store: Resources, resources: Resources) -> Option<ErrorView>
    decreases resources.len(),
{
    if resources.len() == 0 {
        None
    } else {
        match resources_fault(store, resources.drop_last()) {
            Some(e) => Some(e),
            None => resource_fault(store, resources.last().0, resources.last().1),
        }
    }
}

/// The first fault of the store, resources taken in order; `None` where the
/// store is valid.
pub open spec fn store_fault(store: Resources) -> Option<ErrorView> {
    resources_fault(store, store)
}

/// `resource`, the resource of `subject`, is valid: each of its values
/// decodes under the datatype of its property, the classes that the subject
/// asserts resolve, and the resource has every property that they require.
pub open spec fn valid_resource(store: Resources, subject: Seq<char>, resource: Pairs) -> bool {
    &&& forall|k: int| 0 <= k < resource.len() ==> value_fault(store, #[trigger] resource[k]) is None
    &&& classes_of(store, subject) is Ok
    &&& forall|j: int, k: int|
        0 <= j < classes_of(store, subject)->Ok_0.len() && 0 <= k < classes_of(
            store,
            subject,
        )->Ok_0[j].requires.len() ==> has_key(
            resource,
            (#[trigger] classes_of(store, subject)->Ok_0[j].requires[k]).subject,
        )
}

/// Every resource of the store is valid.
pub open spec fn valid(store: Resources) -> bool {
    forall|i: int| 0 <= i < store.len() ==> valid_resource(store, (#[trigger] store[i]).0, store[i].1)
}

/// The failure of a check, if any.
pub open spec fn fault_of(r: Result<(), Error>) -> Option<ErrorView> {
    match r {
        Ok(_) => None,
        Err(e) => Some(e@),
    }
}

/// A fault in a beginning of `pairs` is the fault of the whole.
pub proof fn lemma_values_fault(store: Resources, pairs: Pairs, k: int)
    requires
        0 <= k <= pairs.len(),
        values_fault(store, pairs.take(k)) is Some,
    ensures
        values_fault(store, pairs) == values_fault(store, pairs.take(k)),
    decreases pairs.len() - k,
{
    if k < pairs.len() {
        assert(pairs.take(k + 1).drop_last() =~= pairs.take(k));
        lemma_values_fault(store, pairs, k + 1);
    } else {
        assert(pairs.take(k) =~= pairs);
    }
}

/// A fault in a beginning of `required` is the fault of the whole.
pub proof fn lemma_required_fault(
    subject: Seq<char>,
    resource: Pairs,
    class: Seq<char>,
    required: Seq<PropertyView>,
    k: int,
)
    requires
        0 <= k <= required.len(),
        required_fault(subject, resource, class, required.take(k)) is Some,
    ensures
        required_fault(subject, resource, class, required) == required_fault(
            subject,
            resource,
            class,
            required.take(k),
        ),
    decreases required.len() - k,
{
    if k < required.len() {
        assert(required.take(k + 1).drop_last() =~= required.take(k));
        lemma_required_fault(subject, resource, class, required, k + 1);
    } else {
        assert(required.take(k) =~= required);
    }
}

/// A fault in a beginning of `classes` is the fault of the whole.
pub proof fn lemma_classes_fault(
    subject: Seq<char>,
    resource: Pairs,
    classes: Seq<ClassView>,
    k: int,
)
    requires
        0 <= k <= classes.len(),
        classes_fault(subject, resource, classes.take(k)) is Some,
    ensures
        classes_fault(subject, resource, classes) == classes_fault(
            subject,
            resource,
            classes.take(k),
        ),
    decreases classes.len() - k,
{
    if k < classes.len() {
        assert(classes.take(k + 1).drop_last() =~= classes.take(k));
        lemma_classes_fault(subject, resource, classes, k + 1);
    } else {
        assert(classes.take(k) =~= classes);
    }
}

/// A fault in a beginning of `resources` is the fault of the whole.
pub proof fn lemma_resources_fault(store: Resources, resources: Resources, k: int)
    requires
        0 <= k <= resources.len(),
        resources_fault(store, resources.take(k)) is Some,
    ensures
        resources_fault(store, resources) == resources_fault(store, resources.take(k)),
    decreases resources.len() - k,
{
    if k < resources.len() {
        assert(resources.take(k + 1).drop_last() =~= resources.take(k));
        lemma_resources_fault(store, resources, k + 1);
    } else {
        assert(resources.take(k) =~= resources);
    }
}

/// No value has a fault exactly where the values have none.
pub proof fn lemma_values_valid(store: Resources, pairs: Pairs)
    ensures
        values_fault(store, pairs) is None <==> forall|k: int|
            0 <= k < pairs.len() ==> value_fault(store, #[trigger] pairs[k]) is None,
    decreases pairs.len(),
{
    if pairs.len() > 0 {
        let shorter = pairs.drop_last();
        lemma_values_valid(store, shorter);
        assert(pairs.last() == pairs[pairs.len() - 1]);
        if values_fault(store, pairs) is None {
            assert forall|k: int| 0 <= k < pairs.len() implies value_fault(
                store,
                #[trigger] pairs[k],
            ) is None by {
                if k < shorter.len() {
                    assert(shorter[k] == pairs[k]);
                }
            }
        } else if values_fault(store, shorter) is Some {
            let k = choose|k: int|
                0 <= k < shorter.len() && value_fault(store, #[trigger] shorter[k]) is Some;
            assert(shorter[k] == pairs[k]);
        }
    }
}

/// No required property is missing exactly where the resource has them all.
pub proof fn lemma_required_valid(
    subject: Seq<char>,
    resource: Pairs,
    class: Seq<char>,
    required: Seq<PropertyView>,
)
    ensures
        required_fault(subject, resource, class, required) is None <==> forall|k: int|
            0 <= k < required.len() ==> has_key(resource, (#[trigger] required[k]).subject),
    decreases required.len(),
{
    if required.len() > 0 {
        let shorter = required.drop_last();
        lemma_required_valid(subject, resource, class, shorter);
        assert(required.last() == required[required.len() - 1]);
        if required_fault(subject, resource, class, required) is None {
            assert forall|k: int| 0 <= k < required.len() implies has_key(
                resource,
                (#[trigger] required[k]).subject,
            ) by {
                if k < shorter.len() {
                    assert(shorter[k] == required[k]);
                }
            }
        } else if required_fault(subject, resource, class, shorter) is Some {
            let k = choose|k: int|
                0 <= k < shorter.len() && !has_key(resource, (#[trigger] shorter[k]).subject);
            assert(shorter[k] == required[k]);
        }
    }
}

/// No class misses a property exactly where the resource has all that they require.
pub proof fn lemma_classes_valid(subject: Seq<char>, resource: Pairs, classes: Seq<ClassView>)
    ensures
        classes_fault(subject, resource, classes) is None <==> forall|j: int, k: int|
            0 <= j < classes.len() && 0 <= k < classes[j].requires.len() ==> has_key(
                resource,
                (#[trigger] classes[j].requires[k]).subject,
            ),
    decreases classes.len(),
{
    if classes.len() > 0 {
        let shorter = classes.drop_last();
        let last = classes.last();
        lemma_classes_valid(subject, resource, shorter);
        lemma_required_valid(subject, resource, last.subject, last.requires);
        assert(last == classes[classes.len() - 1]);
        if classes_fault(subject, resource, classes) is None {
            assert forall|j: int, k: int|
                0 <= j < classes.len() && 0 <= k < classes[j].requires.len() implies has_key(
                resource,
                (#[trigger] classes[j].requires[k]).subject,
            ) by {
                if j < shorter.len() {
                    assert(shorter[j] == classes[j]);
                }
            }
        } else if classes_fault(subject, resource, shorter) is Some {
            let (j, k) = choose|j: int, k: int|
                0 <= j < shorter.len() && 0 <= k < shorter[j].requires.len() && !has_key(
                    resource,
                    (#[trigger] shorter[j].requires[k]).subject,
                );
            assert(shorter[j] == classes[j]);
        } else {
            let k = choose|k: int|
                0 <= k < last.requires.len() && !has_key(
                    resource,
                    (#[trigger] last.requires[k]).subject,
                );
            assert(classes[classes.len() - 1].requires[k] == last.requires[k]);
        }
    }
}

/// A resource has no fault exactly where it is valid.
pub proof fn lemma_resource_valid(store: Resources, subject: Seq<char>, resource: Pairs)
    ensures
        resource_fault(store, subject, resource) is None <==> valid_resource(
            store,
            subject,
            resource,
        ),
{
    lemma_values_valid(store, resource);
    if classes_of(store, subject) is Ok {
        lemma_classes_valid(subject, resource, classes_of(store, subject)->Ok_0);
    }
}

/// Some resources have no fault exactly where each of them is valid.
pub proof fn lemma_resources_valid(store: Resources, resources: Resources)
    ensures
        resources_fault(store, resources) is None <==> forall|i: int|
            0 <= i < resources.len() ==> valid_resource(
                store,
                (#[trigger] resources[i]).0,
                resources[i].1,
            ),
    decreases resources.len(),
{
    if resources.len() > 0 {
        let shorter = resources.drop_last();
        let last = resources.last();
        lemma_resources_valid(store, shorter);
        lemma_resource_valid(store, last.0, last.1);
        assert(last == resources[resources.len() - 1]);
        if resources_fault(store, resources) is None {
            assert forall|i: int| 0 <= i < resources.len() implies valid_resource(
                store,
                (#[trigger] resources[i]).0,
                resources[i].1,
            ) by {
                if i < shorter.len() {
                    assert(shorter[i] == resources[i]);
                }
            }
        } else if resources_fault(store, shorter) is Some {
            let i = choose|i: int|
                0 <= i < shorter.len() && !valid_resource(
                    store,
                    (#[trigger] shorter[i]).0,
                    shorter[i].1,
                );
            assert(shorter[i] == resources[i]);
        }
    }
}

/// Validation finds no fault exactly where the store is valid.
pub proof fn lemma_valid(store: Resources)
    ensures
        store_fault(store) is None <==> valid(store),
{
    lemma_resources_valid(store, store);
}

/// A store is not valid where a subject lacks a property that one of its
/// classes requires: where the subject at place `i` asserts classes that
/// resolve, the class at place `j` among them requires the property at place
/// `k`, and the subject has no value for that property, validation fails.
pub proof fn lemma_missing_required_fails(store: Resources, i: int, j: int, k: int)
    requires
        0 <= i < store.len(),
        classes_of(store, store[i].0) is Ok,
        0 <= j < classes_of(store, store[i].0)->Ok_0.len(),
        0 <= k < classes_of(store, store[i].0)->Ok_0[j].requires.len(),
        !has_key(store[i].1, classes_of(store, store[i].0)->Ok_0[j].requires[k].subject),
    ensures
        store_fault(store) is Some,
{
    let (subject, resource) = store[i];
    let classes = classes_of(store, subject)->Ok_0;
    let class = classes[j];
    let required = class.requires;
    assert(required.take(k + 1).drop_last() =~= required.take(k));
    assert(required.take(k + 1).last() == required[k]);
    assert(required_fault(subject, resource, class.subject, required.take(k + 1)) is Some);
    lemma_required_fault(subject, resource, class.subject, required, k + 1);
    assert(classes.take(j + 1).drop_last() =~= classes.take(j));
    assert(classes.take(j + 1).last() == classes[j]);
    assert(classes_fault(subject, resource, classes.take(j + 1)) is Some);
    lemma_classes_fault(subject, resource, classes, j + 1);
    assert(resource_fault(store, subject, resource) is Some);
    assert(store.take(i + 1).drop_last() =~= store.take(i));
    assert(store.take(i + 1).last() == store[i]);
    assert(resources_fault(store, store.take(i + 1)) is Some);
    lemma_resources_fault(store, store, i + 1);
}

/// The first thing wrong is what validation reports: where nothing before it
/// is at fault, a required property that a subject lacks is reported with the
/// subject, the property's shortname and the class that requires it.
pub proof fn lemma_missing_required_is_named(store: Resources, i: int, j: int, k: int)
    requires
        0 <= i < store.len(),
        classes_of(store, store[i].0) is Ok,
        0 <= j < classes_of(store, store[i].0)->Ok_0.len(),
        0 <= k < classes_of(store, store[i].0)->Ok_0[j].requires.len(),
        !has_key(store[i].1, classes_of(store, store[i].0)->Ok_0[j].requires[k].subject),
        resources_fault(store, store.take(i)) is None,
        values_fault(store, store[i].1) is None,
        classes_fault(store[i].0, store[i].1, classes_of(store, store[i].0)->Ok_0.take(j)) is None,
        required_fault(
            store[i].0,
            store[i].1,
            classes_of(store, store[i].0)->Ok_0[j].subject,
            classes_of(store, store[i].0)->Ok_0[j].requires.take(k),
        ) is None,
    ensures
        store_fault(store) == Some(
            ErrorView::RequiredMissing {
                subject: store[i].0,
                shortname: classes_of(store, store[i].0)->Ok_0[j].requires[k].shortname,
                class: classes_of(store, store[i].0)->Ok_0[j].subject,
            },
        ),
{
    let (subject, resource) = store[i];
    let classes = classes_of(store, subject)->Ok_0;
    let class = classes[j];
    let required = class.requires;
    assert(required.take(k + 1).drop_last() =~= required.take(k));
    assert(required.take(k + 1).last() == required[k]);
    lemma_required_fault(subject, resource, class.subject, required, k + 1);
    assert(classes.take(j + 1).drop_last() =~= classes.take(j));
    assert(classes.take(j + 1).last() == classes[j]);
    lemma_classes_fault(subject, resource, classes, j + 1);
    assert(store.take(i + 1).drop_last() =~= store.take(i));
    assert(store.take(i + 1).last() == store[i]);
    lemma_resources_fault(store, store, i + 1);
}

impl Store {
    /// Returns the native value: `value` decoded under `datatype`.
    pub fn get_native_value(&self, value: &String, datatype: &DataType) -> (r: Result<Value, Error>)
        ensures
            outcome(r) == decode(value@, datatype@),
    {
        Value::new(value.as_str(), datatype)
    }

    /// Checks that every value of `resource` decodes under the datatype of
    /// its property.
    pub fn check_values(&self, resource: &Resource) -> (r: Result<(), Error>)
        ensures
            fault_of(r) == values_fault(self@, resource@),
    {
        let mut i: usize = 0;
        assert(resource@.take(0) =~= Pairs::empty());
        while i < resource.len()
            invariant
                i <= resource@.len(),
                values_fault(self@, resource@.take(i as int)) is None,
            decreases resource@.len() - i,
        {
            assert(resource@.take(i + 1).drop_last() =~= resource@.take(i as int));
            assert(resource@.take(i + 1).last() == resource@[i as int]);
            let property = match self.get_property(resource.property_at(i)) {
                Ok(property) => property,
                Err(e) => {
                    proof {
                        lemma_values_fault(self@, resource@, i + 1);
                    }
                    return Err(e);
                },
            };
            match self.get_native_value(resource.value_at(i), &property.data_type) {
                Ok(_) => {},
                Err(e) => {
                    proof {
                        lemma_values_fault(self@, resource@, i + 1);
                    }
                    return Err(e);
                },
            }
            i += 1;
        }
        assert(resource@.take(resource@.len() as int) =~= resource@);
        Ok(())
    }

    /// Checks that `resource`, the resource of `subject`, has every property
    /// that `class` requires.
    pub fn check_class(
        subject: &String,
        resource: &Resource,
        class: &Class,
    ) -> (r: Result<(), Error>)
        ensures
            fault_of(r) == required_fault(
                subject@,
                resource@,
                class@.subject,
                class@.requires,
            ),
    {
        let ghost required = class@.requires;
        let mut i: usize = 0;
        assert(required.take(0) =~= Seq::<PropertyView>::empty());
        while i < class.requires.len()
            invariant
                i <= class.requires.len(),
                required == class@.requires,
                required_fault(subject@, resource@, class@.subject, required.take(i as int))
                    is None,
            decreases class.requires.len() - i,
        {
            let property = &class.requires[i];
            assert(required.take(i + 1).drop_last() =~= required.take(i as int));
            assert(required.take(i + 1).last() == property@);
            if !resource.contains_key(property.subject.as_str()) {
                proof {
                    lemma_required_fault(subject@, resource@, class@.subject, required, i + 1);
                }
                return Err(
                    Error::RequiredMissing {
                        subject: subject.clone(),
                        shortname: property.shortname.clone(),
                        class: class.subject.clone(),
                    },
                );
            }
            i += 1;
        }
        assert(required.take(class.requires.len() as int) =~= required);
        Ok(())
    }

    /// Checks that `resource`, the resource of `subject`, has every property
    /// that one of `classes` requires.
    pub fn check_classes(
        subject: &String,
        resource: &Resource,
        classes: &Vec<Class>,
    ) -> (r: Result<(), Error>)
        ensures
            fault_of(r) == classes_fault(subject@, resource@, classes_view(classes@)),
    {
        let ghost all = classes_view(classes@);
        let mut i: usize = 0;
        assert(all.take(0) =~= Seq::<ClassView>::empty());
        while i < classes.len()
            invariant
                i <= classes.len(),
                all == classes_view(classes@),
                classes_fault(subject@, resource@, all.take(i as int)) is None,
            decreases classes.len() - i,
        {
            assert(all.take(i + 1).drop_last() =~= all.take(i as int));
            assert(all.take(i + 1).last() == classes@[i as int]@);
            match Store::check_class(subject, resource, &classes[i]) {
                Ok(_) => {},
                Err(e) => {
                    proof {
                        lemma_classes_fault(subject@, resource@, all, i + 1);
                    }
                    return Err(e);
                },
            }
            i += 1;
        }
        assert(all.take(classes.len() as int) =~= all);
        Ok(())
    }

    /// Checks one resource: its values, then what its classes require.
    pub fn validate_resource(&self, subject: &String, resource: &Resource) -> (r: Result<(), Error>)
        ensures
            fault_of(r) == resource_fault(self@, subject@, resource@),
    {
        match self.check_values(resource) {
            Ok(_) => {},
            Err(e) => return Err(e),
        }
        match self.get_classes_for_subject(subject) {
            Err(e) => Err(e),
            Ok(classes) => Store::check_classes(subject, resource, &classes),
        }
    }

    /// Checks Atomic Data in the store for validity.
    /// Returns the first fault, resources taken in order, if it is not valid.
    ///
    /// Validates:
    ///
    /// - If the Values can be parsed using their Datatype (e.g. if Integers are integers)
    /// - If all required fields of the class are present
    pub fn validate_store(&self) -> (r: Result<(), Error>)
        ensures
            fault_of(r) == store_fault(self@),
            r is Ok <==> valid(self@),
    {
        proof {
            lemma_valid(self@);
        }
        let mut i: usize = 0;
        assert(self@.take(0) =~= Resources::empty());
        while i < self.len()
            invariant
                i <= self@.len(),
                resources_fault(self@, self@.take(i as int)) is None,
                store_fault(self@) is None <==> valid(self@),
            decreases self@.len() - i,
        {
            assert(self@.take(i + 1).drop_last() =~= self@.take(i as int));
            assert(self@.take(i + 1).last() == self@[i as int]);
            match self.validate_resource(self.subject_at(i), self.resource_at(i)) {
                Ok(_) => {},
                Err(e) => {
                    proof {
                        lemma_resources_fault(self@, self@, i + 1);
                    }
                    return Err(e);
                },
            }
            i += 1;
        }
        assert(self@.take(self@.len() as int) =~= self@);
        Ok(())
    }
}

} // verus!
