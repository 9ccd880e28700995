//! Properties and classes, read from the resources that describe them.

use crate::assoc::{lookup, Pairs, Resources};
use crate::errors::{outcome, Error, ErrorView};
use crate::json::{json_string_array, read_string_array};
use crate::resource::Resource;
use crate::store::Store;
use crate::text::{read_texts, text_at, texts};
use crate::urls;
use crate::values::{datatype_for, match_datatype, DataType, DataTypeView};
use vstd::prelude::*;

verus! {

/// What a property's own resource says of it.
#[derive(Debug, Clone, PartialEq, Eq)]
pub struct Property {
    /// URL of the class
    pub class_type: Option<String>,
    /// The datatype of the property's values
    pub data_type: DataType,
    pub shortname: String,
    /// URL of the property
    pub subject: String,
    pub description: String,
}

/// [`Property`] as a mathematical value.
pub ghost struct PropertyView {
    pub class_type: Option<Seq<char>>,
    pub data_type: DataTypeView,
    pub shortname: Seq<char>,
    pub subject: Seq<char>,
    pub description: Seq<char>,
}

impl View for Property {
    type V = PropertyView;

    open spec fn view(&self) -> PropertyView {
        PropertyView {
            class_type: match self.class_type {
                Some(url) => Some(url@),
                None => None,
            },
            data_type: self.data_type@,
            shortname: self.shortname@,
            subject: self.subject@,
            description: self.description@,
        }
    }
}

/// What a class's own resource says of it, with its properties resolved.
#[derive(Debug, Clone, PartialEq, Eq)]
pub struct Class {
    pub requires: Vec<Property>,
    pub recommends: Vec<Property>,
    pub shortname: String,
    pub description: String,
    /// URL
    pub subject: String,
}

/// [`Class`] as a mathematical value.
pub ghost struct ClassView {
    pub requires: Seq<PropertyView>,
    pub recommends: Seq<PropertyView>,
    pub shortname: Seq<char>,
    pub description: Seq<char>,
    pub subject: Seq<char>,
}

/// The properties of `properties` as mathematical values.
pub open spec fn properties_view(properties: Seq<Property>) -> Seq<PropertyView> {
    Seq::new(properties.len(), |i: int| properties[i]@)
}

/// The classes of `classes` as mathematical values.
pub open spec fn classes_view(classes: Seq<Class>) -> Seq<ClassView> {
    Seq::new(classes.len(), |i: int| classes[i]@)
}

impl View for Class {
    type V = ClassView;

    open spec fn view(&self) -> ClassView {
        ClassView {
            requires: properties_view(self.requires@),
            recommends: properties_view(self.recommends@),
            shortname: self.shortname@,
            description: self.description@,
            subject: self.subject@,
        }
    }
}

/// A list of properties with both sides of the result as mathematical values.
pub open spec fn properties_outcome(r: Result<Vec<Property>, Error>) -> Result<
    Seq<PropertyView>,
    ErrorView,
> {
    match r {
        Ok(properties) => Ok(properties_view(properties@)),
        Err(e) => Err(e@),
    }
}

/// A list of classes with both sides of the result as mathematical values.
pub open spec fn classes_outcome(r: Result<Vec<Class>, Error>) -> Result<Seq<ClassView>, ErrorView> {
    match r {
        Ok(classes) => Ok(classes_view(classes@)),
        Err(e) => Err(e@),
    }
}

/// The property that the resource at `url` describes. The resource must be
/// there and give a datatype, a shortname and a description: what is missing
/// first, in that order, is the failure. The class type is optional.
pub open spec fn property_of(store: Resources, url: Seq<char>) -> Result<PropertyView, ErrorView> {
    match lookup(store, url) {
        None => Err(ErrorView::ResourceNotFound { subject: url }),
        Some(resource) => match lookup(resource, urls::DATATYPE_PROP@) {
            None => Err(ErrorView::DatatypeNotFound { property: url }),
            Some(datatype) => match lookup(resource, urls::SHORTNAME@) {
                None => Err(ErrorView::ShortnameNotFound { subject: url }),
                Some(shortname) => match lookup(resource, urls::DESCRIPTION@) {
                    None => Err(ErrorView::DescriptionNotFound { subject: url }),
                    Some(description) => Ok(
                        PropertyView {
                            class_type: lookup(resource, urls::CLASSTYPE_PROP@),
                            data_type: datatype_for(datatype),
                            shortname,
                            subject: url,
                            description,
                        },
                    ),
                },
            },
        },
    }
}

/// The shortname that the resource at `url` gives.
pub open spec fn shortname_of(store: Resources, url: Seq<char>) -> Result<Seq<char>, ErrorView> {
    match lookup(store, url) {
        None => Err(ErrorView::ResourceNotFound { subject: url }),
        Some(resource) => match lookup(resource, urls::SHORTNAME@) {
            None => Err(ErrorView::ShortnameNotFound { subject: url }),
            Some(shortname) => Ok(shortname),
        },
    }
}

/// The first property of `resource`, in its order, whose shortname is
/// `shortname`. A property before it whose shortname cannot be read is the
/// failure; so is the end of the resource.
pub open spec fn url_of_shortname(
    store: Resources,
    shortname: Seq<char>,
    resource: Pairs,
) -> Result<Seq<char>, ErrorView>
    decreases resource.len(),
{
    if resource.len() == 0 {
        Err(ErrorView::UnknownShortname { shortname })
    } else {
        let url = resource[0].0;
        match shortname_of(store, url) {
            Err(e) => Err(e),
            Ok(found) => if found == shortname {
                Ok(url)
            } else {
                url_of_shortname(store, shortname, resource.skip(1))
            },
        }
    }
}

/// The properties at `urls`, in order; the first that cannot be resolved is
/// the failure.
pub open spec fn properties_at(
    store: Resources,
    urls: Seq<Seq<char>>,
) -> Result<Seq<PropertyView>, ErrorView>
    decreases urls.len(),
{
    if urls.len() == 0 {
        Ok(Seq::empty())
    } else {
        match properties_at(store, urls.drop_last()) {
            Err(e) => Err(e),
            Ok(properties) => match property_of(store, urls.last()) {
                Err(e) => Err(e),
                Ok(property) => Ok(properties.push(property)),
            },
        }
    }
}

/// The properties that the array `raw` lists, given what `raw` was read as.
pub open spec fn properties_read(
    store: Resources,
    raw: Seq<char>,
    read: Option<Seq<Seq<char>>>,
) -> Result<Seq<PropertyView>, ErrorView> {
    match read {
        None => Err(ErrorView::NotAnArray { raw }),
        Some(urls) => properties_at(store, urls),
    }
}

/// The properties that an optional array lists: none where it is absent.
pub open spec fn properties_listed(
    store: Resources,
    raw: Option<Seq<char>>,
) -> Result<Seq<PropertyView>, ErrorView> {
    match raw {
        None => Ok(Seq::empty()),
        Some(text) => properties_read(store, text, json_string_array(text)),
    }
}

/// The class that the resource at `subject` describes. The resource must be
/// there and give a shortname and a description; the properties that it
/// requires and recommends, where it lists any, must all resolve.
pub open spec fn class_of(store: Resources, subject: Seq<char>) -> Result<ClassView, ErrorView> {
    match lookup(store, subject) {
        None => Err(ErrorView::ResourceNotFound { subject }),
        Some(resource) => match lookup(resource, urls::SHORTNAME@) {
            None => Err(ErrorView::ShortnameNotFound { subject }),
            Some(shortname) => match lookup(resource, urls::DESCRIPTION@) {
                None => Err(ErrorView::DescriptionNotFound { subject }),
                Some(description) => match properties_listed(
                    store,
                    lookup(resource, urls::REQUIRES@),
                ) {
                    Err(e) => Err(e),
                    Ok(required) => match properties_listed(
                        store,
                        lookup(resource, urls::RECOMMENDS@),
                    ) {
                        Err(e) => Err(e),
                        Ok(recommended) => Ok(
                            ClassView {
                                requires: required,
                                recommends: recommended,
                                shortname,
                                description,
                                subject,
                            },
                        ),
                    },
                },
            },
        },
    }
}

/// The classes at `urls`, in order; the first that cannot be resolved is the
/// failure.
pub open spec fn classes_at(
    store: Resources,
    urls: Seq<Seq<char>>,
) -> Result<Seq<ClassView>, ErrorView>
    decreases urls.len(),
{
    if urls.len() == 0 {
        Ok(Seq::empty())
    } else {
        match classes_at(store, urls.drop_last()) {
            Err(e) => Err(e),
            Ok(classes) => match class_of(store, urls.last()) {
                Err(e) => Err(e),
                Ok(class) => Ok(classes.push(class)),
            },
        }
    }
}

/// The classes that the array `raw` lists, given what `raw` was read as.
pub open spec fn classes_read(
    store: Resources,
    raw: Seq<char>,
    read: Option<Seq<Seq<char>>>,
) -> Result<Seq<ClassView>, ErrorView> {
    match read {
        None => Err(ErrorView::NotAnArray { raw }),
        Some(urls) => classes_at(store, urls),
    }
}

/// The classes that `subject` asserts through `isA`: none where it has no
/// such property.
pub open spec fn classes_of(
    store: Resources,
    subject: Seq<char>,
) -> Result<Seq<ClassView>, ErrorView> {
    match lookup(store, subject) {
        None => Err(ErrorView::ResourceNotFound { subject }),
        Some(resource) => match lookup(resource, urls::IS_A@) {
            None => Ok(Seq::empty()),
            Some(raw) => classes_read(store, raw, json_string_array(raw)),
        },
    }
}

impl Store {
    /// Fetches a property by URL, returns a Property instance
    pub fn get_property(&self, url: &String) -> (r: Result<Property, Error>)
        ensures
            outcome(r) == property_of(self@, url@),
    {
        let resource = match self.get(url) {
            Some(resource) => resource,
            None => return Err(Error::ResourceNotFound { subject: url.clone() }),
        };
        let datatype = match resource.get(urls::DATATYPE_PROP) {
            Some(datatype) => datatype,
            None => return Err(Error::DatatypeNotFound { property: url.clone() }),
        };
        let shortname = match resource.get(urls::SHORTNAME) {
            Some(shortname) => shortname,
            None => return Err(Error::ShortnameNotFound { subject: url.clone() }),
        };
        let description = match resource.get(urls::DESCRIPTION) {
            Some(description) => description,
            None => return Err(Error::DescriptionNotFound { subject: url.clone() }),
        };
        let class_type = match resource.get(urls::CLASSTYPE_PROP) {
            Some(class_type) => Some(class_type.clone()),
            None => None,
        };
        Ok(
            Property {
                class_type,
                data_type: match_datatype(datatype.as_str()),
                shortname: shortname.clone(),
                subject: url.clone(),
                description: description.clone(),
            },
        )
    }

    /// The shortname of the property at `url`.
    pub fn property_url_to_shortname(&self, url: &String) -> (r: Result<String, Error>)
        ensures
            outcome(r) == shortname_of(self@, url@),
    {
        let resource = match self.get(url) {
            Some(resource) => resource,
            None => return Err(Error::ResourceNotFound { subject: url.clone() }),
        };
        match resource.get(urls::SHORTNAME) {
            Some(shortname) => Ok(shortname.clone()),
            None => Err(Error::ShortnameNotFound { subject: url.clone() }),
        }
    }

    /// Finds the URL of a shortname used in the context of a specific Resource.
    /// The properties of the resource are tried in its order.
    pub fn property_shortname_to_url(
        &self,
        shortname: &String,
        resource: &Resource,
    ) -> (r: Result<String, Error>)
        ensures
            outcome(r) == url_of_shortname(self@, shortname@, resource@),
    {
        let mut i: usize = 0;
        assert(resource@.skip(0) =~= resource@);
        while i < resource.len()
            invariant
                i <= resource@.len(),
                url_of_shortname(self@, shortname@, resource@) == url_of_shortname(
                    self@,
                    shortname@,
                    resource@.skip(i as int),
                ),
            decreases resource@.len() - i,
        {
            let url = resource.property_at(i);
            assert(resource@.skip(i as int)[0] == resource@[i as int]);
            assert(resource@.skip(i as int).skip(1) =~= resource@.skip(i + 1));
            match self.property_url_to_shortname(url) {
                Err(e) => {
                    return Err(e);
                },
                Ok(found) => {
                    if found == *shortname {
                        return Ok(url.clone());
                    }
                },
            }
            i += 1;
        }
        Err(Error::UnknownShortname { shortname: shortname.clone() })
    }

    /// The properties at `urls`, in order.
    pub fn properties_at(&self, urls: &Vec<String>) -> (r: Result<Vec<Property>, Error>)
        ensures
            properties_outcome(r) == properties_at(self@, texts(urls@)),
    {
        let mut properties: Vec<Property> = Vec::new();
        let mut i: usize = 0;
        assert(texts(urls@).take(0) =~= Seq::<Seq<char>>::empty());
        assert(properties_view(properties@) =~= Seq::<PropertyView>::empty());
        while i < urls.len()
            invariant
                i <= urls.len(),
                properties_at(self@, texts(urls@).take(i as int)) == Ok::<
                    Seq<PropertyView>,
                    ErrorView,
                >(properties_view(properties@)),
            decreases urls.len() - i,
        {
            let ghost before = texts(urls@).take(i as int);
            let ghost now = texts(urls@).take(i + 1);
            assert(now.drop_last() =~= before);
            assert(now.last() == urls@[i as int]@);
            match self.get_property(&urls[i]) {
                Err(e) => {
                    proof {
                        lemma_properties_fail(self@, texts(urls@), i + 1);
                    }
                    return Err(e);
                },
                Ok(property) => {
                    let ghost done = properties_view(properties@);
                    properties.push(property);
                    assert(properties_view(properties@) =~= done.push(property@));
                },
            }
            i += 1;
        }
        assert(texts(urls@).take(urls.len() as int) =~= texts(urls@));
        Ok(properties)
    }

    /// The properties that the array `raw` lists, given what `raw` was read
    /// as: a failure where it was not read.
    pub fn properties_read(
        &self,
        raw: &str,
        read: Option<Vec<String>>,
    ) -> (r: Result<Vec<Property>, Error>)
        ensures
            properties_outcome(r) == properties_read(self@, raw@, read_texts(read)),
    {
        match read {
            None => Err(Error::NotAnArray { raw: raw.to_owned() }),
            Some(urls) => self.properties_at(&urls),
        }
    }

    fn properties_listed(&self, raw: Option<&String>) -> (r: Result<Vec<Property>, Error>)
        ensures
            properties_outcome(r) == properties_listed(self@, text_at(raw)),
    {
        match raw {
            None => {
                let properties: Vec<Property> = Vec::new();
                assert(properties_view(properties@) =~= Seq::<PropertyView>::empty());
                Ok(properties)
            },
            Some(text) => self.properties_read(text.as_str(), read_string_array(text.as_str())),
        }
    }

    /// Retrieves a Class from the store by subject URL, with the properties
    /// it requires and recommends.
    pub fn resolve_class(&self, subject: &String) -> (r: Result<Class, Error>)
        ensures
            outcome(r) == class_of(self@, subject@),
    {
        let resource = match self.get(subject) {
            Some(resource) => resource,
            None => return Err(Error::ResourceNotFound { subject: subject.clone() }),
        };
        let shortname = match resource.get(urls::SHORTNAME) {
            Some(shortname) => shortname,
            None => return Err(Error::ShortnameNotFound { subject: subject.clone() }),
        };
        let description = match resource.get(urls::DESCRIPTION) {
            Some(description) => description,
            None => return Err(Error::DescriptionNotFound { subject: subject.clone() }),
        };
        let required = match self.properties_listed(resource.get(urls::REQUIRES)) {
            Ok(properties) => properties,
            Err(e) => return Err(e),
        };
        let recommended = match self.properties_listed(resource.get(urls::RECOMMENDS)) {
            Ok(properties) => properties,
            Err(e) => return Err(e),
        };
        Ok(
            Class {
                requires: required,
                recommends: recommended,
                shortname: shortname.clone(),
                description: description.clone(),
                subject: subject.clone(),
            },
        )
    }

    /// Retrieves a Class from the store by subject URL and converts it into a
    /// Class useful for forms. For a subject that resolves to a class;
    /// [`Store::resolve_class`] tells.
    pub fn get_class(&self, subject: &String) -> (class: Class)
        requires
            class_of(self@, subject@) is Ok,
        ensures
            Ok::<ClassView, ErrorView>(class@) == class_of(self@, subject@),
    {
        match self.resolve_class(subject) {
            Ok(class) => class,
            Err(_) => vstd::pervasive::unreached(),
        }
    }

    /// The classes at `urls`, in order.
    pub fn classes_at(&self, urls: &Vec<String>) -> (r: Result<Vec<Class>, Error>)
        ensures
            classes_outcome(r) == classes_at(self@, texts(urls@)),
    {
        let mut classes: Vec<Class> = Vec::new();
        let mut i: usize = 0;
        assert(texts(urls@).take(0) =~= Seq::<Seq<char>>::empty());
        assert(classes_view(classes@) =~= Seq::<ClassView>::empty());
        while i < urls.len()
            invariant
                i <= urls.len(),
                classes_at(self@, texts(urls@).take(i as int)) == Ok::<Seq<ClassView>, ErrorView>(
                    classes_view(classes@),
                ),
            decreases urls.len() - i,
        {
            let ghost before = texts(urls@).take(i as int);
            let ghost now = texts(urls@).take(i + 1);
            assert(now.drop_last() =~= before);
            assert(now.last() == urls@[i as int]@);
            match self.resolve_class(&urls[i]) {
                Err(e) => {
                    proof {
                        lemma_classes_fail(self@, texts(urls@), i + 1);
                    }
                    return Err(e);
                },
                Ok(class) => {
                    let ghost done = classes_view(classes@);
                    classes.push(class);
                    assert(classes_view(classes@) =~= done.push(class@));
                },
            }
            i += 1;
        }
        assert(texts(urls@).take(urls.len() as int) =~= texts(urls@));
        Ok(classes)
    }

    /// The classes that the array `raw` lists, given what `raw` was read as:
    /// a failure where it was not read.
    pub fn classes_read(
        &self,
        raw: &str,
        read: Option<Vec<String>>,
    ) -> (r: Result<Vec<Class>, Error>)
        ensures
            classes_outcome(r) == classes_read(self@, raw@, read_texts(read)),
    {
        match read {
            None => Err(Error::NotAnArray { raw: raw.to_owned() }),
            Some(urls) => self.classes_at(&urls),
        }
    }

    /// Finds all classes (isA) for any subject.
    /// Returns an empty vector if there are none.
    pub fn get_classes_for_subject(&self, subject: &String) -> (r: Result<Vec<Class>, Error>)
        ensures
            classes_outcome(r) == classes_of(self@, subject@),
    {
        let resource = match self.get(subject) {
            Some(resource) => resource,
            None => return Err(Error::ResourceNotFound { subject: subject.clone() }),
        };
        match resource.get(urls::IS_A) {
            None => {
                let classes: Vec<Class> = Vec::new();
                assert(classes_view(classes@) =~= Seq::<ClassView>::empty());
                Ok(classes)
            },
            Some(raw) => self.classes_read(raw.as_str(), read_string_array(raw.as_str())),
        }
    }
}

/// Where a beginning of `urls` fails to resolve, so does the whole, in the
/// same way.
pub proof fn lemma_properties_fail(store: Resources, urls: Seq<Seq<char>>, k: int)
    requires
        0 <= k <= urls.len(),
        properties_at(store, urls.take(k)) is Err,
    ensures
        properties_at(store, urls) == properties_at(store, urls.take(k)),
    decreases urls.len() - k,
{
    if k < urls.len() {
        assert(urls.take(k + 1).drop_last() =~= urls.take(k));
        lemma_properties_fail(store, urls, k + 1);
    } else {
        assert(urls.take(k) =~= urls);
    }
}

/// Where a beginning of `urls` fails to resolve, so does the whole, in the
/// same way.
pub proof fn lemma_classes_fail(store: Resources, urls: Seq<Seq<char>>, k: int)
    requires
        0 <= k <= urls.len(),
        classes_at(store, urls.take(k)) is Err,
    ensures
        classes_at(store, urls) == classes_at(store, urls.take(k)),
    decreases urls.len() - k,
{
    if k < urls.len() {
        assert(urls.take(k + 1).drop_last() =~= urls.take(k));
        lemma_classes_fail(store, urls, k + 1);
    } else {
        assert(urls.take(k) =~= urls);
    }
}

} // verus!
