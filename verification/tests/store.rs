use atomic_lib::{Atom, Error, ErrorKind, Resource, Store};

const SHORTNAME: &str = "https://atomicdata.dev/properties/shortname";
const DESCRIPTION: &str = "https://atomicdata.dev/properties/description";
const IS_A: &str = "https://atomicdata.dev/properties/isA";
const DATATYPE: &str = "https://atomicdata.dev/properties/datatype";
const CLASSTYPE: &str = "https://atomicdata.dev/properties/classtype";
const REQUIRES: &str = "https://atomicdata.dev/properties/requires";
const RECOMMENDS: &str = "https://atomicdata.dev/properties/recommends";
const CLASS: &str = "https://atomicdata.dev/classes/Class";
const PROPERTY: &str = "https://atomicdata.dev/classes/Property";

fn line(subject: &str, property: &str, value: &str) -> String {
    let mut text = serde_json::to_string(&vec![subject, property, value]).unwrap();
    text.push('\n');
    text
}

fn array(items: &[&str]) -> String {
    serde_json::to_string(&items.to_vec()).unwrap()
}

fn property_lines(url: &str, shortname: &str, datatype: &str, description: &str) -> String {
    let mut text = String::new();
    text.push_str(&line(url, IS_A, &array(&[PROPERTY])));
    text.push_str(&line(url, SHORTNAME, shortname));
    text.push_str(&line(url, DESCRIPTION, description));
    text.push_str(&line(url, DATATYPE, datatype));
    text
}

/// The resources that describe the store's own properties and classes.
fn default_store_ad3() -> String {
    let mut text = String::from("# The properties and classes that every store starts with\n\n");
    text.push_str(&property_lines(
        SHORTNAME,
        "shortname",
        "https://atomicdata.dev/datatypes/slug",
        "A short name of something.",
    ));
    text.push_str(&property_lines(
        DESCRIPTION,
        "description",
        "https://atomicdata.dev/datatypes/markdown",
        "A textual description of the thing.",
    ));
    text.push_str(&property_lines(
        IS_A,
        "is-a",
        "https://atomicdata.dev/datatypes/resourceArray",
        "The classes of a thing.",
    ));
    text.push_str(&property_lines(
        DATATYPE,
        "datatype",
        "https://atomicdata.dev/datatypes/atomicURL",
        "The datatype of a property.",
    ));
    text.push_str(&property_lines(
        CLASSTYPE,
        "classtype",
        "https://atomicdata.dev/datatypes/atomicURL",
        "The class of the resources that a property points to.",
    ));
    text.push_str(&property_lines(
        REQUIRES,
        "requires",
        "https://atomicdata.dev/datatypes/resourceArray",
        "The properties that a class requires.",
    ));
    text.push_str(&property_lines(
        RECOMMENDS,
        "recommends",
        "https://atomicdata.dev/datatypes/resourceArray",
        "The properties that a class recommends.",
    ));
    text.push_str(&line(CLASS, IS_A, &array(&[CLASS])));
    text.push_str(&line(CLASS, SHORTNAME, "class"));
    text.push_str(&line(CLASS, DESCRIPTION, "A set of properties."));
    text.push_str(&line(CLASS, REQUIRES, &array(&[SHORTNAME, DESCRIPTION])));
    text.push_str(&line(CLASS, RECOMMENDS, &array(&[REQUIRES, RECOMMENDS])));
    text.push_str(&line(PROPERTY, IS_A, &array(&[CLASS])));
    text.push_str(&line(PROPERTY, SHORTNAME, "property"));
    text.push_str(&line(PROPERTY, DESCRIPTION, "A relation between a subject and a value."));
    text.push_str(&line(PROPERTY, REQUIRES, &array(&[SHORTNAME, DATATYPE, DESCRIPTION])));
    text.push_str(&line(PROPERTY, RECOMMENDS, &array(&[CLASSTYPE])));
    text
}

fn init_store() -> Store {
    let string =
        String::from("[\"_:test\",\"https://atomicdata.dev/properties/shortname\",\"hi\"]");
    let mut store = Store::init();
    store.parse_ad3(&default_store_ad3()).unwrap();
    // Run parse...
    store.parse_ad3(&string).unwrap();
    return store;
}

#[test]
fn get() {
    let store = init_store();
    // Get our resource...
    let my_resource = store.get(&"_:test".into()).unwrap();
    // Get our value by filtering on our property...
    let my_value = my_resource
        .get("https://atomicdata.dev/properties/shortname")
        .unwrap();
    println!("My value: {}", my_value);
    assert!(my_value == "hi");
}

#[test]
fn validate() {
    let store = init_store();
    store.validate_store().unwrap();
}

#[test]
#[should_panic]
fn validate_invalid() {
    let mut store = init_store();
    let invalid_ad3 =
        // should be array, is string
        String::from("[\"_:test\",\"https://atomicdata.dev/properties/requires\",\"Test\"]");
    store.parse_ad3(&invalid_ad3).unwrap();
    store.validate_store().unwrap();
}

#[test]
fn validate_invalid_names_the_value() {
    let mut store = init_store();
    store
        .parse_ad3(&String::from(
            "[\"_:test\",\"https://atomicdata.dev/properties/requires\",\"Test\"]",
        ))
        .unwrap();
    let e = store.validate_store().unwrap_err();
    assert_eq!(e, Error::NotAnArray { raw: "Test".into() });
    assert_eq!(e.kind(), ErrorKind::Parse);
}

#[test]
fn empty_store_has_nothing() {
    let store = Store::init();
    assert_eq!(store.len(), 0);
    assert!(store.get(&"_:test".into()).is_none());
    assert!(store.validate_store().is_ok());
    assert_eq!(store.to_ad3().unwrap(), "");
}

#[test]
fn add_atoms_creates_merges_and_replaces() {
    let mut store = Store::init();
    let a = Atom::new("s".into(), "p".into(), "1".into());
    let b = Atom::new("s".into(), "q".into(), "2".into());
    let c = Atom::new("t".into(), "p".into(), "3".into());
    let d = Atom::new("s".into(), "p".into(), "4".into());
    assert!(store.add_atoms(vec![&a, &b, &c, &d]).is_ok());
    assert_eq!(store.len(), 2);
    let s = store.get(&"s".into()).unwrap();
    assert_eq!(s.len(), 2);
    assert_eq!(s.get("p").unwrap(), "4");
    assert_eq!(s.get("q").unwrap(), "2");
    // A replaced value keeps its place.
    assert_eq!(s.property_at(0), "p");
    assert_eq!(s.value_at(0), "4");
    assert_eq!(s.property_at(1), "q");
    assert_eq!(store.subject_at(0), "s");
    assert_eq!(store.subject_at(1), "t");
    assert_eq!(store.get(&"t".into()).unwrap().get("p").unwrap(), "3");
}

#[test]
fn add_resource_replaces_the_whole_resource() {
    let mut store = Store::init();
    store.add_atom("s", "p", "1");
    store.add_atom("s", "q", "2");
    let mut resource = Resource::new();
    assert_eq!(resource.insert("r".into(), "3".into()), None);
    assert_eq!(resource.insert("r".into(), "4".into()), Some("3".to_string()));
    assert!(store.add_resource("s".into(), resource.clone()).is_ok());
    assert!(store.add_resource("u".into(), resource).is_ok());
    let s = store.get(&"s".into()).unwrap();
    assert_eq!(s.len(), 1);
    assert!(s.get("p").is_none());
    assert!(!s.contains_key("q"));
    assert!(s.contains_key("r"));
    assert_eq!(s.get("r").unwrap(), "4");
    assert_eq!(store.len(), 2);
    assert_eq!(store.resource_of("u").unwrap().get("r").unwrap(), "4");
}

#[test]
fn a_copy_of_the_store_is_not_touched_by_later_changes() {
    let mut store = Store::init();
    store.add_atom("s", "p", "1");
    let copy = store.clone();
    let all = store.all_resources();
    store.add_atom("s", "p", "2");
    store.add_atom("t", "p", "3");
    assert_eq!(copy.len(), 1);
    assert_eq!(copy.get(&"s".into()).unwrap().get("p").unwrap(), "1");
    assert_eq!(all.len(), 1);
    assert_eq!(all[0].0, "s");
    assert_eq!(all[0].1.get("p").unwrap(), "1");
    assert_eq!(store.all_resources().len(), 2);
}

#[test]
fn get_property_reads_the_fields() {
    let store = init_store();
    let p = store.get_property(&SHORTNAME.into()).unwrap();
    assert_eq!(p.shortname, "shortname");
    assert_eq!(p.subject, SHORTNAME);
    assert_eq!(p.data_type, atomic_lib::DataType::Slug);
    assert_eq!(p.description, "A short name of something.");
    assert_eq!(p.class_type, None);
    assert_eq!(store.property_url_to_shortname(&IS_A.into()).unwrap(), "is-a");
}

#[test]
fn get_property_names_what_is_missing() {
    let mut store = Store::init();
    let url: String = "https://example.com/p".into();
    assert_eq!(
        store.get_property(&url).unwrap_err(),
        Error::ResourceNotFound { subject: url.clone() }
    );
    store.add_atom(&url, CLASSTYPE, "https://example.com/c");
    assert_eq!(
        store.get_property(&url).unwrap_err(),
        Error::DatatypeNotFound { property: url.clone() }
    );
    store.add_atom(&url, DATATYPE, "https://example.com/unknown");
    assert_eq!(
        store.get_property(&url).unwrap_err(),
        Error::ShortnameNotFound { subject: url.clone() }
    );
    assert_eq!(
        store.property_url_to_shortname(&url).unwrap_err(),
        Error::ShortnameNotFound { subject: url.clone() }
    );
    store.add_atom(&url, SHORTNAME, "p");
    let e = store.get_property(&url).unwrap_err();
    assert_eq!(e, Error::DescriptionNotFound { subject: url.clone() });
    assert_eq!(e.kind(), ErrorKind::NotFound);
    store.add_atom(&url, DESCRIPTION, "d");
    let p = store.get_property(&url).unwrap();
    assert_eq!(p.class_type, Some("https://example.com/c".to_string()));
    assert_eq!(
        p.data_type,
        atomic_lib::DataType::Unsupported("https://example.com/unknown".into())
    );
    assert_eq!(
        store.property_url_to_shortname(&"nothing".into()).unwrap_err(),
        Error::ResourceNotFound { subject: "nothing".into() }
    );
}

#[test]
fn shortname_is_looked_up_among_the_properties_of_the_resource() {
    let store = init_store();
    let resource = store.get(&SHORTNAME.into()).unwrap();
    assert_eq!(
        store.property_shortname_to_url(&"datatype".into(), resource).unwrap(),
        DATATYPE
    );
    assert_eq!(
        store.property_shortname_to_url(&"is-a".into(), resource).unwrap(),
        IS_A
    );
    // The resource has no property of that shortname, though the store knows it.
    let e = store.property_shortname_to_url(&"requires".into(), resource).unwrap_err();
    assert_eq!(e, Error::UnknownShortname { shortname: "requires".into() });
    assert_eq!(e.kind(), ErrorKind::NotFound);
    // A property that cannot be read stops the search.
    let mut odd = Resource::new();
    odd.insert("https://example.com/unknown".into(), "x".into());
    odd.insert(SHORTNAME.into(), "y".into());
    assert_eq!(
        store.property_shortname_to_url(&"shortname".into(), &odd).unwrap_err(),
        Error::ResourceNotFound { subject: "https://example.com/unknown".into() }
    );
}

#[test]
fn classes_are_resolved_with_their_properties() {
    let store = init_store();
    let class = store.get_class(&PROPERTY.into());
    assert_eq!(class.shortname, "property");
    assert_eq!(class.subject, PROPERTY);
    assert_eq!(class.description, "A relation between a subject and a value.");
    let required: Vec<&str> = class.requires.iter().map(|p| p.shortname.as_str()).collect();
    assert_eq!(required, vec!["shortname", "datatype", "description"]);
    let recommended: Vec<&str> = class.recommends.iter().map(|p| p.subject.as_str()).collect();
    assert_eq!(recommended, vec![CLASSTYPE]);
    assert_eq!(store.resolve_class(&PROPERTY.into()).unwrap(), class);
    let classes = store.get_classes_for_subject(&PROPERTY.into()).unwrap();
    assert_eq!(classes.len(), 1);
    assert_eq!(classes[0].shortname, "class");
    // No isA: no classes.
    assert!(store.get_classes_for_subject(&"_:test".into()).unwrap().is_empty());
    assert_eq!(
        store.get_classes_for_subject(&"_:none".into()).unwrap_err(),
        Error::ResourceNotFound { subject: "_:none".into() }
    );
}

#[test]
fn class_resolution_names_what_is_missing() {
    let mut store = init_store();
    let c: String = "https://example.com/c".into();
    assert_eq!(
        store.resolve_class(&c).unwrap_err(),
        Error::ResourceNotFound { subject: c.clone() }
    );
    store.add_atom(&c, DESCRIPTION, "d");
    assert_eq!(
        store.resolve_class(&c).unwrap_err(),
        Error::ShortnameNotFound { subject: c.clone() }
    );
    store.add_atom(&c, SHORTNAME, "c");
    let class = store.resolve_class(&c).unwrap();
    assert!(class.requires.is_empty());
    assert!(class.recommends.is_empty());
    store.add_atom(&c, REQUIRES, "no array");
    assert_eq!(
        store.resolve_class(&c).unwrap_err(),
        Error::NotAnArray { raw: "no array".into() }
    );
    store.add_atom(&c, REQUIRES, "[\"https://example.com/p\"]");
    assert_eq!(
        store.resolve_class(&c).unwrap_err(),
        Error::ResourceNotFound { subject: "https://example.com/p".into() }
    );
    let d: String = "https://example.com/d".into();
    store.add_atom(&d, SHORTNAME, "d");
    assert_eq!(
        store.resolve_class(&d).unwrap_err(),
        Error::DescriptionNotFound { subject: d.clone() }
    );
    store.add_atom("_:x", IS_A, "[\"https://example.com/d\"]");
    assert_eq!(
        store.get_classes_for_subject(&"_:x".into()).unwrap_err(),
        Error::DescriptionNotFound { subject: d }
    );
    store.add_atom("_:y", IS_A, "{}");
    assert_eq!(
        store.get_classes_for_subject(&"_:y".into()).unwrap_err(),
        Error::NotAnArray { raw: "{}".into() }
    );
}

#[test]
fn properties_and_classes_from_what_was_read() {
    let store = init_store();
    assert_eq!(
        store.properties_read("raw", None).unwrap_err(),
        Error::NotAnArray { raw: "raw".into() }
    );
    let ps = store
        .properties_read("raw", Some(vec![IS_A.to_string(), SHORTNAME.to_string()]))
        .unwrap();
    assert_eq!(ps.len(), 2);
    assert_eq!(ps[0].shortname, "is-a");
    assert_eq!(ps[1].shortname, "shortname");
    assert!(store.properties_read("raw", Some(vec![])).unwrap().is_empty());
    assert_eq!(
        store.classes_read("raw", None).unwrap_err(),
        Error::NotAnArray { raw: "raw".into() }
    );
    let cs = store.classes_read("raw", Some(vec![CLASS.to_string()])).unwrap();
    assert_eq!(cs.len(), 1);
    assert_eq!(cs[0].subject, CLASS);
    assert_eq!(
        store
            .classes_at(&vec![CLASS.to_string(), "_:none".to_string(), "_:other".to_string()])
            .unwrap_err(),
        Error::ResourceNotFound { subject: "_:none".into() }
    );
}

#[test]
fn a_missing_required_property_fails_validation() {
    let mut store = init_store();
    let p: String = "https://example.com/p".into();
    // A property without a description asserts the class Property.
    store.add_atom(&p, IS_A, &array(&[CLASS, PROPERTY]));
    store.add_atom(&p, SHORTNAME, "p");
    store.add_atom(&p, DATATYPE, "https://atomicdata.dev/datatypes/string");
    let e = store.validate_store().unwrap_err();
    assert_eq!(
        e,
        Error::RequiredMissing {
            subject: p.clone(),
            shortname: "description".into(),
            class: CLASS.into(),
        }
    );
    assert_eq!(e.kind(), ErrorKind::Validation);
    // With the class Property alone, that class is named.
    store.add_atom(&p, IS_A, &array(&[PROPERTY]));
    assert_eq!(
        store.validate_store().unwrap_err(),
        Error::RequiredMissing {
            subject: p.clone(),
            shortname: "description".into(),
            class: PROPERTY.into(),
        }
    );
    store.add_atom(&p, DESCRIPTION, "d");
    assert!(store.validate_store().is_ok());
}

#[test]
fn validation_reports_the_first_fault() {
    let mut store = init_store();
    store.add_atom("_:a", "https://example.com/unknown", "x");
    store.add_atom("_:b", SHORTNAME, "Not A Slug");
    assert_eq!(
        store.validate_store().unwrap_err(),
        Error::ResourceNotFound { subject: "https://example.com/unknown".into() }
    );
    let mut store = init_store();
    store.add_atom("_:b", SHORTNAME, "Not A Slug");
    store.add_atom("_:a", "https://example.com/unknown", "x");
    let e = store.validate_store().unwrap_err();
    assert_eq!(e, Error::NotASlug { raw: "Not A Slug".into() });
    assert_eq!(e.kind(), ErrorKind::Validation);
    let b = store.get(&"_:b".into()).unwrap();
    assert_eq!(store.check_values(b).unwrap_err(), e);
    assert_eq!(store.validate_resource(&"_:b".into(), b).unwrap_err(), e);
    let class = store.get_class(&CLASS.into());
    assert_eq!(
        Store::check_class(&"_:b".into(), b, &class).unwrap_err(),
        Error::RequiredMissing {
            subject: "_:b".into(),
            shortname: "description".into(),
            class: CLASS.into(),
        }
    );
    assert!(Store::check_classes(&"_:b".into(), b, &vec![]).is_ok());
    assert!(Store::check_class(&CLASS.into(), store.get(&CLASS.into()).unwrap(), &class).is_ok());
}
