use atomic_lib::search::is_searchable;
use atomic_lib::{Atom, Error, Store, UnsupportedValue, Value};

const SHORTNAME: &str = "https://atomicdata.dev/properties/shortname";
const DESCRIPTION: &str = "https://atomicdata.dev/properties/description";
const DATATYPE: &str = "https://atomicdata.dev/properties/datatype";

fn property(store: &mut Store, url: &str, shortname: &str, datatype: &str) {
    store.add_atom(url, SHORTNAME, shortname);
    store.add_atom(url, DESCRIPTION, "described");
    store.add_atom(url, DATATYPE, datatype);
}

#[test]
fn commits_are_not_indexed() {
    assert!(is_searchable("https://example.com/a"));
    assert!(!is_searchable("https://example.com/commits/1"));
    assert!(is_searchable("https://example.com/commits"));
    let mut store = Store::init();
    store.add_atom("https://example.com/a", "p", "v");
    store.add_atom("https://example.com/commits/1", "p", "v");
    store.add_atom("https://example.com/b", "p", "v");
    assert_eq!(
        store.subjects_to_index(),
        vec!["https://example.com/a".to_string(), "https://example.com/b".to_string()]
    );
    assert_eq!(store.all_resources().len(), 3);
}

#[test]
fn links_are_not_indexed() {
    assert_eq!(Value::AtomicUrl("u".into()).indexed_text(), None);
    assert_eq!(Value::ResourceArray(vec!["u".into()]).indexed_text(), None);
    assert_eq!(Value::Integer(-3).indexed_text(), Some("-3".to_string()));
    assert_eq!(Value::Timestamp(3).indexed_text(), Some("3".to_string()));
    assert_eq!(Value::String("s".into()).indexed_text(), Some("s".to_string()));
    assert_eq!(Value::Slug("s".into()).indexed_text(), Some("s".to_string()));
    assert_eq!(Value::Date("2022-01-31".into()).indexed_text(), Some("2022-01-31".to_string()));
    assert_eq!(Value::Markdown("m".into()).indexed_text(), Some("m".to_string()));
    assert_eq!(
        Value::Unsupported(UnsupportedValue { value: "v".into(), datatype: "d".into() })
            .indexed_text(),
        Some("v".to_string())
    );
}

#[test]
fn the_triples_of_a_resource() {
    let mut store = Store::init();
    property(&mut store, SHORTNAME, "shortname", "https://atomicdata.dev/datatypes/slug");
    property(&mut store, DESCRIPTION, "description", "https://atomicdata.dev/datatypes/markdown");
    property(&mut store, DATATYPE, "datatype", "https://atomicdata.dev/datatypes/atomicURL");
    property(&mut store, "https://example.com/count", "count", "https://atomicdata.dev/datatypes/integer");
    property(&mut store, "https://example.com/list", "list", "https://atomicdata.dev/datatypes/resourceArray");
    let triples = store.triples_to_index(&SHORTNAME.into()).unwrap();
    assert_eq!(
        triples,
        vec![
            Atom::new(SHORTNAME.into(), SHORTNAME.into(), "shortname".into()),
            Atom::new(SHORTNAME.into(), DESCRIPTION.into(), "described".into()),
        ]
    );
    store.add_atom("_:a", "https://example.com/list", "[\"x\"]");
    store.add_atom("_:a", "https://example.com/count", "+012");
    let triples = store.triples_to_index(&"_:a".into()).unwrap();
    assert_eq!(
        triples,
        vec![Atom::new("_:a".into(), "https://example.com/count".into(), "12".into())]
    );
    store.add_atom("_:a", "https://example.com/count", "twelve");
    assert_eq!(
        store.triples_to_index(&"_:a".into()).unwrap_err(),
        Error::NotAnInteger { raw: "twelve".into() }
    );
    assert_eq!(
        store.triples_to_index(&"_:b".into()).unwrap_err(),
        Error::ResourceNotFound { subject: "_:b".into() }
    );
    store.add_atom("_:c", "https://example.com/undescribed", "x");
    assert_eq!(
        store.triples_to_index(&"_:c".into()).unwrap_err(),
        Error::ResourceNotFound { subject: "https://example.com/undescribed".into() }
    );
}
