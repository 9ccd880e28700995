use atomic_lib::json_ld::context_entry;
use atomic_lib::{DataType, Error, ErrorKind, Json, Store, UnsupportedValue, Value};

const SHORTNAME: &str = "https://atomicdata.dev/properties/shortname";
const DESCRIPTION: &str = "https://atomicdata.dev/properties/description";
const DATATYPE: &str = "https://atomicdata.dev/properties/datatype";

fn property(store: &mut Store, url: &str, shortname: &str, datatype: &str) {
    store.add_atom(url, SHORTNAME, shortname);
    store.add_atom(url, DESCRIPTION, "described");
    store.add_atom(url, DATATYPE, datatype);
}

fn sample() -> Store {
    let mut store = Store::init();
    property(&mut store, "https://example.com/count", "count", "https://atomicdata.dev/datatypes/integer");
    property(&mut store, "https://example.com/born", "born", "https://atomicdata.dev/datatypes/date");
    property(&mut store, "https://example.com/friend", "friend", "https://atomicdata.dev/datatypes/atomicURL");
    property(&mut store, "https://example.com/children", "children", "https://atomicdata.dev/datatypes/resourceArray");
    property(&mut store, "https://example.com/seen", "seen", "https://atomicdata.dev/datatypes/timestamp");
    property(&mut store, "https://example.com/name", "name", "https://atomicdata.dev/datatypes/string");
    property(&mut store, "https://example.com/other", "other", "https://example.com/datatype");
    store
}

#[test]
fn an_integer_is_a_number_with_the_type_of_an_integer() {
    let mut store = sample();
    store.add_atom("https://example.com/a", "https://example.com/count", "5");
    let text = store.resource_to_json(&"https://example.com/a".into(), 1).unwrap();
    let doc: serde_json::Value = serde_json::from_str(&text).unwrap();
    assert!(doc["count"].is_number());
    assert_eq!(doc["count"].as_i64(), Some(5));
    assert_eq!(doc["@context"]["count"]["@type"], "http://www.w3.org/2001/XMLSchema#integer");
    assert_eq!(doc["@context"]["count"]["@id"], "https://example.com/count");
    assert_eq!(doc["@id"], "https://example.com/a");
    assert_eq!(doc.as_object().unwrap().len(), 3);
    assert_eq!(
        text,
        "{\n  \"@context\": {\n    \"count\": {\n      \"@id\": \"https://example.com/count\",\n      \"@type\": \"http://www.w3.org/2001/XMLSchema#integer\"\n    }\n  },\n  \"@id\": \"https://example.com/a\",\n  \"count\": 5\n}"
    );
}

#[test]
fn the_document_of_a_resource() {
    let mut store = sample();
    let a = "https://example.com/a";
    store.add_atom(a, "https://example.com/count", "-5");
    store.add_atom(a, "https://example.com/children", "[\"https://example.com/c\",\"https://example.com/b\"]");
    store.add_atom(a, "https://example.com/name", "A");
    let doc = store.json_ld(&a.into()).unwrap();
    let pair = |k1: &str, v1: &str, k2: &str, v2: &str| {
        Json::Object(vec![
            (k1.to_string(), Json::Text(v1.to_string())),
            (k2.to_string(), Json::Text(v2.to_string())),
        ])
    };
    let expected = Json::Object(vec![
        ("count".into(), Json::Number(-5)),
        (
            "children".into(),
            Json::List(vec![
                Json::Text("https://example.com/c".into()),
                Json::Text("https://example.com/b".into()),
            ]),
        ),
        ("name".into(), Json::Text("A".into())),
        (
            "@context".into(),
            Json::Object(vec![
                (
                    "count".into(),
                    pair("@id", "https://example.com/count", "@type", "http://www.w3.org/2001/XMLSchema#integer"),
                ),
                (
                    "children".into(),
                    pair("@id", "https://example.com/children", "@container", "@list"),
                ),
                ("name".into(), Json::Text("https://example.com/name".into())),
            ]),
        ),
        ("@id".into(), Json::Text(a.into())),
    ]);
    assert_eq!(doc, expected);
}

#[test]
fn values_in_the_form_native_to_json() {
    assert_eq!(Value::AtomicUrl("u".into()).to_json(), Json::Text("u".into()));
    assert_eq!(Value::Date("2022-01-31".into()).to_json(), Json::Text("2022-01-31".into()));
    assert_eq!(Value::Integer(i32::MIN).to_json(), Json::Number(i32::MIN as i64));
    assert_eq!(Value::Markdown("m".into()).to_json(), Json::Text("m".into()));
    assert_eq!(
        Value::ResourceArray(vec!["b".into(), "a".into()]).to_json(),
        Json::List(vec![Json::Text("b".into()), Json::Text("a".into())])
    );
    assert_eq!(Value::ResourceArray(vec![]).to_json(), Json::List(vec![]));
    assert_eq!(Value::Slug("s".into()).to_json(), Json::Text("s".into()));
    assert_eq!(Value::String("s".into()).to_json(), Json::Text("s".into()));
    assert_eq!(Value::Timestamp(i64::MAX).to_json(), Json::Number(i64::MAX));
    assert_eq!(
        Value::Unsupported(UnsupportedValue { value: "v".into(), datatype: "d".into() }).to_json(),
        Json::Text("v".into())
    );
}

#[test]
fn what_the_context_says_of_each_datatype() {
    let pair = |k2: &str, v2: &str| {
        Json::Object(vec![
            ("@id".to_string(), Json::Text("u".to_string())),
            (k2.to_string(), Json::Text(v2.to_string())),
        ])
    };
    assert_eq!(context_entry("u", &DataType::AtomicUrl), pair("@type", "@id"));
    assert_eq!(
        context_entry("u", &DataType::Date),
        pair("@type", "http://www.w3.org/2001/XMLSchema#date")
    );
    assert_eq!(
        context_entry("u", &DataType::Integer),
        pair("@type", "http://www.w3.org/2001/XMLSchema#integer")
    );
    assert_eq!(context_entry("u", &DataType::ResourceArray), pair("@container", "@list"));
    for plain in [
        DataType::Markdown,
        DataType::Slug,
        DataType::String,
        DataType::Timestamp,
        DataType::Unsupported("d".into()),
    ] {
        assert_eq!(context_entry("u", &plain), Json::Text("u".into()));
    }
}

#[test]
fn every_datatype_in_a_printed_document() {
    let mut store = sample();
    let a = "https://example.com/a";
    store.add_atom(a, "https://example.com/born", "2022-01-31");
    store.add_atom(a, "https://example.com/friend", "https://example.com/b");
    store.add_atom(a, "https://example.com/children", "[\"x\",\"y\"]");
    store.add_atom(a, "https://example.com/seen", "1640995200");
    store.add_atom(a, "https://example.com/other", "raw \"text\"");
    let text = store.resource_to_json(&a.into(), 0).unwrap();
    let doc: serde_json::Value = serde_json::from_str(&text).unwrap();
    assert_eq!(doc["born"], "2022-01-31");
    assert_eq!(doc["@context"]["born"]["@type"], "http://www.w3.org/2001/XMLSchema#date");
    assert_eq!(doc["friend"], "https://example.com/b");
    assert_eq!(doc["@context"]["friend"]["@type"], "@id");
    assert_eq!(doc["@context"]["friend"]["@id"], "https://example.com/friend");
    assert_eq!(doc["children"][0], "x");
    assert_eq!(doc["children"][1], "y");
    assert_eq!(doc["children"].as_array().unwrap().len(), 2);
    assert_eq!(doc["@context"]["children"]["@container"], "@list");
    assert_eq!(doc["seen"].as_i64(), Some(1640995200));
    assert_eq!(doc["@context"]["seen"], "https://example.com/seen");
    assert_eq!(doc["other"], "raw \"text\"");
    assert_eq!(doc["@context"]["other"], "https://example.com/other");
    assert_eq!(doc["@id"], a);
}

#[test]
fn projection_fails_as_its_parts_fail() {
    let mut store = sample();
    let e = store.resource_to_json(&"https://example.com/none".into(), 1).unwrap_err();
    assert_eq!(e, Error::ResourceNotFound { subject: "https://example.com/none".into() });
    assert_eq!(e.kind(), ErrorKind::NotFound);
    store.add_atom("_:a", "https://example.com/count", "five");
    assert_eq!(
        store.resource_to_json(&"_:a".into(), 1).unwrap_err(),
        Error::NotAnInteger { raw: "five".into() }
    );
    assert_eq!(
        store.json_ld(&"_:a".into()).unwrap_err(),
        Error::NotAnInteger { raw: "five".into() }
    );
    store.add_atom("_:b", "https://example.com/undescribed", "x");
    assert_eq!(
        store.resource_to_json(&"_:b".into(), 1).unwrap_err(),
        Error::ResourceNotFound { subject: "https://example.com/undescribed".into() }
    );
    let e = Store::printed(&"_:a".into(), None).unwrap_err();
    assert_eq!(e, Error::NotWritten { subject: "_:a".into() });
    assert_eq!(Store::printed(&"_:a".into(), Some("{}".into())).unwrap(), "{}");
}

#[test]
fn documents_are_built_from_parts() {
    assert_eq!(Json::text("a".into()), Json::Text("a".into()));
    assert_eq!(Json::number(3), Json::Number(3));
    assert_eq!(Json::list(vec![Json::Number(1)]), Json::List(vec![Json::Number(1)]));
    assert_eq!(
        Json::object(vec![("k".into(), Json::Number(1))]),
        Json::Object(vec![("k".into(), Json::Number(1))])
    );
}
