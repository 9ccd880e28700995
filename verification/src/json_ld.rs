//! JSON-LD: one resource as a JSON document, keyed by the shortnames of its
//! properties, with a context that gives each shortname its URL and type.

use crate::assoc::{lookup, Pairs, Resources};
use crate::errors::{outcome, Error, ErrorView};
use crate::json::{
    fields_view, items_view, json_pretty_text, printable, write_pretty, Json, JsonView,
};
use crate::schema::property_of;
use crate::store::Store;
use crate::text::{text_of, texts};
use crate::values::{decode, DataType, DataTypeView, Value, ValueView};
use vstd::prelude::*;

verus! {

/// The key under which a context entry gives the property's URL.
pub const ID: &'static str = "@id";

/// The key under which a context entry gives the type of the values.
pub const TYPE: &'static str = "@type";

/// The key under which a context entry says how several values are held.
pub const CONTAINER: &'static str = "@container";

/// Held as an ordered list.
pub const LIST: &'static str = "@list";

/// The key of the context in a document.
pub const CONTEXT: &'static str = "@context";

/// The XML Schema type of a date.
pub const XSD_DATE: &'static str = "http://www.w3.org/2001/XMLSchema#date";

/// The XML Schema type of an integer.
pub const XSD_INTEGER: &'static str = "http://www.w3.org/2001/XMLSchema#integer";

/// `value` in the form native to JSON: integers and timestamps are numbers,
/// a resource array is a list of texts, everything else is text.
pub open spec fn native_json(value: ValueView) -> JsonView {
    match value {
        ValueView::AtomicUrl(s) => JsonView::Text(s),
        ValueView::Date(s) => JsonView::Text(s),
        ValueView::Integer(i) => JsonView::Number(i as i64),
        ValueView::Markdown(s) => JsonView::Text(s),
        ValueView::ResourceArray(items) => JsonView::List(
            Seq::new(items.len(), |i: int| JsonView::Text(items[i])),
        ),
        ValueView::Slug(s) => JsonView::Text(s),
        ValueView::String(s) => JsonView::Text(s),
        ValueView::Timestamp(t) => JsonView::Number(t),
        ValueView::Unsupported { value, .. } => JsonView::Text(value),
    }
}

/// An object of two fields whose values are texts.
pub open spec fn text_pair(
    first: Seq<char>,
    first_value: Seq<char>,
    second: Seq<char>,
    second_value: Seq<char>,
) -> JsonView {
    JsonView::Object(
        seq![(first, JsonView::Text(first_value)), (second, JsonView::Text(second_value))],
    )
}

/// What the context says of the property at `url` with values of `datatype`:
/// for a URL, a date, an integer or a resource array an object with the URL
/// and the type or the list container; for every other datatype the URL alone.
pub open spec fn context_json(url: Seq<char>, datatype: DataTypeView) -> JsonView {
    match datatype {
        DataTypeView::AtomicUrl => text_pair(ID@, url, TYPE@, ID@),
        DataTypeView::Date => text_pair(ID@, url, TYPE@, XSD_DATE@),
        DataTypeView::Integer => text_pair(ID@, url, TYPE@, XSD_INTEGER@),
        DataTypeView::ResourceArray => text_pair(ID@, url, CONTAINER@, LIST@),
        _ => JsonView::Text(url),
    }
}

/// The fields and the context entries for `pairs`, in order: for each
/// property its shortname with the value, and its shortname with what the
/// context says of it. The first property that does not resolve, or value
/// that does not decode, is the failure.
pub open spec fn projected(
    store: Resources,
    pairs: Pairs,
) -> Result<(Seq<(Seq<char>, JsonView)>, Seq<(Seq<char>, JsonView)>), ErrorView>
    decreases pairs.len(),
{
    if pairs.len() == 0 {
        Ok((Seq::empty(), Seq::empty()))
    } else {
        match projected(store, pairs.drop_last()) {
            Err(e) => Err(e),
            Ok((fields, context)) => {
                let (url, raw) = pairs.last();
                match property_of(store, url) {
                    Err(e) => Err(e),
                    Ok(property) => match decode(raw, property.data_type) {
                        Err(e) => Err(e),
                        Ok(value) => Ok(
                            (
                                fields.push((property.shortname, native_json(value))),
                                context.push(
                                    (property.shortname, context_json(url, property.data_type)),
                                ),
                            ),
                        ),
                    },
                }
            },
        }
    }
}

/// The JSON-LD document of the resource at `subject`: its fields, then the
/// context, then the subject under `@id`.
pub open spec fn json_ld(store: Resources, subject: Seq<char>) -> Result<JsonView, ErrorView> {
    match lookup(store, subject) {
        None => Err(ErrorView::ResourceNotFound { subject }),
        Some(pairs) => match projected(store, pairs) {
            Err(e) => Err(e),
            Ok((fields, context)) => Ok(
                JsonView::Object(
                    fields.push((CONTEXT@, JsonView::Object(context))).push(
                        (ID@, JsonView::Text(subject)),
                    ),
                ),
            ),
        },
    }
}

/// The document of `subject` as text, given what the printer made of it.
pub open spec fn printed(subject: Seq<char>, written: Option<Seq<char>>) -> Result<
    Seq<char>,
    ErrorView,
> {
    match written {
        Some(text) => Ok(text),
        None => Err(ErrorView::NotWritten { subject }),
    }
}

/// The JSON-LD document of the resource at `subject`, printed.
pub open spec fn json_ld_text(
    store: Resources,
    subject: Seq<char>,
) -> Result<Seq<char>, ErrorView> {
    match json_ld(store, subject) {
        Err(e) => Err(e),
        Ok(doc) => printed(subject, json_pretty_text(doc)),
    }
}

impl Value {
    /// This value in the form native to JSON.
    pub fn to_json(&self) -> (doc: Json)
        ensures
            doc@ == native_json(self@),
    {
        match self {
            Value::AtomicUrl(s) => Json::text(s.clone()),
            Value::Date(s) => Json::text(s.clone()),
            Value::Integer(i) => Json::number(*i as i64),
            Value::Markdown(s) => Json::text(s.clone()),
            Value::ResourceArray(items) => {
                let mut list: Vec<Json> = Vec::new();
                let mut i: usize = 0;
                assert(items_view(list@) =~= native_json(self@)->List_0.take(0));
                while i < items.len()
                    invariant
                        i <= items.len(),
                        self@ == ValueView::ResourceArray(texts(items@)),
                        items_view(list@) == native_json(self@)->List_0.take(i as int),
                    decreases items.len() - i,
                {
                    let ghost before = items_view(list@);
                    let item = Json::text(items[i].clone());
                    list.push(item);
                    assert(items_view(list@) =~= before.push(item@));
                    assert(native_json(self@)->List_0.take(i + 1) =~= native_json(
                        self@,
                    )->List_0.take(i as int).push(JsonView::Text(items@[i as int]@)));
                    i += 1;
                }
                assert(native_json(self@)->List_0.take(items.len() as int) =~= native_json(
                    self@,
                )->List_0);
                Json::list(list)
            },
            Value::Slug(s) => Json::text(s.clone()),
            Value::String(s) => Json::text(s.clone()),
            Value::Timestamp(t) => Json::number(*t),
            Value::Unsupported(u) => Json::text(u.value.clone()),
        }
    }
}

fn pair_object(first: &str, first_value: &str, second: &str, second_value: &str) -> (doc: Json)
    ensures
        doc@ == text_pair(first@, first_value@, second@, second_value@),
{
    let mut fields: Vec<(String, Json)> = Vec::new();
    fields.push((first.to_owned(), Json::text(first_value.to_owned())));
    fields.push((second.to_owned(), Json::text(second_value.to_owned())));
    let doc = Json::object(fields);
    assert(doc@->Object_0 =~= seq![
        (first@, JsonView::Text(first_value@)),
        (second@, JsonView::Text(second_value@)),
    ]);
    doc
}

/// What the context says of the property at `url` with values of `datatype`.
pub fn context_entry(url: &str, datatype: &DataType) -> (doc: Json)
    ensures
        doc@ == context_json(url@, datatype@),
{
    match datatype {
        DataType::AtomicUrl => pair_object(ID, url, TYPE, ID),
        DataType::Date => pair_object(ID, url, TYPE, XSD_DATE),
        DataType::Integer => pair_object(ID, url, TYPE, XSD_INTEGER),
        DataType::ResourceArray => pair_object(ID, url, CONTAINER, LIST),
        _ => Json::text(url.to_owned()),
    }
}

impl Store {
    /// The JSON-LD document of the resource at `subject`.
    pub fn json_ld(&self, subject: &String) -> (r: Result<Json, Error>)
        ensures
            outcome(r) == json_ld(self@, subject@),
    {
        let resource = match self.get(subject) {
            Some(resource) => resource,
            None => return Err(Error::ResourceNotFound { subject: subject.clone() }),
        };
        let mut fields: Vec<(String, Json)> = Vec::new();
        let mut context: Vec<(String, Json)> = Vec::new();
        let mut i: usize = 0;
        assert(resource@.take(0) =~= Pairs::empty());
        assert(fields_view(fields@) =~= Seq::<(Seq<char>, JsonView)>::empty());
        assert(fields_view(context@) =~= Seq::<(Seq<char>, JsonView)>::empty());
        while i < resource.len()
            invariant
                i <= resource@.len(),
                lookup(self@, subject@) == Some(resource@),
                projected(self@, resource@.take(i as int)) == Ok::<
                    (Seq<(Seq<char>, JsonView)>, Seq<(Seq<char>, JsonView)>),
                    ErrorView,
                >((fields_view(fields@), fields_view(context@))),
            decreases resource@.len() - i,
        {
            let ghost now = resource@.take(i + 1);
            assert(now.drop_last() =~= resource@.take(i as int));
            assert(now.last() == resource@[i as int]);
            let url = resource.property_at(i);
            let property = match self.get_property(url) {
                Ok(property) => property,
                Err(e) => {
                    proof {
                        lemma_projection_fails(self@, resource@, i + 1);
                    }
                    return Err(e);
                },
            };
            let value = match Value::new(resource.value_at(i).as_str(), &property.data_type) {
                Ok(value) => value,
                Err(e) => {
                    proof {
                        lemma_projection_fails(self@, resource@, i + 1);
                    }
                    return Err(e);
                },
            };
            let ghost fields_before = fields_view(fields@);
            let ghost context_before = fields_view(context@);
            let entry = context_entry(url.as_str(), &property.data_type);
            let field = value.to_json();
            context.push((property.shortname.clone(), entry));
            fields.push((property.shortname, field));
            assert(fields_view(fields@) =~= fields_before.push(
                (property@.shortname, native_json(value@)),
            ));
            assert(fields_view(context@) =~= context_before.push(
                (property@.shortname, context_json(url@, property@.data_type)),
            ));
            i += 1;
        }
        assert(resource@.take(resource@.len() as int) =~= resource@);
        let ghost plain = fields_view(fields@);
        let context_doc = Json::object(context);
        fields.push((CONTEXT.to_owned(), context_doc));
        fields.push((ID.to_owned(), Json::text(subject.clone())));
        assert(fields_view(fields@) =~= plain.push((CONTEXT@, context_doc@)).push(
            (ID@, JsonView::Text(subject@)),
        ));
        Ok(Json::object(fields))
    }

    /// The document of `subject` as text, given what the printer made of it:
    /// a failure where nothing was printed.
    pub fn printed(subject: &String, written: Option<String>) -> (r: Result<String, Error>)
        ensures
            outcome(r) == printed(subject@, text_of(written)),
    {
        match written {
            Some(text) => Ok(text),
            None => Err(Error::NotWritten { subject: subject.clone() }),
        }
    }

    /// Serializes a single Resource to a JSON-LD document.
    /// It uses the Shortnames of properties for Keys. The depth is not used:
    /// resources that a value points to are not nested.
    pub fn resource_to_json(&self, resource_url: &String, _depth: u32) -> (r: Result<String, Error>)
        ensures
            outcome(r) == json_ld_text(self@, resource_url@),
    {
        match self.json_ld(resource_url) {
            Err(e) => Err(e),
            Ok(doc) => Store::printed(resource_url, write_pretty(&printable(&doc))),
        }
    }
}

/// Where a beginning of `pairs` fails to project, the whole fails in the same way.
pub proof fn lemma_projection_fails(store: Resources, pairs: Pairs, k: int)
    requires
        0 <= k <= pairs.len(),
        projected(store, pairs.take(k)) is Err,
    ensures
        projected(store, pairs) == projected(store, pairs.take(k)),
    decreases pairs.len() - k,
{
    if k < pairs.len() {
        assert(pairs.take(k + 1).drop_last() =~= pairs.take(k));
        lemma_projection_fails(store, pairs, k + 1);
    } else {
        assert(pairs.take(k) =~= pairs);
    }
}

} // verus!
