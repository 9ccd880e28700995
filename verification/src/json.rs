//! JSON, as far as this library reads and writes it: arrays of strings on one
//! line, and documents printed over several lines. The reading and writing is
//! `serde_json`'s; what it returns is named here, not described.

use crate::text::texts;
use vstd::prelude::*;

verus! {

/// The array of strings that `serde_json::from_str` reads from `text`;
/// `None` where it rejects `text`.
pub uninterp spec fn json_string_array(text: Seq<char>) -> Option<Seq<Seq<char>>>;

/// The line that `serde_json::to_string` writes for the array `items`;
/// `None` where it fails.
pub uninterp spec fn json_array_text(items: Seq<Seq<char>>) -> Option<Seq<char>>;

/// The text that `serde_json::to_string_pretty` writes for the document
/// `doc`, once [`printable`] has brought it into the form that `serde_json`
/// prints; `None` where it fails.
pub uninterp spec fn json_pretty_text(doc: JsonView) -> Option<Seq<char>>;

/// The text that `serde_json::to_string_pretty` writes for the value that
/// `form` holds; `None` where it fails.
pub uninterp spec fn printed_text(form: Printable) -> Option<Seq<char>>;

/// What holds of a `text` that was written for `items`: it reads back as
/// `items`, opens with a bracket, closes with one, and holds no line feed.
pub open spec fn is_line_of(text: Seq<char>, items: Seq<Seq<char>>) -> bool {
    &&& json_string_array(text) == Some(items)
    &&& text.len() >= 2
    &&& text.first() == '['
    &&& text.last() == ']'
    &&& !text.contains('\n')
}

/// Calls `serde_json::from_str` for a `Vec<String>`. Not proved: that the
/// result is a function of the text alone, which [`json_string_array`] names.
#[verifier::external_body]
pub(crate) fn read_string_array(text: &str) -> (r: Option<Vec<String>>)
    ensures
        match r {
            Some(items) => json_string_array(text@) == Some(texts(items@)),
            None => json_string_array(text@) is None,
        },
{
    serde_json::from_str::<Vec<String>>(text).ok()
}

/// Calls `serde_json::to_string` on a `Vec<String>`. Not proved: that the
/// result is a function of the strings alone, which [`json_array_text`]
/// names; that what is written is read back by `serde_json::from_str` as the
/// same strings; that it starts with `[` and ends with `]`; and that it holds
/// no line feed, the serializer writing no white space outside strings and
/// every control character inside one as an escape.
#[verifier::external_body]
pub(crate) fn write_string_array(items: &Vec<String>) -> (r: Option<String>)
    ensures
        match r {
            Some(text) => json_array_text(texts(items@)) == Some(text@) && is_line_of(
                text@,
                texts(items@),
            ),
            None => json_array_text(texts(items@)) is None,
        },
{
    serde_json::to_string(items).ok()
}

/// A JSON document: text, a whole number, a list, or an object whose fields
/// are kept in the order in which they were added.
#[derive(Debug, PartialEq, Eq)]
pub enum Json {
    Text(String),
    Number(i64),
    List(Vec<Json>),
    Object(Vec<(String, Json)>),
}

/// [`Json`] as a mathematical value.
pub ghost enum JsonView {
    Text(Seq<char>),
    Number(i64),
    List(Seq<JsonView>),
    Object(Seq<(Seq<char>, JsonView)>),
}

/// The first `n` items of a list as mathematical values.
pub open spec fn list_view(items: Vec<Json>, n: nat) -> Seq<JsonView>
    decreases items, n,
{
    if n == 0 || n > items@.len() {
        Seq::empty()
    } else {
        list_view(items, (n - 1) as nat).push(json_view(items@[n - 1]))
    }
}

/// The first `n` fields of an object as mathematical values.
pub open spec fn object_view(fields: Vec<(String, Json)>, n: nat) -> Seq<(Seq<char>, JsonView)>
    decreases fields, n,
{
    if n == 0 || n > fields@.len() {
        Seq::empty()
    } else {
        object_view(fields, (n - 1) as nat).push((fields@[n - 1].0@, json_view(fields@[n - 1].1)))
    }
}

/// A document as a mathematical value.
pub open spec fn json_view(doc: Json) -> JsonView
    decreases doc, 0nat,
{
    match doc {
        Json::Text(s) => JsonView::Text(s@),
        Json::Number(n) => JsonView::Number(n),
        Json::List(items) => JsonView::List(list_view(items, items@.len())),
        Json::Object(fields) => JsonView::Object(object_view(fields, fields@.len())),
    }
}

impl View for Json {
    type V = JsonView;

    open spec fn view(&self) -> JsonView {
        json_view(*self)
    }
}

/// The fields of an object as mathematical values.
pub open spec fn fields_view(fields: Seq<(String, Json)>) -> Seq<(Seq<char>, JsonView)> {
    Seq::new(fields.len(), |i: int| (fields[i].0@, fields[i].1@))
}

/// The items of a list as mathematical values.
pub open spec fn items_view(items: Seq<Json>) -> Seq<JsonView> {
    Seq::new(items.len(), |i: int| items[i]@)
}

/// A list's view holds the views of its items.
pub proof fn lemma_list_view(items: Vec<Json>, n: nat)
    requires
        n <= items@.len(),
    ensures
        list_view(items, n) == items_view(items@).take(n as int),
    decreases n,
{
    if n > 0 {
        lemma_list_view(items, (n - 1) as nat);
        assert(items_view(items@).take(n as int) =~= items_view(items@).take(n - 1).push(
            items@[n - 1]@,
        ));
    } else {
        assert(items_view(items@).take(0) =~= Seq::<JsonView>::empty());
    }
}

/// An object's view holds its keys with the views of its values.
pub proof fn lemma_object_view(fields: Vec<(String, Json)>, n: nat)
    requires
        n <= fields@.len(),
    ensures
        object_view(fields, n) == fields_view(fields@).take(n as int),
    decreases n,
{
    if n > 0 {
        lemma_object_view(fields, (n - 1) as nat);
        assert(fields_view(fields@).take(n as int) =~= fields_view(fields@).take(n - 1).push(
            (fields@[n - 1].0@, fields@[n - 1].1@),
        ));
    } else {
        assert(fields_view(fields@).take(0) =~= Seq::<(Seq<char>, JsonView)>::empty());
    }
}

impl Json {
    /// The text `s`.
    pub fn text(s: String) -> (doc: Json)
        ensures
            doc@ == JsonView::Text(s@),
    {
        Json::Text(s)
    }

    /// The number `n`.
    pub fn number(n: i64) -> (doc: Json)
        ensures
            doc@ == JsonView::Number(n),
    {
        Json::Number(n)
    }

    /// The list of `items`.
    pub fn list(items: Vec<Json>) -> (doc: Json)
        ensures
            doc@ == JsonView::List(items_view(items@)),
    {
        proof {
            lemma_list_view(items, items@.len());
            assert(items_view(items@).take(items@.len() as int) =~= items_view(items@));
        }
        Json::List(items)
    }

    /// The object with `fields`.
    pub fn object(fields: Vec<(String, Json)>) -> (doc: Json)
        ensures
            doc@ == JsonView::Object(fields_view(fields@)),
    {
        proof {
            lemma_object_view(fields, fields@.len());
            assert(fields_view(fields@).take(fields@.len() as int) =~= fields_view(fields@));
        }
        Json::Object(fields)
    }
}

/// A document in the form that `serde_json` prints: a `serde_json::Value`.
#[verifier::external_body]
pub struct Printable {
    value: serde_json::Value,
}

/// Builds the `serde_json::Value` for `doc`, variant by variant. An object's
/// fields are added in their order, so of two fields with one key
/// `serde_json` keeps the later. Not proved: that what is printed for the
/// value depends on the document alone, which [`json_pretty_text`] names.
#[verifier::external_body]
pub(crate) fn printable(doc: &Json) -> (form: Printable)
    ensures
        printed_text(form) == json_pretty_text(doc@),
{
    let value = match doc {
        Json::Text(s) => serde_json::Value::String(s.clone()),
        Json::Number(n) => serde_json::Value::Number((*n).into()),
        Json::List(items) => serde_json::Value::Array(
            items.iter().map(|d| printable(d).value).collect(),
        ),
        Json::Object(fields) => serde_json::Value::Object(
            fields.iter().map(|f| (f.0.clone(), printable(&f.1).value)).collect(),
        ),
    };
    Printable { value }
}

/// Calls `serde_json::to_string_pretty` on the value that `form` holds. Not
/// proved: that the result is a function of that value alone, which
/// [`printed_text`] names.
#[verifier::external_body]
pub(crate) fn write_pretty(form: &Printable) -> (r: Option<String>)
    ensures
        match r {
            Some(text) => printed_text(*form) == Some(text@),
            None => printed_text(*form) is None,
        },
{
    serde_json::to_string_pretty(&form.value).ok()
}

} // verus!
