//! The datatypes, and the conversion between raw text and typed values.

use crate::decimal::{
    as_i32, as_i64, decimal_string, decimal_text, lemma_decimal_round_trip, parse_i32, parse_i64,
};
use crate::errors::{outcome, Error, ErrorView};
use crate::json::{json_array_text, json_string_array, read_string_array, write_string_array};
use crate::pattern::{is_match, regex_match};
use crate::text::texts;
use crate::urls;
use vstd::prelude::*;

verus! {

/// The pattern that a slug matches from its first character to its last.
pub const SLUG_REGEX: &'static str = r"^[a-z0-9]+(?:-[a-z0-9]+)*$";

/// The pattern that a date matches from its first character to its last.
pub const DATE_REGEX: &'static str = r"^\d{4}\-(0[1-9]|1[012])\-(0[1-9]|[12][0-9]|3[01])$";

/// What [`Value::to_string`] gives for an array that could not be written.
pub const UNWRITTEN_ARRAY: &'static str = "[Could not serialize resource array";

/// The datatype of a property's values.
#[derive(Debug, Clone, PartialEq, Eq)]
pub enum DataType {
    AtomicUrl,
    Date,
    Integer,
    Markdown,
    ResourceArray,
    Slug,
    String,
    Timestamp,
    /// A datatype that this library does not handle, by its URL.
    Unsupported(String),
}

/// [`DataType`] as a mathematical value.
pub ghost enum DataTypeView {
    AtomicUrl,
    Date,
    Integer,
    Markdown,
    ResourceArray,
    Slug,
    String,
    Timestamp,
    Unsupported(Seq<char>),
}

impl View for DataType {
    type V = DataTypeView;

    open spec fn view(&self) -> DataTypeView {
        match *self {
            DataType::AtomicUrl => DataTypeView::AtomicUrl,
            DataType::Date => DataTypeView::Date,
            DataType::Integer => DataTypeView::Integer,
            DataType::Markdown => DataTypeView::Markdown,
            DataType::ResourceArray => DataTypeView::ResourceArray,
            DataType::Slug => DataTypeView::Slug,
            DataType::String => DataTypeView::String,
            DataType::Timestamp => DataTypeView::Timestamp,
            DataType::Unsupported(url) => DataTypeView::Unsupported(url@),
        }
    }
}

/// A raw value whose datatype this library does not handle.
#[derive(Debug, Clone, PartialEq, Eq)]
pub struct UnsupportedValue {
    pub value: String,
    /// URL of the datatype
    pub datatype: String,
}

/// A value of an atom, typed and checked.
#[derive(Debug, Clone, PartialEq, Eq)]
pub enum Value {
    AtomicUrl(String),
    Date(String),
    Integer(i32),
    Markdown(String),
    ResourceArray(Vec<String>),
    Slug(String),
    String(String),
    Timestamp(i64),
    Unsupported(UnsupportedValue),
}

/// [`Value`] as a mathematical value.
pub ghost enum ValueView {
    AtomicUrl(Seq<char>),
    Date(Seq<char>),
    Integer(i32),
    Markdown(Seq<char>),
    ResourceArray(Seq<Seq<char>>),
    Slug(Seq<char>),
    String(Seq<char>),
    Timestamp(i64),
    Unsupported { value: Seq<char>, datatype: Seq<char> },
}

impl View for Value {
    type V = ValueView;

    open spec fn view(&self) -> ValueView {
        match *self {
            Value::AtomicUrl(s) => ValueView::AtomicUrl(s@),
            Value::Date(s) => ValueView::Date(s@),
            Value::Integer(i) => ValueView::Integer(i),
            Value::Markdown(s) => ValueView::Markdown(s@),
            Value::ResourceArray(items) => ValueView::ResourceArray(texts(items@)),
            Value::Slug(s) => ValueView::Slug(s@),
            Value::String(s) => ValueView::String(s@),
            Value::Timestamp(t) => ValueView::Timestamp(t),
            Value::Unsupported(u) => ValueView::Unsupported {
                value: u.value@,
                datatype: u.datatype@,
            },
        }
    }
}

/// The datatype that the URL `url` stands for: one of the eight known ones,
/// or `Unsupported` with the URL itself.
pub open spec fn datatype_for(url: Seq<char>) -> DataTypeView {
    if url == urls::INTEGER@ {
        DataTypeView::Integer
    } else if url == urls::STRING@ {
        DataTypeView::String
    } else if url == urls::MARKDOWN@ {
        DataTypeView::Markdown
    } else if url == urls::SLUG@ {
        DataTypeView::Slug
    } else if url == urls::ATOMIC_URL@ {
        DataTypeView::AtomicUrl
    } else if url == urls::RESOURCE_ARRAY@ {
        DataTypeView::ResourceArray
    } else if url == urls::DATE@ {
        DataTypeView::Date
    } else if url == urls::TIMESTAMP@ {
        DataTypeView::Timestamp
    } else {
        DataTypeView::Unsupported(url)
    }
}

/// `raw` is a slug: the slug pattern has a match in it.
pub open spec fn is_slug(raw: Seq<char>) -> bool {
    regex_match(SLUG_REGEX@, raw) == Some(true)
}

/// `raw` is a date: the date pattern has a match in it.
pub open spec fn is_date(raw: Seq<char>) -> bool {
    regex_match(DATE_REGEX@, raw) == Some(true)
}

/// The value that `raw` is under `datatype`, or why it is none.
pub open spec fn decode(raw: Seq<char>, datatype: DataTypeView) -> Result<ValueView, ErrorView> {
    match datatype {
        DataTypeView::Integer => match as_i32(raw) {
            Some(i) => Ok(ValueView::Integer(i)),
            None => Err(ErrorView::NotAnInteger { raw }),
        },
        DataTypeView::String => Ok(ValueView::String(raw)),
        DataTypeView::Markdown => Ok(ValueView::Markdown(raw)),
        DataTypeView::Slug => if is_slug(raw) {
            Ok(ValueView::Slug(raw))
        } else {
            Err(ErrorView::NotASlug { raw })
        },
        DataTypeView::AtomicUrl => Ok(ValueView::AtomicUrl(raw)),
        DataTypeView::ResourceArray => match json_string_array(raw) {
            Some(items) => Ok(ValueView::ResourceArray(items)),
            None => Err(ErrorView::NotAnArray { raw }),
        },
        DataTypeView::Date => if is_date(raw) {
            Ok(ValueView::Date(raw))
        } else {
            Err(ErrorView::NotADate { raw })
        },
        DataTypeView::Timestamp => match as_i64(raw) {
            Some(t) => Ok(ValueView::Timestamp(t)),
            None => Err(ErrorView::NotATimestamp { raw }),
        },
        DataTypeView::Unsupported(url) => Ok(ValueView::Unsupported { value: raw, datatype: url }),
    }
}

/// The raw text of `value`.
pub open spec fn encode(value: ValueView) -> Seq<char> {
    match value {
        ValueView::AtomicUrl(s) => s,
        ValueView::Date(s) => s,
        ValueView::Integer(i) => decimal_text(i as int),
        ValueView::Markdown(s) => s,
        ValueView::ResourceArray(items) => match json_array_text(items) {
            Some(text) => text,
            None => UNWRITTEN_ARRAY@,
        },
        ValueView::Slug(s) => s,
        ValueView::String(s) => s,
        ValueView::Timestamp(t) => decimal_text(t as int),
        ValueView::Unsupported { value, .. } => value,
    }
}

/// The datatype under which `value` was decoded.
pub open spec fn datatype_of(value: ValueView) -> DataTypeView {
    match value {
        ValueView::AtomicUrl(_) => DataTypeView::AtomicUrl,
        ValueView::Date(_) => DataTypeView::Date,
        ValueView::Integer(_) => DataTypeView::Integer,
        ValueView::Markdown(_) => DataTypeView::Markdown,
        ValueView::ResourceArray(_) => DataTypeView::ResourceArray,
        ValueView::Slug(_) => DataTypeView::Slug,
        ValueView::String(_) => DataTypeView::String,
        ValueView::Timestamp(_) => DataTypeView::Timestamp,
        ValueView::Unsupported { datatype, .. } => DataTypeView::Unsupported(datatype),
    }
}

/// `value` could have come out of [`decode`]: a slug that is a slug, a date
/// that is a date, an array that can be written.
pub open spec fn well_formed(value: ValueView) -> bool {
    match value {
        ValueView::Slug(s) => is_slug(s),
        ValueView::Date(s) => is_date(s),
        ValueView::ResourceArray(items) => json_array_text(items) is Some,
        _ => true,
    }
}

/// What was written for `items` reads back as `items`. So it is of every
/// array that the writer has written.
pub open spec fn reads_back(items: Seq<Seq<char>>) -> bool {
    match json_array_text(items) {
        Some(text) => json_string_array(text) == Some(items),
        None => true,
    }
}

/// Decoding the text of a value under the value's own datatype gives the
/// value back, for every value that decoding can give. Of an array this
/// holds where what was written for it reads back.
pub proof fn lemma_value_round_trip(value: ValueView)
    requires
        well_formed(value),
        value matches ValueView::ResourceArray(items) ==> reads_back(items),
    ensures
        decode(encode(value), datatype_of(value)) == Ok::<ValueView, ErrorView>(value),
{
    match value {
        ValueView::Integer(i) => {
            lemma_decimal_round_trip(i as int);
        },
        ValueView::Timestamp(t) => {
            lemma_decimal_round_trip(t as int);
        },
        _ => {},
    }
}

/// The datatype that `string` is the URL of. Never fails: an unknown URL
/// gives `Unsupported`.
pub fn match_datatype(string: &str) -> (datatype: DataType)
    ensures
        datatype@ == datatype_for(string@),
{
    if string.eq(urls::INTEGER) {
        DataType::Integer
    } else if string.eq(urls::STRING) {
        DataType::String
    } else if string.eq(urls::MARKDOWN) {
        DataType::Markdown
    } else if string.eq(urls::SLUG) {
        DataType::Slug
    } else if string.eq(urls::ATOMIC_URL) {
        DataType::AtomicUrl
    } else if string.eq(urls::RESOURCE_ARRAY) {
        DataType::ResourceArray
    } else if string.eq(urls::DATE) {
        DataType::Date
    } else if string.eq(urls::TIMESTAMP) {
        DataType::Timestamp
    } else {
        DataType::Unsupported(string.to_owned())
    }
}

impl Value {
    /// Decodes `value` under `datatype`.
    pub fn new(value: &str, datatype: &DataType) -> (r: Result<Value, Error>)
        ensures
            outcome(r) == decode(value@, datatype@),
    {
        match datatype {
            DataType::Integer => match parse_i32(value) {
                Some(i) => Ok(Value::Integer(i)),
                None => Err(Error::NotAnInteger { raw: value.to_owned() }),
            },
            DataType::String => Ok(Value::String(value.to_owned())),
            DataType::Markdown => Ok(Value::Markdown(value.to_owned())),
            DataType::Slug => Value::slug(value, is_match(SLUG_REGEX, value)),
            DataType::AtomicUrl => Ok(Value::AtomicUrl(value.to_owned())),
            DataType::ResourceArray => Value::resource_array(value, read_string_array(value)),
            DataType::Date => Value::date(value, is_match(DATE_REGEX, value)),
            DataType::Timestamp => match parse_i64(value) {
                Some(t) => Ok(Value::Timestamp(t)),
                None => Err(Error::NotATimestamp { raw: value.to_owned() }),
            },
            DataType::Unsupported(url) => Ok(
                Value::Unsupported(
                    UnsupportedValue { value: value.to_owned(), datatype: url.clone() },
                ),
            ),
        }
    }

    /// The slug `raw`, given what the slug pattern said of it: a slug only
    /// where the pattern compiled and matched.
    pub fn slug(raw: &str, matched: Option<bool>) -> (r: Result<Value, Error>)
        ensures
            outcome(r) == (if matched == Some(true) {
                Ok::<ValueView, ErrorView>(ValueView::Slug(raw@))
            } else {
                Err(ErrorView::NotASlug { raw: raw@ })
            }),
    {
        match matched {
            Some(true) => Ok(Value::Slug(raw.to_owned())),
            _ => Err(Error::NotASlug { raw: raw.to_owned() }),
        }
    }

    /// The date `raw`, given what the date pattern said of it: a date only
    /// where the pattern compiled and matched.
    pub fn date(raw: &str, matched: Option<bool>) -> (r: Result<Value, Error>)
        ensures
            outcome(r) == (if matched == Some(true) {
                Ok::<ValueView, ErrorView>(ValueView::Date(raw@))
            } else {
                Err(ErrorView::NotADate { raw: raw@ })
            }),
    {
        match matched {
            Some(true) => Ok(Value::Date(raw.to_owned())),
            _ => Err(Error::NotADate { raw: raw.to_owned() }),
        }
    }

    /// The array that `raw` was read as, in the order read; a failure where
    /// it was not read.
    pub fn resource_array(raw: &str, read: Option<Vec<String>>) -> (r: Result<Value, Error>)
        ensures
            outcome(r) == (match read {
                Some(items) => Ok::<ValueView, ErrorView>(ValueView::ResourceArray(texts(items@))),
                None => Err(ErrorView::NotAnArray { raw: raw@ }),
            }),
    {
        match read {
            Some(items) => Ok(Value::ResourceArray(items)),
            None => Err(Error::NotAnArray { raw: raw.to_owned() }),
        }
    }

    /// The text of an array, given what the writer made of it.
    pub fn array_text(written: Option<String>) -> (s: String)
        ensures
            s@ == (match written {
                Some(text) => text@,
                None => UNWRITTEN_ARRAY@,
            }),
    {
        match written {
            Some(text) => text,
            None => UNWRITTEN_ARRAY.to_owned(),
        }
    }

    /// The datatype of this value.
    pub fn datatype(&self) -> (datatype: DataType)
        ensures
            datatype@ == datatype_of(self@),
    {
        match self {
            Value::AtomicUrl(_) => DataType::AtomicUrl,
            Value::Date(_) => DataType::Date,
            Value::Integer(_) => DataType::Integer,
            Value::Markdown(_) => DataType::Markdown,
            Value::ResourceArray(_) => DataType::ResourceArray,
            Value::Slug(_) => DataType::Slug,
            Value::String(_) => DataType::String,
            Value::Timestamp(_) => DataType::Timestamp,
            Value::Unsupported(u) => DataType::Unsupported(u.datatype.clone()),
        }
    }

    /// The raw text of this value. Decoding that text under the value's own
    /// datatype gives the value back, for every value that decoding can give.
    pub fn to_string(&self) -> (s: String)
        ensures
            s@ == encode(self@),
            well_formed(self@) ==> decode(s@, datatype_of(self@)) == Ok::<ValueView, ErrorView>(
                self@,
            ),
    {
        match self {
            Value::AtomicUrl(s) => s.clone(),
            Value::Date(s) => s.clone(),
            Value::Integer(i) => {
                proof {
                    lemma_decimal_round_trip(*i as int);
                }
                decimal_string(*i as i64)
            },
            Value::Markdown(s) => s.clone(),
            Value::ResourceArray(items) => Value::array_text(write_string_array(items)),
            Value::Slug(s) => s.clone(),
            Value::String(s) => s.clone(),
            Value::Timestamp(t) => {
                proof {
                    lemma_decimal_round_trip(*t as int);
                }
                decimal_string(*t)
            },
            Value::Unsupported(u) => u.value.clone(),
        }
    }

    /// Decodes `value` under the datatype whose URL is `datatype`.
    pub fn new_from_string(value: &String, datatype: &String) -> (r: Result<Value, Error>)
        ensures
            outcome(r) == decode(value@, datatype_for(datatype@)),
    {
        Value::new(value.as_str(), &match_datatype(datatype.as_str()))
    }
}

impl From<String> for Value {
    /// A string is a value of datatype `String`.
    fn from(string: String) -> (value: Value)
        ensures
            value@ == ValueView::String(string@),
    {
        Value::String(string)
    }
}

impl vstd::std_specs::convert::FromSpecImpl<String> for Value {
    open spec fn obeys_from_spec() -> bool {
        true
    }

    open spec fn from_spec(string: String) -> Value {
        Value::String(string)
    }
}

} // verus!
