//! What can go wrong, and of which kind each failure is.

use vstd::prelude::*;

verus! {

/// The five kinds of failure.
#[derive(Debug, Clone, Copy, PartialEq, Eq, Structural)]
pub enum ErrorKind {
    /// Malformed wire syntax or numeric literal.
    Parse,
    /// A value breaks the format rule of its datatype, or a class's demand.
    Validation,
    /// A subject, a field of a property or class, a bookmark or a shortname is missing.
    NotFound,
    /// An index was applied to something that is no array.
    Type,
    /// A malformed line of AD3, or a text that could not be written.
    Format,
}

/// A failure, with the texts it is about.
#[derive(Debug, Clone, PartialEq, Eq)]
pub enum Error {
    /// `raw` is not a 32-bit signed decimal integer.
    NotAnInteger { raw: String },
    /// `raw` is not a 64-bit signed decimal integer.
    NotATimestamp { raw: String },
    /// `raw` is not an array of strings.
    NotAnArray { raw: String },
    /// `raw` is not a slug.
    NotASlug { raw: String },
    /// `raw` is not a date.
    NotADate { raw: String },
    /// `subject` asserts `class` but lacks the required property named `shortname`.
    RequiredMissing { subject: String, shortname: String, class: String },
    /// The store has no resource for `subject`.
    ResourceNotFound { subject: String },
    /// The resource of `property` gives no datatype.
    DatatypeNotFound { property: String },
    /// The resource of `subject` gives no shortname.
    ShortnameNotFound { subject: String },
    /// The resource of `subject` gives no description.
    DescriptionNotFound { subject: String },
    /// The resource of `subject` has no value for `property`.
    ValueNotFound { subject: String, property: String },
    /// No property of the resource at hand has the shortname `shortname`.
    UnknownShortname { shortname: String },
    /// `name` is neither a bookmark nor shaped like a URL.
    UnknownBookmark { name: String },
    /// An index was applied to the bare subject `subject`.
    IndexOnSubject { subject: String },
    /// An index was applied to the value of `property`, which is no array.
    IndexOnValue { subject: String, property: String },
    /// `line` starts like an array but is none of strings.
    MalformedLine { line: String },
    /// `line` is an array of `length` strings, not of three.
    WrongLength { line: String, length: usize },
    /// `line` starts with `start`, which opens neither an array nor a comment.
    UnexpectedStart { line: String, start: char },
    /// What belongs to `subject` could not be written as JSON.
    NotWritten { subject: String },
}

/// [`Error`] as mathematical text.
pub ghost enum ErrorView {
    NotAnInteger { raw: Seq<char> },
    NotATimestamp { raw: Seq<char> },
    NotAnArray { raw: Seq<char> },
    NotASlug { raw: Seq<char> },
    NotADate { raw: Seq<char> },
    RequiredMissing { subject: Seq<char>, shortname: Seq<char>, class: Seq<char> },
    ResourceNotFound { subject: Seq<char> },
    DatatypeNotFound { property: Seq<char> },
    ShortnameNotFound { subject: Seq<char> },
    DescriptionNotFound { subject: Seq<char> },
    ValueNotFound { subject: Seq<char>, property: Seq<char> },
    UnknownShortname { shortname: Seq<char> },
    UnknownBookmark { name: Seq<char> },
    IndexOnSubject { subject: Seq<char> },
    IndexOnValue { subject: Seq<char>, property: Seq<char> },
    MalformedLine { line: Seq<char> },
    WrongLength { line: Seq<char>, length: nat },
    UnexpectedStart { line: Seq<char>, start: char },
    NotWritten { subject: Seq<char> },
}

impl View for Error {
    type V = ErrorView;

    open spec fn view(&self) -> ErrorView {
        match *self {
            Error::NotAnInteger { raw } => ErrorView::NotAnInteger { raw: raw@ },
            Error::NotATimestamp { raw } => ErrorView::NotATimestamp { raw: raw@ },
            Error::NotAnArray { raw } => ErrorView::NotAnArray { raw: raw@ },
            Error::NotASlug { raw } => ErrorView::NotASlug { raw: raw@ },
            Error::NotADate { raw } => ErrorView::NotADate { raw: raw@ },
            Error::RequiredMissing { subject, shortname, class } => ErrorView::RequiredMissing {
                subject: subject@,
                shortname: shortname@,
                class: class@,
            },
            Error::ResourceNotFound { subject } => ErrorView::ResourceNotFound {
                subject: subject@,
            },
            Error::DatatypeNotFound { property } => ErrorView::DatatypeNotFound {
                property: property@,
            },
            Error::ShortnameNotFound { subject } => ErrorView::ShortnameNotFound {
                subject: subject@,
            },
            Error::DescriptionNotFound { subject } => ErrorView::DescriptionNotFound {
                subject: subject@,
            },
            Error::ValueNotFound { subject, property } => ErrorView::ValueNotFound {
                subject: subject@,
                property: property@,
            },
            Error::UnknownShortname { shortname } => ErrorView::UnknownShortname {
                shortname: shortname@,
            },
            Error::UnknownBookmark { name } => ErrorView::UnknownBookmark { name: name@ },
            Error::IndexOnSubject { subject } => ErrorView::IndexOnSubject { subject: subject@ },
            Error::IndexOnValue { subject, property } => ErrorView::IndexOnValue {
                subject: subject@,
                property: property@,
            },
            Error::MalformedLine { line } => ErrorView::MalformedLine { line: line@ },
            Error::WrongLength { line, length } => ErrorView::WrongLength {
                line: line@,
                length: length as nat,
            },
            Error::UnexpectedStart { line, start } => ErrorView::UnexpectedStart {
                line: line@,
                start,
            },
            Error::NotWritten { subject } => ErrorView::NotWritten { subject: subject@ },
        }
    }
}

/// The kind of each failure.
pub open spec fn kind_of(e: ErrorView) -> ErrorKind {
    match e {
        ErrorView::NotAnInteger { .. } | ErrorView::NotATimestamp { .. } | ErrorView::NotAnArray {
            ..
        } => ErrorKind::Parse,
        ErrorView::NotASlug { .. } | ErrorView::NotADate { .. } | ErrorView::RequiredMissing {
            ..
        } => ErrorKind::Validation,
        ErrorView::ResourceNotFound { .. }
        | ErrorView::DatatypeNotFound { .. }
        | ErrorView::ShortnameNotFound { .. }
        | ErrorView::DescriptionNotFound { .. }
        | ErrorView::ValueNotFound { .. }
        | ErrorView::UnknownShortname { .. }
        | ErrorView::UnknownBookmark { .. } => ErrorKind::NotFound,
        ErrorView::IndexOnSubject { .. } | ErrorView::IndexOnValue { .. } => ErrorKind::Type,
        ErrorView::MalformedLine { .. }
        | ErrorView::WrongLength { .. }
        | ErrorView::UnexpectedStart { .. }
        | ErrorView::NotWritten { .. } => ErrorKind::Format,
    }
}

impl Error {
    /// The kind of this failure.
    pub fn kind(&self) -> (k: ErrorKind)
        ensures
            k == kind_of(self@),
    {
        match self {
            Error::NotAnInteger { .. } | Error::NotATimestamp { .. } | Error::NotAnArray { .. } => {
                ErrorKind::Parse
            },
            Error::NotASlug { .. } | Error::NotADate { .. } | Error::RequiredMissing { .. } => {
                ErrorKind::Validation
            },
            Error::ResourceNotFound { .. }
            | Error::DatatypeNotFound { .. }
            | Error::ShortnameNotFound { .. }
            | Error::DescriptionNotFound { .. }
            | Error::ValueNotFound { .. }
            | Error::UnknownShortname { .. }
            | Error::UnknownBookmark { .. } => ErrorKind::NotFound,
            Error::IndexOnSubject { .. } | Error::IndexOnValue { .. } => ErrorKind::Type,
            Error::MalformedLine { .. }
            | Error::WrongLength { .. }
            | Error::UnexpectedStart { .. }
            | Error::NotWritten { .. } => ErrorKind::Format,
        }
    }
}

/// A result with both sides as mathematical values.
pub open spec fn outcome<T: View>(r: Result<T, Error>) -> Result<T::V, ErrorView> {
    match r {
        Ok(value) => Ok(value@),
        Err(e) => Err(e@),
    }
}

} // verus!
