//! The URLs of the properties and datatypes that the store itself reads.

use vstd::prelude::*;

verus! {

/// Property: the short name of a property or class.
pub const SHORTNAME: &'static str = "https://atomicdata.dev/properties/shortname";

/// Property: the description of a property or class.
pub const DESCRIPTION: &'static str = "https://atomicdata.dev/properties/description";

/// Property: the classes that a subject asserts.
pub const IS_A: &'static str = "https://atomicdata.dev/properties/isA";

/// Property: the datatype of a property's values.
pub const DATATYPE_PROP: &'static str = "https://atomicdata.dev/properties/datatype";

/// Property: the class of the resources that a property points to.
pub const CLASSTYPE_PROP: &'static str = "https://atomicdata.dev/properties/classtype";

/// Property: the properties a class recommends.
pub const RECOMMENDS: &'static str = "https://atomicdata.dev/properties/recommends";

/// Property: the properties a class requires.
pub const REQUIRES: &'static str = "https://atomicdata.dev/properties/requires";

/// Datatype: plain text.
pub const STRING: &'static str = "https://atomicdata.dev/datatypes/string";

/// Datatype: Markdown text.
pub const MARKDOWN: &'static str = "https://atomicdata.dev/datatypes/markdown";

/// Datatype: a slug.
pub const SLUG: &'static str = "https://atomicdata.dev/datatypes/slug";

/// Datatype: the URL of a resource.
pub const ATOMIC_URL: &'static str = "https://atomicdata.dev/datatypes/atomicURL";

/// Datatype: a 32-bit signed integer.
pub const INTEGER: &'static str = "https://atomicdata.dev/datatypes/integer";

/// Datatype: an ordered list of subjects.
pub const RESOURCE_ARRAY: &'static str = "https://atomicdata.dev/datatypes/resourceArray";

/// Datatype: a calendar date.
pub const DATE: &'static str = "https://atomicdata.dev/datatypes/date";

/// Datatype: seconds since the epoch.
pub const TIMESTAMP: &'static str = "https://atomicdata.dev/datatypes/timestamp";

/// The prefix of a subject that is local to a store.
pub const LOCAL_PREFIX: &'static str = "_:";

} // verus!
