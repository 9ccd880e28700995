//! An in-memory graph store for Atomic Data: typed values, resources keyed by
//! subject, the AD3 line format, schema lookups, validation and path queries.

pub mod ad3;
pub mod assoc;
pub mod decimal;
pub mod errors;
pub mod json;
pub mod json_ld;
pub mod mapping;
pub mod path;
pub mod pattern;
pub mod resource;
pub mod schema;
pub mod search;
pub mod store;
pub mod text;
pub mod urls;
pub mod validate;
pub mod values;

pub use crate::errors::{Error, ErrorKind};
pub use crate::json::Json;
pub use crate::mapping::Mapping;
pub use crate::path::PathReturn;
pub use crate::resource::Resource;
pub use crate::schema::{Class, Property};
pub use crate::store::{Atom, Store};
pub use crate::values::{match_datatype, DataType, UnsupportedValue, Value};
