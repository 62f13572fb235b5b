//! Read-only structural access to JSON-like values: primitive kinds, a
//! capability trait that value types implement, a map view over objects and
//! a resolver for slash-delimited paths.

pub mod fragment;
pub mod json_type;
pub mod number;
pub mod value;

pub use fragment::{fragment_components, parse_index_of};
pub use json_type::{get_fragment, EnumJsonType, JsonMap, JsonMapTrait, JsonType, ThreadSafeJsonType};
pub use number::Number;
pub use value::Value;
