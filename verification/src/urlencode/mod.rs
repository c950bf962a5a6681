//! Form-urlencoding of nested values: each leaf becomes one `key=value` pair
//! whose key is its bracketed path, such as `nested[val]` or `seq[0]`.
pub mod error;
pub mod ser;
