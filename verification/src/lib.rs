//! A bridge from the generic value trees that the `fiasto` formula parser
//! produces to the dynamic values of an embedding host runtime.
//!
//! The tree of generic values ([`value::GenericValue`]) and the tree of native
//! objects ([`native::NativeObject`]) are two separate sum types.
//! [`bridge::convert`] maps one to the other, and its contract pins the result
//! down through the spec function [`bridge::native_of`]. [`json::from_json`]
//! reads the JSON that the parser hands out into a generic value tree, and
//! [`adapter::parse_formula`] and [`adapter::lex_formula`] are the two
//! operations that a host calls. [`laws`] states what holds of the bridge on
//! every tree.
pub mod value;
pub mod native;
pub mod bridge;
pub mod laws;
pub mod json;
pub mod adapter;
