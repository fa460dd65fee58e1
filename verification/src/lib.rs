//! Core of a binary-schema viewer: a catalog of scalar types, byte-level
//! decoding with endianness and bounds checking, an ordered store of typed
//! fields, a multi-click selection model whose indices are repaired on
//! deletion, a grouper that turns the fields covering one rendered row into
//! maximal highlight spans, and a text codec that round-trips schemas.

pub mod app_state;
pub mod binary_data;
pub mod codec;
pub mod data_view;
pub mod decode;
pub mod field;
pub mod highlight;
pub mod schema;
pub mod selection;
pub mod text;
pub mod types;
