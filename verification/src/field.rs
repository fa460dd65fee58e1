//! A field: a named, typed, offset-addressed interpretation of a byte
//! range within a binary buffer.

use vstd::prelude::*;
use crate::decode::decode_model;
use crate::types::{DataType, DecodedValue, Endianness};

verus! {

/// The mathematical content of a field.
pub struct FieldModel {
    pub name: Seq<char>,
    pub offset: int,
    pub data_type: DataType,
    pub comment: Seq<char>,
    pub endianness: Endianness,
}

/// A named, typed, offset-addressed interpretation of a byte range.
///
/// The offset is unbounded at creation time; whether the field fits a
/// particular buffer is evaluated lazily at decode time.
#[derive(Debug, Clone)]
pub struct Field {
    /// Name of the field.
    pub name: String,
    /// Offset in bytes from the start of the buffer.
    pub offset: usize,
    /// Data type of the field.
    pub data_type: DataType,
    /// Optional comment.
    pub comment: String,
    /// Byte order used to decode this field.
    pub endianness: Endianness,
}

impl View for Field {
    type V = FieldModel;

    open spec fn view(&self) -> FieldModel {
        FieldModel {
            name: self.name@,
            offset: self.offset as int,
            data_type: self.data_type,
            comment: self.comment@,
            endianness: self.endianness,
        }
    }
}

impl Field {
    /// A new field with an empty comment and the default byte order.
    pub fn new(name: String, offset: usize, data_type: DataType) -> (r: Self)
        ensures
            r@.name == name@,
            r@.offset == offset as int,
            r@.data_type == data_type,
            r@.comment == Seq::<char>::empty(),
            r@.endianness == Endianness::Little,
    {
        Self { name, offset, data_type, comment: String::new(), endianness: Endianness::default() }
    }

    /// The size of this field in bytes.
    pub fn size(&self) -> (r: usize)
        ensures
            r == self.data_type.width(),
    {
        self.data_type.size()
    }

    /// Reads this field's value from the given buffer; fails exactly when
    /// the field extends past the end of the buffer.
    pub fn read_value(&self, data: &[u8]) -> (r: Option<DecodedValue>)
        ensures
            r is Some <==> self@.offset + self.data_type.width() <= data@.len(),
            r is Some ==> r->0 == decode_model(
                self.data_type,
                data@.subrange(self@.offset, self@.offset + self.data_type.width()),
                self.endianness,
            ),
    {
        self.data_type.read_value(data, self.offset, self.endianness)
    }
}

} // verus!
