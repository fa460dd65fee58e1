//! The catalog of primitive scalar types and the byte-order tag.

use vstd::prelude::*;

verus! {

/// Byte ordering used to assemble multi-byte values.
#[derive(Clone, Copy, Debug, PartialEq, Eq, Structural)]
pub enum Endianness {
    Little,
    Big,
}

impl Default for Endianness {
    /// The default byte order is little-endian.
    fn default() -> (r: Self)
        ensures
            r == Endianness::Little,
    {
        Endianness::Little
    }
}

/// Primitive data types a schema field can carry.
#[derive(Clone, Copy, Debug, PartialEq, Eq, Structural)]
pub enum DataType {
    U8,
    U16,
    U32,
    U64,
    I8,
    I16,
    I32,
    I64,
    F32,
    F64,
}

impl DataType {
    /// Byte width of a value of this type.
    pub open spec fn width(self) -> nat {
        match self {
            DataType::U8 => 1,
            DataType::I8 => 1,
            DataType::U16 => 2,
            DataType::I16 => 2,
            DataType::U32 => 4,
            DataType::I32 => 4,
            DataType::F32 => 4,
            DataType::U64 => 8,
            DataType::I64 => 8,
            DataType::F64 => 8,
        }
    }

    /// The size of this type in bytes.
    pub fn size(&self) -> (r: usize)
        ensures
            r == self.width(),
    {
        match self {
            DataType::U8 => 1,
            DataType::I8 => 1,
            DataType::U16 => 2,
            DataType::I16 => 2,
            DataType::U32 => 4,
            DataType::I32 => 4,
            DataType::F32 => 4,
            DataType::U64 => 8,
            DataType::I64 => 8,
            DataType::F64 => 8,
        }
    }

    /// The stable display name of this type.
    pub open spec fn name_seq(self) -> Seq<char> {
        match self {
            DataType::U8 => "u8"@,
            DataType::U16 => "u16"@,
            DataType::U32 => "u32"@,
            DataType::U64 => "u64"@,
            DataType::I8 => "i8"@,
            DataType::I16 => "i16"@,
            DataType::I32 => "i32"@,
            DataType::I64 => "i64"@,
            DataType::F32 => "f32"@,
            DataType::F64 => "f64"@,
        }
    }

    /// The display name of this type, stable across versions.
    pub fn name(&self) -> (r: &'static str)
        ensures
            r@ == self.name_seq(),
    {
        match self {
            DataType::U8 => "u8",
            DataType::U16 => "u16",
            DataType::U32 => "u32",
            DataType::U64 => "u64",
            DataType::I8 => "i8",
            DataType::I16 => "i16",
            DataType::I32 => "i32",
            DataType::I64 => "i64",
            DataType::F32 => "f32",
            DataType::F64 => "f64",
        }
    }

    /// The canonical enumeration order of the ten types. Persisted schemas
    /// may reference the enumeration, so this order must never change.
    pub open spec fn canonical_seq() -> Seq<DataType> {
        seq![
            DataType::U8,
            DataType::U16,
            DataType::U32,
            DataType::U64,
            DataType::I8,
            DataType::I16,
            DataType::I32,
            DataType::I64,
            DataType::F32,
            DataType::F64,
        ]
    }

    /// All available data types, in canonical enumeration order.
    pub fn all() -> (r: Vec<DataType>)
        ensures
            r@ == Self::canonical_seq(),
    {
        let mut v: Vec<DataType> = Vec::new();
        v.push(DataType::U8);
        v.push(DataType::U16);
        v.push(DataType::U32);
        v.push(DataType::U64);
        v.push(DataType::I8);
        v.push(DataType::I16);
        v.push(DataType::I32);
        v.push(DataType::I64);
        v.push(DataType::F32);
        v.push(DataType::F64);
        proof {
            assert(v@ =~= Self::canonical_seq());
        }
        v
    }

    /// The position of this type in the canonical enumeration order.
    pub fn canonical_index(&self) -> (r: usize)
        ensures
            r < Self::canonical_seq().len(),
            Self::canonical_seq()[r as int] == *self,
    {
        match self {
            DataType::U8 => 0,
            DataType::U16 => 1,
            DataType::U32 => 2,
            DataType::U64 => 3,
            DataType::I8 => 4,
            DataType::I16 => 5,
            DataType::I32 => 6,
            DataType::I64 => 7,
            DataType::F32 => 8,
            DataType::F64 => 9,
        }
    }
}

/// The numeric interpretation of a decoded field.
///
/// Integer values are carried directly. Floating-point values are carried as
/// their IEEE-754 bit patterns; turning a bit pattern into decimal text is
/// display work and is left to the rendering layer.
#[derive(Clone, Copy, Debug, PartialEq, Eq, Structural)]
pub enum DecodedValue {
    Unsigned(u64),
    Signed(i64),
    Float32Bits(u32),
    Float64Bits(u64),
}

} // verus!
