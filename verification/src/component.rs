//! Component encodings, sparse index encodings and element shapes, with
//! their byte sizes and wire-format codes.

use vstd::prelude::*;

verus! {

/// The encoding of one numeric component inside a buffer.
///
/// Integer encodings decode to their literal (little-endian) value; `Float`
/// components occupy four bytes holding an IEEE-754 single-precision bit
/// pattern, which this crate carries around untouched.
#[derive(Clone, Copy, Debug, PartialEq, Eq, Structural)]
pub enum ComponentEncoding {
    /// Signed 8-bit integer (wire code 5120).
    Byte,
    /// Unsigned 8-bit integer (wire code 5121).
    UnsignedByte,
    /// Signed 16-bit integer (wire code 5122).
    Short,
    /// Unsigned 16-bit integer (wire code 5123).
    UnsignedShort,
    /// Unsigned 32-bit integer (wire code 5125).
    UnsignedInt,
    /// IEEE-754 single-precision bit pattern (wire code 5126).
    Float,
}

/// Does `code` denote a component encoding on the wire?
pub open spec fn valid_component_code(code: int) -> bool {
    code == 5120 || code == 5121 || code == 5122 || code == 5123 || code == 5125 || code == 5126
}

impl ComponentEncoding {
    /// The byte width of one component in this encoding.
    pub open spec fn size_spec(self) -> int {
        match self {
            ComponentEncoding::Byte => 1,
            ComponentEncoding::UnsignedByte => 1,
            ComponentEncoding::Short => 2,
            ComponentEncoding::UnsignedShort => 2,
            ComponentEncoding::UnsignedInt => 4,
            ComponentEncoding::Float => 4,
        }
    }

    /// The numeric code that denotes this encoding on the wire.
    pub open spec fn wire_code_spec(self) -> int {
        match self {
            ComponentEncoding::Byte => 5120,
            ComponentEncoding::UnsignedByte => 5121,
            ComponentEncoding::Short => 5122,
            ComponentEncoding::UnsignedShort => 5123,
            ComponentEncoding::UnsignedInt => 5125,
            ComponentEncoding::Float => 5126,
        }
    }

    /// Is this one of the two signed integer encodings?
    pub open spec fn is_signed(self) -> bool {
        self == ComponentEncoding::Byte || self == ComponentEncoding::Short
    }

    /// Returns the number of bytes one component of this encoding occupies.
    pub fn component_byte_size(self) -> (n: usize)
        ensures
            n == self.size_spec(),
    {
        match self {
            ComponentEncoding::Byte => 1,
            ComponentEncoding::UnsignedByte => 1,
            ComponentEncoding::Short => 2,
            ComponentEncoding::UnsignedShort => 2,
            ComponentEncoding::UnsignedInt => 4,
            ComponentEncoding::Float => 4,
        }
    }

    /// Returns the wire-format code of this encoding.
    pub fn wire_code(self) -> (code: u32)
        ensures
            code == self.wire_code_spec(),
    {
        match self {
            ComponentEncoding::Byte => 5120,
            ComponentEncoding::UnsignedByte => 5121,
            ComponentEncoding::Short => 5122,
            ComponentEncoding::UnsignedShort => 5123,
            ComponentEncoding::UnsignedInt => 5125,
            ComponentEncoding::Float => 5126,
        }
    }

    /// Maps a wire-format code to its encoding; an unknown code is rejected
    /// rather than treated as unreachable.
    pub fn from_wire_code(code: u32) -> (r: Option<ComponentEncoding>)
        ensures
            match r {
                Some(e) => valid_component_code(code as int) && e.wire_code_spec() == code,
                None => !valid_component_code(code as int),
            },
    {
        match code {
            5120 => Some(ComponentEncoding::Byte),
            5121 => Some(ComponentEncoding::UnsignedByte),
            5122 => Some(ComponentEncoding::Short),
            5123 => Some(ComponentEncoding::UnsignedShort),
            5125 => Some(ComponentEncoding::UnsignedInt),
            5126 => Some(ComponentEncoding::Float),
            _ => None,
        }
    }
}

/// The index data type of a sparse overlay: one of the three unsigned
/// component encodings.
#[derive(Clone, Copy, Debug, PartialEq, Eq, Structural)]
pub enum IndexType {
    /// Corresponds to unsigned 8-bit indices (wire code 5121).
    U8,
    /// Corresponds to unsigned 16-bit indices (wire code 5123).
    U16,
    /// Corresponds to unsigned 32-bit indices (wire code 5125).
    U32,
}

/// Does `code` denote a sparse index encoding on the wire?
pub open spec fn valid_index_code(code: int) -> bool {
    code == 5121 || code == 5123 || code == 5125
}

impl IndexType {
    /// The byte width of one index in this encoding.
    pub open spec fn size_spec(self) -> int {
        match self {
            IndexType::U8 => 1,
            IndexType::U16 => 2,
            IndexType::U32 => 4,
        }
    }

    /// The component encoding that decodes one index: always unsigned.
    pub open spec fn encoding_spec(self) -> ComponentEncoding {
        match self {
            IndexType::U8 => ComponentEncoding::UnsignedByte,
            IndexType::U16 => ComponentEncoding::UnsignedShort,
            IndexType::U32 => ComponentEncoding::UnsignedInt,
        }
    }

    /// Returns the number of bytes this value represents.
    pub fn size(&self) -> (n: usize)
        ensures
            n == self.size_spec(),
    {
        match *self {
            IndexType::U8 => 1,
            IndexType::U16 => 2,
            IndexType::U32 => 4,
        }
    }

    /// Returns the unsigned component encoding that decodes one index.
    pub fn encoding(&self) -> (e: ComponentEncoding)
        ensures
            e == self.encoding_spec(),
    {
        match *self {
            IndexType::U8 => ComponentEncoding::UnsignedByte,
            IndexType::U16 => ComponentEncoding::UnsignedShort,
            IndexType::U32 => ComponentEncoding::UnsignedInt,
        }
    }

    /// Maps a wire-format code to its index encoding; codes of the other
    /// component encodings are rejected, since indices must be unsigned.
    pub fn from_wire_code(code: u32) -> (r: Option<IndexType>)
        ensures
            match r {
                Some(t) => valid_index_code(code as int)
                    && t.encoding_spec().wire_code_spec() == code,
                None => !valid_index_code(code as int),
            },
    {
        match code {
            5121 => Some(IndexType::U8),
            5123 => Some(IndexType::U16),
            5125 => Some(IndexType::U32),
            _ => None,
        }
    }
}

/// The logical arity of one accessor entry: a scalar, a vector, or a square
/// matrix, each with a fixed component count.
#[derive(Clone, Copy, Debug, PartialEq, Eq, Structural)]
pub enum ElementShape {
    /// One component.
    Scalar,
    /// Two components.
    Vec2,
    /// Three components.
    Vec3,
    /// Four components.
    Vec4,
    /// A 2x2 matrix: four components in two columns.
    Mat2,
    /// A 3x3 matrix: nine components in three columns.
    Mat3,
    /// A 4x4 matrix: sixteen components in four columns.
    Mat4,
}

impl ElementShape {
    /// The number of data components one element of this shape holds.
    pub open spec fn component_count_spec(self) -> int {
        match self {
            ElementShape::Scalar => 1,
            ElementShape::Vec2 => 2,
            ElementShape::Vec3 => 3,
            ElementShape::Vec4 => 4,
            ElementShape::Mat2 => 4,
            ElementShape::Mat3 => 9,
            ElementShape::Mat4 => 16,
        }
    }

    /// For matrix shapes, the number of rows (equal to the number of
    /// columns); zero for scalars and vectors.
    pub open spec fn matrix_rows_spec(self) -> int {
        match self {
            ElementShape::Mat2 => 2,
            ElementShape::Mat3 => 3,
            ElementShape::Mat4 => 4,
            _ => 0,
        }
    }

    /// Is this a matrix shape (and so subject to column padding)?
    pub open spec fn is_matrix(self) -> bool {
        self == ElementShape::Mat2 || self == ElementShape::Mat3 || self == ElementShape::Mat4
    }

    /// Returns the number of data components one element of this shape holds.
    pub fn component_count(self) -> (n: usize)
        ensures
            n == self.component_count_spec(),
    {
        match self {
            ElementShape::Scalar => 1,
            ElementShape::Vec2 => 2,
            ElementShape::Vec3 => 3,
            ElementShape::Vec4 => 4,
            ElementShape::Mat2 => 4,
            ElementShape::Mat3 => 9,
            ElementShape::Mat4 => 16,
        }
    }

    /// Returns the number of matrix rows, or zero for non-matrix shapes.
    pub fn matrix_rows(self) -> (n: usize)
        ensures
            n == self.matrix_rows_spec(),
    {
        match self {
            ElementShape::Mat2 => 2,
            ElementShape::Mat3 => 3,
            ElementShape::Mat4 => 4,
            _ => 0,
        }
    }
}

} // verus!
