//! Tensor element types and operation attribute values.

use vstd::prelude::*;

use crate::tensor::OnnxTensor;

verus! {

/// The fixed enumeration of ONNX tensor element types.
///
/// `Undefined` is a valid tag meaning "no declared type".
#[derive(Clone, Copy, Debug, PartialEq, Eq, Structural)]
pub enum DataType {
    Undefined,
    Float,
    Uint8,
    Int8,
    Uint16,
    Int16,
    Int32,
    Int64,
    String,
    Bool,
    Float16,
    Double,
    Uint32,
    Uint64,
    Complex64,
    Complex128,
    Bfloat16,
    Float8e4m3fn,
    Float8e4m3fnuz,
    Float8e5m2,
    Float8e5m2fnuz,
    Uint4,
    Int4,
    Float4e2m1,
    Float8e8m0,
}

impl DataType {
    /// The tag that each ONNX type code denotes; unknown codes map to
    /// `Undefined`.
    pub open spec fn spec_from_onnx_type(code: int) -> DataType {
        if code == 1 {
            DataType::Float
        } else if code == 2 {
            DataType::Uint8
        } else if code == 3 {
            DataType::Int8
        } else if code == 4 {
            DataType::Uint16
        } else if code == 5 {
            DataType::Int16
        } else if code == 6 {
            DataType::Int32
        } else if code == 7 {
            DataType::Int64
        } else if code == 8 {
            DataType::String
        } else if code == 9 {
            DataType::Bool
        } else if code == 10 {
            DataType::Float16
        } else if code == 11 {
            DataType::Double
        } else if code == 12 {
            DataType::Uint32
        } else if code == 13 {
            DataType::Uint64
        } else if code == 14 {
            DataType::Complex64
        } else if code == 15 {
            DataType::Complex128
        } else if code == 16 {
            DataType::Bfloat16
        } else if code == 17 {
            DataType::Float8e4m3fn
        } else if code == 18 {
            DataType::Float8e4m3fnuz
        } else if code == 19 {
            DataType::Float8e5m2
        } else if code == 20 {
            DataType::Float8e5m2fnuz
        } else if code == 21 {
            DataType::Uint4
        } else if code == 22 {
            DataType::Int4
        } else if code == 23 {
            DataType::Float4e2m1
        } else if code == 24 {
            DataType::Float8e8m0
        } else {
            DataType::Undefined
        }
    }

    /// Create a `DataType` from the ONNX type code.
    pub fn from_onnx_type(data_type: i32) -> (r: DataType)
        ensures
            r == DataType::spec_from_onnx_type(data_type as int),
    {
        match data_type {
            1 => DataType::Float,
            2 => DataType::Uint8,
            3 => DataType::Int8,
            4 => DataType::Uint16,
            5 => DataType::Int16,
            6 => DataType::Int32,
            7 => DataType::Int64,
            8 => DataType::String,
            9 => DataType::Bool,
            10 => DataType::Float16,
            11 => DataType::Double,
            12 => DataType::Uint32,
            13 => DataType::Uint64,
            14 => DataType::Complex64,
            15 => DataType::Complex128,
            16 => DataType::Bfloat16,
            17 => DataType::Float8e4m3fn,
            18 => DataType::Float8e4m3fnuz,
            19 => DataType::Float8e5m2,
            20 => DataType::Float8e5m2fnuz,
            21 => DataType::Uint4,
            22 => DataType::Int4,
            23 => DataType::Float4e2m1,
            24 => DataType::Float8e8m0,
            _ => DataType::Undefined,
        }
    }

    /// The storage size of one element, for the types with a fixed width.
    ///
    /// Sub-byte types (the 4-bit variants) report their packed storage unit
    /// of one byte. `String` and `Undefined` have no width.
    pub open spec fn spec_size_in_bytes(self) -> Option<usize> {
        match self {
            DataType::Float | DataType::Int32 | DataType::Uint32 => Some(4usize),
            DataType::Double | DataType::Int64 | DataType::Uint64 => Some(8usize),
            DataType::Float16 | DataType::Bfloat16 | DataType::Int16 | DataType::Uint16 => Some(
                2usize,
            ),
            DataType::Int8 | DataType::Uint8 | DataType::Bool => Some(1usize),
            DataType::Complex64 => Some(8usize),
            DataType::Complex128 => Some(16usize),
            DataType::Float8e4m3fn
            | DataType::Float8e4m3fnuz
            | DataType::Float8e5m2
            | DataType::Float8e5m2fnuz
            | DataType::Float8e8m0 => Some(1usize),
            DataType::Uint4 | DataType::Int4 | DataType::Float4e2m1 => Some(1usize),
            DataType::String | DataType::Undefined => None,
        }
    }

    /// Get the size in bytes for numeric types.
    pub fn size_in_bytes(&self) -> (r: Option<usize>)
        ensures
            r == self.spec_size_in_bytes(),
    {
        match self {
            DataType::Float | DataType::Int32 | DataType::Uint32 => Some(4),
            DataType::Double | DataType::Int64 | DataType::Uint64 => Some(8),
            DataType::Float16 | DataType::Bfloat16 | DataType::Int16 | DataType::Uint16 => Some(2),
            DataType::Int8 | DataType::Uint8 | DataType::Bool => Some(1),
            DataType::Complex64 => Some(8),
            DataType::Complex128 => Some(16),
            DataType::Float8e4m3fn
            | DataType::Float8e4m3fnuz
            | DataType::Float8e5m2
            | DataType::Float8e5m2fnuz
            | DataType::Float8e8m0 => Some(1),
            DataType::Uint4 | DataType::Int4 | DataType::Float4e2m1 => Some(1),
            DataType::String | DataType::Undefined => None,
        }
    }

    /// Whether the tag denotes a floating-point format.
    pub open spec fn spec_is_float(self) -> bool {
        match self {
            DataType::Float16
            | DataType::Float
            | DataType::Double
            | DataType::Bfloat16
            | DataType::Float8e4m3fn
            | DataType::Float8e4m3fnuz
            | DataType::Float8e5m2
            | DataType::Float8e5m2fnuz
            | DataType::Float8e8m0
            | DataType::Float4e2m1 => true,
            _ => false,
        }
    }

    /// Check if this is a floating point type.
    pub fn is_float(&self) -> (r: bool)
        ensures
            r == self.spec_is_float(),
    {
        match self {
            DataType::Float16
            | DataType::Float
            | DataType::Double
            | DataType::Bfloat16
            | DataType::Float8e4m3fn
            | DataType::Float8e4m3fnuz
            | DataType::Float8e5m2
            | DataType::Float8e5m2fnuz
            | DataType::Float8e8m0
            | DataType::Float4e2m1 => true,
            _ => false,
        }
    }

    /// Whether the tag denotes an integer format.
    pub open spec fn spec_is_integer(self) -> bool {
        match self {
            DataType::Int8
            | DataType::Int16
            | DataType::Int32
            | DataType::Int64
            | DataType::Uint8
            | DataType::Uint16
            | DataType::Uint32
            | DataType::Uint64
            | DataType::Uint4
            | DataType::Int4 => true,
            _ => false,
        }
    }

    /// Check if this is an integer type.
    pub fn is_integer(&self) -> (r: bool)
        ensures
            r == self.spec_is_integer(),
    {
        match self {
            DataType::Int8
            | DataType::Int16
            | DataType::Int32
            | DataType::Int64
            | DataType::Uint8
            | DataType::Uint16
            | DataType::Uint32
            | DataType::Uint64
            | DataType::Uint4
            | DataType::Int4 => true,
            _ => false,
        }
    }
}

/// An operation attribute's value: a tagged scalar, tensor, or
/// homogeneous array.
///
/// Floating-point payloads are carried as their IEEE-754 bit patterns
/// (`u32`), exactly as they stand in the encoded message; a caller that
/// wants the numeric value reinterprets the bits.
pub enum AttributeValue {
    Int(i64),
    Float(u32),
    String(String),
    Tensor(Box<OnnxTensor>),
    Ints(Vec<i64>),
    Floats(Vec<u32>),
    Strings(Vec<String>),
}

impl AttributeValue {
    /// Try to get the integer value.
    pub fn as_int(&self) -> (r: Option<i64>)
        ensures
            match self {
                AttributeValue::Int(i) => r == Some(*i),
                _ => r is None,
            },
    {
        match self {
            AttributeValue::Int(i) => Some(*i),
            _ => None,
        }
    }

    /// Try to get the float value, as its IEEE-754 bit pattern.
    pub fn as_float(&self) -> (r: Option<u32>)
        ensures
            match self {
                AttributeValue::Float(bits) => r == Some(*bits),
                _ => r is None,
            },
    {
        match self {
            AttributeValue::Float(bits) => Some(*bits),
            _ => None,
        }
    }

    /// Try to get the string value.
    pub fn as_string(&self) -> (r: Option<&str>)
        ensures
            match self {
                AttributeValue::String(s) => r matches Some(v) && v@ == s@,
                _ => r is None,
            },
    {
        match self {
            AttributeValue::String(s) => Some(s.as_str()),
            _ => None,
        }
    }

    /// Try to get the tensor value.
    pub fn as_tensor(&self) -> (r: Option<&OnnxTensor>)
        ensures
            match self {
                AttributeValue::Tensor(t) => r matches Some(v) && v == &**t,
                _ => r is None,
            },
    {
        match self {
            AttributeValue::Tensor(t) => Some(&**t),
            _ => None,
        }
    }

    /// Try to get the integer array value.
    pub fn as_ints(&self) -> (r: Option<&Vec<i64>>)
        ensures
            match self {
                AttributeValue::Ints(v) => r == Some(v),
                _ => r is None,
            },
    {
        match self {
            AttributeValue::Ints(v) => Some(v),
            _ => None,
        }
    }

    /// Try to get the float array value, as IEEE-754 bit patterns.
    pub fn as_floats(&self) -> (r: Option<&Vec<u32>>)
        ensures
            match self {
                AttributeValue::Floats(v) => r == Some(v),
                _ => r is None,
            },
    {
        match self {
            AttributeValue::Floats(v) => Some(v),
            _ => None,
        }
    }

    /// Try to get the string array value.
    pub fn as_strings(&self) -> (r: Option<&Vec<String>>)
        ensures
            match self {
                AttributeValue::Strings(v) => r == Some(v),
                _ => r is None,
            },
    {
        match self {
            AttributeValue::Strings(v) => Some(v),
            _ => None,
        }
    }
}

} // verus!
