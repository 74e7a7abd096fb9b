//! Tensors and their payloads.
//!
//! A tensor's payload is exactly one of: no data, data carried inline in
//! the model message, or a reference into an external file. The inline
//! encodings (raw bytes, five typed numeric arrays, or string elements)
//! are resolved to one uniform byte-level view, little-endian throughout.

use vstd::prelude::*;

use crate::error::Error;
use crate::external_data::ExternalDataInfo;
use crate::proto::{DimensionProto, DimensionValue, TensorTypeProto};
use crate::types::DataType;
use crate::wire::copy_range;

verus! {

broadcast use vstd::seq_lib::group_seq_properties;

/// A tensor's resolved data.
pub enum TensorData {
    /// The tensor's literal encoded bytes, from the raw-bytes field.
    Raw(Vec<u8>),
    /// Bytes reinterpreted from one of the typed numeric arrays.
    Numeric(Vec<u8>),
    /// String tensor elements, one independently owned buffer each.
    Strings(Vec<Vec<u8>>),
}

impl TensorData {
    /// The uniform byte-level view: for strings, the elements concatenated.
    pub open spec fn byte_view(self) -> Seq<u8> {
        match self {
            TensorData::Raw(b) => b@,
            TensorData::Numeric(b) => b@,
            TensorData::Strings(parts) => parts.deep_view().flatten(),
        }
    }

    /// Total byte length across all variants; for strings, the sum of the
    /// element lengths, saturating at `usize::MAX`.
    pub fn len(&self) -> (r: usize)
        ensures
            r == if self.byte_view().len() <= usize::MAX {
                self.byte_view().len() as int
            } else {
                usize::MAX as int
            },
    {
        match self {
            TensorData::Raw(b) => b.len(),
            TensorData::Numeric(b) => b.len(),
            TensorData::Strings(parts) => {
                let ghost all = parts.deep_view();
                let mut acc: usize = 0;
                let n = parts.len();
                let mut i: usize = 0;
                while i < n
                    invariant
                        i <= n == parts@.len(),
                        all == parts.deep_view(),
                        acc == if all.take(i as int).flatten().len() <= usize::MAX {
                            all.take(i as int).flatten().len() as int
                        } else {
                            usize::MAX as int
                        },
                    decreases n - i,
                {
                    proof {
                        assert(all.take(i + 1) =~= all.take(i as int).push(all[i as int]));
                        all.take(i as int).lemma_flatten_push(all[i as int]);
                        assert(all[i as int] == parts@[i as int]@);
                    }
                    acc = acc.saturating_add(parts[i].len());
                    i = i + 1;
                }
                proof {
                    assert(all.take(n as int) =~= all);
                }
                acc
            },
        }
    }

    /// Whether the data holds no elements: no bytes for the contiguous
    /// variants, no elements for strings. Empty strings still count as
    /// elements.
    pub fn is_empty(&self) -> (r: bool)
        ensures
            r == match self {
                TensorData::Raw(b) => b@.len() == 0,
                TensorData::Numeric(b) => b@.len() == 0,
                TensorData::Strings(parts) => parts@.len() == 0,
            },
    {
        match self {
            TensorData::Raw(b) => b.len() == 0,
            TensorData::Numeric(b) => b.len() == 0,
            TensorData::Strings(parts) => parts.len() == 0,
        }
    }

    /// Convert to data that owns its buffers. Every variant already does;
    /// the value passes through unchanged.
    pub fn into_owned(self) -> (r: TensorData)
        ensures
            r == self,
    {
        self
    }

    /// The data as one contiguous owned byte buffer; string elements are
    /// concatenated in order.
    pub fn as_slice(&self) -> (r: Vec<u8>)
        ensures
            r@ == self.byte_view(),
    {
        match self {
            TensorData::Raw(b) => clone_bytes(b),
            TensorData::Numeric(b) => clone_bytes(b),
            TensorData::Strings(parts) => {
                let ghost all = parts.deep_view();
                let mut out: Vec<u8> = Vec::new();
                let n = parts.len();
                let mut i: usize = 0;
                while i < n
                    invariant
                        i <= n == parts@.len(),
                        all == parts.deep_view(),
                        out@ == all.take(i as int).flatten(),
                    decreases n - i,
                {
                    proof {
                        assert(all.take(i + 1) =~= all.take(i as int).push(all[i as int]));
                        all.take(i as int).lemma_flatten_push(all[i as int]);
                        assert(all[i as int] == parts@[i as int]@);
                    }
                    let mut piece = clone_bytes(&parts[i]);
                    out.append(&mut piece);
                    i = i + 1;
                }
                proof {
                    assert(all.take(n as int) =~= all);
                }
                out
            },
        }
    }
}

/// An owned copy of a byte buffer.
fn clone_bytes(b: &Vec<u8>) -> (r: Vec<u8>)
    ensures
        r@ == b@,
{
    copy_range(b.as_slice(), 0, b.len())
}

/// An owned copy of a list of byte buffers.
fn clone_byte_vecs(v: &Vec<Vec<u8>>) -> (r: Vec<Vec<u8>>)
    ensures
        r.deep_view() == v.deep_view(),
        r@.len() == v@.len(),
{
    let mut out: Vec<Vec<u8>> = Vec::new();
    let n = v.len();
    let mut i: usize = 0;
    while i < n
        invariant
            i <= n == v@.len(),
            out@.len() == i,
            forall|k: int| 0 <= k < i ==> out@[k]@ == v@[k]@,
        decreases n - i,
    {
        out.push(clone_bytes(&v[i]));
        i = i + 1;
    }
    proof {
        assert(out.deep_view() =~= v.deep_view());
    }
    out
}

/// The `u32` bit pattern that stands for an `i32` value.
pub open spec fn spec_u32_bits_of_i32(v: i32) -> u32 {
    if v >= 0 {
        v as u32
    } else {
        (v + 0x1_0000_0000) as u32
    }
}

/// The `u64` bit pattern that stands for an `i64` value.
pub open spec fn spec_u64_bits_of_i64(v: i64) -> u64 {
    if v >= 0 {
        v as u64
    } else {
        (v + 0x1_0000_0000_0000_0000) as u64
    }
}

/// The little-endian bytes of a `u32` array.
pub open spec fn le_bytes_of_u32s(vals: Seq<u32>) -> Seq<u8> {
    vals.map_values(|v: u32| vstd::bytes::spec_u32_to_le_bytes(v)).flatten()
}

/// The little-endian bytes of a `u64` array.
pub open spec fn le_bytes_of_u64s(vals: Seq<u64>) -> Seq<u8> {
    vals.map_values(|v: u64| vstd::bytes::spec_u64_to_le_bytes(v)).flatten()
}

/// The little-endian bytes of an `i32` array, via its bit patterns.
pub open spec fn le_bytes_of_i32s(vals: Seq<i32>) -> Seq<u8> {
    le_bytes_of_u32s(vals.map_values(|v: i32| spec_u32_bits_of_i32(v)))
}

/// The little-endian bytes of an `i64` array, via its bit patterns.
pub open spec fn le_bytes_of_i64s(vals: Seq<i64>) -> Seq<u8> {
    le_bytes_of_u64s(vals.map_values(|v: i64| spec_u64_bits_of_i64(v)))
}

/// Serialize a `u32` array into little-endian bytes.
fn bytes_of_u32s(vals: &Vec<u32>) -> (r: Vec<u8>)
    ensures
        r@ == le_bytes_of_u32s(vals@),
{
    let ghost mapped = vals@.map_values(|v: u32| vstd::bytes::spec_u32_to_le_bytes(v));
    let mut out: Vec<u8> = Vec::new();
    let n = vals.len();
    let mut i: usize = 0;
    while i < n
        invariant
            i <= n == vals@.len(),
            mapped == vals@.map_values(|v: u32| vstd::bytes::spec_u32_to_le_bytes(v)),
            out@ == mapped.take(i as int).flatten(),
        decreases n - i,
    {
        proof {
            assert(mapped.take(i + 1) =~= mapped.take(i as int).push(mapped[i as int]));
            mapped.take(i as int).lemma_flatten_push(mapped[i as int]);
        }
        let mut piece = vstd::bytes::u32_to_le_bytes(vals[i]);
        out.append(&mut piece);
        i = i + 1;
    }
    proof {
        assert(mapped.take(n as int) =~= mapped);
    }
    out
}

/// Serialize a `u64` array into little-endian bytes.
fn bytes_of_u64s(vals: &Vec<u64>) -> (r: Vec<u8>)
    ensures
        r@ == le_bytes_of_u64s(vals@),
{
    let ghost mapped = vals@.map_values(|v: u64| vstd::bytes::spec_u64_to_le_bytes(v));
    let mut out: Vec<u8> = Vec::new();
    let n = vals.len();
    let mut i: usize = 0;
    while i < n
        invariant
            i <= n == vals@.len(),
            mapped == vals@.map_values(|v: u64| vstd::bytes::spec_u64_to_le_bytes(v)),
            out@ == mapped.take(i as int).flatten(),
        decreases n - i,
    {
        proof {
            assert(mapped.take(i + 1) =~= mapped.take(i as int).push(mapped[i as int]));
            mapped.take(i as int).lemma_flatten_push(mapped[i as int]);
        }
        let mut piece = vstd::bytes::u64_to_le_bytes(vals[i]);
        out.append(&mut piece);
        i = i + 1;
    }
    proof {
        assert(mapped.take(n as int) =~= mapped);
    }
    out
}

/// The bit patterns of an `i32` array.
fn u32_bits_of_i32s(vals: &Vec<i32>) -> (r: Vec<u32>)
    ensures
        r@ == vals@.map_values(|v: i32| spec_u32_bits_of_i32(v)),
{
    let mut out: Vec<u32> = Vec::new();
    let n = vals.len();
    let mut i: usize = 0;
    while i < n
        invariant
            i <= n == vals@.len(),
            out@.len() == i,
            forall|k: int| 0 <= k < i ==> out@[k] == spec_u32_bits_of_i32(vals@[k]),
        decreases n - i,
    {
        let v = vals[i];
        let bits: u32 = if v >= 0 {
            v as u32
        } else {
            ((v as i64) + 0x1_0000_0000i64) as u32
        };
        out.push(bits);
        i = i + 1;
    }
    proof {
        assert(out@ =~= vals@.map_values(|v: i32| spec_u32_bits_of_i32(v)));
    }
    out
}

/// The bit patterns of an `i64` array.
fn u64_bits_of_i64s(vals: &Vec<i64>) -> (r: Vec<u64>)
    ensures
        r@ == vals@.map_values(|v: i64| spec_u64_bits_of_i64(v)),
{
    let mut out: Vec<u64> = Vec::new();
    let n = vals.len();
    let mut i: usize = 0;
    while i < n
        invariant
            i <= n == vals@.len(),
            out@.len() == i,
            forall|k: int| 0 <= k < i ==> out@[k] == spec_u64_bits_of_i64(vals@[k]),
        decreases n - i,
    {
        let v = vals[i];
        let bits: u64 = if v >= 0 {
            v as u64
        } else {
            ((v as i128) + 0x1_0000_0000_0000_0000i128) as u64
        };
        out.push(bits);
        i = i + 1;
    }
    proof {
        assert(out@ =~= vals@.map_values(|v: i64| spec_u64_bits_of_i64(v)));
    }
    out
}

/// The typed arrays an inline tensor payload may carry. Floating-point
/// arrays are held as their IEEE-754 bit patterns.
pub struct TensorContents {
    pub raw_data: Option<Vec<u8>>,
    pub float_data: Vec<u32>,
    pub double_data: Vec<u64>,
    pub int32_data: Vec<i32>,
    pub int64_data: Vec<i64>,
    pub uint64_data: Vec<u64>,
    pub string_data: Vec<Vec<u8>>,
}

/// Where a tensor's payload lives.
pub enum TensorPayload {
    /// A pure shape/type declaration: no data at all.
    Absent,
    /// Data embedded in the model message.
    Inline(TensorContents),
    /// Data in a sibling file, resolved through an external-data loader.
    External(ExternalDataInfo),
}

/// The storage bucket whose typed array backs a data type, per the ONNX
/// convention of packing narrow types into wider fields.
pub enum StorageBacking {
    F32,
    F64,
    I64,
    U64,
    I32,
    Strings,
}

/// The bucket for each data type; `Undefined` has none.
pub open spec fn spec_storage_backing(dt: DataType) -> Option<StorageBacking> {
    match dt {
        DataType::Float | DataType::Complex64 => Some(StorageBacking::F32),
        DataType::Double | DataType::Complex128 => Some(StorageBacking::F64),
        DataType::Int64 => Some(StorageBacking::I64),
        DataType::Uint32 | DataType::Uint64 => Some(StorageBacking::U64),
        DataType::Int32
        | DataType::Int16
        | DataType::Int8
        | DataType::Int4
        | DataType::Uint16
        | DataType::Uint8
        | DataType::Uint4
        | DataType::Bool
        | DataType::Float16
        | DataType::Bfloat16
        | DataType::Float8e4m3fn
        | DataType::Float8e4m3fnuz
        | DataType::Float8e5m2
        | DataType::Float8e5m2fnuz
        | DataType::Float8e8m0
        | DataType::Float4e2m1 => Some(StorageBacking::I32),
        DataType::String => Some(StorageBacking::Strings),
        DataType::Undefined => None,
    }
}

/// The storage bucket for a data type.
pub fn storage_backing(dt: DataType) -> (r: Option<StorageBacking>)
    ensures
        r == spec_storage_backing(dt),
{
    match dt {
        DataType::Float | DataType::Complex64 => Some(StorageBacking::F32),
        DataType::Double | DataType::Complex128 => Some(StorageBacking::F64),
        DataType::Int64 => Some(StorageBacking::I64),
        DataType::Uint32 | DataType::Uint64 => Some(StorageBacking::U64),
        DataType::Int32
        | DataType::Int16
        | DataType::Int8
        | DataType::Int4
        | DataType::Uint16
        | DataType::Uint8
        | DataType::Uint4
        | DataType::Bool
        | DataType::Float16
        | DataType::Bfloat16
        | DataType::Float8e4m3fn
        | DataType::Float8e4m3fnuz
        | DataType::Float8e5m2
        | DataType::Float8e5m2fnuz
        | DataType::Float8e8m0
        | DataType::Float4e2m1 => Some(StorageBacking::I32),
        DataType::String => Some(StorageBacking::Strings),
        DataType::Undefined => None,
    }
}

/// The bytes inline contents resolve to, if any: raw bytes first, else
/// the typed array of the declared type's bucket, little-endian.
pub open spec fn spec_inline_bytes(c: TensorContents, dt: DataType, shape: Seq<i64>) -> Option<
    Seq<u8>,
> {
    if has_raw(c) {
        Some(c.raw_data->Some_0@)
    } else {
        match spec_storage_backing(dt) {
            Some(StorageBacking::F32) => Some(le_bytes_of_u32s(c.float_data@)),
            Some(StorageBacking::F64) => Some(le_bytes_of_u64s(c.double_data@)),
            Some(StorageBacking::I64) => Some(le_bytes_of_i64s(c.int64_data@)),
            Some(StorageBacking::U64) => Some(le_bytes_of_u64s(c.uint64_data@)),
            Some(StorageBacking::I32) => Some(le_bytes_of_i32s(c.int32_data@)),
            Some(StorageBacking::Strings) => if c.string_data@.len() == 0
                && spec_shape_has_nonzero(shape) {
                None
            } else {
                Some(c.string_data.deep_view().flatten())
            },
            None => None,
        }
    }
}

/// Which `TensorData` variant resolved inline contents use: raw bytes give
/// `Raw`, the string bucket `Strings`, every numeric bucket `Numeric`.
pub open spec fn inline_variant_fits(d: TensorData, c: TensorContents, dt: DataType) -> bool {
    if has_raw(c) {
        d is Raw
    } else if spec_storage_backing(dt) == Some(StorageBacking::Strings) {
        d matches TensorData::Strings(parts) && parts.deep_view() == c.string_data.deep_view()
    } else {
        d is Numeric
    }
}

/// Whether inline contents carry raw bytes that take precedence over the
/// typed arrays.
pub open spec fn has_raw(c: TensorContents) -> bool {
    c.raw_data matches Some(rb) && rb@.len() > 0
}

/// Whether a declared shape implies at least one element along some axis.
pub open spec fn spec_shape_has_nonzero(shape: Seq<i64>) -> bool {
    exists|i: int| 0 <= i < shape.len() && shape[i] != 0
}

/// Information about one ONNX tensor, immutable after construction.
pub struct OnnxTensor {
    /// Identifier, unique within a model's registry.
    pub name: String,
    /// Ordered dimension sizes; -1 denotes a symbolic/dynamic dimension,
    /// an empty sequence a scalar.
    pub shape: Vec<i64>,
    /// Declared element type; `Undefined` means no declared type.
    pub data_type: DataType,
    /// Where the payload lives.
    pub payload: TensorPayload,
}

impl OnnxTensor {
    /// The inline bytes a payload resolves to, if any: raw bytes first,
    /// else the typed array of the declared type's bucket, little-endian.
    pub open spec fn spec_payload_bytes(self) -> Option<Seq<u8>> {
        match self.payload {
            TensorPayload::Absent => None,
            TensorPayload::External(_) => None,
            TensorPayload::Inline(c) => spec_inline_bytes(c, self.data_type, self.shape@),
        }
    }

    /// Create a tensor record.
    pub fn new(name: String, shape: Vec<i64>, data_type: DataType, payload: TensorPayload) -> (r:
        OnnxTensor)
        ensures
            r == (OnnxTensor { name, shape, data_type, payload }),
    {
        OnnxTensor { name, shape, data_type, payload }
    }

    /// Tensor name.
    pub fn name(&self) -> (r: &str)
        ensures
            r@ == self.name@,
    {
        self.name.as_str()
    }

    /// Tensor shape dimensions.
    pub fn shape(&self) -> (r: &[i64])
        ensures
            r@ == self.shape@,
    {
        self.shape.as_slice()
    }

    /// Tensor data type.
    pub fn data_type(&self) -> (r: DataType)
        ensures
            r == self.data_type,
    {
        self.data_type
    }

    /// Whether the tensor carries any payload, inline or external.
    /// Never panics; a malformed payload simply reports `false` later,
    /// when the bytes themselves are requested.
    pub fn has_data(&self) -> (r: bool)
        ensures
            r == !(self.payload is Absent),
    {
        match &self.payload {
            TensorPayload::Absent => false,
            _ => true,
        }
    }

    /// Build a tensor record from a type declaration: shape and element
    /// type only, never any data.
    ///
    /// The shape has exactly one entry per declared dimension; an entry is
    /// the literal size where one is given and -1 otherwise. A declaration
    /// without a shape gives a scalar (empty) shape. An element type that
    /// is absent, or the explicit code zero (meaning undefined), is a
    /// structural violation of the model: an invalid-model error.
    pub fn from_tensor_type(name: String, tensor_type: &TensorTypeProto) -> (r: Result<
        OnnxTensor,
        Error,
    >)
        ensures
            tensor_type.elem_type is None ==> r is Err && r->Err_0 is InvalidModel,
            tensor_type.elem_type == Some(0i32) ==> r is Err && r->Err_0 is InvalidModel,
            match tensor_type.elem_type {
                Some(et) => et != 0 ==> (r matches Ok(t) && {
                    &&& t.name == name
                    &&& t.data_type == DataType::spec_from_onnx_type(et as int)
                    &&& t.payload is Absent
                    &&& match tensor_type.shape {
                        None => t.shape@.len() == 0,
                        Some(sp) => t.shape@.len() == sp.dim@.len() && forall|i: int|
                            0 <= i < sp.dim@.len() ==> t.shape@[i] == spec_dim_size(
                                #[trigger] sp.dim@[i],
                            ),
                    }
                }),
                None => true,
            },
    {
        let shape: Vec<i64> = match &tensor_type.shape {
            Some(shape_proto) => {
                let mut dims: Vec<i64> = Vec::new();
                let n = shape_proto.dim.len();
                let mut i: usize = 0;
                while i < n
                    invariant
                        i <= n == shape_proto.dim@.len(),
                        dims@.len() == i,
                        forall|k: int|
                            0 <= k < i ==> dims@[k] == spec_dim_size(#[trigger] shape_proto.dim@[k]),
                    decreases n - i,
                {
                    let d: i64 = match &shape_proto.dim[i].value {
                        Some(DimensionValue::Literal(v)) => *v,
                        _ => -1,
                    };
                    dims.push(d);
                    i = i + 1;
                }
                dims
            },
            None => Vec::new(),
        };
        let elem_type = match tensor_type.elem_type {
            Some(et) => et,
            None => {
                return Err(Error::InvalidModel("tensor elem_type is missing".to_string()));
            },
        };
        if elem_type == 0 {
            return Err(
                Error::InvalidModel("tensor elem_type must not be undefined".to_string()),
            );
        }
        Ok(
            OnnxTensor {
                name,
                shape,
                data_type: DataType::from_onnx_type(elem_type),
                payload: TensorPayload::Absent,
            },
        )
    }

    /// Borrow-and-copy the tensor's inline data.
    ///
    /// Raw bytes take precedence; otherwise the typed array of the declared
    /// type's storage bucket is reinterpreted little-endian. A tensor with
    /// no payload, an external payload (which is resolved through the
    /// loader instead), an undefined type, or a string tensor whose shape
    /// promises elements it does not have, is a missing-field error.
    pub fn data(&self) -> (r: Result<TensorData, Error>)
        ensures
            r is Ok <==> self.spec_payload_bytes() is Some,
            r matches Ok(d) ==> Some(d.byte_view()) == self.spec_payload_bytes(),
            r matches Ok(d) ==> data_variant_fits(d, *self),
            r matches Err(e) ==> e is MissingField,
    {
        match &self.payload {
            TensorPayload::Absent => Err(Error::MissingField("tensor data".to_string())),
            TensorPayload::External(_) => Err(Error::MissingField("tensor data".to_string())),
            TensorPayload::Inline(c) => contents_to_data(c, self.data_type, &self.shape),
        }
    }

    /// Consume the tensor and return its inline data; the same resolution
    /// as `data`.
    pub fn into_data(self) -> (r: Result<TensorData, Error>)
        ensures
            r is Ok <==> self.spec_payload_bytes() is Some,
            r matches Ok(d) ==> Some(d.byte_view()) == self.spec_payload_bytes(),
            r matches Ok(d) ==> data_variant_fits(d, self),
            r matches Err(e) ==> e is MissingField,
    {
        match &self.payload {
            TensorPayload::Absent => Err(Error::MissingField("tensor data".to_string())),
            TensorPayload::External(_) => Err(Error::MissingField("tensor data".to_string())),
            TensorPayload::Inline(c) => contents_to_data(c, self.data_type, &self.shape),
        }
    }

    /// The total payload size in bytes, or nothing where `data` would fail.
    /// Never panics.
    pub fn data_size_bytes(&self) -> (r: Option<usize>)
        ensures
            r is Some <==> self.spec_payload_bytes() is Some,
            r matches Some(n) ==> {
                let b = self.spec_payload_bytes()->Some_0;
                n == if b.len() <= usize::MAX {
                    b.len() as int
                } else {
                    usize::MAX as int
                }
            },
    {
        match self.data() {
            Ok(d) => Some(d.len()),
            Err(_) => None,
        }
    }
}

impl OnnxTensor {
    /// Reinterpret the tensor's bytes as unsigned 8-bit elements.
    ///
    /// Wider reinterpretations follow the same law: `n` bytes read as
    /// elements of width `w` succeed exactly when `n` is a multiple of
    /// `w`, producing `n / w` elements, and fail with a data-conversion
    /// error citing both sizes otherwise. String tensors are concatenated
    /// first; multi-byte elements are read little-endian.
    pub fn copy_data_as_u8(&self) -> (r: Result<Vec<u8>, Error>)
        ensures
            self.spec_payload_bytes() is None ==> r is Err && r->Err_0 is MissingField,
            self.spec_payload_bytes() matches Some(b) ==> r matches Ok(v) && v@ == b,
    {
        let d = match self.data() {
            Ok(d) => d,
            Err(e) => {
                return Err(e);
            },
        };
        Ok(d.as_slice())
    }

    /// Reinterpret the tensor's bytes as little-endian 16-bit elements.
    pub fn copy_data_as_u16(&self) -> (r: Result<Vec<u16>, Error>)
        ensures
            self.spec_payload_bytes() is None ==> r is Err && r->Err_0 is MissingField,
            self.spec_payload_bytes() matches Some(b) ==> {
                &&& (r is Ok <==> b.len() % 2 == 0)
                &&& r matches Ok(v) ==> v@.len() == b.len() / 2 && forall|k: int|
                    0 <= k < v@.len() ==> v@[k] == vstd::bytes::spec_u16_from_le_bytes(
                        b.subrange(2 * k, 2 * k + 2),
                    )
                &&& r matches Err(e) ==> e matches Error::DataConversion {
                    data_size,
                    type_size,
                } && data_size == b.len() && type_size == 2
            },
    {
        let d = match self.data() {
            Ok(d) => d,
            Err(e) => {
                return Err(e);
            },
        };
        let bytes = d.as_slice();
        let n = bytes.len();
        if n % 2 != 0 {
            return Err(Error::DataConversion { data_size: n, type_size: 2 });
        }
        let count = n / 2;
        let mut out: Vec<u16> = Vec::new();
        let mut k: usize = 0;
        while k < count
            invariant
                k <= count,
                n == bytes@.len(),
                count == bytes@.len() / 2,
                2 * count == n,
                bytes@.len() % 2 == 0,
                out@.len() == k,
                forall|m: int|
                    0 <= m < k ==> out@[m] == vstd::bytes::spec_u16_from_le_bytes(
                        #[trigger] bytes@.subrange(2 * m, 2 * m + 2),
                    ),
            decreases count - k,
        {
            let w = vstd::bytes::u16_from_le_bytes(
                vstd::slice::slice_subrange(bytes.as_slice(), 2 * k, 2 * k + 2),
            );
            out.push(w);
            k = k + 1;
        }
        Ok(out)
    }

    /// Reinterpret the tensor's bytes as little-endian 32-bit elements;
    /// for a float tensor these are the IEEE-754 bit patterns.
    pub fn copy_data_as_u32(&self) -> (r: Result<Vec<u32>, Error>)
        ensures
            self.spec_payload_bytes() is None ==> r is Err && r->Err_0 is MissingField,
            self.spec_payload_bytes() matches Some(b) ==> {
                &&& (r is Ok <==> b.len() % 4 == 0)
                &&& r matches Ok(v) ==> v@.len() == b.len() / 4 && forall|k: int|
                    0 <= k < v@.len() ==> v@[k] == vstd::bytes::spec_u32_from_le_bytes(
                        b.subrange(4 * k, 4 * k + 4),
                    )
                &&& r matches Err(e) ==> e matches Error::DataConversion {
                    data_size,
                    type_size,
                } && data_size == b.len() && type_size == 4
            },
    {
        let d = match self.data() {
            Ok(d) => d,
            Err(e) => {
                return Err(e);
            },
        };
        let bytes = d.as_slice();
        let n = bytes.len();
        if n % 4 != 0 {
            return Err(Error::DataConversion { data_size: n, type_size: 4 });
        }
        let count = n / 4;
        let mut out: Vec<u32> = Vec::new();
        let mut k: usize = 0;
        while k < count
            invariant
                k <= count,
                n == bytes@.len(),
                count == bytes@.len() / 4,
                4 * count == n,
                bytes@.len() % 4 == 0,
                out@.len() == k,
                forall|m: int|
                    0 <= m < k ==> out@[m] == vstd::bytes::spec_u32_from_le_bytes(
                        #[trigger] bytes@.subrange(4 * m, 4 * m + 4),
                    ),
            decreases count - k,
        {
            let w = vstd::bytes::u32_from_le_bytes(
                vstd::slice::slice_subrange(bytes.as_slice(), 4 * k, 4 * k + 4),
            );
            out.push(w);
            k = k + 1;
        }
        Ok(out)
    }

    /// Reinterpret the tensor's bytes as little-endian 64-bit elements;
    /// for a double tensor these are the IEEE-754 bit patterns.
    pub fn copy_data_as_u64(&self) -> (r: Result<Vec<u64>, Error>)
        ensures
            self.spec_payload_bytes() is None ==> r is Err && r->Err_0 is MissingField,
            self.spec_payload_bytes() matches Some(b) ==> {
                &&& (r is Ok <==> b.len() % 8 == 0)
                &&& r matches Ok(v) ==> v@.len() == b.len() / 8 && forall|k: int|
                    0 <= k < v@.len() ==> v@[k] == vstd::bytes::spec_u64_from_le_bytes(
                        b.subrange(8 * k, 8 * k + 8),
                    )
                &&& r matches Err(e) ==> e matches Error::DataConversion {
                    data_size,
                    type_size,
                } && data_size == b.len() && type_size == 8
            },
    {
        let d = match self.data() {
            Ok(d) => d,
            Err(e) => {
                return Err(e);
            },
        };
        let bytes = d.as_slice();
        let n = bytes.len();
        if n % 8 != 0 {
            return Err(Error::DataConversion { data_size: n, type_size: 8 });
        }
        let count = n / 8;
        let mut out: Vec<u64> = Vec::new();
        let mut k: usize = 0;
        while k < count
            invariant
                k <= count,
                n == bytes@.len(),
                count == bytes@.len() / 8,
                8 * count == n,
                bytes@.len() % 8 == 0,
                out@.len() == k,
                forall|m: int|
                    0 <= m < k ==> out@[m] == vstd::bytes::spec_u64_from_le_bytes(
                        #[trigger] bytes@.subrange(8 * m, 8 * m + 8),
                    ),
            decreases count - k,
        {
            let w = vstd::bytes::u64_from_le_bytes(
                vstd::slice::slice_subrange(bytes.as_slice(), 8 * k, 8 * k + 8),
            );
            out.push(w);
            k = k + 1;
        }
        Ok(out)
    }
}

/// Which `TensorData` variant a resolved payload uses.
pub open spec fn data_variant_fits(d: TensorData, t: OnnxTensor) -> bool {
    match t.payload {
        TensorPayload::Inline(c) => inline_variant_fits(d, c, t.data_type),
        _ => false,
    }
}

/// Resolve inline contents to owned tensor data.
fn contents_to_data(c: &TensorContents, data_type: DataType, shape: &Vec<i64>) -> (r: Result<
    TensorData,
    Error,
>)
    ensures
        r is Ok <==> spec_inline_bytes(*c, data_type, shape@) is Some,
        r matches Ok(d) ==> Some(d.byte_view()) == spec_inline_bytes(*c, data_type, shape@),
        r matches Ok(d) ==> inline_variant_fits(d, *c, data_type),
        r matches Err(e) ==> e is MissingField,
{
    if let Some(rb) = &c.raw_data {
        if rb.len() > 0 {
            return Ok(TensorData::Raw(clone_bytes(rb)));
        }
    }
    match storage_backing(data_type) {
        Some(StorageBacking::F32) => Ok(TensorData::Numeric(bytes_of_u32s(&c.float_data))),
        Some(StorageBacking::F64) => Ok(TensorData::Numeric(bytes_of_u64s(&c.double_data))),
        Some(StorageBacking::I64) => {
            let bits = u64_bits_of_i64s(&c.int64_data);
            Ok(TensorData::Numeric(bytes_of_u64s(&bits)))
        },
        Some(StorageBacking::U64) => Ok(TensorData::Numeric(bytes_of_u64s(&c.uint64_data))),
        Some(StorageBacking::I32) => {
            let bits = u32_bits_of_i32s(&c.int32_data);
            Ok(TensorData::Numeric(bytes_of_u32s(&bits)))
        },
        Some(StorageBacking::Strings) => {
            if c.string_data.len() == 0 && shape_has_nonzero(shape) {
                return Err(Error::MissingField("tensor data".to_string()));
            }
            Ok(TensorData::Strings(clone_byte_vecs(&c.string_data)))
        },
        None => Err(Error::MissingField("tensor data".to_string())),
    }
}

/// Whether any declared dimension is nonzero.
fn shape_has_nonzero(shape: &Vec<i64>) -> (r: bool)
    ensures
        r == spec_shape_has_nonzero(shape@),
{
    let n = shape.len();
    let mut i: usize = 0;
    while i < n
        invariant
            i <= n == shape@.len(),
            forall|k: int| 0 <= k < i ==> shape@[k] == 0,
        decreases n - i,
    {
        if shape[i] != 0 {
            return true;
        }
        i = i + 1;
    }
    false
}

/// What a dimension declaration contributes to a shape: its literal value,
/// or -1 when none is present.
pub open spec fn spec_dim_size(d: DimensionProto) -> i64 {
    match d.value {
        Some(DimensionValue::Literal(v)) => v,
        _ => -1i64,
    }
}

} // verus!
