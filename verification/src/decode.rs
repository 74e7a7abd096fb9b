//! Schema-driven decoding: turns the raw bytes of a model file into the
//! message tree of `proto`.
//!
//! Every parser carries a functional specification: a spec-level fold
//! over the same field grammar (`sp_decode_model` down to `sp_dimension`), and
//! the executable reader returns `Ok` exactly when that fold yields a
//! message, with the message's view equal to the fold's result. Sections
//! the model builder never consumes (subgraphs, metadata, documentation
//! strings) are skipped field-wise, by both the code and the fold.

use vstd::prelude::*;

use crate::error::Error;
use crate::proto::{
    AttributeProto, AttributeView, DimensionProto, DimensionValue, DimensionValueView,
    DimensionView, EntryView, GraphProto, GraphView, ModelProto, ModelView, NodeProto, NodeView,
    ShapeView, StringEntryProto, TensorProto, TensorShapeProto, TensorTypeProto, TensorTypeView,
    TensorView, TypeProto, TypeView, ValueInfoProto, ValueInfoView,
};
use crate::text::utf8_to_string;
use crate::wire;
use crate::wire::{sp_len_window, sp_skip, sp_varint};

verus! {

/// The `i64` that a raw 64-bit varint group denotes, two's complement.
pub open spec fn i64_of_bits(v: u64) -> i64 {
    if v < 0x8000_0000_0000_0000 {
        v as i64
    } else {
        (v - 0x1_0000_0000_0000_0000) as i64
    }
}

/// The `i32` that a raw varint group denotes: truncated to 32 bits,
/// two's complement.
pub open spec fn i32_of_bits(v: u64) -> i32 {
    let low = v % 0x1_0000_0000;
    if low < 0x8000_0000 {
        low as i32
    } else {
        (low - 0x1_0000_0000) as i32
    }
}

/// Read a varint group as a signed 64-bit value.
fn i64_from_group(v: u64) -> (r: i64)
    ensures
        r == i64_of_bits(v),
{
    if v < 0x8000_0000_0000_0000 {
        v as i64
    } else {
        ((v - 0x8000_0000_0000_0000) as i64) - 0x7fff_ffff_ffff_ffff - 1
    }
}

/// Read a varint group as a signed 32-bit value.
fn i32_from_group(v: u64) -> (r: i32)
    ensures
        r == i32_of_bits(v),
{
    let low = v % 0x1_0000_0000;
    if low < 0x8000_0000 {
        low as i32
    } else {
        (((low - 0x8000_0000) as i32) - 0x7fff_ffff) - 1
    }
}

// ------------------------------------------------------------------
// field-level readers and their specifications
// ------------------------------------------------------------------

/// The payload bytes of a length-delimited field, if the wire type fits.
pub open spec fn sp_bytes_field(data: Seq<u8>, pos: int, end: int, wire: u64) -> Option<
    (Seq<u8>, int),
> {
    if wire != 2 {
        None
    } else {
        match sp_len_window(data, pos, end) {
            Some(w) => Some((data.subrange(w.0, w.1), w.1)),
            None => None,
        }
    }
}

/// The text of a string field: its payload decoded as UTF-8.
pub open spec fn sp_string_field(data: Seq<u8>, pos: int, end: int, wire: u64) -> Option<
    (Seq<char>, int),
> {
    match sp_bytes_field(data, pos, end, wire) {
        Some(b) => if vstd::utf8::valid_utf8(b.0) {
            Some((vstd::utf8::decode_utf8(b.0), b.1))
        } else {
            None
        },
        None => None,
    }
}

/// A single varint-encoded scalar field.
pub open spec fn sp_varint_field(data: Seq<u8>, pos: int, end: int, wire: u64) -> Option<
    (u64, int),
> {
    if wire != 0 {
        None
    } else {
        sp_varint(data, pos, end)
    }
}

/// The varint groups packed into `data[q..b]`.
pub open spec fn sp_varints_from(data: Seq<u8>, q: int, b: int, acc: Seq<u64>) -> Option<Seq<u64>>
    decreases b - q,
{
    if q >= b {
        Some(acc)
    } else {
        match sp_varint(data, q, b) {
            Some(v) => if q < v.1 <= b {
                sp_varints_from(data, v.1, b, acc.push(v.0))
            } else {
                None
            },
            None => None,
        }
    }
}

/// A repeated varint field, packed or not.
pub open spec fn sp_rep_varint(data: Seq<u8>, pos: int, end: int, wire: u64) -> Option<
    (Seq<u64>, int),
> {
    if wire == 0 {
        match sp_varint(data, pos, end) {
            Some(v) => Some((seq![v.0], v.1)),
            None => None,
        }
    } else if wire == 2 {
        match sp_len_window(data, pos, end) {
            Some(w) => match sp_varints_from(data, w.0, w.1, Seq::empty()) {
                Some(s) => Some((s, w.1)),
                None => None,
            },
            None => None,
        }
    } else {
        None
    }
}

/// The four-byte little-endian values packed into `data[q..b]`.
pub open spec fn sp_fixed32s_from(data: Seq<u8>, q: int, b: int, acc: Seq<u32>) -> Option<Seq<u32>>
    decreases b - q,
{
    if q >= b {
        Some(acc)
    } else if q + 4 <= b {
        sp_fixed32s_from(
            data,
            q + 4,
            b,
            acc.push(vstd::bytes::spec_u32_from_le_bytes(data.subrange(q, q + 4))),
        )
    } else {
        None
    }
}

/// A repeated four-byte field, packed or not.
pub open spec fn sp_rep_fixed32(data: Seq<u8>, pos: int, end: int, wire: u64) -> Option<
    (Seq<u32>, int),
> {
    if wire == 5 {
        if pos + 4 <= end {
            Some((seq![vstd::bytes::spec_u32_from_le_bytes(data.subrange(pos, pos + 4))], pos + 4))
        } else {
            None
        }
    } else if wire == 2 {
        match sp_len_window(data, pos, end) {
            Some(w) => match sp_fixed32s_from(data, w.0, w.1, Seq::empty()) {
                Some(s) => Some((s, w.1)),
                None => None,
            },
            None => None,
        }
    } else {
        None
    }
}

/// The eight-byte little-endian values packed into `data[q..b]`.
pub open spec fn sp_fixed64s_from(data: Seq<u8>, q: int, b: int, acc: Seq<u64>) -> Option<Seq<u64>>
    decreases b - q,
{
    if q >= b {
        Some(acc)
    } else if q + 8 <= b {
        sp_fixed64s_from(
            data,
            q + 8,
            b,
            acc.push(vstd::bytes::spec_u64_from_le_bytes(data.subrange(q, q + 8))),
        )
    } else {
        None
    }
}

/// A repeated eight-byte field, packed or not.
pub open spec fn sp_rep_fixed64(data: Seq<u8>, pos: int, end: int, wire: u64) -> Option<
    (Seq<u64>, int),
> {
    if wire == 1 {
        if pos + 8 <= end {
            Some((seq![vstd::bytes::spec_u64_from_le_bytes(data.subrange(pos, pos + 8))], pos + 8))
        } else {
            None
        }
    } else if wire == 2 {
        match sp_len_window(data, pos, end) {
            Some(w) => match sp_fixed64s_from(data, w.0, w.1, Seq::empty()) {
                Some(s) => Some((s, w.1)),
                None => None,
            },
            None => None,
        }
    } else {
        None
    }
}

/// Read a length-delimited field's payload as owned bytes.
fn read_bytes_field(data: &[u8], pos: usize, end: usize, wire_type: u64) -> (r: Result<
    (Vec<u8>, usize),
    Error,
>)
    requires
        pos <= end <= data@.len(),
    ensures
        r is Ok <==> sp_bytes_field(data@, pos as int, end as int, wire_type) is Some,
        r matches Ok(v) ==> pos < v.1 <= end && sp_bytes_field(
            data@,
            pos as int,
            end as int,
            wire_type,
        ) == Some((v.0@, v.1 as int)),
        r is Err ==> r->Err_0 is Decode,
{
    if wire_type != 2 {
        return Err(Error::Decode("expected a length-delimited field".to_string()));
    }
    let (a, b) = wire::read_len_window(data, pos, end)?;
    Ok((wire::copy_range(data, a, b), b))
}

/// Read a length-delimited field's payload as UTF-8 text.
fn read_string_field(data: &[u8], pos: usize, end: usize, wire_type: u64) -> (r: Result<
    (String, usize),
    Error,
>)
    requires
        pos <= end <= data@.len(),
    ensures
        r is Ok <==> sp_string_field(data@, pos as int, end as int, wire_type) is Some,
        r matches Ok(v) ==> pos < v.1 <= end && sp_string_field(
            data@,
            pos as int,
            end as int,
            wire_type,
        ) == Some((v.0@, v.1 as int)),
        r is Err ==> r->Err_0 is Decode,
{
    let (bytes, p) = read_bytes_field(data, pos, end, wire_type)?;
    match utf8_to_string(bytes) {
        Some(s) => Ok((s, p)),
        None => Err(Error::Decode("string field is not valid UTF-8".to_string())),
    }
}

/// Read a single varint-encoded scalar field.
fn read_varint_field(data: &[u8], pos: usize, end: usize, wire_type: u64) -> (r: Result<
    (u64, usize),
    Error,
>)
    requires
        pos <= end <= data@.len(),
    ensures
        r is Ok <==> sp_varint_field(data@, pos as int, end as int, wire_type) is Some,
        r matches Ok(v) ==> pos < v.1 <= end && sp_varint_field(
            data@,
            pos as int,
            end as int,
            wire_type,
        ) == Some((v.0, v.1 as int)),
        r is Err ==> r->Err_0 is Decode,
{
    if wire_type != 0 {
        return Err(Error::Decode("expected a varint field".to_string()));
    }
    wire::read_varint(data, pos, end)
}

/// Read a repeated varint field, packed or not, as raw 64-bit groups.
fn read_repeated_varint(data: &[u8], pos: usize, end: usize, wire_type: u64) -> (r: Result<
    (Vec<u64>, usize),
    Error,
>)
    requires
        pos <= end <= data@.len(),
    ensures
        r is Ok <==> sp_rep_varint(data@, pos as int, end as int, wire_type) is Some,
        r matches Ok(v) ==> pos < v.1 <= end && sp_rep_varint(
            data@,
            pos as int,
            end as int,
            wire_type,
        ) == Some((v.0@, v.1 as int)),
        r is Err ==> r->Err_0 is Decode,
{
    let mut out: Vec<u64> = Vec::new();
    if wire_type == 0 {
        let (v, p) = wire::read_varint(data, pos, end)?;
        out.push(v);
        proof {
            assert(out@ =~= seq![v]);
        }
        Ok((out, p))
    } else if wire_type == 2 {
        let (a, b) = wire::read_len_window(data, pos, end)?;
        let mut q = a;
        while q < b
            invariant
                a <= q <= b <= data@.len(),
                pos <= end <= data@.len(),
                wire_type == 2,
                sp_len_window(data@, pos as int, end as int) == Some((a as int, b as int)),
                sp_varints_from(data@, q as int, b as int, out@) == sp_varints_from(
                    data@,
                    a as int,
                    b as int,
                    Seq::empty(),
                ),
            decreases b - q,
        {
            let (v, p2) = wire::read_varint(data, q, b)?;
            out.push(v);
            q = p2;
        }
        Ok((out, b))
    } else {
        Err(Error::Decode("expected a varint field".to_string()))
    }
}

/// Read a repeated four-byte little-endian field, packed or not.
fn read_repeated_fixed32(data: &[u8], pos: usize, end: usize, wire_type: u64) -> (r: Result<
    (Vec<u32>, usize),
    Error,
>)
    requires
        pos <= end <= data@.len(),
    ensures
        r is Ok <==> sp_rep_fixed32(data@, pos as int, end as int, wire_type) is Some,
        r matches Ok(v) ==> pos < v.1 <= end && sp_rep_fixed32(
            data@,
            pos as int,
            end as int,
            wire_type,
        ) == Some((v.0@, v.1 as int)),
        r is Err ==> r->Err_0 is Decode,
{
    let mut out: Vec<u32> = Vec::new();
    if wire_type == 5 {
        let (v, p) = wire::read_fixed32(data, pos, end)?;
        out.push(v);
        proof {
            assert(out@ =~= seq![vstd::bytes::spec_u32_from_le_bytes(
                data@.subrange(pos as int, pos + 4),
            )]);
        }
        Ok((out, p))
    } else if wire_type == 2 {
        let (a, b) = wire::read_len_window(data, pos, end)?;
        let mut q = a;
        while q < b
            invariant
                a <= q <= b <= data@.len(),
                pos <= end <= data@.len(),
                wire_type == 2,
                sp_len_window(data@, pos as int, end as int) == Some((a as int, b as int)),
                sp_fixed32s_from(data@, q as int, b as int, out@) == sp_fixed32s_from(
                    data@,
                    a as int,
                    b as int,
                    Seq::empty(),
                ),
            decreases b - q,
        {
            let (v, p2) = wire::read_fixed32(data, q, b)?;
            out.push(v);
            q = p2;
        }
        Ok((out, b))
    } else {
        Err(Error::Decode("expected a four-byte field".to_string()))
    }
}

/// Read a repeated eight-byte little-endian field, packed or not.
fn read_repeated_fixed64(data: &[u8], pos: usize, end: usize, wire_type: u64) -> (r: Result<
    (Vec<u64>, usize),
    Error,
>)
    requires
        pos <= end <= data@.len(),
    ensures
        r is Ok <==> sp_rep_fixed64(data@, pos as int, end as int, wire_type) is Some,
        r matches Ok(v) ==> pos < v.1 <= end && sp_rep_fixed64(
            data@,
            pos as int,
            end as int,
            wire_type,
        ) == Some((v.0@, v.1 as int)),
        r is Err ==> r->Err_0 is Decode,
{
    let mut out: Vec<u64> = Vec::new();
    if wire_type == 1 {
        let (v, p) = wire::read_fixed64(data, pos, end)?;
        out.push(v);
        proof {
            assert(out@ =~= seq![vstd::bytes::spec_u64_from_le_bytes(
                data@.subrange(pos as int, pos + 8),
            )]);
        }
        Ok((out, p))
    } else if wire_type == 2 {
        let (a, b) = wire::read_len_window(data, pos, end)?;
        let mut q = a;
        while q < b
            invariant
                a <= q <= b <= data@.len(),
                pos <= end <= data@.len(),
                wire_type == 2,
                sp_len_window(data@, pos as int, end as int) == Some((a as int, b as int)),
                sp_fixed64s_from(data@, q as int, b as int, out@) == sp_fixed64s_from(
                    data@,
                    a as int,
                    b as int,
                    Seq::empty(),
                ),
            decreases b - q,
        {
            let (v, p2) = wire::read_fixed64(data, q, b)?;
            out.push(v);
            q = p2;
        }
        Ok((out, b))
    } else {
        Err(Error::Decode("expected an eight-byte field".to_string()))
    }
}


// ------------------------------------------------------------------
// message-level parsers and their specifications
// ------------------------------------------------------------------

/// A four-byte scalar field (a wire-format float's bits).
pub open spec fn sp_fixed32_field(data: Seq<u8>, pos: int, end: int, wire: u64) -> Option<
    (u32, int),
> {
    if wire != 5 {
        None
    } else if pos + 4 <= end {
        Some((vstd::bytes::spec_u32_from_le_bytes(data.subrange(pos, pos + 4)), pos + 4))
    } else {
        None
    }
}

/// An entry message with both fields absent.
pub open spec fn entry_view_empty() -> EntryView {
    EntryView { key: None, value: None }
}

/// The fold of an entry message's fields over `data[pos..end]`.
pub open spec fn sp_entry_from(data: Seq<u8>, pos: int, end: int, acc: EntryView) -> Option<
    EntryView,
>
    decreases end - pos,
{
    if pos >= end {
        Some(acc)
    } else {
        match sp_varint(data, pos, end) {
            None => None,
            Some(kv) => {
                let p = kv.1;
                let field = kv.0 / 8;
                let wire = kv.0 % 8;
                if p <= pos {
                    None
                } else if field == 1 {
                    match sp_string_field(data, p, end, wire) {
                        Some(v) => if p < v.1 <= end {
                            sp_entry_from(data, v.1, end, EntryView { key: Some(v.0), ..acc })
                        } else {
                            None
                        },
                        None => None,
                    }
                } else if field == 2 {
                    match sp_string_field(data, p, end, wire) {
                        Some(v) => if p < v.1 <= end {
                            sp_entry_from(data, v.1, end, EntryView { value: Some(v.0), ..acc })
                        } else {
                            None
                        },
                        None => None,
                    }
                } else {
                    match sp_skip(data, p, end, wire) {
                        Some(p2) => if p < p2 <= end {
                            sp_entry_from(data, p2, end, acc)
                        } else {
                            None
                        },
                        None => None,
                    }
                }
            },
        }
    }
}

/// The entry message encoded in `data[start..end]`.
pub open spec fn sp_entry(data: Seq<u8>, start: int, end: int) -> Option<EntryView> {
    sp_entry_from(data, start, end, entry_view_empty())
}

/// Decode one external-data key/value entry.
fn parse_string_entry(data: &[u8], start: usize, end: usize) -> (r: Result<StringEntryProto, Error>)
    requires
        start <= end <= data@.len(),
    ensures
        r is Ok <==> sp_entry(data@, start as int, end as int) is Some,
        r matches Ok(m) ==> sp_entry(data@, start as int, end as int) == Some(m@),
        r is Err ==> r->Err_0 is Decode,
{
    let mut msg = StringEntryProto { key: None, value: None };
    let mut pos = start;
    while pos < end
        invariant
            start <= pos <= end <= data@.len(),
            sp_entry_from(data@, pos as int, end as int, msg@) == sp_entry(
                data@,
                start as int,
                end as int,
            ),
        decreases end - pos,
    {
        let ghost acc0 = msg@;
        let ghost pos0 = pos as int;
        let (key, p) = wire::read_varint(data, pos, end)?;
        let field = key / 8;
        let wire_type = key % 8;
        pos = p;
        if field == 1 {
            let (sv, p2) = read_string_field(data, pos, end, wire_type)?;
            msg.key = Some(sv);
            pos = p2;
        } else if field == 2 {
            let (sv, p2) = read_string_field(data, pos, end, wire_type)?;
            msg.value = Some(sv);
            pos = p2;
        } else {
            pos = wire::skip_field(data, pos, end, wire_type)?;
        }
        proof {
            assert(sp_entry_from(data@, pos0, end as int, acc0) == sp_entry_from(
                data@,
                pos as int,
                end as int,
                msg@,
            ));
        }
    }
    Ok(msg)
}

/// A tensor message with every field absent or empty.
pub open spec fn tensor_view_empty() -> TensorView {
    TensorView {
        dims: Seq::empty(),
        data_type: None,
        float_data: Seq::empty(),
        int32_data: Seq::empty(),
        string_data: Seq::empty(),
        int64_data: Seq::empty(),
        name: None,
        raw_data: None,
        double_data: Seq::empty(),
        uint64_data: Seq::empty(),
        external_data: Seq::empty(),
    }
}

/// The fold of a tensor message's fields over `data[pos..end]`.
pub open spec fn sp_tensor_from(data: Seq<u8>, pos: int, end: int, acc: TensorView) -> Option<
    TensorView,
>
    decreases end - pos,
{
    if pos >= end {
        Some(acc)
    } else {
        match sp_varint(data, pos, end) {
            None => None,
            Some(kv) => {
                let p = kv.1;
                let field = kv.0 / 8;
                let wire = kv.0 % 8;
                if p <= pos {
                    None
                } else if field == 1 {
                    match sp_rep_varint(data, p, end, wire) {
                        Some(v) => if p < v.1 <= end {
                            sp_tensor_from(
                                data,
                                v.1,
                                end,
                                TensorView {
                                    dims: acc.dims + v.0.map_values(|g: u64| i64_of_bits(g)),
                                    ..acc
                                },
                            )
                        } else {
                            None
                        },
                        None => None,
                    }
                } else if field == 2 {
                    match sp_varint_field(data, p, end, wire) {
                        Some(v) => if p < v.1 <= end {
                            sp_tensor_from(
                                data,
                                v.1,
                                end,
                                TensorView { data_type: Some(i32_of_bits(v.0)), ..acc },
                            )
                        } else {
                            None
                        },
                        None => None,
                    }
                } else if field == 4 {
                    match sp_rep_fixed32(data, p, end, wire) {
                        Some(v) => if p < v.1 <= end {
                            sp_tensor_from(
                                data,
                                v.1,
                                end,
                                TensorView { float_data: acc.float_data + v.0, ..acc },
                            )
                        } else {
                            None
                        },
                        None => None,
                    }
                } else if field == 5 {
                    match sp_rep_varint(data, p, end, wire) {
                        Some(v) => if p < v.1 <= end {
                            sp_tensor_from(
                                data,
                                v.1,
                                end,
                                TensorView {
                                    int32_data: acc.int32_data + v.0.map_values(
                                        |g: u64| i32_of_bits(g),
                                    ),
                                    ..acc
                                },
                            )
                        } else {
                            None
                        },
                        None => None,
                    }
                } else if field == 6 {
                    match sp_bytes_field(data, p, end, wire) {
                        Some(v) => if p < v.1 <= end {
                            sp_tensor_from(
                                data,
                                v.1,
                                end,
                                TensorView { string_data: acc.string_data.push(v.0), ..acc },
                            )
                        } else {
                            None
                        },
                        None => None,
                    }
                } else if field == 7 {
                    match sp_rep_varint(data, p, end, wire) {
                        Some(v) => if p < v.1 <= end {
                            sp_tensor_from(
                                data,
                                v.1,
                                end,
                                TensorView {
                                    int64_data: acc.int64_data + v.0.map_values(
                                        |g: u64| i64_of_bits(g),
                                    ),
                                    ..acc
                                },
                            )
                        } else {
                            None
                        },
                        None => None,
                    }
                } else if field == 8 {
                    match sp_string_field(data, p, end, wire) {
                        Some(v) => if p < v.1 <= end {
                            sp_tensor_from(data, v.1, end, TensorView { name: Some(v.0), ..acc })
                        } else {
                            None
                        },
                        None => None,
                    }
                } else if field == 9 {
                    match sp_bytes_field(data, p, end, wire) {
                        Some(v) => if p < v.1 <= end {
                            sp_tensor_from(
                                data,
                                v.1,
                                end,
                                TensorView { raw_data: Some(v.0), ..acc },
                            )
                        } else {
                            None
                        },
                        None => None,
                    }
                } else if field == 10 {
                    match sp_rep_fixed64(data, p, end, wire) {
                        Some(v) => if p < v.1 <= end {
                            sp_tensor_from(
                                data,
                                v.1,
                                end,
                                TensorView { double_data: acc.double_data + v.0, ..acc },
                            )
                        } else {
                            None
                        },
                        None => None,
                    }
                } else if field == 11 {
                    match sp_rep_varint(data, p, end, wire) {
                        Some(v) => if p < v.1 <= end {
                            sp_tensor_from(
                                data,
                                v.1,
                                end,
                                TensorView { uint64_data: acc.uint64_data + v.0, ..acc },
                            )
                        } else {
                            None
                        },
                        None => None,
                    }
                } else if field == 13 {
                    if wire != 2 {
                        None
                    } else {
                        match sp_len_window(data, p, end) {
                            Some(w) => match sp_entry(data, w.0, w.1) {
                                Some(ev) => if p < w.1 <= end {
                                    sp_tensor_from(
                                        data,
                                        w.1,
                                        end,
                                        TensorView {
                                            external_data: acc.external_data.push(ev),
                                            ..acc
                                        },
                                    )
                                } else {
                                    None
                                },
                                None => None,
                            },
                            None => None,
                        }
                    }
                } else {
                    match sp_skip(data, p, end, wire) {
                        Some(p2) => if p < p2 <= end {
                            sp_tensor_from(data, p2, end, acc)
                        } else {
                            None
                        },
                        None => None,
                    }
                }
            },
        }
    }
}

/// The tensor message encoded in `data[start..end]`.
pub open spec fn sp_tensor(data: Seq<u8>, start: int, end: int) -> Option<TensorView> {
    sp_tensor_from(data, start, end, tensor_view_empty())
}

/// Signed 64-bit values of a list of raw varint groups.
fn i64s_from_groups(vals: &Vec<u64>) -> (r: Vec<i64>)
    ensures
        r@ == vals@.map_values(|g: u64| i64_of_bits(g)),
{
    let mut out: Vec<i64> = Vec::new();
    let n = vals.len();
    let mut i: usize = 0;
    while i < n
        invariant
            i <= n == vals@.len(),
            out@.len() == i,
            forall|k: int| 0 <= k < i ==> out@[k] == i64_of_bits(#[trigger] vals@[k]),
        decreases n - i,
    {
        let x = i64_from_group(vals[i]);
        out.push(x);
        i = i + 1;
    }
    proof {
        assert(out@ =~= vals@.map_values(|g: u64| i64_of_bits(g)));
    }
    out
}

/// Signed 32-bit values of a list of raw varint groups.
fn i32s_from_groups(vals: &Vec<u64>) -> (r: Vec<i32>)
    ensures
        r@ == vals@.map_values(|g: u64| i32_of_bits(g)),
{
    let mut out: Vec<i32> = Vec::new();
    let n = vals.len();
    let mut i: usize = 0;
    while i < n
        invariant
            i <= n == vals@.len(),
            out@.len() == i,
            forall|k: int| 0 <= k < i ==> out@[k] == i32_of_bits(#[trigger] vals@[k]),
        decreases n - i,
    {
        let x = i32_from_group(vals[i]);
        out.push(x);
        i = i + 1;
    }
    proof {
        assert(out@ =~= vals@.map_values(|g: u64| i32_of_bits(g)));
    }
    out
}

/// Decode a tensor message, including every payload encoding the model
/// builder understands.
#[verifier::rlimit(100)]
fn parse_tensor(data: &[u8], start: usize, end: usize) -> (r: Result<TensorProto, Error>)
    requires
        start <= end <= data@.len(),
    ensures
        r is Ok <==> sp_tensor(data@, start as int, end as int) is Some,
        r matches Ok(m) ==> sp_tensor(data@, start as int, end as int) == Some(m@),
        r is Err ==> r->Err_0 is Decode,
{
    let mut msg = TensorProto::empty();
    let mut pos = start;
    proof {
        assert(msg@ =~= tensor_view_empty());
    }
    while pos < end
        invariant
            start <= pos <= end <= data@.len(),
            sp_tensor_from(data@, pos as int, end as int, msg@) == sp_tensor(
                data@,
                start as int,
                end as int,
            ),
        decreases end - pos,
    {
        let ghost acc0 = msg@;
        let ghost pos0 = pos as int;
        let (key, p) = wire::read_varint(data, pos, end)?;
        let field = key / 8;
        let wire_type = key % 8;
        pos = p;
        if field == 1 {
            let (vals, p2) = read_repeated_varint(data, pos, end, wire_type)?;
            let mut conv = i64s_from_groups(&vals);
            msg.dims.append(&mut conv);
            pos = p2;
        } else if field == 2 {
            let (v, p2) = read_varint_field(data, pos, end, wire_type)?;
            msg.data_type = Some(i32_from_group(v));
            pos = p2;
        } else if field == 4 {
            let (mut vals, p2) = read_repeated_fixed32(data, pos, end, wire_type)?;
            msg.float_data.append(&mut vals);
            pos = p2;
        } else if field == 5 {
            let (vals, p2) = read_repeated_varint(data, pos, end, wire_type)?;
            let mut conv = i32s_from_groups(&vals);
            msg.int32_data.append(&mut conv);
            pos = p2;
        } else if field == 6 {
            let (bytes, p2) = read_bytes_field(data, pos, end, wire_type)?;
            msg.string_data.push(bytes);
            pos = p2;
            proof {
                assert(msg@.string_data =~~= acc0.string_data.push(
                    sp_bytes_field(data@, p as int, end as int, wire_type)->Some_0.0,
                ));
            }
        } else if field == 7 {
            let (vals, p2) = read_repeated_varint(data, pos, end, wire_type)?;
            let mut conv = i64s_from_groups(&vals);
            msg.int64_data.append(&mut conv);
            pos = p2;
        } else if field == 8 {
            let (sv, p2) = read_string_field(data, pos, end, wire_type)?;
            msg.name = Some(sv);
            pos = p2;
        } else if field == 9 {
            let (bytes, p2) = read_bytes_field(data, pos, end, wire_type)?;
            msg.raw_data = Some(bytes);
            pos = p2;
        } else if field == 10 {
            let (mut vals, p2) = read_repeated_fixed64(data, pos, end, wire_type)?;
            msg.double_data.append(&mut vals);
            pos = p2;
        } else if field == 11 {
            let (mut vals, p2) = read_repeated_varint(data, pos, end, wire_type)?;
            msg.uint64_data.append(&mut vals);
            pos = p2;
        } else if field == 13 {
            if wire_type != 2 {
                return Err(Error::Decode("expected a length-delimited field".to_string()));
            }
            let (a, b) = wire::read_len_window(data, pos, end)?;
            let entry = parse_string_entry(data, a, b)?;
            msg.external_data.push(entry);
            pos = b;
            proof {
                assert(msg@.external_data =~= acc0.external_data.push(
                    sp_entry(data@, a as int, b as int)->Some_0,
                ));
            }
        } else {
            pos = wire::skip_field(data, pos, end, wire_type)?;
        }
        proof {
            assert(sp_tensor_from(data@, pos0, end as int, acc0) == sp_tensor_from(
                data@,
                pos as int,
                end as int,
                msg@,
            ));
        }
    }
    Ok(msg)
}


/// An attribute message with every field absent or empty.
pub open spec fn attribute_view_empty() -> AttributeView {
    AttributeView {
        name: None,
        f: None,
        i: None,
        s: None,
        t: None,
        floats: Seq::empty(),
        ints: Seq::empty(),
        strings: Seq::empty(),
        attr_type: None,
    }
}

/// The fold of an attribute message's fields over `data[pos..end]`.
pub open spec fn sp_attribute_from(data: Seq<u8>, pos: int, end: int, acc: AttributeView) -> Option<
    AttributeView,
>
    decreases end - pos,
{
    if pos >= end {
        Some(acc)
    } else {
        match sp_varint(data, pos, end) {
            None => None,
            Some(kv) => {
                let p = kv.1;
                let field = kv.0 / 8;
                let wire = kv.0 % 8;
                if p <= pos {
                    None
                } else if field == 1 {
                    match sp_string_field(data, p, end, wire) {
                        Some(v) => if p < v.1 <= end {
                            sp_attribute_from(
                                data,
                                v.1,
                                end,
                                AttributeView { name: Some(v.0), ..acc },
                            )
                        } else {
                            None
                        },
                        None => None,
                    }
                } else if field == 2 {
                    match sp_fixed32_field(data, p, end, wire) {
                        Some(v) => if p < v.1 <= end {
                            sp_attribute_from(data, v.1, end, AttributeView { f: Some(v.0), ..acc })
                        } else {
                            None
                        },
                        None => None,
                    }
                } else if field == 3 {
                    match sp_varint_field(data, p, end, wire) {
                        Some(v) => if p < v.1 <= end {
                            sp_attribute_from(
                                data,
                                v.1,
                                end,
                                AttributeView { i: Some(i64_of_bits(v.0)), ..acc },
                            )
                        } else {
                            None
                        },
                        None => None,
                    }
                } else if field == 4 {
                    match sp_bytes_field(data, p, end, wire) {
                        Some(v) => if p < v.1 <= end {
                            sp_attribute_from(data, v.1, end, AttributeView { s: Some(v.0), ..acc })
                        } else {
                            None
                        },
                        None => None,
                    }
                } else if field == 5 {
                    if wire != 2 {
                        None
                    } else {
                        match sp_len_window(data, p, end) {
                            Some(w) => match sp_tensor(data, w.0, w.1) {
                                Some(tv) => if p < w.1 <= end {
                                    sp_attribute_from(
                                        data,
                                        w.1,
                                        end,
                                        AttributeView { t: Some(tv), ..acc },
                                    )
                                } else {
                                    None
                                },
                                None => None,
                            },
                            None => None,
                        }
                    }
                } else if field == 7 {
                    match sp_rep_fixed32(data, p, end, wire) {
                        Some(v) => if p < v.1 <= end {
                            sp_attribute_from(
                                data,
                                v.1,
                                end,
                                AttributeView { floats: acc.floats + v.0, ..acc },
                            )
                        } else {
                            None
                        },
                        None => None,
                    }
                } else if field == 8 {
                    match sp_rep_varint(data, p, end, wire) {
                        Some(v) => if p < v.1 <= end {
                            sp_attribute_from(
                                data,
                                v.1,
                                end,
                                AttributeView {
                                    ints: acc.ints + v.0.map_values(|g: u64| i64_of_bits(g)),
                                    ..acc
                                },
                            )
                        } else {
                            None
                        },
                        None => None,
                    }
                } else if field == 9 {
                    match sp_bytes_field(data, p, end, wire) {
                        Some(v) => if p < v.1 <= end {
                            sp_attribute_from(
                                data,
                                v.1,
                                end,
                                AttributeView { strings: acc.strings.push(v.0), ..acc },
                            )
                        } else {
                            None
                        },
                        None => None,
                    }
                } else if field == 20 {
                    match sp_varint_field(data, p, end, wire) {
                        Some(v) => if p < v.1 <= end {
                            sp_attribute_from(
                                data,
                                v.1,
                                end,
                                AttributeView { attr_type: Some(i32_of_bits(v.0)), ..acc },
                            )
                        } else {
                            None
                        },
                        None => None,
                    }
                } else {
                    match sp_skip(data, p, end, wire) {
                        Some(p2) => if p < p2 <= end {
                            sp_attribute_from(data, p2, end, acc)
                        } else {
                            None
                        },
                        None => None,
                    }
                }
            },
        }
    }
}

/// The attribute message encoded in `data[start..end]`.
pub open spec fn sp_attribute(data: Seq<u8>, start: int, end: int) -> Option<AttributeView> {
    sp_attribute_from(data, start, end, attribute_view_empty())
}

/// Decode an attribute message. Subgraph payloads are skipped: the
/// attribute adapter refuses graph-typed attributes anyway.
#[verifier::rlimit(100)]
fn parse_attribute(data: &[u8], start: usize, end: usize) -> (r: Result<AttributeProto, Error>)
    requires
        start <= end <= data@.len(),
    ensures
        r is Ok <==> sp_attribute(data@, start as int, end as int) is Some,
        r matches Ok(m) ==> sp_attribute(data@, start as int, end as int) == Some(m@),
        r is Err ==> r->Err_0 is Decode,
{
    let mut msg = AttributeProto {
        name: None,
        f: None,
        i: None,
        s: None,
        t: None,
        floats: Vec::new(),
        ints: Vec::new(),
        strings: Vec::new(),
        attr_type: None,
    };
    let mut pos = start;
    proof {
        assert(msg@ =~= attribute_view_empty());
    }
    while pos < end
        invariant
            start <= pos <= end <= data@.len(),
            sp_attribute_from(data@, pos as int, end as int, msg@) == sp_attribute(
                data@,
                start as int,
                end as int,
            ),
        decreases end - pos,
    {
        let ghost acc0 = msg@;
        let ghost pos0 = pos as int;
        let (key, p) = wire::read_varint(data, pos, end)?;
        let field = key / 8;
        let wire_type = key % 8;
        pos = p;
        if field == 1 {
            let (sv, p2) = read_string_field(data, pos, end, wire_type)?;
            msg.name = Some(sv);
            pos = p2;
        } else if field == 2 {
            if wire_type != 5 {
                return Err(Error::Decode("expected a four-byte field".to_string()));
            }
            let (v, p2) = wire::read_fixed32(data, pos, end)?;
            msg.f = Some(v);
            pos = p2;
        } else if field == 3 {
            let (v, p2) = read_varint_field(data, pos, end, wire_type)?;
            msg.i = Some(i64_from_group(v));
            pos = p2;
        } else if field == 4 {
            let (bytes, p2) = read_bytes_field(data, pos, end, wire_type)?;
            msg.s = Some(bytes);
            pos = p2;
        } else if field == 5 {
            if wire_type != 2 {
                return Err(Error::Decode("expected a length-delimited field".to_string()));
            }
            let (a, b) = wire::read_len_window(data, pos, end)?;
            let t = parse_tensor(data, a, b)?;
            msg.t = Some(t);
            pos = b;
        } else if field == 7 {
            let (mut vals, p2) = read_repeated_fixed32(data, pos, end, wire_type)?;
            msg.floats.append(&mut vals);
            pos = p2;
        } else if field == 8 {
            let (vals, p2) = read_repeated_varint(data, pos, end, wire_type)?;
            let mut conv = i64s_from_groups(&vals);
            msg.ints.append(&mut conv);
            pos = p2;
        } else if field == 9 {
            let (bytes, p2) = read_bytes_field(data, pos, end, wire_type)?;
            msg.strings.push(bytes);
            pos = p2;
            proof {
                assert(msg@.strings =~~= acc0.strings.push(
                    sp_bytes_field(data@, p as int, end as int, wire_type)->Some_0.0,
                ));
            }
        } else if field == 20 {
            let (v, p2) = read_varint_field(data, pos, end, wire_type)?;
            msg.attr_type = Some(i32_from_group(v));
            pos = p2;
        } else {
            pos = wire::skip_field(data, pos, end, wire_type)?;
        }
        proof {
            assert(sp_attribute_from(data@, pos0, end as int, acc0) == sp_attribute_from(
                data@,
                pos as int,
                end as int,
                msg@,
            ));
        }
    }
    Ok(msg)
}

/// A node message with every field absent or empty.
pub open spec fn node_view_empty() -> NodeView {
    NodeView {
        input: Seq::empty(),
        output: Seq::empty(),
        name: None,
        op_type: None,
        attribute: Seq::empty(),
    }
}

/// The fold of a node message's fields over `data[pos..end]`.
pub open spec fn sp_node_from(data: Seq<u8>, pos: int, end: int, acc: NodeView) -> Option<NodeView>
    decreases end - pos,
{
    if pos >= end {
        Some(acc)
    } else {
        match sp_varint(data, pos, end) {
            None => None,
            Some(kv) => {
                let p = kv.1;
                let field = kv.0 / 8;
                let wire = kv.0 % 8;
                if p <= pos {
                    None
                } else if field == 1 {
                    match sp_string_field(data, p, end, wire) {
                        Some(v) => if p < v.1 <= end {
                            sp_node_from(
                                data,
                                v.1,
                                end,
                                NodeView { input: acc.input.push(v.0), ..acc },
                            )
                        } else {
                            None
                        },
                        None => None,
                    }
                } else if field == 2 {
                    match sp_string_field(data, p, end, wire) {
                        Some(v) => if p < v.1 <= end {
                            sp_node_from(
                                data,
                                v.1,
                                end,
                                NodeView { output: acc.output.push(v.0), ..acc },
                            )
                        } else {
                            None
                        },
                        None => None,
                    }
                } else if field == 3 {
                    match sp_string_field(data, p, end, wire) {
                        Some(v) => if p < v.1 <= end {
                            sp_node_from(data, v.1, end, NodeView { name: Some(v.0), ..acc })
                        } else {
                            None
                        },
                        None => None,
                    }
                } else if field == 4 {
                    match sp_string_field(data, p, end, wire) {
                        Some(v) => if p < v.1 <= end {
                            sp_node_from(data, v.1, end, NodeView { op_type: Some(v.0), ..acc })
                        } else {
                            None
                        },
                        None => None,
                    }
                } else if field == 5 {
                    if wire != 2 {
                        None
                    } else {
                        match sp_len_window(data, p, end) {
                            Some(w) => match sp_attribute(data, w.0, w.1) {
                                Some(av) => if p < w.1 <= end {
                                    sp_node_from(
                                        data,
                                        w.1,
                                        end,
                                        NodeView { attribute: acc.attribute.push(av), ..acc },
                                    )
                                } else {
                                    None
                                },
                                None => None,
                            },
                            None => None,
                        }
                    }
                } else {
                    match sp_skip(data, p, end, wire) {
                        Some(p2) => if p < p2 <= end {
                            sp_node_from(data, p2, end, acc)
                        } else {
                            None
                        },
                        None => None,
                    }
                }
            },
        }
    }
}

/// The node message encoded in `data[start..end]`.
pub open spec fn sp_node(data: Seq<u8>, start: int, end: int) -> Option<NodeView> {
    sp_node_from(data, start, end, node_view_empty())
}

/// Decode one operation node.
fn parse_node(data: &[u8], start: usize, end: usize) -> (r: Result<NodeProto, Error>)
    requires
        start <= end <= data@.len(),
    ensures
        r is Ok <==> sp_node(data@, start as int, end as int) is Some,
        r matches Ok(m) ==> sp_node(data@, start as int, end as int) == Some(m@),
        r is Err ==> r->Err_0 is Decode,
{
    let mut msg = NodeProto {
        input: Vec::new(),
        output: Vec::new(),
        name: None,
        op_type: None,
        attribute: Vec::new(),
    };
    let mut pos = start;
    proof {
        assert(msg@ =~= node_view_empty());
    }
    while pos < end
        invariant
            start <= pos <= end <= data@.len(),
            sp_node_from(data@, pos as int, end as int, msg@) == sp_node(
                data@,
                start as int,
                end as int,
            ),
        decreases end - pos,
    {
        let ghost acc0 = msg@;
        let ghost pos0 = pos as int;
        let (key, p) = wire::read_varint(data, pos, end)?;
        let field = key / 8;
        let wire_type = key % 8;
        pos = p;
        if field == 1 {
            let (sv, p2) = read_string_field(data, pos, end, wire_type)?;
            msg.input.push(sv);
            pos = p2;
            proof {
                assert(msg@.input =~~= acc0.input.push(
                    sp_string_field(data@, p as int, end as int, wire_type)->Some_0.0,
                ));
            }
        } else if field == 2 {
            let (sv, p2) = read_string_field(data, pos, end, wire_type)?;
            msg.output.push(sv);
            pos = p2;
            proof {
                assert(msg@.output =~~= acc0.output.push(
                    sp_string_field(data@, p as int, end as int, wire_type)->Some_0.0,
                ));
            }
        } else if field == 3 {
            let (sv, p2) = read_string_field(data, pos, end, wire_type)?;
            msg.name = Some(sv);
            pos = p2;
        } else if field == 4 {
            let (sv, p2) = read_string_field(data, pos, end, wire_type)?;
            msg.op_type = Some(sv);
            pos = p2;
        } else if field == 5 {
            if wire_type != 2 {
                return Err(Error::Decode("expected a length-delimited field".to_string()));
            }
            let (a, b) = wire::read_len_window(data, pos, end)?;
            let attr = parse_attribute(data, a, b)?;
            msg.attribute.push(attr);
            pos = b;
            proof {
                assert(msg@.attribute =~= acc0.attribute.push(
                    sp_attribute(data@, a as int, b as int)->Some_0,
                ));
            }
        } else {
            pos = wire::skip_field(data, pos, end, wire_type)?;
        }
        proof {
            assert(sp_node_from(data@, pos0, end as int, acc0) == sp_node_from(
                data@,
                pos as int,
                end as int,
                msg@,
            ));
        }
    }
    Ok(msg)
}


/// A dimension with no value.
pub open spec fn dimension_view_empty() -> DimensionView {
    DimensionView { value: None }
}

/// The fold of a dimension's fields over `data[pos..end]`.
pub open spec fn sp_dimension_from(data: Seq<u8>, pos: int, end: int, acc: DimensionView) -> Option<
    DimensionView,
>
    decreases end - pos,
{
    if pos >= end {
        Some(acc)
    } else {
        match sp_varint(data, pos, end) {
            None => None,
            Some(kv) => {
                let p = kv.1;
                let field = kv.0 / 8;
                let wire = kv.0 % 8;
                if p <= pos {
                    None
                } else if field == 1 {
                    match sp_varint_field(data, p, end, wire) {
                        Some(v) => if p < v.1 <= end {
                            sp_dimension_from(
                                data,
                                v.1,
                                end,
                                DimensionView {
                                    value: Some(DimensionValueView::Literal(i64_of_bits(v.0))),
                                },
                            )
                        } else {
                            None
                        },
                        None => None,
                    }
                } else if field == 2 {
                    match sp_string_field(data, p, end, wire) {
                        Some(v) => if p < v.1 <= end {
                            sp_dimension_from(
                                data,
                                v.1,
                                end,
                                DimensionView {
                                    value: Some(DimensionValueView::Symbolic(v.0)),
                                },
                            )
                        } else {
                            None
                        },
                        None => None,
                    }
                } else {
                    match sp_skip(data, p, end, wire) {
                        Some(p2) => if p < p2 <= end {
                            sp_dimension_from(data, p2, end, acc)
                        } else {
                            None
                        },
                        None => None,
                    }
                }
            },
        }
    }
}

/// The dimension encoded in `data[start..end]`.
pub open spec fn sp_dimension(data: Seq<u8>, start: int, end: int) -> Option<DimensionView> {
    sp_dimension_from(data, start, end, dimension_view_empty())
}

/// Decode one dimension of a declared shape.
fn parse_dimension(data: &[u8], start: usize, end: usize) -> (r: Result<DimensionProto, Error>)
    requires
        start <= end <= data@.len(),
    ensures
        r is Ok <==> sp_dimension(data@, start as int, end as int) is Some,
        r matches Ok(m) ==> sp_dimension(data@, start as int, end as int) == Some(m@),
        r is Err ==> r->Err_0 is Decode,
{
    let mut msg = DimensionProto { value: None };
    let mut pos = start;
    proof {
        assert(msg@ =~= dimension_view_empty());
    }
    while pos < end
        invariant
            start <= pos <= end <= data@.len(),
            sp_dimension_from(data@, pos as int, end as int, msg@) == sp_dimension(
                data@,
                start as int,
                end as int,
            ),
        decreases end - pos,
    {
        let ghost acc0 = msg@;
        let ghost pos0 = pos as int;
        let (key, p) = wire::read_varint(data, pos, end)?;
        let field = key / 8;
        let wire_type = key % 8;
        pos = p;
        if field == 1 {
            let (v, p2) = read_varint_field(data, pos, end, wire_type)?;
            msg.value = Some(DimensionValue::Literal(i64_from_group(v)));
            pos = p2;
        } else if field == 2 {
            let (sv, p2) = read_string_field(data, pos, end, wire_type)?;
            msg.value = Some(DimensionValue::Symbolic(sv));
            pos = p2;
        } else {
            pos = wire::skip_field(data, pos, end, wire_type)?;
        }
        proof {
            assert(sp_dimension_from(data@, pos0, end as int, acc0) == sp_dimension_from(
                data@,
                pos as int,
                end as int,
                msg@,
            ));
        }
    }
    Ok(msg)
}

/// A shape with no dimensions.
pub open spec fn shape_view_empty() -> ShapeView {
    ShapeView { dim: Seq::empty() }
}

/// The fold of a shape's fields over `data[pos..end]`.
pub open spec fn sp_shape_from(data: Seq<u8>, pos: int, end: int, acc: ShapeView) -> Option<
    ShapeView,
>
    decreases end - pos,
{
    if pos >= end {
        Some(acc)
    } else {
        match sp_varint(data, pos, end) {
            None => None,
            Some(kv) => {
                let p = kv.1;
                let field = kv.0 / 8;
                let wire = kv.0 % 8;
                if p <= pos {
                    None
                } else if field == 1 {
                    if wire != 2 {
                        None
                    } else {
                        match sp_len_window(data, p, end) {
                            Some(w) => match sp_dimension(data, w.0, w.1) {
                                Some(dv) => if p < w.1 <= end {
                                    sp_shape_from(
                                        data,
                                        w.1,
                                        end,
                                        ShapeView { dim: acc.dim.push(dv) },
                                    )
                                } else {
                                    None
                                },
                                None => None,
                            },
                            None => None,
                        }
                    }
                } else {
                    match sp_skip(data, p, end, wire) {
                        Some(p2) => if p < p2 <= end {
                            sp_shape_from(data, p2, end, acc)
                        } else {
                            None
                        },
                        None => None,
                    }
                }
            },
        }
    }
}

/// The shape encoded in `data[start..end]`.
pub open spec fn sp_shape(data: Seq<u8>, start: int, end: int) -> Option<ShapeView> {
    sp_shape_from(data, start, end, shape_view_empty())
}

/// Decode a shape: an ordered dimension list.
fn parse_shape(data: &[u8], start: usize, end: usize) -> (r: Result<TensorShapeProto, Error>)
    requires
        start <= end <= data@.len(),
    ensures
        r is Ok <==> sp_shape(data@, start as int, end as int) is Some,
        r matches Ok(m) ==> sp_shape(data@, start as int, end as int) == Some(m@),
        r is Err ==> r->Err_0 is Decode,
{
    let mut msg = TensorShapeProto { dim: Vec::new() };
    let mut pos = start;
    proof {
        assert(msg@ =~= shape_view_empty());
    }
    while pos < end
        invariant
            start <= pos <= end <= data@.len(),
            sp_shape_from(data@, pos as int, end as int, msg@) == sp_shape(
                data@,
                start as int,
                end as int,
            ),
        decreases end - pos,
    {
        let ghost acc0 = msg@;
        let ghost pos0 = pos as int;
        let (key, p) = wire::read_varint(data, pos, end)?;
        let field = key / 8;
        let wire_type = key % 8;
        pos = p;
        if field == 1 {
            if wire_type != 2 {
                return Err(Error::Decode("expected a length-delimited field".to_string()));
            }
            let (a, b) = wire::read_len_window(data, pos, end)?;
            let d = parse_dimension(data, a, b)?;
            msg.dim.push(d);
            pos = b;
            proof {
                assert(msg@.dim =~= acc0.dim.push(sp_dimension(data@, a as int, b as int)->Some_0));
            }
        } else {
            pos = wire::skip_field(data, pos, end, wire_type)?;
        }
        proof {
            assert(sp_shape_from(data@, pos0, end as int, acc0) == sp_shape_from(
                data@,
                pos as int,
                end as int,
                msg@,
            ));
        }
    }
    Ok(msg)
}

/// A tensor-type declaration with nothing declared.
pub open spec fn tensor_type_view_empty() -> TensorTypeView {
    TensorTypeView { elem_type: None, shape: None }
}

/// The fold of a tensor-type declaration over `data[pos..end]`.
pub open spec fn sp_tensor_type_from(
    data: Seq<u8>,
    pos: int,
    end: int,
    acc: TensorTypeView,
) -> Option<TensorTypeView>
    decreases end - pos,
{
    if pos >= end {
        Some(acc)
    } else {
        match sp_varint(data, pos, end) {
            None => None,
            Some(kv) => {
                let p = kv.1;
                let field = kv.0 / 8;
                let wire = kv.0 % 8;
                if p <= pos {
                    None
                } else if field == 1 {
                    match sp_varint_field(data, p, end, wire) {
                        Some(v) => if p < v.1 <= end {
                            sp_tensor_type_from(
                                data,
                                v.1,
                                end,
                                TensorTypeView { elem_type: Some(i32_of_bits(v.0)), ..acc },
                            )
                        } else {
                            None
                        },
                        None => None,
                    }
                } else if field == 2 {
                    if wire != 2 {
                        None
                    } else {
                        match sp_len_window(data, p, end) {
                            Some(w) => match sp_shape(data, w.0, w.1) {
                                Some(sv) => if p < w.1 <= end {
                                    sp_tensor_type_from(
                                        data,
                                        w.1,
                                        end,
                                        TensorTypeView { shape: Some(sv), ..acc },
                                    )
                                } else {
                                    None
                                },
                                None => None,
                            },
                            None => None,
                        }
                    }
                } else {
                    match sp_skip(data, p, end, wire) {
                        Some(p2) => if p < p2 <= end {
                            sp_tensor_type_from(data, p2, end, acc)
                        } else {
                            None
                        },
                        None => None,
                    }
                }
            },
        }
    }
}

/// The tensor-type declaration encoded in `data[start..end]`.
pub open spec fn sp_tensor_type(data: Seq<u8>, start: int, end: int) -> Option<TensorTypeView> {
    sp_tensor_type_from(data, start, end, tensor_type_view_empty())
}

/// Decode the tensor arm of a type declaration.
fn parse_tensor_type(data: &[u8], start: usize, end: usize) -> (r: Result<TensorTypeProto, Error>)
    requires
        start <= end <= data@.len(),
    ensures
        r is Ok <==> sp_tensor_type(data@, start as int, end as int) is Some,
        r matches Ok(m) ==> sp_tensor_type(data@, start as int, end as int) == Some(m@),
        r is Err ==> r->Err_0 is Decode,
{
    let mut msg = TensorTypeProto { elem_type: None, shape: None };
    let mut pos = start;
    proof {
        assert(msg@ =~= tensor_type_view_empty());
    }
    while pos < end
        invariant
            start <= pos <= end <= data@.len(),
            sp_tensor_type_from(data@, pos as int, end as int, msg@) == sp_tensor_type(
                data@,
                start as int,
                end as int,
            ),
        decreases end - pos,
    {
        let ghost acc0 = msg@;
        let ghost pos0 = pos as int;
        let (key, p) = wire::read_varint(data, pos, end)?;
        let field = key / 8;
        let wire_type = key % 8;
        pos = p;
        if field == 1 {
            let (v, p2) = read_varint_field(data, pos, end, wire_type)?;
            msg.elem_type = Some(i32_from_group(v));
            pos = p2;
        } else if field == 2 {
            if wire_type != 2 {
                return Err(Error::Decode("expected a length-delimited field".to_string()));
            }
            let (a, b) = wire::read_len_window(data, pos, end)?;
            let sv = parse_shape(data, a, b)?;
            msg.shape = Some(sv);
            pos = b;
        } else {
            pos = wire::skip_field(data, pos, end, wire_type)?;
        }
        proof {
            assert(sp_tensor_type_from(data@, pos0, end as int, acc0) == sp_tensor_type_from(
                data@,
                pos as int,
                end as int,
                msg@,
            ));
        }
    }
    Ok(msg)
}

/// A type declaration with no arm chosen.
pub open spec fn type_view_empty() -> TypeView {
    TypeView { tensor_type: None }
}

/// The fold of a type declaration over `data[pos..end]`.
pub open spec fn sp_type_from(data: Seq<u8>, pos: int, end: int, acc: TypeView) -> Option<TypeView>
    decreases end - pos,
{
    if pos >= end {
        Some(acc)
    } else {
        match sp_varint(data, pos, end) {
            None => None,
            Some(kv) => {
                let p = kv.1;
                let field = kv.0 / 8;
                let wire = kv.0 % 8;
                if p <= pos {
                    None
                } else if field == 1 {
                    if wire != 2 {
                        None
                    } else {
                        match sp_len_window(data, p, end) {
                            Some(w) => match sp_tensor_type(data, w.0, w.1) {
                                Some(tv) => if p < w.1 <= end {
                                    sp_type_from(
                                        data,
                                        w.1,
                                        end,
                                        TypeView { tensor_type: Some(tv) },
                                    )
                                } else {
                                    None
                                },
                                None => None,
                            },
                            None => None,
                        }
                    }
                } else {
                    match sp_skip(data, p, end, wire) {
                        Some(p2) => if p < p2 <= end {
                            sp_type_from(data, p2, end, acc)
                        } else {
                            None
                        },
                        None => None,
                    }
                }
            },
        }
    }
}

/// The type declaration encoded in `data[start..end]`.
pub open spec fn sp_type(data: Seq<u8>, start: int, end: int) -> Option<TypeView> {
    sp_type_from(data, start, end, type_view_empty())
}

/// Decode a type declaration; only the tensor arm is kept.
fn parse_type(data: &[u8], start: usize, end: usize) -> (r: Result<TypeProto, Error>)
    requires
        start <= end <= data@.len(),
    ensures
        r is Ok <==> sp_type(data@, start as int, end as int) is Some,
        r matches Ok(m) ==> sp_type(data@, start as int, end as int) == Some(m@),
        r is Err ==> r->Err_0 is Decode,
{
    let mut msg = TypeProto { tensor_type: None };
    let mut pos = start;
    proof {
        assert(msg@ =~= type_view_empty());
    }
    while pos < end
        invariant
            start <= pos <= end <= data@.len(),
            sp_type_from(data@, pos as int, end as int, msg@) == sp_type(
                data@,
                start as int,
                end as int,
            ),
        decreases end - pos,
    {
        let ghost acc0 = msg@;
        let ghost pos0 = pos as int;
        let (key, p) = wire::read_varint(data, pos, end)?;
        let field = key / 8;
        let wire_type = key % 8;
        pos = p;
        if field == 1 {
            if wire_type != 2 {
                return Err(Error::Decode("expected a length-delimited field".to_string()));
            }
            let (a, b) = wire::read_len_window(data, pos, end)?;
            let tv = parse_tensor_type(data, a, b)?;
            msg.tensor_type = Some(tv);
            pos = b;
        } else {
            pos = wire::skip_field(data, pos, end, wire_type)?;
        }
        proof {
            assert(sp_type_from(data@, pos0, end as int, acc0) == sp_type_from(
                data@,
                pos as int,
                end as int,
                msg@,
            ));
        }
    }
    Ok(msg)
}

/// A value declaration with nothing declared.
pub open spec fn value_info_view_empty() -> ValueInfoView {
    ValueInfoView { name: None, value_type: None }
}

/// The fold of a value declaration over `data[pos..end]`.
pub open spec fn sp_value_info_from(
    data: Seq<u8>,
    pos: int,
    end: int,
    acc: ValueInfoView,
) -> Option<ValueInfoView>
    decreases end - pos,
{
    if pos >= end {
        Some(acc)
    } else {
        match sp_varint(data, pos, end) {
            None => None,
            Some(kv) => {
                let p = kv.1;
                let field = kv.0 / 8;
                let wire = kv.0 % 8;
                if p <= pos {
                    None
                } else if field == 1 {
                    match sp_string_field(data, p, end, wire) {
                        Some(v) => if p < v.1 <= end {
                            sp_value_info_from(
                                data,
                                v.1,
                                end,
                                ValueInfoView { name: Some(v.0), ..acc },
                            )
                        } else {
                            None
                        },
                        None => None,
                    }
                } else if field == 2 {
                    if wire != 2 {
                        None
                    } else {
                        match sp_len_window(data, p, end) {
                            Some(w) => match sp_type(data, w.0, w.1) {
                                Some(tv) => if p < w.1 <= end {
                                    sp_value_info_from(
                                        data,
                                        w.1,
                                        end,
                                        ValueInfoView { value_type: Some(tv), ..acc },
                                    )
                                } else {
                                    None
                                },
                                None => None,
                            },
                            None => None,
                        }
                    }
                } else {
                    match sp_skip(data, p, end, wire) {
                        Some(p2) => if p < p2 <= end {
                            sp_value_info_from(data, p2, end, acc)
                        } else {
                            None
                        },
                        None => None,
                    }
                }
            },
        }
    }
}

/// The value declaration encoded in `data[start..end]`.
pub open spec fn sp_value_info(data: Seq<u8>, start: int, end: int) -> Option<ValueInfoView> {
    sp_value_info_from(data, start, end, value_info_view_empty())
}

/// Decode a value declaration: a name with an optional type.
fn parse_value_info(data: &[u8], start: usize, end: usize) -> (r: Result<ValueInfoProto, Error>)
    requires
        start <= end <= data@.len(),
    ensures
        r is Ok <==> sp_value_info(data@, start as int, end as int) is Some,
        r matches Ok(m) ==> sp_value_info(data@, start as int, end as int) == Some(m@),
        r is Err ==> r->Err_0 is Decode,
{
    let mut msg = ValueInfoProto { name: None, value_type: None };
    let mut pos = start;
    proof {
        assert(msg@ =~= value_info_view_empty());
    }
    while pos < end
        invariant
            start <= pos <= end <= data@.len(),
            sp_value_info_from(data@, pos as int, end as int, msg@) == sp_value_info(
                data@,
                start as int,
                end as int,
            ),
        decreases end - pos,
    {
        let ghost acc0 = msg@;
        let ghost pos0 = pos as int;
        let (key, p) = wire::read_varint(data, pos, end)?;
        let field = key / 8;
        let wire_type = key % 8;
        pos = p;
        if field == 1 {
            let (sv, p2) = read_string_field(data, pos, end, wire_type)?;
            msg.name = Some(sv);
            pos = p2;
        } else if field == 2 {
            if wire_type != 2 {
                return Err(Error::Decode("expected a length-delimited field".to_string()));
            }
            let (a, b) = wire::read_len_window(data, pos, end)?;
            let tv = parse_type(data, a, b)?;
            msg.value_type = Some(tv);
            pos = b;
        } else {
            pos = wire::skip_field(data, pos, end, wire_type)?;
        }
        proof {
            assert(sp_value_info_from(data@, pos0, end as int, acc0) == sp_value_info_from(
                data@,
                pos as int,
                end as int,
                msg@,
            ));
        }
    }
    Ok(msg)
}

/// A graph with no sections.
pub open spec fn graph_view_empty() -> GraphView {
    GraphView {
        node: Seq::empty(),
        initializer: Seq::empty(),
        input: Seq::empty(),
        output: Seq::empty(),
        value_info: Seq::empty(),
    }
}

/// The fold of the graph section over `data[pos..end]`.
pub open spec fn sp_graph_from(data: Seq<u8>, pos: int, end: int, acc: GraphView) -> Option<
    GraphView,
>
    decreases end - pos,
{
    if pos >= end {
        Some(acc)
    } else {
        match sp_varint(data, pos, end) {
            None => None,
            Some(kv) => {
                let p = kv.1;
                let field = kv.0 / 8;
                let wire = kv.0 % 8;
                if p <= pos {
                    None
                } else if field == 1 || field == 5 || field == 11 || field == 12 || field == 13 {
                    if wire != 2 {
                        None
                    } else {
                        match sp_len_window(data, p, end) {
                            Some(w) => if w.1 <= p || w.1 > end {
                                None
                            } else if field == 1 {
                                match sp_node(data, w.0, w.1) {
                                    Some(nv) => sp_graph_from(
                                        data,
                                        w.1,
                                        end,
                                        GraphView { node: acc.node.push(nv), ..acc },
                                    ),
                                    None => None,
                                }
                            } else if field == 5 {
                                match sp_tensor(data, w.0, w.1) {
                                    Some(tv) => sp_graph_from(
                                        data,
                                        w.1,
                                        end,
                                        GraphView {
                                            initializer: acc.initializer.push(tv),
                                            ..acc
                                        },
                                    ),
                                    None => None,
                                }
                            } else if field == 11 {
                                match sp_value_info(data, w.0, w.1) {
                                    Some(vv) => sp_graph_from(
                                        data,
                                        w.1,
                                        end,
                                        GraphView { input: acc.input.push(vv), ..acc },
                                    ),
                                    None => None,
                                }
                            } else if field == 12 {
                                match sp_value_info(data, w.0, w.1) {
                                    Some(vv) => sp_graph_from(
                                        data,
                                        w.1,
                                        end,
                                        GraphView { output: acc.output.push(vv), ..acc },
                                    ),
                                    None => None,
                                }
                            } else {
                                match sp_value_info(data, w.0, w.1) {
                                    Some(vv) => sp_graph_from(
                                        data,
                                        w.1,
                                        end,
                                        GraphView {
                                            value_info: acc.value_info.push(vv),
                                            ..acc
                                        },
                                    ),
                                    None => None,
                                }
                            },
                            None => None,
                        }
                    }
                } else {
                    match sp_skip(data, p, end, wire) {
                        Some(p2) => if p < p2 <= end {
                            sp_graph_from(data, p2, end, acc)
                        } else {
                            None
                        },
                        None => None,
                    }
                }
            },
        }
    }
}

/// The graph section encoded in `data[start..end]`.
pub open spec fn sp_graph(data: Seq<u8>, start: int, end: int) -> Option<GraphView> {
    sp_graph_from(data, start, end, graph_view_empty())
}

/// Decode the graph section.
fn parse_graph(data: &[u8], start: usize, end: usize) -> (r: Result<GraphProto, Error>)
    requires
        start <= end <= data@.len(),
    ensures
        r is Ok <==> sp_graph(data@, start as int, end as int) is Some,
        r matches Ok(m) ==> sp_graph(data@, start as int, end as int) == Some(m@),
        r is Err ==> r->Err_0 is Decode,
{
    let mut msg = GraphProto {
        node: Vec::new(),
        initializer: Vec::new(),
        input: Vec::new(),
        output: Vec::new(),
        value_info: Vec::new(),
    };
    let mut pos = start;
    proof {
        assert(msg@ =~= graph_view_empty());
    }
    while pos < end
        invariant
            start <= pos <= end <= data@.len(),
            sp_graph_from(data@, pos as int, end as int, msg@) == sp_graph(
                data@,
                start as int,
                end as int,
            ),
        decreases end - pos,
    {
        let ghost acc0 = msg@;
        let ghost pos0 = pos as int;
        let (key, p) = wire::read_varint(data, pos, end)?;
        let field = key / 8;
        let wire_type = key % 8;
        pos = p;
        if field == 1 || field == 5 || field == 11 || field == 12 || field == 13 {
            if wire_type != 2 {
                return Err(Error::Decode("expected a length-delimited field".to_string()));
            }
            let (a, b) = wire::read_len_window(data, pos, end)?;
            if field == 1 {
                let n = parse_node(data, a, b)?;
                msg.node.push(n);
                proof {
                    assert(msg@.node =~= acc0.node.push(sp_node(data@, a as int, b as int)->Some_0));
                }
            } else if field == 5 {
                let t = parse_tensor(data, a, b)?;
                msg.initializer.push(t);
                proof {
                    assert(msg@.initializer =~= acc0.initializer.push(
                        sp_tensor(data@, a as int, b as int)->Some_0,
                    ));
                }
            } else if field == 11 {
                let v = parse_value_info(data, a, b)?;
                msg.input.push(v);
                proof {
                    assert(msg@.input =~= acc0.input.push(
                        sp_value_info(data@, a as int, b as int)->Some_0,
                    ));
                }
            } else if field == 12 {
                let v = parse_value_info(data, a, b)?;
                msg.output.push(v);
                proof {
                    assert(msg@.output =~= acc0.output.push(
                        sp_value_info(data@, a as int, b as int)->Some_0,
                    ));
                }
            } else {
                let v = parse_value_info(data, a, b)?;
                msg.value_info.push(v);
                proof {
                    assert(msg@.value_info =~= acc0.value_info.push(
                        sp_value_info(data@, a as int, b as int)->Some_0,
                    ));
                }
            }
            pos = b;
        } else {
            pos = wire::skip_field(data, pos, end, wire_type)?;
        }
        proof {
            assert(sp_graph_from(data@, pos0, end as int, acc0) == sp_graph_from(
                data@,
                pos as int,
                end as int,
                msg@,
            ));
        }
    }
    Ok(msg)
}

/// A model message with no fields.
pub open spec fn model_view_empty() -> ModelView {
    ModelView { producer_name: None, producer_version: None, model_version: None, graph: None }
}

/// The fold of the model message over `data[pos..end]`.
pub open spec fn sp_model_from(data: Seq<u8>, pos: int, end: int, acc: ModelView) -> Option<
    ModelView,
>
    decreases end - pos,
{
    if pos >= end {
        Some(acc)
    } else {
        match sp_varint(data, pos, end) {
            None => None,
            Some(kv) => {
                let p = kv.1;
                let field = kv.0 / 8;
                let wire = kv.0 % 8;
                if p <= pos {
                    None
                } else if field == 2 {
                    match sp_string_field(data, p, end, wire) {
                        Some(v) => if p < v.1 <= end {
                            sp_model_from(
                                data,
                                v.1,
                                end,
                                ModelView { producer_name: Some(v.0), ..acc },
                            )
                        } else {
                            None
                        },
                        None => None,
                    }
                } else if field == 3 {
                    match sp_string_field(data, p, end, wire) {
                        Some(v) => if p < v.1 <= end {
                            sp_model_from(
                                data,
                                v.1,
                                end,
                                ModelView { producer_version: Some(v.0), ..acc },
                            )
                        } else {
                            None
                        },
                        None => None,
                    }
                } else if field == 5 {
                    match sp_varint_field(data, p, end, wire) {
                        Some(v) => if p < v.1 <= end {
                            sp_model_from(
                                data,
                                v.1,
                                end,
                                ModelView { model_version: Some(i64_of_bits(v.0)), ..acc },
                            )
                        } else {
                            None
                        },
                        None => None,
                    }
                } else if field == 7 {
                    if wire != 2 {
                        None
                    } else {
                        match sp_len_window(data, p, end) {
                            Some(w) => match sp_graph(data, w.0, w.1) {
                                Some(gv) => if p < w.1 <= end {
                                    sp_model_from(
                                        data,
                                        w.1,
                                        end,
                                        ModelView { graph: Some(gv), ..acc },
                                    )
                                } else {
                                    None
                                },
                                None => None,
                            },
                            None => None,
                        }
                    }
                } else {
                    match sp_skip(data, p, end, wire) {
                        Some(p2) => if p < p2 <= end {
                            sp_model_from(data, p2, end, acc)
                        } else {
                            None
                        },
                        None => None,
                    }
                }
            },
        }
    }
}

/// The model message that a byte buffer decodes to, if any.
pub open spec fn sp_decode_model(data: Seq<u8>) -> Option<ModelView> {
    sp_model_from(data, 0, data.len() as int, model_view_empty())
}

/// Decode a whole model message from raw bytes: succeeds exactly when
/// the bytes fold to a model message, and returns exactly that message.
pub fn decode_model(data: &[u8]) -> (r: Result<ModelProto, Error>)
    ensures
        r is Ok <==> sp_decode_model(data@) is Some,
        r matches Ok(m) ==> sp_decode_model(data@) == Some(m@),
        r is Err ==> r->Err_0 is Decode,
{
    let mut msg = ModelProto {
        producer_name: None,
        producer_version: None,
        model_version: None,
        graph: None,
    };
    let end = data.len();
    let mut pos: usize = 0;
    proof {
        assert(msg@ =~= model_view_empty());
    }
    while pos < end
        invariant
            pos <= end == data@.len(),
            sp_model_from(data@, pos as int, end as int, msg@) == sp_decode_model(data@),
        decreases end - pos,
    {
        let ghost acc0 = msg@;
        let ghost pos0 = pos as int;
        let (key, p) = wire::read_varint(data, pos, end)?;
        let field = key / 8;
        let wire_type = key % 8;
        pos = p;
        if field == 2 {
            let (sv, p2) = read_string_field(data, pos, end, wire_type)?;
            msg.producer_name = Some(sv);
            pos = p2;
        } else if field == 3 {
            let (sv, p2) = read_string_field(data, pos, end, wire_type)?;
            msg.producer_version = Some(sv);
            pos = p2;
        } else if field == 5 {
            let (v, p2) = read_varint_field(data, pos, end, wire_type)?;
            msg.model_version = Some(i64_from_group(v));
            pos = p2;
        } else if field == 7 {
            if wire_type != 2 {
                return Err(Error::Decode("expected a length-delimited field".to_string()));
            }
            let (a, b) = wire::read_len_window(data, pos, end)?;
            let g = parse_graph(data, a, b)?;
            msg.graph = Some(g);
            pos = b;
        } else {
            pos = wire::skip_field(data, pos, end, wire_type)?;
        }
        proof {
            assert(sp_model_from(data@, pos0, end as int, acc0) == sp_model_from(
                data@,
                pos as int,
                end as int,
                msg@,
            ));
        }
    }
    Ok(msg)
}

} // verus!
