//! Low-level primitives of the wire format: base-128 varints, fixed-width
//! little-endian scalars, and byte-range copies.
//!
//! Every reader works on a byte slice with an explicit window `pos..end`,
//! returns the decoded value together with the position after it, and never
//! reads outside the window.

use vstd::prelude::*;

use crate::error::Error;

verus! {

/// The value of a varint byte group: each byte contributes its low seven
/// bits, least-significant group first.
pub open spec fn varint_val(bytes: Seq<u8>) -> nat
    decreases bytes.len(),
{
    if bytes.len() == 0 {
        0
    } else {
        (bytes[0] % 128) as nat + 128 * varint_val(bytes.drop_first())
    }
}

/// Whether a varint byte asks for a continuation.
pub open spec fn continues(b: u8) -> bool {
    b >= 128
}

/// 128 raised to `k`.
pub open spec fn pow128(k: nat) -> nat
    decreases k,
{
    if k == 0 {
        1
    } else {
        128 * pow128((k - 1) as nat)
    }
}

proof fn lemma_varint_val_snoc(s: Seq<u8>, b: u8)
    ensures
        varint_val(s.push(b)) == varint_val(s) + (b % 128) * pow128(s.len()),
    decreases s.len(),
{
    if s.len() == 0 {
        assert(s.push(b) =~= seq![b]);
        assert(seq![b].drop_first() =~= Seq::<u8>::empty());
        assert(varint_val(seq![b]) == (b % 128) as nat + 128 * varint_val(seq![b].drop_first()));
        assert(varint_val(s) == 0);
        assert(pow128(0) == 1);
        assert(varint_val(s.push(b)) == varint_val(s) + (b % 128) * pow128(s.len()));
    } else {
        let t = s.drop_first();
        let n1 = (s.len() - 1) as nat;
        assert(s.push(b).drop_first() =~= t.push(b));
        lemma_varint_val_snoc(t, b);
        assert(s.push(b)[0] == s[0]);
        assert(varint_val(s.push(b)) == (s[0] % 128) as nat + 128 * varint_val(t.push(b)));
        assert(128 * (varint_val(t) + (b % 128) * pow128(n1)) == 128 * varint_val(t) + (b % 128)
            * (128 * pow128(n1))) by (nonlinear_arith);
        assert(pow128(s.len()) == 128 * pow128(n1));
    }
}

proof fn lemma_varint_val_bound(s: Seq<u8>)
    ensures
        varint_val(s) < pow128(s.len()),
    decreases s.len(),
{
    if s.len() == 0 {
    } else {
        lemma_varint_val_bound(s.drop_first());
        assert(128 * varint_val(s.drop_first()) + 127 < 128 * pow128((s.len() - 1) as nat)) by {
            assert(varint_val(s.drop_first()) + 1 <= pow128((s.len() - 1) as nat));
            assert(128 * (varint_val(s.drop_first()) + 1) <= 128 * pow128(
                (s.len() - 1) as nat,
            )) by (nonlinear_arith)
                requires
                    varint_val(s.drop_first()) + 1 <= pow128((s.len() - 1) as nat),
            ;
        }
    }
}

/// Where the varint starting at `pos` ends: one past its first byte
/// without a continuation bit, if one lies in the window.
pub open spec fn sp_varint_end(data: Seq<u8>, pos: int, end: int) -> Option<int>
    decreases end - pos,
{
    if pos >= end {
        None
    } else if !continues(data[pos]) {
        Some(pos + 1)
    } else {
        sp_varint_end(data, pos + 1, end)
    }
}

/// The varint at `pos`: its value and the position after it. Encodings
/// that are truncated, longer than ten bytes, or beyond `u64` decode to
/// nothing.
pub open spec fn sp_varint(data: Seq<u8>, pos: int, end: int) -> Option<(u64, int)> {
    match sp_varint_end(data, pos, end) {
        Some(p) => if p - pos <= 10 && varint_val(data.subrange(pos, p)) <= u64::MAX {
            Some((varint_val(data.subrange(pos, p)) as u64, p))
        } else {
            None
        },
        None => None,
    }
}

/// The payload window of a length-delimited field at `pos`.
pub open spec fn sp_len_window(data: Seq<u8>, pos: int, end: int) -> Option<(int, int)> {
    match sp_varint(data, pos, end) {
        Some(v) => if v.0 <= end - v.1 {
            Some((v.1, v.1 + v.0))
        } else {
            None
        },
        None => None,
    }
}

/// The position after skipping one field payload of the given wire type.
pub open spec fn sp_skip(data: Seq<u8>, pos: int, end: int, wire: u64) -> Option<int> {
    if wire == 0 {
        match sp_varint(data, pos, end) {
            Some(v) => Some(v.1),
            None => None,
        }
    } else if wire == 1 {
        if pos + 8 <= end {
            Some(pos + 8)
        } else {
            None
        }
    } else if wire == 2 {
        match sp_len_window(data, pos, end) {
            Some(w) => Some(w.1),
            None => None,
        }
    } else if wire == 5 {
        if pos + 4 <= end {
            Some(pos + 4)
        } else {
            None
        }
    } else {
        None
    }
}

/// Where a varint ends, its bytes look as a varint must: continuations,
/// then one terminator; where none ends, every byte continues.
proof fn lemma_sp_varint_end_props(data: Seq<u8>, pos: int, end: int)
    requires
        0 <= pos <= end <= data.len(),
    ensures
        match sp_varint_end(data, pos, end) {
            Some(p) => pos < p <= end && !continues(data[p - 1]) && forall|i: int|
                pos <= i < p - 1 ==> continues(#[trigger] data[i]),
            None => forall|i: int| pos <= i < end ==> continues(#[trigger] data[i]),
        },
    decreases end - pos,
{
    if pos < end && continues(data[pos]) {
        lemma_sp_varint_end_props(data, pos + 1, end);
    }
}

/// A varint-shaped byte range pins where the varint ends.
proof fn lemma_sp_varint_end_from(data: Seq<u8>, pos: int, end: int, p: int)
    requires
        0 <= pos < p <= end <= data.len(),
        !continues(data[p - 1]),
        forall|i: int| pos <= i < p - 1 ==> continues(#[trigger] data[i]),
    ensures
        sp_varint_end(data, pos, end) == Some(p),
    decreases p - pos,
{
    if p > pos + 1 {
        assert(continues(data[pos]));
        lemma_sp_varint_end_from(data, pos + 1, end, p);
    }
}

/// A varint's value only grows as bytes are appended.
proof fn lemma_varint_val_mono(data: Seq<u8>, a: int, b: int, c: int)
    requires
        0 <= a <= b <= c <= data.len(),
    ensures
        varint_val(data.subrange(a, b)) <= varint_val(data.subrange(a, c)),
    decreases c - b,
{
    if b < c {
        lemma_varint_val_mono(data, a, b, c - 1);
        lemma_varint_val_snoc(data.subrange(a, c - 1), data[c - 1]);
        assert(data.subrange(a, c) =~= data.subrange(a, c - 1).push(data[c - 1]));
    }
}

/// A varint whose first bytes already exceed `u64` decodes to nothing.
proof fn lemma_varint_overflow(data: Seq<u8>, pos: int, p: int, end: int)
    requires
        0 <= pos <= p < end <= data.len(),
        forall|i: int| pos <= i < p ==> continues(#[trigger] data[i]),
        varint_val(data.subrange(pos, p + 1)) > u64::MAX,
    ensures
        sp_varint(data, pos, end) is None,
{
    lemma_sp_varint_end_props(data, pos, end);
    match sp_varint_end(data, pos, end) {
        Some(pe) => {
            assert(pe - 1 >= p) by {
                if pe - 1 < p {
                    assert(continues(data[pe - 1]));
                }
            }
            lemma_varint_val_mono(data, pos, p + 1, pe);
        },
        None => {},
    }
}

/// Read one varint from `data[pos..end]`.
///
/// On success the returned position lies just past the encoding, whose
/// last byte is the first without a continuation bit. Encodings that are
/// truncated, run past ten bytes, or exceed `u64` are decode errors.
pub fn read_varint(data: &[u8], pos: usize, end: usize) -> (r: Result<(u64, usize), Error>)
    requires
        pos <= end <= data@.len(),
    ensures
        r is Ok <==> sp_varint(data@, pos as int, end as int) is Some,
        r matches Ok(v) ==> {
            &&& pos < v.1 <= end
            &&& v.1 - pos <= 10
            &&& forall|i: int| pos <= i < v.1 - 1 ==> continues(data@[i])
            &&& !continues(data@[v.1 - 1])
            &&& v.0 as nat == varint_val(data@.subrange(pos as int, v.1 as int))
            &&& sp_varint(data@, pos as int, end as int) == Some((v.0, v.1 as int))
        },
        r is Err ==> r->Err_0 is Decode,
{
    let mut p = pos;
    let mut value: u64 = 0;
    let mut pow: u64 = 1;
    loop
        invariant
            pos <= p <= end <= data@.len(),
            p - pos <= 9,
            pow as nat == pow128((p - pos) as nat),
            value as nat == varint_val(data@.subrange(pos as int, p as int)),
            value < pow,
            forall|i: int| pos <= i < p ==> continues(data@[i]),
        decreases end - p,
    {
        if p == end {
            proof {
                lemma_sp_varint_end_props(data@, pos as int, end as int);
                if sp_varint_end(data@, pos as int, end as int) is Some {
                    let pe = sp_varint_end(data@, pos as int, end as int)->Some_0;
                    assert(continues(data@[pe - 1]));
                }
            }
            return Err(Error::Decode("truncated varint".to_string()));
        }
        let b = data[p];
        let low = (b % 128) as u64;
        let scaled = match low.checked_mul(pow) {
            Some(s) => s,
            None => {
                proof {
                    assert(data@.subrange(pos as int, p + 1 as int) =~= data@.subrange(
                        pos as int,
                        p as int,
                    ).push(data@[p as int]));
                    lemma_varint_val_snoc(data@.subrange(pos as int, p as int), data@[p as int]);
                    lemma_varint_overflow(data@, pos as int, p as int, end as int);
                }
                return Err(Error::Decode("varint does not fit in 64 bits".to_string()));
            },
        };
        let value2 = match value.checked_add(scaled) {
            Some(v) => v,
            None => {
                proof {
                    assert(data@.subrange(pos as int, p + 1 as int) =~= data@.subrange(
                        pos as int,
                        p as int,
                    ).push(data@[p as int]));
                    lemma_varint_val_snoc(data@.subrange(pos as int, p as int), data@[p as int]);
                    lemma_varint_overflow(data@, pos as int, p as int, end as int);
                }
                return Err(Error::Decode("varint does not fit in 64 bits".to_string()));
            },
        };
        proof {
            assert(data@.subrange(pos as int, p + 1 as int) =~= data@.subrange(
                pos as int,
                p as int,
            ).push(data@[p as int]));
            lemma_varint_val_snoc(data@.subrange(pos as int, p as int), data@[p as int]);
        }
        value = value2;
        p = p + 1;
        if b < 128 {
            proof {
                lemma_sp_varint_end_from(data@, pos as int, end as int, p as int);
            }
            return Ok((value, p));
        }
        if p - pos == 10 {
            proof {
                lemma_sp_varint_end_props(data@, pos as int, end as int);
                if sp_varint_end(data@, pos as int, end as int) is Some {
                    let pe = sp_varint_end(data@, pos as int, end as int)->Some_0;
                    assert(pe - 1 >= p);
                }
            }
            return Err(Error::Decode("varint is too long".to_string()));
        }
        proof {
            // the next multiplier stays within u64: it is at most 128^9 == 2^63
            lemma_varint_val_bound(data@.subrange(pos as int, p as int));
            assert(pow128(9) == 0x8000_0000_0000_0000) by {
                reveal_with_fuel(pow128, 11);
            }
            assert(pow128((p - pos) as nat) <= pow128(9)) by {
                lemma_pow128_increases((p - pos) as nat, 9);
            }
        }
        pow = pow * 128;
        proof {
            assert(pow as nat == 128 * pow128((p - pos - 1) as nat));
        }
    }
}

proof fn lemma_pow128_increases(a: nat, b: nat)
    ensures
        a <= b ==> pow128(a) <= pow128(b),
    decreases b,
{
    if a <= b && b > 0 {
        if a == b {
        } else {
            lemma_pow128_increases(a, (b - 1) as nat);
            assert(pow128((b - 1) as nat) <= 128 * pow128((b - 1) as nat)) by (nonlinear_arith)
                requires
                    pow128((b - 1) as nat) >= 0,
            ;
        }
    }
}

/// Read a four-byte little-endian scalar from `data[pos..end]`.
pub fn read_fixed32(data: &[u8], pos: usize, end: usize) -> (r: Result<(u32, usize), Error>)
    requires
        pos <= end <= data@.len(),
    ensures
        r is Ok <==> pos + 4 <= end,
        r matches Ok(v) ==> {
            &&& v.1 == pos + 4 <= end
            &&& v.0 == vstd::bytes::spec_u32_from_le_bytes(data@.subrange(pos as int, pos + 4))
        },
        r is Err ==> r->Err_0 is Decode,
{
    if end - pos < 4 {
        return Err(Error::Decode("truncated fixed 32-bit value".to_string()));
    }
    let x = vstd::bytes::u32_from_le_bytes(vstd::slice::slice_subrange(data, pos, pos + 4));
    Ok((x, pos + 4))
}

/// Read an eight-byte little-endian scalar from `data[pos..end]`.
pub fn read_fixed64(data: &[u8], pos: usize, end: usize) -> (r: Result<(u64, usize), Error>)
    requires
        pos <= end <= data@.len(),
    ensures
        r is Ok <==> pos + 8 <= end,
        r matches Ok(v) ==> {
            &&& v.1 == pos + 8 <= end
            &&& v.0 == vstd::bytes::spec_u64_from_le_bytes(data@.subrange(pos as int, pos + 8))
        },
        r is Err ==> r->Err_0 is Decode,
{
    if end - pos < 8 {
        return Err(Error::Decode("truncated fixed 64-bit value".to_string()));
    }
    let x = vstd::bytes::u64_from_le_bytes(vstd::slice::slice_subrange(data, pos, pos + 8));
    Ok((x, pos + 8))
}

/// Copy `data[from..to]` into an owned buffer.
pub fn copy_range(data: &[u8], from: usize, to: usize) -> (r: Vec<u8>)
    requires
        from <= to <= data@.len(),
    ensures
        r@ == data@.subrange(from as int, to as int),
{
    let mut out: Vec<u8> = Vec::new();
    let mut i = from;
    while i < to
        invariant
            from <= i <= to <= data@.len(),
            out@ == data@.subrange(from as int, i as int),
        decreases to - i,
    {
        out.push(data[i]);
        proof {
            assert(data@.subrange(from as int, i + 1 as int) =~= data@.subrange(
                from as int,
                i as int,
            ).push(data@[i as int]));
        }
        i = i + 1;
    }
    out
}

/// Read the length prefix of a length-delimited field and bound its payload:
/// returns the window `(payload_start, payload_end)` within `data[pos..end]`.
pub fn read_len_window(data: &[u8], pos: usize, end: usize) -> (r: Result<(usize, usize), Error>)
    requires
        pos <= end <= data@.len(),
    ensures
        r is Ok <==> sp_len_window(data@, pos as int, end as int) is Some,
        r matches Ok(v) ==> pos < v.0 <= v.1 <= end && sp_len_window(
            data@,
            pos as int,
            end as int,
        ) == Some((v.0 as int, v.1 as int)),
        r is Err ==> r->Err_0 is Decode,
{
    let (len, p) = read_varint(data, pos, end)?;
    if len > (end - p) as u64 {
        return Err(Error::Decode("length-delimited field runs past its message".to_string()));
    }
    let l = len as usize;
    Ok((p, p + l))
}

/// Skip one field's payload, given its wire type; `pos` stands just past the
/// field's key. Group wire types are not part of the schema and are refused.
pub fn skip_field(data: &[u8], pos: usize, end: usize, wire: u64) -> (r: Result<usize, Error>)
    requires
        pos <= end <= data@.len(),
    ensures
        r is Ok <==> sp_skip(data@, pos as int, end as int, wire) is Some,
        r matches Ok(p) ==> pos < p <= end && sp_skip(data@, pos as int, end as int, wire)
            == Some(p as int),
        r is Err ==> r->Err_0 is Decode,
{
    if wire == 0 {
        let (_, p) = read_varint(data, pos, end)?;
        Ok(p)
    } else if wire == 1 {
        let (_, p) = read_fixed64(data, pos, end)?;
        Ok(p)
    } else if wire == 2 {
        let (_, e) = read_len_window(data, pos, end)?;
        Ok(e)
    } else if wire == 5 {
        let (_, p) = read_fixed32(data, pos, end)?;
        Ok(p)
    } else {
        Err(Error::Decode("unsupported wire type".to_string()))
    }
}

} // verus!
