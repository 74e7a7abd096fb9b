//! Small text utilities: UTF-8 conversion, string equality, and decimal
//! parsing for external-data offsets and lengths.

use vstd::prelude::*;
use vstd::string::StrSliceExecFns;

verus! {

/// Relies on String::from_utf8: returns the decoded characters exactly
/// when the bytes are valid UTF-8, and nothing otherwise.
#[verifier::external_body]
pub(crate) fn utf8_to_string(bytes: Vec<u8>) -> (r: Option<String>)
    ensures
        r is Some <==> vstd::utf8::valid_utf8(bytes@),
        r matches Some(s) ==> s@ == vstd::utf8::decode_utf8(bytes@),
{
    std::string::String::from_utf8(bytes).ok()
}

/// Whether two string slices hold the same character sequence, compared
/// character by character.
pub(crate) fn str_eq(a: &str, b: &str) -> (r: bool)
    ensures
        r == (a@ == b@),
{
    let na = a.unicode_len();
    let nb = b.unicode_len();
    if na != nb {
        return false;
    }
    let mut i: usize = 0;
    while i < na
        invariant
            i <= na == a@.len(),
            na == nb == b@.len(),
            forall|k: int| 0 <= k < i ==> a@[k] == b@[k],
        decreases na - i,
    {
        let ca = a.get_char(i);
        let cb = b.get_char(i);
        if ca != cb {
            return false;
        }
        i = i + 1;
    }
    proof {
        assert(a@ =~= b@);
    }
    true
}

/// Whether the character is a decimal digit.
pub open spec fn is_digit(c: char) -> bool {
    48 <= c as u32 && c as u32 <= 57
}

/// The numeric value of a digit character.
pub open spec fn digit_val(c: char) -> nat {
    (c as u32 - 48) as nat
}

/// The value of a digit sequence read in base ten.
pub open spec fn decimal_val(s: Seq<char>) -> nat
    decreases s.len(),
{
    if s.len() == 0 {
        0
    } else {
        10 * decimal_val(s.drop_last()) + digit_val(s.last())
    }
}

/// The digits of an unsigned decimal literal, with Rust's optional
/// leading plus sign stripped.
pub open spec fn decimal_digits(s: Seq<char>) -> Seq<char> {
    if s.len() > 0 && s[0] == '+' {
        s.drop_first()
    } else {
        s
    }
}

/// Whether the characters form an unsigned decimal literal whose value
/// fits in a `u64`: at least one digit, nothing but digits after an
/// optional leading plus sign, and a value of at most `u64::MAX`.
pub open spec fn is_decimal_u64(s: Seq<char>) -> bool {
    let d = decimal_digits(s);
    &&& d.len() > 0
    &&& forall|i: int| 0 <= i < d.len() ==> is_digit(#[trigger] d[i])
    &&& decimal_val(d) <= u64::MAX
}

proof fn lemma_decimal_val_grows(s: Seq<char>, i: int, j: int)
    requires
        0 <= i <= j <= s.len(),
    ensures
        decimal_val(s.subrange(0, i)) <= decimal_val(s.subrange(0, j)),
    decreases j - i,
{
    if i < j {
        lemma_decimal_val_grows(s, i, j - 1);
        let p = s.subrange(0, j - 1);
        let q = s.subrange(0, j);
        assert(q.drop_last() =~= p);
        assert(decimal_val(q) == 10 * decimal_val(p) + digit_val(q.last()));
        assert(decimal_val(p) <= 10 * decimal_val(p));
    }
}

/// Once the digits seen so far outgrow `u64` the whole literal does.
proof fn lemma_overflow_means_too_big(s: Seq<char>, start: int, i: int, d: Seq<char>)
    requires
        0 <= start <= i < s.len(),
        d =~= s.subrange(start, s.len() as int),
        10 * decimal_val(s.subrange(start, i)) + digit_val(s[i]) > u64::MAX,
    ensures
        decimal_val(d) > u64::MAX,
{
    let q = s.subrange(start, i + 1);
    assert(q.drop_last() =~= s.subrange(start, i));
    assert(q.last() == s[i]);
    assert(decimal_val(q) > u64::MAX);
    assert(d.subrange(0, i + 1 - start) =~= q);
    lemma_decimal_val_grows(d, i + 1 - start, d.len() as int);
    assert(d.subrange(0, d.len() as int) =~= d);
}

/// Parse an unsigned decimal number, as `str::parse::<u64>` would:
/// an optional plus sign followed by digits, rejecting overflow.
pub fn parse_u64_decimal(s: &str) -> (r: Option<u64>)
    ensures
        r is Some <==> is_decimal_u64(s@),
        r matches Some(v) ==> v as nat == decimal_val(decimal_digits(s@)),
{
    let n = s.unicode_len();
    let mut start: usize = 0;
    if n > 0 && s.get_char(0) == '+' {
        start = 1;
    }
    let ghost d = decimal_digits(s@);
    proof {
        assert(d =~= s@.subrange(start as int, n as int));
    }
    if start == n {
        return None;
    }
    let mut acc: u64 = 0;
    let mut i = start;
    while i < n
        invariant
            start <= i <= n == s@.len(),
            d == decimal_digits(s@),
            d =~= s@.subrange(start as int, n as int),
            forall|k: int| start <= k < i ==> is_digit(#[trigger] s@[k]),
            acc as nat == decimal_val(s@.subrange(start as int, i as int)),
        decreases n - i,
    {
        let c = s.get_char(i);
        let cv = c as u32;
        if cv < 48 || cv > 57 {
            assert(!is_digit(d[i - start]));
            return None;
        }
        let dv = (cv - 48) as u64;
        let scaled = match acc.checked_mul(10) {
            Some(x) => x,
            None => {
                proof {
                    lemma_overflow_means_too_big(s@, start as int, i as int, d);
                }
                return None;
            },
        };
        let acc2 = match scaled.checked_add(dv) {
            Some(x) => x,
            None => {
                proof {
                    lemma_overflow_means_too_big(s@, start as int, i as int, d);
                }
                return None;
            },
        };
        proof {
            let p = s@.subrange(start as int, i as int);
            let q = s@.subrange(start as int, i + 1 as int);
            assert(q.drop_last() =~= p);
            assert(q.last() == s@[i as int]);
        }
        acc = acc2;
        i = i + 1;
    }
    proof {
        assert(s@.subrange(start as int, i as int) =~= d);
        assert(forall|k: int| 0 <= k < d.len() ==> is_digit(#[trigger] d[k]));
    }
    Some(acc)
}


/// Byte-wise lexicographic order.
pub open spec fn lex_le(x: Seq<u8>, y: Seq<u8>) -> bool
    decreases x.len(),
{
    if x.len() == 0 {
        true
    } else if y.len() == 0 {
        false
    } else if x[0] < y[0] {
        true
    } else if x[0] > y[0] {
        false
    } else {
        lex_le(x.drop_first(), y.drop_first())
    }
}

/// The order std's string comparison uses: byte-wise lexicographic over
/// the UTF-8 encoding, which for valid text coincides with code-point
/// order.
pub open spec fn str_le(a: Seq<char>, b: Seq<char>) -> bool {
    lex_le(vstd::utf8::encode_utf8(a), vstd::utf8::encode_utf8(b))
}

/// Any two byte sequences compare one way or the other.
pub proof fn lemma_lex_le_total(x: Seq<u8>, y: Seq<u8>)
    ensures
        lex_le(x, y) || lex_le(y, x),
    decreases x.len(),
{
    if x.len() > 0 && y.len() > 0 && x[0] == y[0] {
        lemma_lex_le_total(x.drop_first(), y.drop_first());
    }
}

/// The byte-wise order is transitive.
pub proof fn lemma_lex_le_trans(x: Seq<u8>, y: Seq<u8>, z: Seq<u8>)
    requires
        lex_le(x, y),
        lex_le(y, z),
    ensures
        lex_le(x, z),
    decreases x.len(),
{
    if x.len() > 0 && y.len() > 0 && z.len() > 0 && x[0] == y[0] && y[0] == z[0] {
        lemma_lex_le_trans(x.drop_first(), y.drop_first(), z.drop_first());
    }
}

/// Compare two strings in std's order, byte-wise over their encodings.
pub(crate) fn string_le(a: &str, b: &str) -> (r: bool)
    ensures
        r == str_le(a@, b@),
{
    let ab = a.as_bytes();
    let bb = b.as_bytes();
    let na = ab.len();
    let nb = bb.len();
    let mut i: usize = 0;
    proof {
        assert(ab@.skip(0) =~= ab@);
        assert(bb@.skip(0) =~= bb@);
    }
    while i < na && i < nb
        invariant
            i <= na == ab@.len(),
            i <= nb == bb@.len(),
            ab@ == vstd::utf8::encode_utf8(a@),
            bb@ == vstd::utf8::encode_utf8(b@),
            lex_le(ab@, bb@) == lex_le(ab@.skip(i as int), bb@.skip(i as int)),
        decreases na - i,
    {
        proof {
            assert(ab@.skip(i as int)[0] == ab@[i as int]);
            assert(bb@.skip(i as int)[0] == bb@[i as int]);
            assert(ab@.skip(i as int).drop_first() =~= ab@.skip(i + 1));
            assert(bb@.skip(i as int).drop_first() =~= bb@.skip(i + 1));
        }
        if ab[i] < bb[i] {
            return true;
        }
        if ab[i] > bb[i] {
            return false;
        }
        i = i + 1;
    }
    proof {
        if i >= na {
            assert(ab@.skip(i as int).len() == 0);
        } else {
            assert(bb@.skip(i as int).len() == 0);
            assert(ab@.skip(i as int).len() > 0);
        }
    }
    na <= nb
}

} // verus!
