//! Adapters from decoded messages to the domain model: tensors,
//! attribute values and operations. All direct message-field policy
//! lives here.

use vstd::prelude::*;

use crate::error::Error;
use crate::external_data::{last_value_for, ExternalDataInfo};
use crate::operation::{AttributeEntry, OnnxOperation};
use crate::proto::{AttributeProto, NodeProto, TensorProto};
use crate::tensor::{OnnxTensor, TensorContents, TensorPayload};
use crate::text::{str_eq, utf8_to_string};
use crate::types::{AttributeValue, DataType};

verus! {

/// The characters of an optional string, empty when absent.
pub open spec fn str_or_empty(o: Option<String>) -> Seq<char> {
    match o {
        Some(s) => s@,
        None => Seq::empty(),
    }
}

/// The bytes of an optional buffer, empty when absent.
pub open spec fn bytes_or_empty(o: Option<Vec<u8>>) -> Seq<u8> {
    match o {
        Some(b) => b@,
        None => Seq::empty(),
    }
}

/// Whether a tensor message carries any inline payload: raw bytes present
/// (even empty), or any typed array non-empty.
pub open spec fn proto_has_inline_data(tp: TensorProto) -> bool {
    ||| tp.raw_data is Some
    ||| tp.float_data@.len() > 0
    ||| tp.double_data@.len() > 0
    ||| tp.int32_data@.len() > 0
    ||| tp.int64_data@.len() > 0
    ||| tp.uint64_data@.len() > 0
    ||| tp.string_data@.len() > 0
}

/// Whether the tensor adapter accepts this message. External data needs a
/// caller that can resolve it, and must name its file.
pub open spec fn spec_tensor_ok(tp: TensorProto, allow_external: bool) -> bool {
    if tp.external_data@.len() > 0 {
        allow_external && last_value_for(tp.external_data@, "location"@) is Some
    } else {
        true
    }
}

/// How the adapted tensor relates to its message: same name, shape and
/// declared type, and the payload classified by the message's contents.
pub open spec fn tensor_matches(t: OnnxTensor, tp: TensorProto) -> bool {
    &&& t.name@ == str_or_empty(tp.name)
    &&& t.shape@ == tp.dims@
    &&& t.data_type == DataType::spec_from_onnx_type(
        match tp.data_type {
            Some(c) => c as int,
            None => 0,
        },
    )
    &&& if tp.external_data@.len() > 0 {
        t.payload matches TensorPayload::External(info) && Some(info.location@) == last_value_for(
            tp.external_data@,
            "location"@,
        )
    } else if proto_has_inline_data(tp) {
        t.payload matches TensorPayload::Inline(c) && {
            &&& c.raw_data == tp.raw_data
            &&& c.float_data@ == tp.float_data@
            &&& c.double_data@ == tp.double_data@
            &&& c.int32_data@ == tp.int32_data@
            &&& c.int64_data@ == tp.int64_data@
            &&& c.uint64_data@ == tp.uint64_data@
            &&& c.string_data.deep_view() == tp.string_data.deep_view()
        }
    } else {
        t.payload is Absent
    }
}

/// Build a tensor record from a tensor message.
///
/// External-data metadata is accepted only when the caller can resolve it
/// (`allow_external`); a tensor nested inside an attribute cannot, and a
/// model loaded from bytes alone has no loader either, so external
/// metadata there is rejected as an invalid model, never ignored.
pub fn tensor_from_proto(tensor: TensorProto, allow_external: bool) -> (r: Result<
    OnnxTensor,
    Error,
>)
    ensures
        r is Ok <==> spec_tensor_ok(tensor, allow_external),
        r matches Ok(t) ==> tensor_matches(t, tensor),
        r matches Err(e) ==> e is InvalidModel,
{
    let TensorProto {
        dims,
        data_type,
        float_data,
        int32_data,
        string_data,
        int64_data,
        name,
        raw_data,
        double_data,
        uint64_data,
        external_data,
    } = tensor;
    let code: i32 = match data_type {
        Some(c) => c,
        None => 0,
    };
    let dt = DataType::from_onnx_type(code);
    let nm: String = match name {
        Some(s) => s,
        None => String::new(),
    };
    if external_data.len() > 0 {
        if !allow_external {
            return Err(
                Error::InvalidModel(
                    "tensor has external data but no external data loader was provided".to_string(),
                ),
            );
        }
        let info = ExternalDataInfo::from_key_value_pairs(external_data.as_slice())?;
        Ok(
            OnnxTensor {
                name: nm,
                shape: dims,
                data_type: dt,
                payload: TensorPayload::External(info),
            },
        )
    } else if raw_data.is_some() || float_data.len() > 0 || double_data.len() > 0
        || int32_data.len() > 0 || int64_data.len() > 0 || uint64_data.len() > 0
        || string_data.len() > 0 {
        Ok(
            OnnxTensor {
                name: nm,
                shape: dims,
                data_type: dt,
                payload: TensorPayload::Inline(
                    TensorContents {
                        raw_data,
                        float_data,
                        double_data,
                        int32_data,
                        int64_data,
                        uint64_data,
                        string_data,
                    },
                ),
            },
        )
    } else {
        Ok(OnnxTensor { name: nm, shape: dims, data_type: dt, payload: TensorPayload::Absent })
    }
}

/// Whether the attribute adapter accepts this attribute message.
pub open spec fn spec_attr_ok(a: AttributeProto) -> bool {
    let tag = match a.attr_type {
        Some(t) => t as int,
        None => 0,
    };
    if tag == 1 || tag == 2 || tag == 7 {
        true
    } else if tag == 3 {
        vstd::utf8::valid_utf8(bytes_or_empty(a.s))
    } else if tag == 4 {
        a.t matches Some(tp) && spec_tensor_ok(tp, false)
    } else if tag == 6 {
        true
    } else if tag == 8 {
        forall|i: int|
            0 <= i < a.strings@.len() ==> vstd::utf8::valid_utf8(#[trigger] a.strings@[i]@)
    } else {
        false
    }
}

/// How an adapted attribute value relates to its message.
pub open spec fn attr_value_matches(v: AttributeValue, a: AttributeProto) -> bool {
    let tag = match a.attr_type {
        Some(t) => t as int,
        None => 0,
    };
    if tag == 1 {
        v matches AttributeValue::Float(bits) && bits == match a.f {
            Some(x) => x,
            None => 0u32,
        }
    } else if tag == 2 {
        v matches AttributeValue::Int(x) && x == match a.i {
            Some(y) => y,
            None => 0i64,
        }
    } else if tag == 3 {
        v matches AttributeValue::String(s) && s@ == vstd::utf8::decode_utf8(bytes_or_empty(a.s))
    } else if tag == 4 {
        v matches AttributeValue::Tensor(t) && (a.t matches Some(tp) && tensor_matches(*t, tp))
    } else if tag == 6 {
        v matches AttributeValue::Floats(fs) && fs@ == a.floats@
    } else if tag == 7 {
        v matches AttributeValue::Ints(xs) && xs@ == a.ints@
    } else if tag == 8 {
        v matches AttributeValue::Strings(ss) && ss@.len() == a.strings@.len() && forall|i: int|
            0 <= i < ss@.len() ==> ss@[i]@ == vstd::utf8::decode_utf8(a.strings@[i]@)
    } else {
        false
    }
}

/// The error kind a failing attribute reports: an unknown tag is an
/// unsupported-feature error carrying that tag; bad string bytes are a
/// UTF-8 error; a tensor attribute fails as missing-field when the
/// tensor is absent and as invalid-model when it is malformed.
pub open spec fn attr_error_matches(e: Error, a: AttributeProto) -> bool {
    let tag = match a.attr_type {
        Some(t) => t as int,
        None => 0,
    };
    if tag == 3 || tag == 8 {
        e is Utf8
    } else if tag == 4 {
        if a.t is None {
            e is MissingField
        } else {
            e is InvalidModel
        }
    } else if tag == 1 || tag == 2 || tag == 6 || tag == 7 {
        true
    } else {
        e == Error::Unsupported(tag as i64)
    }
}

/// Parse one attribute message into a tagged value.
///
/// The closed set of understood type tags covers scalar float, int and
/// string, a nested tensor, and the float, int and string arrays. String
/// payloads must be valid UTF-8. Any other tag is an unsupported-feature
/// error carrying the tag itself.
pub fn parse_attribute_proto(attr: AttributeProto) -> (r: Result<AttributeValue, Error>)
    ensures
        r is Ok <==> spec_attr_ok(attr),
        r matches Ok(v) ==> attr_value_matches(v, attr),
        r matches Err(e) ==> attr_error_matches(e, attr),
{
    let tag: i32 = match attr.attr_type {
        Some(t) => t,
        None => 0,
    };
    if tag == 1 {
        Ok(
            AttributeValue::Float(
                match attr.f {
                    Some(x) => x,
                    None => 0,
                },
            ),
        )
    } else if tag == 2 {
        Ok(
            AttributeValue::Int(
                match attr.i {
                    Some(x) => x,
                    None => 0,
                },
            ),
        )
    } else if tag == 3 {
        let bytes: Vec<u8> = match attr.s {
            Some(b) => b,
            None => Vec::new(),
        };
        match utf8_to_string(bytes) {
            Some(s) => Ok(AttributeValue::String(s)),
            None => Err(Error::Utf8("attribute string is not valid UTF-8".to_string())),
        }
    } else if tag == 4 {
        match attr.t {
            Some(tp) => {
                let t = tensor_from_proto(tp, false)?;
                Ok(AttributeValue::Tensor(Box::new(t)))
            },
            None => Err(Error::MissingField("tensor attribute data".to_string())),
        }
    } else if tag == 6 {
        Ok(AttributeValue::Floats(attr.floats))
    } else if tag == 7 {
        Ok(AttributeValue::Ints(attr.ints))
    } else if tag == 8 {
        let n = attr.strings.len();
        let mut out: Vec<String> = Vec::new();
        let mut i: usize = 0;
        while i < n
            invariant
                i <= n == attr.strings@.len(),
                (match attr.attr_type {
                    Some(t) => t as int,
                    None => 0,
                }) == 8,
                out@.len() == i,
                forall|k: int|
                    0 <= k < i ==> vstd::utf8::valid_utf8(#[trigger] attr.strings@[k]@)
                        && out@[k]@ == vstd::utf8::decode_utf8(attr.strings@[k]@),
            decreases n - i,
        {
            let bytes = crate::wire::copy_range(
                attr.strings[i].as_slice(),
                0,
                attr.strings[i].len(),
            );
            proof {
                assert(bytes@ =~= attr.strings@[i as int]@);
            }
            match utf8_to_string(bytes) {
                Some(s) => {
                    out.push(s);
                },
                None => {
                    return Err(
                        Error::Utf8("attribute string is not valid UTF-8".to_string()),
                    );
                },
            }
            i = i + 1;
        }
        Ok(AttributeValue::Strings(out))
    } else {
        Err(Error::Unsupported(tag as i64))
    }
}

/// The last attribute message with the given non-empty name: a later
/// attribute overwrites an earlier one of the same name.
pub open spec fn spec_attr_lookup(attrs: Seq<AttributeProto>, n: Seq<char>) -> Option<
    AttributeProto,
>
    decreases attrs.len(),
{
    if attrs.len() == 0 {
        None
    } else if str_or_empty(attrs.last().name) == n && n.len() > 0 {
        Some(attrs.last())
    } else {
        spec_attr_lookup(attrs.drop_last(), n)
    }
}

/// Whether an operation's attribute entries agree with a list of
/// attribute messages: lookup by any name gives the adapted value of the
/// last message with that name.
pub open spec fn attrs_agree(entries: Seq<AttributeEntry>, attrs: Seq<AttributeProto>) -> bool {
    forall|n: Seq<char>|
        match #[trigger] crate::operation::spec_find_attr(entries, n) {
            Some(v) => spec_attr_lookup(attrs, n) matches Some(a) && attr_value_matches(v, a),
            None => spec_attr_lookup(attrs, n) is None,
        }
}

/// Distinct entry names.
pub open spec fn entry_names_unique(entries: Seq<AttributeEntry>) -> bool {
    forall|i: int, j: int|
        0 <= i < j < entries.len() ==> entries[i].name@ != entries[j].name@
}

/// How an adapted operation relates to its node message.
pub open spec fn op_matches(op: OnnxOperation, node: NodeProto) -> bool {
    &&& op.name@ == str_or_empty(node.name)
    &&& op.op_type@ == str_or_empty(node.op_type)
    &&& op.inputs.deep_view() == node.input.deep_view()
    &&& op.outputs.deep_view() == node.output.deep_view()
    &&& entry_names_unique(op.attributes@)
    &&& attrs_agree(op.attributes@, node.attribute@)
}

/// Whether every attribute of a node parses.
pub open spec fn spec_node_ok(node: NodeProto) -> bool {
    forall|i: int| 0 <= i < node.attribute@.len() ==> spec_attr_ok(#[trigger] node.attribute@[i])
}

/// Appending a fresh name extends lookups by exactly that name.
proof fn lemma_find_attr_push(pre: Seq<AttributeEntry>, post: Seq<AttributeEntry>)
    requires
        post.len() == pre.len() + 1,
        forall|k: int| 0 <= k < pre.len() ==> post[k] == pre[k],
        entry_names_unique(pre),
        forall|k: int| 0 <= k < pre.len() ==> pre[k].name@ != post[pre.len() as int].name@,
    ensures
        entry_names_unique(post),
        crate::operation::spec_find_attr(post, post[pre.len() as int].name@) == Some(
            post[pre.len() as int].value,
        ),
        forall|n: Seq<char>|
            n != post[pre.len() as int].name@ ==> #[trigger] crate::operation::spec_find_attr(
                post,
                n,
            ) == crate::operation::spec_find_attr(pre, n),
    decreases pre.len(),
{
    let new_name = post[pre.len() as int].name@;
    if pre.len() == 0 {
        assert(post.first() == post[0]);
        assert(post.drop_first() =~= Seq::<AttributeEntry>::empty());
        assert(entry_names_unique(post));
        assert forall|n: Seq<char>|
            n != new_name implies #[trigger] crate::operation::spec_find_attr(post, n)
            == crate::operation::spec_find_attr(pre, n) by {
            assert(crate::operation::spec_find_attr(post, n)
                == crate::operation::spec_find_attr(post.drop_first(), n));
        }
    } else {
        assert(pre.first() == pre[0] && post.first() == post[0]);
        assert(post[0] == pre[0]);
        let pret = pre.drop_first();
        let postt = post.drop_first();
        assert(postt.len() == pret.len() + 1);
        assert forall|k: int| 0 <= k < pret.len() implies postt[k] == pret[k] by {
            assert(postt[k] == post[k + 1] && pret[k] == pre[k + 1]);
        }
        assert(entry_names_unique(pret)) by {
            assert forall|a: int, b: int|
                0 <= a < b < pret.len() implies pret[a].name@ != pret[b].name@ by {
                assert(pret[a] == pre[a + 1] && pret[b] == pre[b + 1]);
            }
        }
        assert(postt[pret.len() as int] == post[pre.len() as int]);
        assert forall|k: int|
            0 <= k < pret.len() implies pret[k].name@ != postt[pret.len() as int].name@ by {
            assert(pret[k] == pre[k + 1]);
        }
        lemma_find_attr_push(pret, postt);
        assert(entry_names_unique(post)) by {
            assert forall|a: int, b: int|
                0 <= a < b < post.len() implies post[a].name@ != post[b].name@ by {
                if a == 0 {
                    if b < pre.len() {
                        assert(post[b] == pre[b]);
                    } else {
                        assert(pre[0].name@ != new_name);
                    }
                } else {
                    assert(post[a] == postt[a - 1] && post[b] == postt[b - 1]);
                }
            }
        }
        assert(crate::operation::spec_find_attr(post, new_name) == Some(
            post[pre.len() as int].value,
        )) by {
            assert(post[0].name@ != new_name) by {
                assert(pre[0].name@ != new_name);
            }
        }
        assert forall|n: Seq<char>|
            n != new_name implies #[trigger] crate::operation::spec_find_attr(post, n)
            == crate::operation::spec_find_attr(pre, n) by {
            if n == post[0].name@ {
                assert(crate::operation::spec_find_attr(post, n) == Some(post[0].value));
                assert(crate::operation::spec_find_attr(pre, n) == Some(pre[0].value));
            } else {
                assert(crate::operation::spec_find_attr(post, n)
                    == crate::operation::spec_find_attr(postt, n));
                assert(crate::operation::spec_find_attr(pre, n)
                    == crate::operation::spec_find_attr(pret, n));
                assert(crate::operation::spec_find_attr(postt, n)
                    == crate::operation::spec_find_attr(pret, n));
            }
        }
    }
}

/// After replacing entry `i` with one of the same name, lookups give the
/// new value for that name and are unchanged for every other.
proof fn lemma_find_attr_update(pre: Seq<AttributeEntry>, post: Seq<AttributeEntry>, i: int)
    requires
        0 <= i < pre.len(),
        post.len() == pre.len(),
        forall|k: int| 0 <= k < pre.len() && k != i ==> post[k] == pre[k],
        post[i].name@ == pre[i].name@,
        forall|k: int| 0 <= k < i ==> (#[trigger] pre[k]).name@ != pre[i].name@,
    ensures
        crate::operation::spec_find_attr(post, post[i].name@) == Some(post[i].value),
        forall|n: Seq<char>|
            n != post[i].name@ ==> #[trigger] crate::operation::spec_find_attr(post, n)
                == crate::operation::spec_find_attr(pre, n),
    decreases pre.len(),
{
    if i == 0 {
        assert(post.first() == post[0]);
        assert(pre.first() == pre[0]);
        assert forall|n: Seq<char>|
            n != post[0].name@ implies #[trigger] crate::operation::spec_find_attr(post, n)
            == crate::operation::spec_find_attr(pre, n) by {
            assert(post.drop_first() =~= pre.drop_first());
        }
    } else {
        assert(pre.first() == pre[0] && post.first() == post[0]);
        assert(post[0] == pre[0]);
        let pret = pre.drop_first();
        let postt = post.drop_first();
        assert forall|k: int|
            0 <= k < pret.len() && k != i - 1 implies postt[k] == pret[k] by {
            assert(postt[k] == post[k + 1] && pret[k] == pre[k + 1]);
        }
        assert(postt[i - 1] == post[i] && pret[i - 1] == pre[i]);
        assert forall|k: int|
            0 <= k < i - 1 implies (#[trigger] pret[k]).name@ != pret[i - 1].name@ by {
            assert(pret[k] == pre[k + 1]);
        }
        lemma_find_attr_update(pret, postt, i - 1);
        assert(post[0].name@ != post[i].name@) by {
            assert(pre[0].name@ != pre[i].name@);
        }
        assert forall|n: Seq<char>|
            n != post[i].name@ implies #[trigger] crate::operation::spec_find_attr(post, n)
            == crate::operation::spec_find_attr(pre, n) by {
            if n == post[0].name@ {
                assert(crate::operation::spec_find_attr(post, n) == Some(post[0].value));
                assert(crate::operation::spec_find_attr(pre, n) == Some(pre[0].value));
            } else {
                assert(crate::operation::spec_find_attr(post, n)
                    == crate::operation::spec_find_attr(postt, n));
                assert(crate::operation::spec_find_attr(pre, n)
                    == crate::operation::spec_find_attr(pret, n));
                assert(crate::operation::spec_find_attr(postt, n)
                    == crate::operation::spec_find_attr(pret, n));
            }
        }
    }
}

/// Store a value under a name: replace the existing entry of that name,
/// else append. Walking the attributes in declaration order, the last
/// attribute of each name wins.
fn upsert_attribute(entries: &mut Vec<AttributeEntry>, name: String, value: AttributeValue)
    requires
        entry_names_unique(old(entries)@),
    ensures
        entry_names_unique(final(entries)@),
        crate::operation::spec_find_attr(final(entries)@, name@) == Some(value),
        forall|n: Seq<char>|
            n != name@ ==> #[trigger] crate::operation::spec_find_attr(final(entries)@, n)
                == crate::operation::spec_find_attr(old(entries)@, n),
{
    let n = entries.len();
    let mut i: usize = 0;
    while i < n
        invariant
            i <= n == entries@.len(),
            entries@ == old(entries)@,
            entry_names_unique(entries@),
            forall|k: int| 0 <= k < i ==> (#[trigger] entries@[k]).name@ != name@,
        decreases n - i,
    {
        if str_eq(entries[i].name.as_str(), name.as_str()) {
            let ghost pre = entries@;
            entries.set(i, AttributeEntry { name, value });
            proof {
                lemma_find_attr_update(pre, entries@, i as int);
                assert(entry_names_unique(entries@)) by {
                    assert forall|a: int, b: int|
                        0 <= a < b < entries@.len() implies entries@[a].name@
                        != entries@[b].name@ by {
                        if a != i && b != i {
                            assert(entries@[a] == pre[a] && entries@[b] == pre[b]);
                        } else {
                            assert(pre[a].name@ != pre[b].name@);
                        }
                    }
                }
            }
            return ;
        }
        i = i + 1;
    }
    let ghost pre = entries@;
    entries.push(AttributeEntry { name, value });
    proof {
        lemma_find_attr_push(pre, entries@);
    }
}

/// Build an operation record from a node message.
///
/// Declaration order of inputs and outputs is kept; attributes become a
/// name-to-value mapping where a later attribute of the same name wins
/// and nameless attributes are parsed (their errors count) but dropped.
pub fn operation_from_node_proto(node: NodeProto) -> (r: Result<OnnxOperation, Error>)
    ensures
        r is Ok <==> spec_node_ok(node),
        r matches Ok(op) ==> op_matches(op, node),
        r matches Err(e) ==> exists|i: int|
            0 <= i < node.attribute@.len() && !spec_attr_ok(#[trigger] node.attribute@[i])
                && attr_error_matches(e, node.attribute@[i]),
{
    let NodeProto { input, output, name, op_type, mut attribute } = node;
    let ghost full = attribute@;
    // reverse the attributes so that popping walks them in declaration
    // order
    let mut rev_attrs: Vec<AttributeProto> = Vec::new();
    while attribute.len() > 0
        invariant
            attribute@.len() + rev_attrs@.len() == full.len(),
            attribute@ == full.take(attribute@.len() as int),
            forall|k: int|
                0 <= k < rev_attrs@.len() ==> rev_attrs@[k] == full[full.len() - 1 - k],
        decreases attribute@.len(),
    {
        let ghost pre = attribute@;
        let a = match attribute.pop() {
            Some(a) => a,
            None => {
                return Err(Error::MissingField("attribute".to_string()));
            },
        };
        proof {
            assert(a == pre[pre.len() - 1]);
            assert(pre[pre.len() - 1] == full.take(pre.len() as int)[pre.len() - 1]);
            assert(attribute@ =~= full.take(pre.len() - 1));
        }
        rev_attrs.push(a);
    }
    let mut entries: Vec<AttributeEntry> = Vec::new();
    proof {
        assert(full.take(0) =~= Seq::<AttributeProto>::empty());
    }
    while rev_attrs.len() > 0
        invariant
            full == node.attribute@,
            rev_attrs@.len() <= full.len(),
            forall|k: int|
                0 <= k < rev_attrs@.len() ==> rev_attrs@[k] == full[full.len() - 1 - k],
            entry_names_unique(entries@),
            forall|n: Seq<char>|
                match #[trigger] crate::operation::spec_find_attr(entries@, n) {
                    Some(v) => spec_attr_lookup(
                        full.take(full.len() - rev_attrs@.len()),
                        n,
                    ) matches Some(a) && attr_value_matches(v, a),
                    None => spec_attr_lookup(full.take(full.len() - rev_attrs@.len()), n) is None,
                },
            forall|k: int|
                0 <= k < full.len() - rev_attrs@.len() ==> spec_attr_ok(#[trigger] full[k]),
        decreases rev_attrs@.len(),
    {
        let ghost pre_rev = rev_attrs@;
        let ghost j = full.len() - pre_rev.len();
        let a = match rev_attrs.pop() {
            Some(a) => a,
            None => {
                return Err(Error::MissingField("attribute".to_string()));
            },
        };
        proof {
            assert(a == pre_rev[pre_rev.len() - 1]);
            assert(a == full[j]);
        }
        let attr_name: String = match &a.name {
            Some(s) => s.clone(),
            None => String::new(),
        };
        proof {
            assert(attr_name@ == str_or_empty(a.name));
        }
        let named = !attr_name.as_str().is_empty();
        let value = match parse_attribute_proto(a) {
            Ok(v) => v,
            Err(e) => {
                return Err(e);
            },
        };
        let ghost epre = entries@;
        let ghost nm_view = attr_name@;
        if named {
            upsert_attribute(&mut entries, attr_name, value);
        }
        proof {
            let pre_t = full.take(j);
            let post_t = full.take(j + 1);
            assert(post_t.drop_last() =~= pre_t);
            assert(post_t.last() == full[j]);
            assert forall|n: Seq<char>|
                match #[trigger] crate::operation::spec_find_attr(entries@, n) {
                    Some(v) => spec_attr_lookup(post_t, n) matches Some(b)
                        && attr_value_matches(v, b),
                    None => spec_attr_lookup(post_t, n) is None,
                } by {
                assert(nm_view == str_or_empty(full[j].name));
                assert(named == (nm_view.len() > 0));
                if named && n == nm_view {
                    assert(spec_attr_lookup(post_t, n) == Some(full[j]));
                    assert(crate::operation::spec_find_attr(entries@, n) == Some(value));
                } else {
                    assert(spec_attr_lookup(post_t, n) == spec_attr_lookup(pre_t, n));
                    if named {
                        assert(crate::operation::spec_find_attr(entries@, n)
                            == crate::operation::spec_find_attr(epre, n));
                    } else {
                        assert(entries@ == epre);
                    }
                }
            }
        }
    }
    proof {
        assert(full.take(full.len() as int) =~= full);
    }
    Ok(
        OnnxOperation {
            name: match name {
                Some(s) => s,
                None => String::new(),
            },
            op_type: match op_type {
                Some(s) => s,
                None => String::new(),
            },
            inputs: input,
            outputs: output,
            attributes: entries,
        },
    )
}


} // verus!
