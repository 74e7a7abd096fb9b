//! The model: tensor registry, operation list, declared boundary names,
//! and the scheduling and query API.

use vstd::prelude::*;

use crate::error::Error;
use crate::operation::OnnxOperation;
use crate::proto::{
    AttributeView, GraphProto, ModelProto, ModelView, NodeView, TensorProto,
    TensorView, ValueInfoProto, ValueInfoView,
};
use crate::proto_adapter::{
    op_matches, operation_from_node_proto, spec_node_ok, spec_tensor_ok, str_or_empty,
    tensor_from_proto, tensor_matches, proto_has_inline_data,
};
use crate::schedule;
use crate::tensor::OnnxTensor;
use crate::text::str_eq;

verus! {

/// The parsed model: everything a query or scheduling call works from.
pub struct OnnxModel {
    /// Tensor registry; names are unique and non-empty.
    pub tensors: Vec<OnnxTensor>,
    /// Operations in graph declaration order, not execution order.
    pub operations: Vec<OnnxOperation>,
    /// Declared graph inputs, excluding names that initializers shadow.
    pub inputs: Vec<String>,
    /// Declared graph outputs.
    pub outputs: Vec<String>,
    pub model_version: i64,
    pub producer_name: String,
    pub producer_version: String,
}

/// The first registry record carrying `n`, if any; the registry keeps
/// names unique, so it is the record for `n`.
pub open spec fn find_tensor(ts: Seq<OnnxTensor>, n: Seq<char>) -> Option<OnnxTensor>
    decreases ts.len(),
{
    if ts.len() == 0 {
        None
    } else if ts.first().name@ == n {
        Some(ts.first())
    } else {
        find_tensor(ts.drop_first(), n)
    }
}

/// A well-formed registry: every name non-empty and unique.
pub open spec fn registry_wf(ts: Seq<OnnxTensor>) -> bool {
    &&& forall|i: int| 0 <= i < ts.len() ==> (#[trigger] ts[i].name)@.len() > 0
    &&& forall|i: int, j: int| 0 <= i < j < ts.len() ==> ts[i].name@ != ts[j].name@
}

/// Whether some initializer declares the non-empty name `n`.
pub open spec fn is_init_name(inits: Seq<TensorProto>, n: Seq<char>) -> bool {
    n.len() > 0 && exists|i: int| 0 <= i < inits.len() && str_or_empty(#[trigger] inits[i].name) == n
}

/// The last initializer message carrying the non-empty name `n`.
pub open spec fn spec_init_lookup(inits: Seq<TensorProto>, n: Seq<char>) -> Option<TensorProto>
    decreases inits.len(),
{
    if inits.len() == 0 {
        None
    } else if str_or_empty(inits.last().name) == n && n.len() > 0 {
        Some(inits.last())
    } else {
        spec_init_lookup(inits.drop_last(), n)
    }
}

/// Whether a value declaration is a tensor-typed declaration of the
/// non-empty name `n`.
pub open spec fn is_named_tensor_decl(v: ValueInfoProto, n: Seq<char>) -> bool {
    &&& str_or_empty(v.name) == n
    &&& n.len() > 0
    &&& v.value_type matches Some(t) && t.tensor_type is Some
}

/// Whether the three declaration lists of a graph hold a tensor-typed
/// declaration of `n`.
pub open spec fn graph_declares(g: GraphProto, n: Seq<char>) -> bool {
    ||| exists|i: int| 0 <= i < g.value_info@.len() && is_named_tensor_decl(#[trigger] g.value_info@[i], n)
    ||| exists|i: int| 0 <= i < g.input@.len() && is_named_tensor_decl(#[trigger] g.input@[i], n)
    ||| exists|i: int| 0 <= i < g.output@.len() && is_named_tensor_decl(#[trigger] g.output@[i], n)
}

/// Whether a declaration that names a tensor can be turned into a
/// record: its element type must be present and not the undefined code.
pub open spec fn spec_decl_ok(v: ValueInfoProto) -> bool {
    is_named_tensor_decl(v, str_or_empty(v.name)) ==> (
    v.value_type->Some_0.tensor_type->Some_0.elem_type matches Some(et) && et != 0)
}

/// The graph-input names the model exposes, in declaration order: the
/// non-empty input names that no initializer shadows.
pub open spec fn input_names_upto(g: GraphProto, k: int) -> Seq<Seq<char>>
    decreases k,
{
    if k <= 0 {
        Seq::empty()
    } else {
        let pre = input_names_upto(g, k - 1);
        let n = str_or_empty(g.input@[k - 1].name);
        if n.len() > 0 && !is_init_name(g.initializer@, n) {
            pre.push(n)
        } else {
            pre
        }
    }
}

proof fn lemma_find_tensor_push(pre: Seq<OnnxTensor>, post: Seq<OnnxTensor>)
    requires
        post.len() == pre.len() + 1,
        forall|k: int| 0 <= k < pre.len() ==> post[k] == pre[k],
        forall|k: int| 0 <= k < pre.len() ==> pre[k].name@ != post[pre.len() as int].name@,
    ensures
        find_tensor(post, post[pre.len() as int].name@) == Some(post[pre.len() as int]),
        forall|n: Seq<char>|
            n != post[pre.len() as int].name@ ==> #[trigger] find_tensor(post, n) == find_tensor(
                pre,
                n,
            ),
    decreases pre.len(),
{
    let new_name = post[pre.len() as int].name@;
    if pre.len() == 0 {
        assert(post.first() == post[0]);
        assert(post.drop_first() =~= Seq::<OnnxTensor>::empty());
        assert forall|n: Seq<char>|
            n != new_name implies #[trigger] find_tensor(post, n) == find_tensor(pre, n) by {
            assert(find_tensor(post, n) == find_tensor(post.drop_first(), n));
        }
    } else {
        assert(pre.first() == pre[0] && post.first() == post[0]);
        assert(post[0] == pre[0]);
        let pret = pre.drop_first();
        let postt = post.drop_first();
        assert forall|k: int| 0 <= k < pret.len() implies postt[k] == pret[k] by {
            assert(postt[k] == post[k + 1] && pret[k] == pre[k + 1]);
        }
        assert(postt[pret.len() as int] == post[pre.len() as int]);
        assert forall|k: int|
            0 <= k < pret.len() implies pret[k].name@ != postt[pret.len() as int].name@ by {
            assert(pret[k] == pre[k + 1]);
        }
        lemma_find_tensor_push(pret, postt);
        assert(find_tensor(post, new_name) == Some(post[pre.len() as int])) by {
            assert(post[0].name@ != new_name) by {
                assert(pre[0].name@ != new_name);
            }
        }
        assert forall|n: Seq<char>|
            n != new_name implies #[trigger] find_tensor(post, n) == find_tensor(pre, n) by {
            if n == post[0].name@ {
                assert(find_tensor(post, n) == Some(post[0]));
                assert(find_tensor(pre, n) == Some(pre[0]));
            } else {
                assert(find_tensor(post, n) == find_tensor(postt, n));
                assert(find_tensor(pre, n) == find_tensor(pret, n));
                assert(find_tensor(postt, n) == find_tensor(pret, n));
            }
        }
    }
}

proof fn lemma_find_tensor_update(pre: Seq<OnnxTensor>, post: Seq<OnnxTensor>, i: int)
    requires
        0 <= i < pre.len(),
        post.len() == pre.len(),
        forall|k: int| 0 <= k < pre.len() && k != i ==> post[k] == pre[k],
        post[i].name@ == pre[i].name@,
        forall|k: int| 0 <= k < i ==> pre[k].name@ != pre[i].name@,
    ensures
        find_tensor(post, post[i].name@) == Some(post[i]),
        forall|n: Seq<char>|
            n != post[i].name@ ==> #[trigger] find_tensor(post, n) == find_tensor(pre, n),
    decreases pre.len(),
{
    if i == 0 {
        assert(post.first() == post[0]);
        assert(pre.first() == pre[0]);
        assert forall|n: Seq<char>|
            n != post[0].name@ implies #[trigger] find_tensor(post, n) == find_tensor(pre, n) by {
            assert(post.drop_first() =~= pre.drop_first());
        }
    } else {
        assert(pre.first() == pre[0] && post.first() == post[0]);
        assert(post[0] == pre[0]);
        let pret = pre.drop_first();
        let postt = post.drop_first();
        assert forall|k: int|
            0 <= k < pret.len() && k != i - 1 implies postt[k] == pret[k] by {
            assert(postt[k] == post[k + 1] && pret[k] == pre[k + 1]);
        }
        assert(postt[i - 1] == post[i] && pret[i - 1] == pre[i]);
        assert forall|k: int| 0 <= k < i - 1 implies (#[trigger] pret[k]).name@ != pret[i
            - 1].name@ by {
            assert(pret[k] == pre[k + 1]);
        }
        lemma_find_tensor_update(pret, postt, i - 1);
        assert(post[0].name@ != post[i].name@) by {
            assert(pre[0].name@ != pre[i].name@);
        }
        assert forall|n: Seq<char>|
            n != post[i].name@ implies #[trigger] find_tensor(post, n) == find_tensor(pre, n) by {
            if n == post[0].name@ {
                assert(find_tensor(post, n) == Some(post[0]));
                assert(find_tensor(pre, n) == Some(pre[0]));
            } else {
                assert(find_tensor(post, n) == find_tensor(postt, n));
                assert(find_tensor(pre, n) == find_tensor(pret, n));
                assert(find_tensor(postt, n) == find_tensor(pret, n));
            }
        }
    }
}

/// Insert a record under its name. A record that already stands under
/// the name is replaced, except that a shape-only record never replaces
/// a data-bearing one: an initializer's data survives the later
/// shape/type passes.
fn insert_tensor(registry: &mut Vec<OnnxTensor>, t: OnnxTensor, shape_only: bool)
    requires
        registry_wf(old(registry)@),
        t.name@.len() > 0,
    ensures
        registry_wf(final(registry)@),
        forall|n: Seq<char>|
            #![trigger find_tensor(final(registry)@, n)]
            n != t.name@ ==> find_tensor(final(registry)@, n) == find_tensor(old(registry)@, n),
        find_tensor(final(registry)@, t.name@) == match find_tensor(old(registry)@, t.name@) {
            Some(e) => if shape_only && !(e.payload is Absent) {
                Some(e)
            } else {
                Some(t)
            },
            None => Some(t),
        },
{
    let n = registry.len();
    let mut i: usize = 0;
    proof {
        assert(registry@.skip(0) =~= registry@);
    }
    while i < n
        invariant
            i <= n == registry@.len(),
            registry@ == old(registry)@,
            registry_wf(registry@),
            t.name@.len() > 0,
            forall|k: int| 0 <= k < i ==> registry@[k].name@ != t.name@,
            find_tensor(registry@, t.name@) == find_tensor(registry@.skip(i as int), t.name@),
        decreases n - i,
    {
        proof {
            let rest = registry@.skip(i as int);
            assert(rest.first() == registry@[i as int]);
            assert(rest.drop_first() =~= registry@.skip(i + 1));
        }
        if str_eq(registry[i].name.as_str(), t.name.as_str()) {
            proof {
                assert(find_tensor(registry@, t.name@) == Some(registry@[i as int]));
            }
            if shape_only && registry[i].has_data() {
                return ;
            }
            let ghost pre = registry@;
            registry.set(i, t);
            proof {
                lemma_find_tensor_update(pre, registry@, i as int);
                assert(registry_wf(registry@)) by {
                    assert forall|a: int, b: int|
                        0 <= a < b < registry@.len() implies registry@[a].name@
                        != registry@[b].name@ by {
                        if a != i && b != i {
                            assert(registry@[a] == pre[a] && registry@[b] == pre[b]);
                        } else {
                            assert(pre[a].name@ != pre[b].name@);
                        }
                    }
                }
            }
            return ;
        }
        i = i + 1;
    }
    proof {
        assert(registry@.skip(n as int) =~= Seq::<OnnxTensor>::empty());
    }
    let ghost pre = registry@;
    registry.push(t);
    proof {
        lemma_find_tensor_push(pre, registry@);
    }
}

/// Whether any initializer declares this non-empty name.
fn is_initializer_name(inits: &Vec<TensorProto>, name: &str) -> (r: bool)
    requires
        name@.len() > 0,
    ensures
        r == is_init_name(inits@, name@),
{
    let n = inits.len();
    let mut i: usize = 0;
    while i < n
        invariant
            i <= n == inits@.len(),
            name@.len() > 0,
            forall|k: int| 0 <= k < i ==> str_or_empty(#[trigger] inits@[k].name) != name@,
        decreases n - i,
    {
        match &inits[i].name {
            Some(s) => {
                if str_eq(s.as_str(), name) {
                    return true;
                }
            },
            None => {
                proof {
                    assert(str_or_empty(inits@[i as int].name) =~= Seq::<char>::empty());
                }
            },
        }
        i = i + 1;
    }
    false
}

/// The last tensor-typed declaration of the non-empty name `n` in a
/// declaration list, if any.
pub open spec fn spec_decl_lookup(list: Seq<ValueInfoProto>, n: Seq<char>) -> Option<
    ValueInfoProto,
>
    decreases list.len(),
{
    if list.len() == 0 {
        None
    } else if is_named_tensor_decl(list.last(), n) {
        Some(list.last())
    } else {
        spec_decl_lookup(list.drop_last(), n)
    }
}

/// The declaration that wins the shape/type passes for `n`: the passes
/// run value_info, then inputs, then outputs, and a later record
/// replaces an earlier shape-only one, so the last list with a match
/// wins, and within a list its last match wins.
pub open spec fn spec_graph_decl_lookup(g: GraphProto, n: Seq<char>) -> Option<ValueInfoProto> {
    match spec_decl_lookup(g.output@, n) {
        Some(v) => Some(v),
        None => match spec_decl_lookup(g.input@, n) {
            Some(v) => Some(v),
            None => spec_decl_lookup(g.value_info@, n),
        },
    }
}

/// What the registry holds at `n` while the shape/type passes run, given
/// the winning declaration `dl` among those processed so far: a
/// data-bearing record of the base registry stands untouched; otherwise
/// the record is built from `dl`, or is still the base record when no
/// declaration matched yet.
pub open spec fn decl_pass_state(
    reg: Seq<OnnxTensor>,
    base: Seq<OnnxTensor>,
    dl: Option<ValueInfoProto>,
    n: Seq<char>,
) -> bool {
    match find_tensor(base, n) {
        Some(e0) => if !(e0.payload is Absent) {
            find_tensor(reg, n) == Some(e0)
        } else {
            decl_or_base(reg, base, dl, n)
        },
        None => decl_or_base(reg, base, dl, n),
    }
}

/// The winning declaration after the whole value-info pass and the
/// first `k` graph-input declarations.
pub open spec fn decl_after_inputs(g: GraphProto, k: int, n: Seq<char>) -> Option<ValueInfoProto> {
    match spec_decl_lookup(g.input@.take(k), n) {
        Some(v) => Some(v),
        None => spec_decl_lookup(g.value_info@, n),
    }
}

/// The winning declaration after the value-info and input passes and the
/// first `k` graph-output declarations.
pub open spec fn decl_after_outputs(g: GraphProto, k: int, n: Seq<char>) -> Option<ValueInfoProto> {
    match spec_decl_lookup(g.output@.take(k), n) {
        Some(v) => Some(v),
        None => decl_after_inputs(g, g.input@.len() as int, n),
    }
}

/// What one declaration pass step does at the declaration's own name:
/// a data-bearing record stands, anything else becomes the declared
/// shape-only record.
pub open spec fn decl_applied(pre: Seq<OnnxTensor>, post: Seq<OnnxTensor>, v: ValueInfoProto) -> bool {
    let n = str_or_empty(v.name);
    match find_tensor(pre, n) {
        Some(e0) => if e0.payload is Absent {
            find_tensor(post, n) matches Some(e) && decl_record_matches(e, v)
        } else {
            find_tensor(post, n) == Some(e0)
        },
        None => find_tensor(post, n) matches Some(e) && decl_record_matches(e, v),
    }
}

/// The record at `n` comes from the declaration when one matched, else
/// it is whatever the base registry had.
pub open spec fn decl_or_base(
    reg: Seq<OnnxTensor>,
    base: Seq<OnnxTensor>,
    dl: Option<ValueInfoProto>,
    n: Seq<char>,
) -> bool {
    match dl {
        Some(v) => find_tensor(reg, n) matches Some(e) && decl_record_matches(e, v),
        None => find_tensor(reg, n) == find_tensor(base, n),
    }
}

/// How a shape-only record relates to the declaration it was built from:
/// the declared element type, and one shape entry per declared dimension,
/// the literal size where one is given and -1 otherwise.
pub open spec fn decl_record_matches(e: OnnxTensor, v: ValueInfoProto) -> bool {
    &&& e.name@ == str_or_empty(v.name)
    &&& e.payload is Absent
    &&& v.value_type matches Some(t)
    &&& t.tensor_type matches Some(tt)
    &&& tt.elem_type matches Some(et)
    &&& e.data_type == crate::types::DataType::spec_from_onnx_type(et as int)
    &&& match tt.shape {
        None => e.shape@.len() == 0,
        Some(sp) => e.shape@.len() == sp.dim@.len() && forall|i: int|
            0 <= i < sp.dim@.len() ==> e.shape@[i] == crate::tensor::spec_dim_size(
                #[trigger] sp.dim@[i],
            ),
    }
}

/// When building a model from a decoded message succeeds: the graph is
/// present and every initializer, node attribute and tensor-typed
/// declaration adapts.
pub open spec fn model_ok_exec(msg: ModelProto) -> bool {
    &&& msg.graph matches Some(g)
    &&& {
        let g = msg.graph->Some_0;
        &&& forall|i: int|
            0 <= i < g.initializer@.len() ==> spec_tensor_ok(#[trigger] g.initializer@[i], false)
        &&& forall|i: int| 0 <= i < g.node@.len() ==> spec_node_ok(#[trigger] g.node@[i])
        &&& forall|i: int|
            0 <= i < g.value_info@.len() ==> spec_decl_ok(#[trigger] g.value_info@[i])
        &&& forall|i: int| 0 <= i < g.input@.len() ==> spec_decl_ok(#[trigger] g.input@[i])
        &&& forall|i: int| 0 <= i < g.output@.len() ==> spec_decl_ok(#[trigger] g.output@[i])
    }
}

/// How a built model relates to its decoded message: exact metadata,
/// boundary names, operations, and the registry policies.
pub open spec fn model_builds_from(m: OnnxModel, msg: ModelProto) -> bool {
    &&& msg.graph matches Some(g)
    &&& {
        let g = msg.graph->Some_0;
        &&& m.model_version == match msg.model_version {
            Some(v) => v,
            None => 0i64,
        }
        &&& m.producer_name@ == str_or_empty(msg.producer_name)
        &&& m.producer_version@ == str_or_empty(msg.producer_version)
        &&& m.inputs.deep_view() == input_names_upto(g, g.input@.len() as int)
        &&& m.outputs@.len() == g.output@.len()
        &&& forall|k: int|
            0 <= k < g.output@.len() ==> m.outputs@[k]@ == str_or_empty(
                #[trigger] g.output@[k].name,
            )
        &&& m.operations@.len() == g.node@.len()
        &&& forall|k: int|
            0 <= k < g.node@.len() ==> op_matches(#[trigger] m.operations@[k], g.node@[k])
        &&& registry_wf(m.tensors@)
        &&& forall|n: Seq<char>|
            #![trigger find_tensor(m.tensors@, n)]
            find_tensor(m.tensors@, n) is Some <==> (spec_init_lookup(g.initializer@, n) is Some
                || graph_declares(g, n))
        &&& forall|n: Seq<char>|
            #![trigger spec_init_lookup(g.initializer@, n)]
            match spec_init_lookup(g.initializer@, n) {
                Some(tp) => proto_has_inline_data(tp) ==> (find_tensor(m.tensors@, n)
                    matches Some(e) && tensor_matches(e, tp)),
                None => true,
            }
        &&& forall|n: Seq<char>|
            #![trigger find_tensor(m.tensors@, n)]
            match find_tensor(m.tensors@, n) {
                Some(e) => e.payload is Absent ==> match spec_graph_decl_lookup(g, n) {
                    Some(v) => decl_record_matches(e, v),
                    None => spec_init_lookup(g.initializer@, n) matches Some(tp)
                        && tensor_matches(e, tp),
                },
                None => true,
            }
    }
}

impl OnnxModel {
    /// Build a model from a decoded model message.
    ///
    /// A message without a graph section is an invalid model. The tensor
    /// registry is populated in four passes: initializers (which may carry
    /// data), then value-info, graph-input and graph-output declarations
    /// (shape and type only); a later record replaces an earlier one of
    /// the same name, except that a shape-only record never erases an
    /// initializer's data. Declared inputs exclude names that double as
    /// initializers.
    pub fn from_model_proto(msg: ModelProto) -> (r: Result<OnnxModel, Error>)
        ensures
            msg.graph is None ==> r is Err && r->Err_0 is InvalidModel,
            r matches Err(e) ==> (e is InvalidModel || e is MissingField || e is Utf8
                || e is Unsupported),
            r matches Err(e) ==> ((e is Utf8 || e is Unsupported) ==> (msg.graph matches Some(g)
                && exists|i: int, j: int|
                0 <= i < g.node@.len() && 0 <= j < (#[trigger] g.node@[i]).attribute@.len()
                    && !crate::proto_adapter::spec_attr_ok(#[trigger] g.node@[i].attribute@[j])
                    && crate::proto_adapter::attr_error_matches(e, g.node@[i].attribute@[j]))),
            r is Ok <==> model_ok_exec(msg),
            r matches Ok(m) ==> model_builds_from(m, msg),
    {
        let ModelProto { producer_name, producer_version, model_version, graph } = msg;
        let g = match graph {
            Some(g) => g,
            None => {
                return Err(Error::InvalidModel("no graph found in model".to_string()));
            },
        };
        let ghost g0 = g;
        let GraphProto { node, initializer, input, output, value_info } = g;

        // graph-input names, excluding names that initializers shadow
        let mut inputs: Vec<String> = Vec::new();
        let ni = input.len();
        let mut i: usize = 0;
        while i < ni
            invariant
                i <= ni == input@.len(),
                input@ == g0.input@,
                initializer@ == g0.initializer@,
                inputs.deep_view() == input_names_upto(g0, i as int),
            decreases ni - i,
        {
            let nm: String = match &input[i].name {
                Some(s) => s.clone(),
                None => String::new(),
            };
            proof {
                assert(nm@ == str_or_empty(g0.input@[i as int].name));
            }
            if !nm.as_str().is_empty() {
                if !is_initializer_name(&initializer, nm.as_str()) {
                    let ghost pre = inputs.deep_view();
                    inputs.push(nm);
                    proof {
                        assert(inputs.deep_view() =~= pre.push(
                            str_or_empty(g0.input@[i as int].name),
                        ));
                    }
                }
            }
            i = i + 1;
        }

        // graph-output names, all of them
        let mut outputs: Vec<String> = Vec::new();
        let no = output.len();
        let mut i: usize = 0;
        while i < no
            invariant
                i <= no == output@.len(),
                output@ == g0.output@,
                outputs@.len() == i,
                forall|k: int|
                    0 <= k < i ==> outputs@[k]@ == str_or_empty(#[trigger] g0.output@[k].name),
            decreases no - i,
        {
            let nm: String = match &output[i].name {
                Some(s) => s.clone(),
                None => String::new(),
            };
            outputs.push(nm);
            i = i + 1;
        }

        // reverse the initializers so that popping walks them in
        // declaration order
        let ghost full_inits = initializer@;
        let mut inits = initializer;
        let mut rev_inits: Vec<TensorProto> = Vec::new();
        while inits.len() > 0
            invariant
                inits@.len() + rev_inits@.len() == full_inits.len(),
                inits@ == full_inits.take(inits@.len() as int),
                forall|k: int|
                    0 <= k < rev_inits@.len() ==> rev_inits@[k] == full_inits[full_inits.len() - 1
                        - k],
            decreases inits@.len(),
        {
            let ghost pre = inits@;
            let tp = match inits.pop() {
                Some(tp) => tp,
                None => {
                    return Err(Error::MissingField("initializer".to_string()));
                },
            };
            proof {
                assert(tp == pre[pre.len() - 1]);
                assert(pre[pre.len() - 1] == full_inits.take(pre.len() as int)[pre.len() - 1]);
                assert(inits@ =~= full_inits.take(pre.len() - 1));
            }
            rev_inits.push(tp);
        }

        // pass 1: initializers in declaration order; a later record of a
        // name replaces an earlier one
        let mut registry: Vec<OnnxTensor> = Vec::new();
        proof {
            assert(full_inits.take(0) =~= Seq::<TensorProto>::empty());
        }
        while rev_inits.len() > 0
            invariant
                msg.graph == Some(g0),
                full_inits == g0.initializer@,
                rev_inits@.len() <= full_inits.len(),
                forall|k: int|
                    0 <= k < rev_inits@.len() ==> rev_inits@[k] == full_inits[full_inits.len() - 1
                        - k],
                registry_wf(registry@),
                forall|n: Seq<char>|
                    match #[trigger] find_tensor(registry@, n) {
                        Some(e) => spec_init_lookup(
                            full_inits.take(full_inits.len() - rev_inits@.len()),
                            n,
                        ) matches Some(tp) && tensor_matches(e, tp),
                        None => spec_init_lookup(
                            full_inits.take(full_inits.len() - rev_inits@.len()),
                            n,
                        ) is None,
                    },
                forall|k: int|
                    0 <= k < full_inits.len() - rev_inits@.len() ==> spec_tensor_ok(
                        #[trigger] full_inits[k],
                        false,
                    ),
            decreases rev_inits@.len(),
        {
            let ghost pre_rev = rev_inits@;
            let ghost j = full_inits.len() - pre_rev.len();
            let tp = match rev_inits.pop() {
                Some(tp) => tp,
                None => {
                    return Err(Error::MissingField("initializer".to_string()));
                },
            };
            proof {
                assert(tp == pre_rev[pre_rev.len() - 1]);
                assert(tp == full_inits[j]);
            }
            let named: bool = match &tp.name {
                Some(s) => !s.as_str().is_empty(),
                None => false,
            };
            proof {
                assert(named == (str_or_empty(full_inits[j].name).len() > 0));
            }
            let ghost nm_view = str_or_empty(tp.name);
            let t = match tensor_from_proto(tp, false) {
                Ok(t) => t,
                Err(e) => {
                    proof {
                        assert(!model_ok_exec(msg)) by {
                            assert(msg.graph->Some_0 == g0);
                            assert(!spec_tensor_ok(g0.initializer@[j], false));
                        }
                    }
                    return Err(e);
                },
            };
            let ghost rpre = registry@;
            if named {
                insert_tensor(&mut registry, t, false);
            }
            proof {
                let pre_t = full_inits.take(j);
                let post_t = full_inits.take(j + 1);
                assert(post_t.drop_last() =~= pre_t);
                assert(post_t.last() == full_inits[j]);
                assert forall|n: Seq<char>|
                    match #[trigger] find_tensor(registry@, n) {
                        Some(e) => spec_init_lookup(post_t, n) matches Some(tp2)
                            && tensor_matches(e, tp2),
                        None => spec_init_lookup(post_t, n) is None,
                    } by {
                    if named && n == nm_view {
                        assert(spec_init_lookup(post_t, n) == Some(full_inits[j]));
                        assert(find_tensor(registry@, n) == Some(t));
                    } else {
                        assert(spec_init_lookup(post_t, n) == spec_init_lookup(pre_t, n));
                        if named {
                            assert(n != t.name@);
                            assert(find_tensor(registry@, n) == find_tensor(rpre, n));
                        } else {
                            assert(registry@ == rpre);
                        }
                    }
                }
            }
        }
        proof {
            assert(full_inits.take(full_inits.len() as int) =~= full_inits);
        }
        let ghost r1 = registry@;
        proof {
            assert forall|n: Seq<char>|
                #![trigger spec_decl_lookup(g0.value_info@.take(0), n)]
                decl_pass_state(
                registry@,
                r1,
                spec_decl_lookup(g0.value_info@.take(0), n),
                n,
            ) by {
                assert(g0.value_info@.take(0) =~= Seq::<ValueInfoProto>::empty());
            }
        }

        // passes 2 to 4: shape/type declarations, which never erase data
        let nv = value_info.len();
        let mut i: usize = 0;
        while i < nv
            invariant
                msg.graph == Some(g0),
                value_info@ == g0.value_info@,
                i <= nv == value_info@.len(),
                registry_wf(registry@),
                preserves_data(r1, registry@),
                names_from(registry@, r1, g0),
                forall|n: Seq<char>|
                    #![trigger spec_decl_lookup(g0.value_info@.take(i as int), n)]
                    decl_pass_state(
                        registry@,
                        r1,
                        spec_decl_lookup(g0.value_info@.take(i as int), n),
                        n,
                    ),
                decls_covered(registry@, g0.value_info@, i as int),
                forall|k: int| 0 <= k < i ==> spec_decl_ok(#[trigger] g0.value_info@[k]),
            decreases nv - i,
        {
            let ghost rpre = registry@;
            let r = declare_tensor(&mut registry, &value_info[i], Ghost(r1), Ghost(g0));
            proof {
                assert(g0.value_info@[i as int] == value_info@[i as int]);
            }
            match r {
                Ok(_) => {},
                Err(e) => {
                    proof {
                        assert(!model_ok_exec(msg)) by {
                            assert(msg.graph->Some_0 == g0);
                            assert(!spec_decl_ok(g0.value_info@[i as int]));
                        }
                    }
                    return Err(e);
                },
            }
            proof {
                let vi = g0.value_info@[i as int];
                let pre_t = g0.value_info@.take(i as int);
                let post_t = g0.value_info@.take(i + 1);
                assert(post_t.drop_last() =~= pre_t);
                assert(post_t.last() == vi);
                assert forall|n: Seq<char>|
                    #![trigger spec_decl_lookup(g0.value_info@.take(i + 1), n)]
                    decl_pass_state(registry@, r1, spec_decl_lookup(post_t, n), n) by {
                    assert(decl_pass_state(rpre, r1, spec_decl_lookup(pre_t, n), n));
                    if is_named_tensor_decl(vi, n) {
                        assert(n == str_or_empty(vi.name));
                        assert(decl_applied(rpre, registry@, vi));
                    } else {
                        assert(spec_decl_lookup(post_t, n) == spec_decl_lookup(pre_t, n));
                        if n == str_or_empty(vi.name) {
                            assert(!is_named_tensor_decl(vi, str_or_empty(vi.name)));
                            assert(registry@ == rpre);
                        } else {
                            assert(find_tensor(registry@, n) == find_tensor(rpre, n));
                        }
                    }
                }
            }
            i = i + 1;
        }
        proof {
            assert forall|n: Seq<char>|
                #![trigger decl_after_inputs(g0, 0, n)]
                decl_pass_state(registry@, r1, decl_after_inputs(g0, 0, n), n) by {
                assert(g0.input@.take(0) =~= Seq::<ValueInfoProto>::empty());
                assert(g0.value_info@.take(nv as int) =~= g0.value_info@);
                assert(decl_pass_state(
                    registry@,
                    r1,
                    spec_decl_lookup(g0.value_info@.take(nv as int), n),
                    n,
                ));
            }
        }

        let ni2 = input.len();
        let mut i: usize = 0;
        while i < ni2
            invariant
                msg.graph == Some(g0),
                input@ == g0.input@,
                i <= ni2 == input@.len(),
                registry_wf(registry@),
                preserves_data(r1, registry@),
                names_from(registry@, r1, g0),
                forall|n: Seq<char>|
                    #![trigger decl_after_inputs(g0, i as int, n)]
                    decl_pass_state(registry@, r1, decl_after_inputs(g0, i as int, n), n),
                decls_covered(registry@, g0.value_info@, g0.value_info@.len() as int),
                decls_covered(registry@, g0.input@, i as int),
                forall|k: int| 0 <= k < i ==> spec_decl_ok(#[trigger] g0.input@[k]),
            decreases ni2 - i,
        {
            let ghost rpre = registry@;
            let r = declare_tensor(&mut registry, &input[i], Ghost(r1), Ghost(g0));
            proof {
                assert(g0.input@[i as int] == input@[i as int]);
            }
            match r {
                Ok(_) => {},
                Err(e) => {
                    proof {
                        assert(!model_ok_exec(msg)) by {
                            assert(msg.graph->Some_0 == g0);
                            assert(!spec_decl_ok(g0.input@[i as int]));
                        }
                    }
                    return Err(e);
                },
            }
            proof {
                let vi = g0.input@[i as int];
                let pre_t = g0.input@.take(i as int);
                let post_t = g0.input@.take(i + 1);
                assert(post_t.drop_last() =~= pre_t);
                assert(post_t.last() == vi);
                assert forall|n: Seq<char>|
                    #![trigger decl_after_inputs(g0, i + 1, n)]
                    decl_pass_state(registry@, r1, decl_after_inputs(g0, i + 1, n), n) by {
                    assert(decl_pass_state(rpre, r1, decl_after_inputs(g0, i as int, n), n));
                    if is_named_tensor_decl(vi, n) {
                        assert(n == str_or_empty(vi.name));
                        assert(decl_applied(rpre, registry@, vi));
                    } else {
                        assert(spec_decl_lookup(post_t, n) == spec_decl_lookup(pre_t, n));
                        assert(decl_after_inputs(g0, i + 1, n) == decl_after_inputs(
                            g0,
                            i as int,
                            n,
                        ));
                        if n == str_or_empty(vi.name) {
                            assert(!is_named_tensor_decl(vi, str_or_empty(vi.name)));
                            assert(registry@ == rpre);
                        } else {
                            assert(find_tensor(registry@, n) == find_tensor(rpre, n));
                        }
                    }
                }
            }
            i = i + 1;
        }
        proof {
            assert forall|n: Seq<char>|
                #![trigger decl_after_outputs(g0, 0, n)]
                decl_pass_state(registry@, r1, decl_after_outputs(g0, 0, n), n) by {
                assert(g0.output@.take(0) =~= Seq::<ValueInfoProto>::empty());
                assert(g0.input@.take(ni2 as int) =~= g0.input@);
                assert(decl_pass_state(registry@, r1, decl_after_inputs(g0, ni2 as int, n), n));
                assert(decl_after_inputs(g0, g0.input@.len() as int, n) == decl_after_inputs(
                    g0,
                    ni2 as int,
                    n,
                ));
            }
        }

        let no2 = output.len();
        let mut i: usize = 0;
        while i < no2
            invariant
                msg.graph == Some(g0),
                output@ == g0.output@,
                i <= no2 == output@.len(),
                registry_wf(registry@),
                preserves_data(r1, registry@),
                names_from(registry@, r1, g0),
                forall|n: Seq<char>|
                    #![trigger decl_after_outputs(g0, i as int, n)]
                    decl_pass_state(registry@, r1, decl_after_outputs(g0, i as int, n), n),
                decls_covered(registry@, g0.value_info@, g0.value_info@.len() as int),
                decls_covered(registry@, g0.input@, g0.input@.len() as int),
                decls_covered(registry@, g0.output@, i as int),
                forall|k: int| 0 <= k < i ==> spec_decl_ok(#[trigger] g0.output@[k]),
            decreases no2 - i,
        {
            let ghost rpre = registry@;
            let r = declare_tensor(&mut registry, &output[i], Ghost(r1), Ghost(g0));
            proof {
                assert(g0.output@[i as int] == output@[i as int]);
            }
            match r {
                Ok(_) => {},
                Err(e) => {
                    proof {
                        assert(!model_ok_exec(msg)) by {
                            assert(msg.graph->Some_0 == g0);
                            assert(!spec_decl_ok(g0.output@[i as int]));
                        }
                    }
                    return Err(e);
                },
            }
            proof {
                let vi = g0.output@[i as int];
                let pre_t = g0.output@.take(i as int);
                let post_t = g0.output@.take(i + 1);
                assert(post_t.drop_last() =~= pre_t);
                assert(post_t.last() == vi);
                assert forall|n: Seq<char>|
                    #![trigger decl_after_outputs(g0, i + 1, n)]
                    decl_pass_state(registry@, r1, decl_after_outputs(g0, i + 1, n), n) by {
                    assert(decl_pass_state(rpre, r1, decl_after_outputs(g0, i as int, n), n));
                    if is_named_tensor_decl(vi, n) {
                        assert(n == str_or_empty(vi.name));
                        assert(decl_applied(rpre, registry@, vi));
                    } else {
                        assert(spec_decl_lookup(post_t, n) == spec_decl_lookup(pre_t, n));
                        assert(decl_after_outputs(g0, i + 1, n) == decl_after_outputs(
                            g0,
                            i as int,
                            n,
                        ));
                        if n == str_or_empty(vi.name) {
                            assert(!is_named_tensor_decl(vi, str_or_empty(vi.name)));
                            assert(registry@ == rpre);
                        } else {
                            assert(find_tensor(registry@, n) == find_tensor(rpre, n));
                        }
                    }
                }
            }
            i = i + 1;
        }

        // operations, adapted in declaration order
        let ghost full_nodes = node@;
        let mut nodes = node;
        let mut rev_nodes: Vec<crate::proto::NodeProto> = Vec::new();
        while nodes.len() > 0
            invariant
                nodes@.len() + rev_nodes@.len() == full_nodes.len(),
                nodes@ == full_nodes.take(nodes@.len() as int),
                forall|k: int|
                    0 <= k < rev_nodes@.len() ==> rev_nodes@[k] == full_nodes[full_nodes.len() - 1
                        - k],
            decreases nodes@.len(),
        {
            let ghost pre = nodes@;
            let nd = match nodes.pop() {
                Some(nd) => nd,
                None => {
                    return Err(Error::MissingField("node".to_string()));
                },
            };
            proof {
                assert(nd == pre[pre.len() - 1]);
                assert(pre[pre.len() - 1] == full_nodes.take(pre.len() as int)[pre.len() - 1]);
                assert(nodes@ =~= full_nodes.take(pre.len() - 1));
            }
            rev_nodes.push(nd);
        }
        let mut operations: Vec<OnnxOperation> = Vec::new();
        while rev_nodes.len() > 0
            invariant
                msg.graph == Some(g0),
                full_nodes == g0.node@,
                operations@.len() + rev_nodes@.len() == full_nodes.len(),
                forall|k: int|
                    0 <= k < rev_nodes@.len() ==> rev_nodes@[k] == full_nodes[full_nodes.len() - 1
                        - k],
                forall|k: int|
                    0 <= k < operations@.len() ==> op_matches(
                        #[trigger] operations@[k],
                        full_nodes[k],
                    ),
                forall|k: int|
                    0 <= k < operations@.len() ==> spec_node_ok(#[trigger] full_nodes[k]),
            decreases rev_nodes@.len(),
        {
            let ghost pre_rev = rev_nodes@;
            let ghost j = full_nodes.len() - pre_rev.len();
            let nd = match rev_nodes.pop() {
                Some(nd) => nd,
                None => {
                    return Err(Error::MissingField("node".to_string()));
                },
            };
            proof {
                assert(nd == pre_rev[pre_rev.len() - 1]);
                assert(nd == full_nodes[j]);
            }
            let op = match operation_from_node_proto(nd) {
                Ok(op) => op,
                Err(e) => {
                    proof {
                        assert(!model_ok_exec(msg)) by {
                            assert(msg.graph->Some_0 == g0);
                            assert(!spec_node_ok(g0.node@[j]));
                        }
                        if e is Utf8 || e is Unsupported {
                            let aj = choose|aj: int|
                                0 <= aj < nd.attribute@.len()
                                    && !crate::proto_adapter::spec_attr_ok(
                                    #[trigger] nd.attribute@[aj],
                                ) && crate::proto_adapter::attr_error_matches(
                                    e,
                                    nd.attribute@[aj],
                                );
                            assert(g0.node@[j].attribute@[aj] == nd.attribute@[aj]);
                        }
                    }
                    return Err(e);
                },
            };
            operations.push(op);
        }

        proof {
            assert forall|n: Seq<char>|
                match #[trigger] find_tensor(registry@, n) {
                    Some(e) => e.payload is Absent ==> match spec_graph_decl_lookup(g0, n) {
                        Some(v) => decl_record_matches(e, v),
                        None => spec_init_lookup(g0.initializer@, n) matches Some(tp)
                            && tensor_matches(e, tp),
                    },
                    None => true,
                } by {
                assert(g0.output@.take(no2 as int) =~= g0.output@);
                assert(g0.input@.take(g0.input@.len() as int) =~= g0.input@);
                assert(decl_pass_state(registry@, r1, decl_after_outputs(g0, no2 as int, n), n));
                assert(decl_after_outputs(g0, no2 as int, n) == spec_graph_decl_lookup(g0, n));
                match find_tensor(registry@, n) {
                    Some(e) => {
                        if e.payload is Absent {
                            match find_tensor(r1, n) {
                                Some(e0) => {
                                    if e0.payload is Absent {
                                        match spec_graph_decl_lookup(g0, n) {
                                            Some(_) => {},
                                            None => {
                                                assert(find_tensor(registry@, n) == find_tensor(
                                                    r1,
                                                    n,
                                                ));
                                                assert(spec_init_lookup(full_inits, n)
                                                    matches Some(tp) && tensor_matches(e, tp));
                                            },
                                        }
                                    }
                                },
                                None => {},
                            }
                        }
                    },
                    None => {},
                }
            }
        }
        Ok(
            OnnxModel {
                tensors: registry,
                operations,
                inputs,
                outputs,
                model_version: match model_version {
                    Some(v) => v,
                    None => 0,
                },
                producer_name: match producer_name {
                    Some(s) => s,
                    None => String::new(),
                },
                producer_version: match producer_version {
                    Some(s) => s,
                    None => String::new(),
                },
            },
        )
    }
}

/// Shape-only records never erase data, so a declaration pass keeps every
/// data-bearing record of the base registry, and keeps every name.
pub open spec fn preserves_data(base: Seq<OnnxTensor>, ts: Seq<OnnxTensor>) -> bool {
    forall|n: Seq<char>|
        #![trigger find_tensor(base, n)]
        match find_tensor(base, n) {
            Some(e) => find_tensor(ts, n) is Some && (!(e.payload is Absent) ==> find_tensor(
                ts,
                n,
            ) == Some(e)),
            None => true,
        }
}

/// Every registered name comes from the base registry or from one of the
/// graph's declarations.
pub open spec fn names_from(ts: Seq<OnnxTensor>, base: Seq<OnnxTensor>, g: GraphProto) -> bool {
    forall|n: Seq<char>|
        #![trigger find_tensor(ts, n)]
        find_tensor(ts, n) is Some ==> (find_tensor(base, n) is Some || graph_declares(g, n))
}

/// The first `upto` declarations of a list all have their names
/// registered.
pub open spec fn decls_covered(ts: Seq<OnnxTensor>, list: Seq<ValueInfoProto>, upto: int) -> bool {
    forall|k: int|
        0 <= k < upto && is_named_tensor_decl(#[trigger] list[k], str_or_empty(list[k].name))
            ==> find_tensor(ts, str_or_empty(list[k].name)) is Some
}


/// Process one shape/type declaration: a tensor-typed declaration with a
/// non-empty name becomes a shape-only record, inserted without erasing
/// data; everything else is skipped.
fn declare_tensor(
    registry: &mut Vec<OnnxTensor>,
    v: &ValueInfoProto,
    Ghost(r1): Ghost<Seq<OnnxTensor>>,
    Ghost(g0): Ghost<GraphProto>,
) -> (r: Result<(), Error>)
    requires
        registry_wf(old(registry)@),
        preserves_data(r1, old(registry)@),
        names_from(old(registry)@, r1, g0),
        graph_declares(g0, str_or_empty(v.name)) || !(is_named_tensor_decl(
            *v,
            str_or_empty(v.name),
        )),
    ensures
        registry_wf(final(registry)@),
        preserves_data(r1, final(registry)@),
        names_from(final(registry)@, r1, g0),
        r is Ok <==> spec_decl_ok(*v),
        r is Ok && is_named_tensor_decl(*v, str_or_empty(v.name)) ==> find_tensor(
            final(registry)@,
            str_or_empty(v.name),
        ) is Some,
        forall|n: Seq<char>|
            #![trigger find_tensor(final(registry)@, n)]
            find_tensor(old(registry)@, n) is Some ==> find_tensor(final(registry)@, n) is Some,
        forall|n: Seq<char>|
            #![trigger find_tensor(final(registry)@, n)]
            n != str_or_empty(v.name) ==> find_tensor(final(registry)@, n) == find_tensor(
                old(registry)@,
                n,
            ),
        !is_named_tensor_decl(*v, str_or_empty(v.name)) ==> final(registry)@ == old(registry)@,
        r is Err ==> final(registry)@ == old(registry)@,
        r is Ok && is_named_tensor_decl(*v, str_or_empty(v.name)) ==> decl_applied(
            old(registry)@,
            final(registry)@,
            *v,
        ),
        r is Err ==> r->Err_0 is InvalidModel,
{
    let vt = match &v.value_type {
        Some(vt) => vt,
        None => {
            return Ok(());
        },
    };
    let tt = match &vt.tensor_type {
        Some(tt) => tt,
        None => {
            return Ok(());
        },
    };
    let nm: String = match &v.name {
        Some(s) => s.clone(),
        None => String::new(),
    };
    proof {
        assert(nm@ == str_or_empty(v.name));
    }
    if nm.as_str().is_empty() {
        return Ok(());
    }
    let t = match OnnxTensor::from_tensor_type(nm, tt) {
        Ok(t) => t,
        Err(e) => {
            return Err(e);
        },
    };
    let ghost pre = registry@;
    insert_tensor(registry, t, true);
    proof {
        assert(preserves_data(r1, registry@)) by {
            assert forall|n: Seq<char>|
                #![trigger find_tensor(r1, n)]
                match find_tensor(r1, n) {
                    Some(e) => find_tensor(registry@, n) is Some && (!(e.payload is Absent)
                        ==> find_tensor(registry@, n) == Some(e)),
                    None => true,
                } by {
                if find_tensor(r1, n) is Some {
                    let e = find_tensor(r1, n)->Some_0;
                    if n == t.name@ {
                        assert(find_tensor(pre, n) is Some);
                        if !(e.payload is Absent) {
                            assert(find_tensor(pre, n) == Some(e));
                        }
                    } else {
                        assert(find_tensor(registry@, n) == find_tensor(pre, n));
                    }
                }
            }
        }
        assert(names_from(registry@, r1, g0)) by {
            assert forall|n: Seq<char>|
                #![trigger find_tensor(registry@, n)]
                find_tensor(registry@, n) is Some implies (find_tensor(r1, n) is Some
                || graph_declares(g0, n)) by {
                if n == t.name@ {
                } else {
                    assert(find_tensor(registry@, n) == find_tensor(pre, n));
                }
            }
        }
        assert(decl_record_matches(t, *v));
        assert(decl_applied(pre, registry@, *v));
    }
    Ok(())
}


/// The first operation carrying `n`, if any.
pub open spec fn find_operation(ops: Seq<OnnxOperation>, n: Seq<char>) -> Option<OnnxOperation>
    decreases ops.len(),
{
    if ops.len() == 0 {
        None
    } else if ops.first().name@ == n {
        Some(ops.first())
    } else {
        find_operation(ops.drop_first(), n)
    }
}

/// The operations among the first `k` whose type tag is `t`, in order.
pub open spec fn ops_with_type_upto(ops: Seq<OnnxOperation>, t: Seq<char>, k: int) -> Seq<
    OnnxOperation,
>
    decreases k,
{
    if k <= 0 {
        Seq::empty()
    } else {
        let pre = ops_with_type_upto(ops, t, k - 1);
        if ops[k - 1].op_type@ == t {
            pre.push(ops[k - 1])
        } else {
            pre
        }
    }
}

/// Whether some operation has the type tag `t`.
pub open spec fn has_op_type(ops: Seq<OnnxOperation>, t: Seq<char>) -> bool {
    exists|i: int| 0 <= i < ops.len() && (#[trigger] ops[i]).op_type@ == t
}

/// How many of the first `k` operations have the type tag `t`.
pub open spec fn count_type_upto(ops: Seq<OnnxOperation>, t: Seq<char>, k: int) -> nat
    decreases k,
{
    if k <= 0 {
        0
    } else {
        count_type_upto(ops, t, k - 1) + if ops[k - 1].op_type@ == t {
            1nat
        } else {
            0nat
        }
    }
}

/// The registry records of the first `k` names that resolve, in order.
pub open spec fn resolved_upto(ts: Seq<OnnxTensor>, names: Seq<String>, k: int) -> Seq<OnnxTensor>
    decreases k,
{
    if k <= 0 {
        Seq::empty()
    } else {
        let pre = resolved_upto(ts, names, k - 1);
        match find_tensor(ts, names[k - 1]@) {
            Some(e) => pre.push(e),
            None => pre,
        }
    }
}

/// The data-bearing records among the first `k`, in registry order.
pub open spec fn weights_upto(ts: Seq<OnnxTensor>, k: int) -> Seq<OnnxTensor>
    decreases k,
{
    if k <= 0 {
        Seq::empty()
    } else {
        let pre = weights_upto(ts, k - 1);
        if !(ts[k - 1].payload is Absent) {
            pre.push(ts[k - 1])
        } else {
            pre
        }
    }
}

/// Whether a list of names holds `n`.
pub open spec fn contains_name(ss: Seq<String>, n: Seq<char>) -> bool {
    exists|k: int| 0 <= k < ss.len() && (#[trigger] ss[k])@ == n
}

/// Whether a keyed count list holds the key `t`.
pub open spec fn has_type_key(r: Seq<(String, usize)>, t: Seq<char>) -> bool {
    exists|k: int| 0 <= k < r.len() && (#[trigger] r[k]).0@ == t
}

/// The characters of an optional name view, empty when absent.
pub open spec fn opt_or_empty_chars(o: Option<Seq<char>>) -> Seq<char> {
    match o {
        Some(s) => s,
        None => Seq::empty(),
    }
}

/// The bytes of an optional buffer view, empty when absent.
pub open spec fn opt_or_empty_bytes(o: Option<Seq<u8>>) -> Seq<u8> {
    match o {
        Some(b) => b,
        None => Seq::empty(),
    }
}

/// Whether a decoded tensor is acceptable to a loaderless load: it must
/// not point into an external file.
pub open spec fn tensor_ok_view(tv: TensorView) -> bool {
    tv.external_data.len() == 0
}

/// Whether a decoded attribute parses, stated over its view.
pub open spec fn attr_ok_view(av: AttributeView) -> bool {
    let tag = match av.attr_type {
        Some(t) => t as int,
        None => 0,
    };
    if tag == 1 || tag == 2 || tag == 7 {
        true
    } else if tag == 3 {
        vstd::utf8::valid_utf8(opt_or_empty_bytes(av.s))
    } else if tag == 4 {
        av.t matches Some(tv) && tensor_ok_view(tv)
    } else if tag == 6 {
        true
    } else if tag == 8 {
        forall|i: int| 0 <= i < av.strings.len() ==> vstd::utf8::valid_utf8(#[trigger] av.strings[i])
    } else {
        false
    }
}

/// Whether every attribute of a decoded node parses, over its view.
pub open spec fn node_ok_view(nv: NodeView) -> bool {
    forall|i: int| 0 <= i < nv.attribute.len() ==> attr_ok_view(#[trigger] nv.attribute[i])
}

/// Whether a decoded declaration can become a record, over its view.
pub open spec fn decl_ok_view(vv: ValueInfoView) -> bool {
    ({
        &&& opt_or_empty_chars(vv.name).len() > 0
        &&& vv.value_type matches Some(t)
        &&& vv.value_type->Some_0.tensor_type is Some
    }) ==> ({
        &&& vv.value_type->Some_0.tensor_type->Some_0.elem_type matches Some(et)
        &&& vv.value_type->Some_0.tensor_type->Some_0.elem_type->Some_0 != 0
    })
}

/// When a loaderless load of a decoded model message succeeds: the graph
/// section is present, no initializer points into an external file, and
/// every attribute and every tensor-typed declaration parses.
pub open spec fn model_ok_view(mv: ModelView) -> bool {
    &&& mv.graph matches Some(g)
    &&& {
        let g = mv.graph->Some_0;
        &&& forall|i: int|
            0 <= i < g.initializer.len() ==> tensor_ok_view(#[trigger] g.initializer[i])
        &&& forall|i: int| 0 <= i < g.node.len() ==> node_ok_view(#[trigger] g.node[i])
        &&& forall|i: int| 0 <= i < g.value_info.len() ==> decl_ok_view(#[trigger] g.value_info[i])
        &&& forall|i: int| 0 <= i < g.input.len() ==> decl_ok_view(#[trigger] g.input[i])
        &&& forall|i: int| 0 <= i < g.output.len() ==> decl_ok_view(#[trigger] g.output[i])
    }
}

/// The exec-level acceptance tests agree with their view-level forms.
proof fn lemma_tensor_ok_view(tp: TensorProto)
    ensures
        spec_tensor_ok(tp, false) == tensor_ok_view(tp@),
{
    assert(tp@.external_data.len() == tp.external_data@.len());
}

proof fn lemma_attr_ok_view(a: crate::proto::AttributeProto)
    ensures
        crate::proto_adapter::spec_attr_ok(a) == attr_ok_view(a@),
{
    let tag = match a.attr_type {
        Some(t) => t as int,
        None => 0,
    };
    if tag == 3 {
        assert(crate::proto_adapter::bytes_or_empty(a.s) == opt_or_empty_bytes(a@.s));
    } else if tag == 4 {
        match a.t {
            Some(tp) => {
                lemma_tensor_ok_view(tp);
            },
            None => {},
        }
    } else if tag == 8 {
        assert forall|i: int|
            0 <= i < a.strings@.len() implies (#[trigger] a.strings@[i]@) == a@.strings[i] by {}
        if crate::proto_adapter::spec_attr_ok(a) {
            assert forall|i: int|
                0 <= i < a@.strings.len() implies vstd::utf8::valid_utf8(
                #[trigger] a@.strings[i],
            ) by {
                assert(a@.strings[i] == a.strings@[i]@);
            }
        }
        if attr_ok_view(a@) {
            assert forall|i: int|
                0 <= i < a.strings@.len() implies vstd::utf8::valid_utf8(
                #[trigger] a.strings@[i]@,
            ) by {
                assert(a@.strings[i] == a.strings@[i]@);
            }
        }
    }
}

proof fn lemma_node_ok_view(n: crate::proto::NodeProto)
    ensures
        spec_node_ok(n) == node_ok_view(n@),
{
    if spec_node_ok(n) {
        assert forall|i: int|
            0 <= i < n@.attribute.len() implies attr_ok_view(#[trigger] n@.attribute[i]) by {
            assert(n@.attribute[i] == n.attribute@[i]@);
            lemma_attr_ok_view(n.attribute@[i]);
        }
    }
    if node_ok_view(n@) {
        assert forall|i: int|
            0 <= i < n.attribute@.len() implies crate::proto_adapter::spec_attr_ok(
            #[trigger] n.attribute@[i],
        ) by {
            assert(n@.attribute[i] == n.attribute@[i]@);
            lemma_attr_ok_view(n.attribute@[i]);
        }
    }
}

proof fn lemma_decl_ok_view(v: ValueInfoProto)
    ensures
        spec_decl_ok(v) == decl_ok_view(v@),
{
    assert(str_or_empty(v.name) == opt_or_empty_chars(v@.name));
}

/// A decoded graph meets the exec-level load conditions exactly when its
/// view meets the view-level ones.
proof fn lemma_model_ok_view(msg: ModelProto)
    ensures
        model_ok_view(msg@) == model_ok_exec(msg),
{
    match msg.graph {
        None => {},
        Some(g) => {
            let gv = msg@.graph->Some_0;
            assert(gv == g@);
            assert forall|i: int|
                0 <= i < g.initializer@.len() implies (spec_tensor_ok(
                #[trigger] g.initializer@[i],
                false,
            ) == tensor_ok_view(gv.initializer[i])) by {
                assert(gv.initializer[i] == g.initializer@[i]@);
                lemma_tensor_ok_view(g.initializer@[i]);
            }
            assert forall|i: int|
                0 <= i < g.node@.len() implies (spec_node_ok(#[trigger] g.node@[i])
                == node_ok_view(gv.node[i])) by {
                assert(gv.node[i] == g.node@[i]@);
                lemma_node_ok_view(g.node@[i]);
            }
            assert forall|i: int|
                0 <= i < g.value_info@.len() implies (spec_decl_ok(#[trigger] g.value_info@[i])
                == decl_ok_view(gv.value_info[i])) by {
                assert(gv.value_info[i] == g.value_info@[i]@);
                lemma_decl_ok_view(g.value_info@[i]);
            }
            assert forall|i: int|
                0 <= i < g.input@.len() implies (spec_decl_ok(#[trigger] g.input@[i])
                == decl_ok_view(gv.input[i])) by {
                assert(gv.input[i] == g.input@[i]@);
                lemma_decl_ok_view(g.input@[i]);
            }
            assert forall|i: int|
                0 <= i < g.output@.len() implies (spec_decl_ok(#[trigger] g.output@[i])
                == decl_ok_view(gv.output[i])) by {
                assert(gv.output[i] == g.output@[i]@);
                lemma_decl_ok_view(g.output@[i]);
            }
        },
    }
}

impl OnnxModel {
    /// Load a model from the serialized bytes of a model message.
    ///
    /// Succeeds exactly when the bytes decode to a model message whose
    /// view passes the loaderless load conditions; decoding failures are
    /// decode errors. A model loaded this way has no external-data
    /// loader, so initializers that point into sibling files are
    /// rejected.
    pub fn load_from_bytes(data: &[u8]) -> (r: Result<OnnxModel, Error>)
        ensures
            r is Ok <==> (crate::decode::sp_decode_model(data@) matches Some(mv)
                && model_ok_view(mv)),
            r matches Ok(m) ==> exists|msg: ModelProto|
                {
                    &&& Some(#[trigger] msg@) == crate::decode::sp_decode_model(data@)
                    &&& model_builds_from(m, msg)
                },
            r matches Ok(m) ==> registry_wf(m.tensors@),
            r matches Err(e) ==> (e is Decode || e is InvalidModel || e is MissingField
                || e is Utf8 || e is Unsupported),
            r matches Err(e) ==> ((e is Utf8 || e is Unsupported) ==> exists|msg: ModelProto|
                {
                    &&& Some(#[trigger] msg@) == crate::decode::sp_decode_model(data@)
                    &&& msg.graph matches Some(g)
                    &&& exists|i: int, j: int|
                        0 <= i < g.node@.len() && 0 <= j < (
                        #[trigger] g.node@[i]).attribute@.len()
                            && !crate::proto_adapter::spec_attr_ok(
                            #[trigger] g.node@[i].attribute@[j],
                        ) && crate::proto_adapter::attr_error_matches(
                            e,
                            g.node@[i].attribute@[j],
                        )
                }),
    {
        let msg = match crate::decode::decode_model(data) {
            Ok(msg) => msg,
            Err(e) => {
                return Err(e);
            },
        };
        let ghost msgg = msg;
        proof {
            lemma_model_ok_view(msgg);
        }
        let r = OnnxModel::from_model_proto(msg);
        proof {
            match &r {
                Ok(m) => {
                    assert(Some(msgg@) == crate::decode::sp_decode_model(data@)
                        && model_builds_from(*m, msgg));
                },
                Err(_) => {},
            }
        }
        r
    }

    /// Get tensor information by name.
    pub fn get_tensor(&self, name: &str) -> (r: Option<&OnnxTensor>)
        ensures
            match r {
                Some(t) => find_tensor(self.tensors@, name@) == Some(*t),
                None => find_tensor(self.tensors@, name@) is None,
            },
    {
        let n = self.tensors.len();
        let mut i: usize = 0;
        proof {
            assert(self.tensors@.skip(0) =~= self.tensors@);
        }
        while i < n
            invariant
                i <= n == self.tensors@.len(),
                find_tensor(self.tensors@, name@) == find_tensor(
                    self.tensors@.skip(i as int),
                    name@,
                ),
            decreases n - i,
        {
            proof {
                let rest = self.tensors@.skip(i as int);
                assert(rest.first() == self.tensors@[i as int]);
                assert(rest.drop_first() =~= self.tensors@.skip(i + 1));
            }
            if str_eq(self.tensors[i].name.as_str(), name) {
                return Some(&self.tensors[i]);
            }
            i = i + 1;
        }
        proof {
            assert(self.tensors@.skip(n as int) =~= Seq::<OnnxTensor>::empty());
        }
        None
    }

    /// Get an operation by name; the first declared match wins.
    pub fn get_operation(&self, name: &str) -> (r: Option<&OnnxOperation>)
        ensures
            match r {
                Some(op) => find_operation(self.operations@, name@) == Some(*op),
                None => find_operation(self.operations@, name@) is None,
            },
    {
        let n = self.operations.len();
        let mut i: usize = 0;
        proof {
            assert(self.operations@.skip(0) =~= self.operations@);
        }
        while i < n
            invariant
                i <= n == self.operations@.len(),
                find_operation(self.operations@, name@) == find_operation(
                    self.operations@.skip(i as int),
                    name@,
                ),
            decreases n - i,
        {
            proof {
                let rest = self.operations@.skip(i as int);
                assert(rest.first() == self.operations@[i as int]);
                assert(rest.drop_first() =~= self.operations@.skip(i + 1));
            }
            if str_eq(self.operations[i].name.as_str(), name) {
                return Some(&self.operations[i]);
            }
            i = i + 1;
        }
        proof {
            assert(self.operations@.skip(n as int) =~= Seq::<OnnxOperation>::empty());
        }
        None
    }

    /// All operations of a specific type, in declaration order.
    pub fn get_operations_by_type(&self, op_type: &str) -> (r: Vec<&OnnxOperation>)
        ensures
            r@.map_values(|p: &OnnxOperation| *p) == ops_with_type_upto(
                self.operations@,
                op_type@,
                self.operations@.len() as int,
            ),
    {
        let n = self.operations.len();
        let mut out: Vec<&OnnxOperation> = Vec::new();
        let mut i: usize = 0;
        while i < n
            invariant
                i <= n == self.operations@.len(),
                out@.map_values(|p: &OnnxOperation| *p) == ops_with_type_upto(
                    self.operations@,
                    op_type@,
                    i as int,
                ),
            decreases n - i,
        {
            let ghost pre = out@.map_values(|p: &OnnxOperation| *p);
            if str_eq(self.operations[i].op_type.as_str(), op_type) {
                out.push(&self.operations[i]);
                proof {
                    assert(out@.map_values(|p: &OnnxOperation| *p) =~= pre.push(
                        self.operations@[i as int],
                    ));
                }
            }
            i = i + 1;
        }
        out
    }

    /// All tensor names, in registry order.
    pub fn tensor_names(&self) -> (r: Vec<String>)
        ensures
            r@.len() == self.tensors@.len(),
            forall|k: int| 0 <= k < r@.len() ==> r@[k]@ == (#[trigger] self.tensors@[k]).name@,
    {
        let n = self.tensors.len();
        let mut out: Vec<String> = Vec::new();
        let mut i: usize = 0;
        while i < n
            invariant
                i <= n == self.tensors@.len(),
                out@.len() == i,
                forall|k: int| 0 <= k < i ==> out@[k]@ == (#[trigger] self.tensors@[k]).name@,
            decreases n - i,
        {
            out.push(self.tensors[i].name.clone());
            i = i + 1;
        }
        out
    }

    /// The distinct operation types, sorted ascending in std's string
    /// order (byte-wise over the UTF-8 encodings).
    pub fn operation_types(&self) -> (r: Vec<String>)
        ensures
            forall|k1: int, k2: int| 0 <= k1 < k2 < r@.len() ==> r@[k1]@ != r@[k2]@,
            forall|k1: int, k2: int|
                0 <= k1 < k2 < r@.len() ==> crate::text::str_le(r@[k1]@, r@[k2]@),
            forall|k: int| 0 <= k < r@.len() ==> has_op_type(self.operations@, r@[k]@),
            forall|i: int|
                0 <= i < self.operations@.len() ==> contains_name(
                    r@,
                    (#[trigger] self.operations@[i]).op_type@,
                ),
    {
        let n = self.operations.len();
        let mut out: Vec<String> = Vec::new();
        let mut i: usize = 0;
        while i < n
            invariant
                i <= n == self.operations@.len(),
                forall|k1: int, k2: int| 0 <= k1 < k2 < out@.len() ==> out@[k1]@ != out@[k2]@,
                forall|k1: int, k2: int|
                    0 <= k1 < k2 < out@.len() ==> crate::text::str_le(out@[k1]@, out@[k2]@),
                forall|k: int| 0 <= k < out@.len() ==> has_op_type(self.operations@, out@[k]@),
                forall|i2: int|
                    0 <= i2 < i ==> contains_name(
                        out@,
                        (#[trigger] self.operations@[i2]).op_type@,
                    ),
            decreases n - i,
        {
            let t = &self.operations[i].op_type;
            let m = out.len();
            let mut k: usize = 0;
            let mut seen = false;
            while k < m
                invariant
                    k <= m == out@.len(),
                    i < self.operations@.len(),
                    t == &self.operations@[i as int].op_type,
                    seen == (exists|k2: int| 0 <= k2 < k && (#[trigger] out@[k2])@ == t@),
                decreases m - k,
            {
                if str_eq(out[k].as_str(), t.as_str()) {
                    seen = true;
                }
                k = k + 1;
            }
            if !seen {
                // find the sorted insertion point: past every entry that
                // compares at or below the new tag
                let m2 = out.len();
                let mut j: usize = 0;
                let mut stop = false;
                while j < m2 && !stop
                    invariant
                        j <= m2 == out@.len(),
                        i < self.operations@.len(),
                        t == &self.operations@[i as int].op_type,
                        forall|k2: int|
                            0 <= k2 < j ==> crate::text::str_le((#[trigger] out@[k2])@, t@),
                        stop ==> j < m2 && !crate::text::str_le(out@[j as int]@, t@),
                    decreases m2 - j + (if stop {
                        0int
                    } else {
                        1int
                    }),
                {
                    if crate::text::string_le(out[j].as_str(), t.as_str()) {
                        j = j + 1;
                    } else {
                        stop = true;
                    }
                }
                let ghost pre = out@;
                let ghost tv = t@;
                out.insert(j, t.clone());
                proof {
                    assert(out@[j as int]@ == tv);
                    assert forall|k2: int|
                        0 <= k2 < out@.len() && k2 != j implies out@[k2] == (if k2 < j {
                        pre[k2]
                    } else {
                        pre[k2 - 1]
                    }) by {}
                    // distinctness: the new tag equals no existing entry
                    assert forall|k1: int, k2: int|
                        0 <= k1 < k2 < out@.len() implies out@[k1]@ != out@[k2]@ by {
                        if k1 == j {
                            assert(out@[k2]@ == pre[k2 - 1]@);
                        } else if k2 == j {
                            assert(out@[k1]@ == pre[k1]@);
                        }
                    }
                    // sortedness around the insertion point
                    assert forall|k1: int, k2: int|
                        0 <= k1 < k2 < out@.len() implies crate::text::str_le(
                        out@[k1]@,
                        out@[k2]@,
                    ) by {
                        if k1 < j && k2 == j {
                        } else if k1 == j && k2 > j {
                            assert(out@[k2]@ == pre[k2 - 1]@);
                            if stop {
                                crate::text::lemma_lex_le_total(
                                    vstd::utf8::encode_utf8(pre[j as int]@),
                                    vstd::utf8::encode_utf8(tv),
                                );
                                if k2 - 1 > j {
                                    assert(crate::text::str_le(pre[j as int]@, pre[k2 - 1]@));
                                    crate::text::lemma_lex_le_trans(
                                        vstd::utf8::encode_utf8(tv),
                                        vstd::utf8::encode_utf8(pre[j as int]@),
                                        vstd::utf8::encode_utf8(pre[k2 - 1]@),
                                    );
                                }
                            }
                        } else if k1 < j && k2 > j {
                            assert(out@[k1]@ == pre[k1]@ && out@[k2]@ == pre[k2 - 1]@);
                        }
                    }
                    // every earlier tag still has a witness
                    assert forall|i2: int|
                        0 <= i2 < i + 1 implies contains_name(
                        out@,
                        (#[trigger] self.operations@[i2]).op_type@,
                    ) by {
                        if i2 == i {
                            assert(out@[j as int]@ == self.operations@[i2].op_type@);
                        } else {
                            let w = choose|w: int|
                                0 <= w < pre.len() && (#[trigger] pre[w])@
                                    == self.operations@[i2].op_type@;
                            if w < j {
                                assert(out@[w]@ == pre[w]@);
                            } else {
                                assert(out@[w + 1]@ == pre[w]@);
                            }
                        }
                    }
                }
            }
            i = i + 1;
        }
        out
    }

    /// How many operations carry each type tag; keys are distinct and
    /// every operation's tag appears.
    pub fn count_operations_by_type(&self) -> (r: Vec<(String, usize)>)
        ensures
            forall|k1: int, k2: int| 0 <= k1 < k2 < r@.len() ==> r@[k1].0@ != r@[k2].0@,
            forall|k: int|
                0 <= k < r@.len() ==> (#[trigger] r@[k]).1 == count_type_upto(
                    self.operations@,
                    r@[k].0@,
                    self.operations@.len() as int,
                ) && r@[k].1 > 0,
            forall|i: int|
                0 <= i < self.operations@.len() ==> has_type_key(
                    r@,
                    (#[trigger] self.operations@[i]).op_type@,
                ),
    {
        let n = self.operations.len();
        let mut out: Vec<(String, usize)> = Vec::new();
        let mut i: usize = 0;
        while i < n
            invariant
                i <= n == self.operations@.len(),
                forall|k1: int, k2: int| 0 <= k1 < k2 < out@.len() ==> out@[k1].0@ != out@[k2].0@,
                forall|k: int|
                    0 <= k < out@.len() ==> (#[trigger] out@[k]).1 == count_type_upto(
                        self.operations@,
                        out@[k].0@,
                        i as int,
                    ) && count_type_upto(self.operations@, out@[k].0@, i as int) > 0,
                forall|i2: int|
                    0 <= i2 < i ==> has_type_key(
                        out@,
                        (#[trigger] self.operations@[i2]).op_type@,
                    ),
            decreases n - i,
        {
            let t = &self.operations[i].op_type;
            let m = out.len();
            let mut k: usize = 0;
            let mut found: Option<usize> = None;
            while k < m
                invariant
                    k <= m == out@.len(),
                    i < self.operations@.len(),
                    t == &self.operations@[i as int].op_type,
                    match found {
                        Some(f) => f < k && out@[f as int].0@ == t@,
                        None => forall|k2: int| 0 <= k2 < k ==> (#[trigger] out@[k2]).0@ != t@,
                    },
                decreases m - k,
            {
                if str_eq(out[k].0.as_str(), t.as_str()) {
                    found = Some(k);
                }
                k = k + 1;
            }
            let ghost pre = out@;
            match found {
                Some(f) => {
                    let name2 = out[f].0.clone();
                    let c = out[f].1;
                    proof {
                        assert(count_type_upto(self.operations@, pre[f as int].0@, i as int)
                            <= i) by {
                            lemma_count_type_bound(self.operations@, pre[f as int].0@, i as int);
                        }
                    }
                    out.set(f, (name2, c + 1));
                    proof {
                        assert forall|k2: int|
                            0 <= k2 < out@.len() && k2 != f implies out@[k2] == pre[k2] by {}
                        assert(out@[f as int].0@ == pre[f as int].0@);
                        assert forall|k2: int|
                            0 <= k2 < out@.len() implies (#[trigger] out@[k2]).1
                            == count_type_upto(self.operations@, out@[k2].0@, i + 1)
                            && count_type_upto(self.operations@, out@[k2].0@, i + 1) > 0 by {
                            if k2 == f {
                                assert(out@[k2].0@ == self.operations@[i as int].op_type@);
                            } else {
                                assert(out@[k2].0@ != pre[f as int].0@);
                                assert(out@[k2].0@ != self.operations@[i as int].op_type@);
                            }
                        }
                        assert forall|i2: int|
                            0 <= i2 < i + 1 implies has_type_key(
                            out@,
                            (#[trigger] self.operations@[i2]).op_type@,
                        ) by {
                            if i2 == i {
                                assert(out@[f as int].0@ == self.operations@[i2].op_type@);
                            } else {
                                assert(has_type_key(pre, self.operations@[i2].op_type@));
                                let k = choose|k: int|
                                    0 <= k < pre.len() && (#[trigger] pre[k]).0@
                                        == self.operations@[i2].op_type@;
                                assert(out@[k].0@ == pre[k].0@);
                            }
                        }
                    }
                },
                None => {
                    out.push((t.clone(), 1));
                    proof {
                        assert forall|k2: int|
                            0 <= k2 < pre.len() implies out@[k2] == pre[k2] by {}
                        let tv = self.operations@[i as int].op_type@;
                        assert(out@[out@.len() - 1].0@ == tv);
                        assert(count_type_upto(self.operations@, tv, i as int) == 0) by {
                            lemma_count_type_zero(self.operations@, tv, i as int);
                            assert forall|i2: int|
                                0 <= i2 < i implies (#[trigger] self.operations@[i2]).op_type@
                                != tv by {
                                if self.operations@[i2].op_type@ == tv {
                                    assert(has_type_key(pre, tv));
                                    let k = choose|k: int|
                                        0 <= k < pre.len() && (#[trigger] pre[k]).0@ == tv;
                                }
                            }
                        }
                        assert forall|k2: int|
                            0 <= k2 < out@.len() implies (#[trigger] out@[k2]).1
                            == count_type_upto(self.operations@, out@[k2].0@, i + 1)
                            && count_type_upto(self.operations@, out@[k2].0@, i + 1) > 0 by {
                            if k2 == out@.len() - 1 {
                            } else {
                                assert(out@[k2] == pre[k2]);
                                assert(out@[k2].0@ != tv);
                            }
                        }
                        assert forall|i2: int|
                            0 <= i2 < i + 1 implies has_type_key(
                            out@,
                            (#[trigger] self.operations@[i2]).op_type@,
                        ) by {
                            if i2 == i {
                                assert(out@[out@.len() - 1].0@ == self.operations@[i2].op_type@);
                            } else {
                                assert(has_type_key(pre, self.operations@[i2].op_type@));
                                let k = choose|k: int|
                                    0 <= k < pre.len() && (#[trigger] pre[k]).0@
                                        == self.operations@[i2].op_type@;
                                assert(out@[k].0@ == pre[k].0@);
                            }
                        }
                    }
                },
            }
            i = i + 1;
        }
        out
    }

    /// The declared graph inputs that resolve to tensor records, in
    /// declaration order.
    pub fn get_input_tensors(&self) -> (r: Vec<&OnnxTensor>)
        ensures
            r@.map_values(|p: &OnnxTensor| *p) == resolved_upto(
                self.tensors@,
                self.inputs@,
                self.inputs@.len() as int,
            ),
    {
        self.resolve_names(&self.inputs)
    }

    /// The declared graph outputs that resolve to tensor records, in
    /// declaration order.
    pub fn get_output_tensors(&self) -> (r: Vec<&OnnxTensor>)
        ensures
            r@.map_values(|p: &OnnxTensor| *p) == resolved_upto(
                self.tensors@,
                self.outputs@,
                self.outputs@.len() as int,
            ),
    {
        self.resolve_names(&self.outputs)
    }

    /// Resolve a list of names against the registry, keeping the hits.
    fn resolve_names<'a>(&'a self, names: &Vec<String>) -> (r: Vec<&'a OnnxTensor>)
        ensures
            r@.map_values(|p: &OnnxTensor| *p) == resolved_upto(
                self.tensors@,
                names@,
                names@.len() as int,
            ),
    {
        let n = names.len();
        let mut out: Vec<&OnnxTensor> = Vec::new();
        let mut i: usize = 0;
        while i < n
            invariant
                i <= n == names@.len(),
                out@.map_values(|p: &OnnxTensor| *p) == resolved_upto(
                    self.tensors@,
                    names@,
                    i as int,
                ),
            decreases n - i,
        {
            let ghost pre = out@.map_values(|p: &OnnxTensor| *p);
            match self.get_tensor(names[i].as_str()) {
                Some(t) => {
                    out.push(t);
                    proof {
                        assert(out@.map_values(|p: &OnnxTensor| *p) =~= pre.push(
                            find_tensor(self.tensors@, names@[i as int]@)->Some_0,
                        ));
                    }
                },
                None => {},
            }
            i = i + 1;
        }
        out
    }

    /// The tensors that carry data (weights and constants), in registry
    /// order.
    pub fn get_weight_tensors(&self) -> (r: Vec<&OnnxTensor>)
        ensures
            r@.map_values(|p: &OnnxTensor| *p) == weights_upto(
                self.tensors@,
                self.tensors@.len() as int,
            ),
    {
        let n = self.tensors.len();
        let mut out: Vec<&OnnxTensor> = Vec::new();
        let mut i: usize = 0;
        while i < n
            invariant
                i <= n == self.tensors@.len(),
                out@.map_values(|p: &OnnxTensor| *p) == weights_upto(self.tensors@, i as int),
            decreases n - i,
        {
            let ghost pre = out@.map_values(|p: &OnnxTensor| *p);
            if self.tensors[i].has_data() {
                out.push(&self.tensors[i]);
                proof {
                    assert(out@.map_values(|p: &OnnxTensor| *p) =~= pre.push(
                        self.tensors@[i as int],
                    ));
                }
            }
            i = i + 1;
        }
        out
    }

    /// The operations in a plain topological order, as indices into
    /// `operations`: Kahn's algorithm over producer-backed dependencies,
    /// ties broken by ascending declaration index.
    ///
    /// Under unique output names, success is equivalent to the graph
    /// having a valid schedule at all, and the result is one: every
    /// operation exactly once, producers ahead of their consumers. A
    /// graph with cycles or unresolved dependencies is an invalid model.
    pub fn topological_order(&self) -> (r: Result<Vec<usize>, Error>)
        ensures
            r matches Ok(o) ==> {
                &&& o@.len() == self.operations@.len()
                &&& forall|a: int| 0 <= a < o@.len() ==> o@[a] < self.operations@.len()
                &&& o@.no_duplicates()
            },
            schedule::unique_outputs(self.operations@) ==> match r {
                Ok(o) => schedule::valid_schedule(self.operations@, o@) && schedule::schedulable(
                    self.operations@,
                ),
                Err(_) => !schedule::schedulable(self.operations@),
            },
            r matches Err(e) ==> e is InvalidModel,
            r matches Ok(o) ==> forall|a: int, b: int|
                #![trigger o@[a], o@[b]]
                0 <= a < o@.len() && 0 <= b < o@.len() && schedule::ready_at_start(
                    self.operations@,
                    o@[a] as int,
                ) && schedule::ready_at_start(self.operations@, o@[b] as int) && o@[a] < o@[b]
                    ==> a < b,
    {
        schedule::kahn_core(&self.operations, &self.inputs, false)
    }

    /// The operations in execution-optimized topological order: the same
    /// validity guarantees as `topological_order`, with operations that
    /// consume declared model inputs prioritized over weight-only
    /// operations.
    pub fn execution_order(&self) -> (r: Result<Vec<usize>, Error>)
        ensures
            r matches Ok(o) ==> {
                &&& o@.len() == self.operations@.len()
                &&& forall|a: int| 0 <= a < o@.len() ==> o@[a] < self.operations@.len()
                &&& o@.no_duplicates()
            },
            schedule::unique_outputs(self.operations@) ==> match r {
                Ok(o) => schedule::valid_schedule(self.operations@, o@) && schedule::schedulable(
                    self.operations@,
                ),
                Err(_) => !schedule::schedulable(self.operations@),
            },
            r matches Err(e) ==> e is InvalidModel,
            r matches Ok(o) ==> forall|a: int, b: int|
                0 <= a < o@.len() && 0 <= b < o@.len() && schedule::seed_input(
                    self.operations@,
                    self.inputs@,
                    o@[a] as int,
                ) && schedule::seed_param(self.operations@, self.inputs@, o@[b] as int) ==> a < b,
            schedule::unique_outputs(self.operations@) ==> (r matches Ok(o) ==> forall|
                a: int,
                b: int,
            |
                #![trigger o@[a], o@[b]]
                0 <= a < o@.len() && 0 <= b < o@.len() && schedule::spec_consumes_input(
                    self.operations@[o@[a] as int],
                    self.inputs@,
                ) && !schedule::spec_consumes_input(self.operations@[o@[b] as int], self.inputs@)
                    && schedule::released_together(
                    self.operations@,
                    o@,
                    o@[a] as int,
                    o@[b] as int,
                    o@.len() as int,
                ) ==> a < b),
    {
        schedule::kahn_core(&self.operations, &self.inputs, true)
    }
}

/// A type counted zero times has no occurrence in the prefix.
proof fn lemma_count_type_zero(ops: Seq<OnnxOperation>, t: Seq<char>, k: int)
    ensures
        (count_type_upto(ops, t, k) == 0) <==> (forall|i: int|
            0 <= i < k ==> (#[trigger] ops[i]).op_type@ != t),
    decreases k,
{
    if k > 0 {
        lemma_count_type_zero(ops, t, k - 1);
    }
}

/// A count over a prefix is at most the prefix length.
proof fn lemma_count_type_bound(ops: Seq<OnnxOperation>, t: Seq<char>, k: int)
    ensures
        count_type_upto(ops, t, k) <= (if k <= 0 {
            0int
        } else {
            k
        }),
    decreases k,
{
    if k > 0 {
        lemma_count_type_bound(ops, t, k - 1);
    }
}

} // verus!
