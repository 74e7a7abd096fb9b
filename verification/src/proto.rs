//! The decoded message tree of an ONNX model file.
//!
//! These structs mirror the sections of the ONNX schema that the model
//! builder consumes: graph, node, tensor, attribute and type declarations.
//! Floating-point payloads are carried as their IEEE-754 bit patterns
//! (`u32` / `u64`), exactly as they stand in the encoded message.

use vstd::prelude::*;

verus! {

/// Top-level model message.
pub struct ModelProto {
    pub producer_name: Option<String>,
    pub producer_version: Option<String>,
    pub model_version: Option<i64>,
    pub graph: Option<GraphProto>,
}

/// The graph section: operations plus three kinds of tensor declarations.
pub struct GraphProto {
    pub node: Vec<NodeProto>,
    pub initializer: Vec<TensorProto>,
    pub input: Vec<ValueInfoProto>,
    pub output: Vec<ValueInfoProto>,
    pub value_info: Vec<ValueInfoProto>,
}

/// One operation instance.
pub struct NodeProto {
    pub input: Vec<String>,
    pub output: Vec<String>,
    pub name: Option<String>,
    pub op_type: Option<String>,
    pub attribute: Vec<AttributeProto>,
}

/// A named, typed parameter of an operation.
///
/// `attr_type` is the numeric attribute-type tag; which payload field is
/// meaningful depends on it. Float payloads are bit patterns.
pub struct AttributeProto {
    pub name: Option<String>,
    pub f: Option<u32>,
    pub i: Option<i64>,
    pub s: Option<Vec<u8>>,
    pub t: Option<TensorProto>,
    pub floats: Vec<u32>,
    pub ints: Vec<i64>,
    pub strings: Vec<Vec<u8>>,
    pub attr_type: Option<i32>,
}

/// A tensor with literal data (an initializer), or nested in an attribute.
pub struct TensorProto {
    pub dims: Vec<i64>,
    pub data_type: Option<i32>,
    pub float_data: Vec<u32>,
    pub int32_data: Vec<i32>,
    pub string_data: Vec<Vec<u8>>,
    pub int64_data: Vec<i64>,
    pub name: Option<String>,
    pub raw_data: Option<Vec<u8>>,
    pub double_data: Vec<u64>,
    pub uint64_data: Vec<u64>,
    pub external_data: Vec<StringEntryProto>,
}

/// One key/value pair of a tensor's external-data metadata.
pub struct StringEntryProto {
    pub key: Option<String>,
    pub value: Option<String>,
}

/// A shape/type declaration for a graph input, output or intermediate value.
pub struct ValueInfoProto {
    pub name: Option<String>,
    pub value_type: Option<TypeProto>,
}

/// The type of a declared value; only tensor types are understood, other
/// kinds of the schema's type choice leave `tensor_type` empty.
pub struct TypeProto {
    pub tensor_type: Option<TensorTypeProto>,
}

/// Element type and shape of a declared tensor.
pub struct TensorTypeProto {
    pub elem_type: Option<i32>,
    pub shape: Option<TensorShapeProto>,
}

/// An ordered list of dimensions.
pub struct TensorShapeProto {
    pub dim: Vec<DimensionProto>,
}

/// One dimension: a literal size, a symbolic name, or nothing.
pub struct DimensionProto {
    pub value: Option<DimensionValue>,
}

/// The two ways a dimension can be given.
pub enum DimensionValue {
    Literal(i64),
    Symbolic(String),
}

impl TensorProto {
    /// A tensor message with every field absent or empty.
    pub fn empty() -> (r: TensorProto)
        ensures
            r.dims@.len() == 0,
            r.data_type is None,
            r.float_data@.len() == 0,
            r.int32_data@.len() == 0,
            r.string_data@.len() == 0,
            r.int64_data@.len() == 0,
            r.name is None,
            r.raw_data is None,
            r.double_data@.len() == 0,
            r.uint64_data@.len() == 0,
            r.external_data@.len() == 0,
    {
        TensorProto {
            dims: Vec::new(),
            data_type: None,
            float_data: Vec::new(),
            int32_data: Vec::new(),
            string_data: Vec::new(),
            int64_data: Vec::new(),
            name: None,
            raw_data: None,
            double_data: Vec::new(),
            uint64_data: Vec::new(),
            external_data: Vec::new(),
        }
    }
}


/// Mathematical views of the message tree, used by the decoder's
/// functional specification: strings as character sequences, buffers as
/// byte sequences, lists as sequences of views.
#[verifier::ext_equal]
pub ghost struct ModelView {
    pub producer_name: Option<Seq<char>>,
    pub producer_version: Option<Seq<char>>,
    pub model_version: Option<i64>,
    pub graph: Option<GraphView>,
}

#[verifier::ext_equal]
pub ghost struct GraphView {
    pub node: Seq<NodeView>,
    pub initializer: Seq<TensorView>,
    pub input: Seq<ValueInfoView>,
    pub output: Seq<ValueInfoView>,
    pub value_info: Seq<ValueInfoView>,
}

#[verifier::ext_equal]
pub ghost struct NodeView {
    pub input: Seq<Seq<char>>,
    pub output: Seq<Seq<char>>,
    pub name: Option<Seq<char>>,
    pub op_type: Option<Seq<char>>,
    pub attribute: Seq<AttributeView>,
}

#[verifier::ext_equal]
pub ghost struct AttributeView {
    pub name: Option<Seq<char>>,
    pub f: Option<u32>,
    pub i: Option<i64>,
    pub s: Option<Seq<u8>>,
    pub t: Option<TensorView>,
    pub floats: Seq<u32>,
    pub ints: Seq<i64>,
    pub strings: Seq<Seq<u8>>,
    pub attr_type: Option<i32>,
}

#[verifier::ext_equal]
pub ghost struct TensorView {
    pub dims: Seq<i64>,
    pub data_type: Option<i32>,
    pub float_data: Seq<u32>,
    pub int32_data: Seq<i32>,
    pub string_data: Seq<Seq<u8>>,
    pub int64_data: Seq<i64>,
    pub name: Option<Seq<char>>,
    pub raw_data: Option<Seq<u8>>,
    pub double_data: Seq<u64>,
    pub uint64_data: Seq<u64>,
    pub external_data: Seq<EntryView>,
}

#[verifier::ext_equal]
pub ghost struct EntryView {
    pub key: Option<Seq<char>>,
    pub value: Option<Seq<char>>,
}

#[verifier::ext_equal]
pub ghost struct ValueInfoView {
    pub name: Option<Seq<char>>,
    pub value_type: Option<TypeView>,
}

#[verifier::ext_equal]
pub ghost struct TypeView {
    pub tensor_type: Option<TensorTypeView>,
}

#[verifier::ext_equal]
pub ghost struct TensorTypeView {
    pub elem_type: Option<i32>,
    pub shape: Option<ShapeView>,
}

#[verifier::ext_equal]
pub ghost struct ShapeView {
    pub dim: Seq<DimensionView>,
}

#[verifier::ext_equal]
pub ghost struct DimensionView {
    pub value: Option<DimensionValueView>,
}

#[verifier::ext_equal]
pub ghost enum DimensionValueView {
    Literal(i64),
    Symbolic(Seq<char>),
}

/// The view of an optional string.
pub open spec fn opt_str_view(o: Option<String>) -> Option<Seq<char>> {
    match o {
        Some(s) => Some(s@),
        None => None,
    }
}

/// The view of an optional byte buffer.
pub open spec fn opt_bytes_view(o: Option<Vec<u8>>) -> Option<Seq<u8>> {
    match o {
        Some(b) => Some(b@),
        None => None,
    }
}

impl View for StringEntryProto {
    type V = EntryView;

    open spec fn view(&self) -> EntryView {
        EntryView { key: opt_str_view(self.key), value: opt_str_view(self.value) }
    }
}

impl View for DimensionValue {
    type V = DimensionValueView;

    open spec fn view(&self) -> DimensionValueView {
        match self {
            DimensionValue::Literal(v) => DimensionValueView::Literal(*v),
            DimensionValue::Symbolic(s) => DimensionValueView::Symbolic(s@),
        }
    }
}

impl View for DimensionProto {
    type V = DimensionView;

    open spec fn view(&self) -> DimensionView {
        DimensionView {
            value: match self.value {
                Some(v) => Some(v@),
                None => None,
            },
        }
    }
}

impl View for TensorShapeProto {
    type V = ShapeView;

    open spec fn view(&self) -> ShapeView {
        ShapeView { dim: self.dim@.map_values(|d: DimensionProto| d@) }
    }
}

impl View for TensorTypeProto {
    type V = TensorTypeView;

    open spec fn view(&self) -> TensorTypeView {
        TensorTypeView {
            elem_type: self.elem_type,
            shape: match self.shape {
                Some(sh) => Some(sh@),
                None => None,
            },
        }
    }
}

impl View for TypeProto {
    type V = TypeView;

    open spec fn view(&self) -> TypeView {
        TypeView {
            tensor_type: match self.tensor_type {
                Some(tt) => Some(tt@),
                None => None,
            },
        }
    }
}

impl View for ValueInfoProto {
    type V = ValueInfoView;

    open spec fn view(&self) -> ValueInfoView {
        ValueInfoView {
            name: opt_str_view(self.name),
            value_type: match self.value_type {
                Some(t) => Some(t@),
                None => None,
            },
        }
    }
}

impl View for TensorProto {
    type V = TensorView;

    open spec fn view(&self) -> TensorView {
        TensorView {
            dims: self.dims@,
            data_type: self.data_type,
            float_data: self.float_data@,
            int32_data: self.int32_data@,
            string_data: self.string_data.deep_view(),
            int64_data: self.int64_data@,
            name: opt_str_view(self.name),
            raw_data: opt_bytes_view(self.raw_data),
            double_data: self.double_data@,
            uint64_data: self.uint64_data@,
            external_data: self.external_data@.map_values(|e: StringEntryProto| e@),
        }
    }
}

impl View for AttributeProto {
    type V = AttributeView;

    open spec fn view(&self) -> AttributeView {
        AttributeView {
            name: opt_str_view(self.name),
            f: self.f,
            i: self.i,
            s: opt_bytes_view(self.s),
            t: match self.t {
                Some(tp) => Some(tp@),
                None => None,
            },
            floats: self.floats@,
            ints: self.ints@,
            strings: self.strings.deep_view(),
            attr_type: self.attr_type,
        }
    }
}

impl View for NodeProto {
    type V = NodeView;

    open spec fn view(&self) -> NodeView {
        NodeView {
            input: self.input.deep_view(),
            output: self.output.deep_view(),
            name: opt_str_view(self.name),
            op_type: opt_str_view(self.op_type),
            attribute: self.attribute@.map_values(|a: AttributeProto| a@),
        }
    }
}

impl View for GraphProto {
    type V = GraphView;

    open spec fn view(&self) -> GraphView {
        GraphView {
            node: self.node@.map_values(|n: NodeProto| n@),
            initializer: self.initializer@.map_values(|t: TensorProto| t@),
            input: self.input@.map_values(|v: ValueInfoProto| v@),
            output: self.output@.map_values(|v: ValueInfoProto| v@),
            value_info: self.value_info@.map_values(|v: ValueInfoProto| v@),
        }
    }
}

impl View for ModelProto {
    type V = ModelView;

    open spec fn view(&self) -> ModelView {
        ModelView {
            producer_name: opt_str_view(self.producer_name),
            producer_version: opt_str_view(self.producer_version),
            model_version: self.model_version,
            graph: match self.graph {
                Some(g) => Some(g@),
                None => None,
            },
        }
    }
}

} // verus!
