use onnx_extractor::error::Error;
use onnx_extractor::model::OnnxModel;
use onnx_extractor::tensor::TensorPayload;
use onnx_extractor::types::DataType;

fn field_key(field: u8, wire: u8) -> u8 {
    (field << 3) | wire
}

fn len_delim(field: u8, payload: &[u8]) -> Vec<u8> {
    assert!(payload.len() < 128);
    let mut v = vec![field_key(field, 2), payload.len() as u8];
    v.extend_from_slice(payload);
    v
}

fn small_varint(field: u8, value: u8) -> Vec<u8> {
    assert!(value < 128);
    vec![field_key(field, 0), value]
}

/// One initializer `W` (float32, shape [2,2], 16 zero raw bytes) and one
/// node `N` (`Identity`, input `W`, output `Y`).
fn tiny_model_bytes() -> Vec<u8> {
    let mut tensor: Vec<u8> = Vec::new();
    tensor.extend_from_slice(&small_varint(1, 2)); // dims: 2
    tensor.extend_from_slice(&small_varint(1, 2)); // dims: 2
    tensor.extend_from_slice(&small_varint(2, 1)); // data_type: float
    tensor.extend_from_slice(&len_delim(8, b"W")); // name
    tensor.extend_from_slice(&len_delim(9, &[0u8; 16])); // raw_data

    let mut node: Vec<u8> = Vec::new();
    node.extend_from_slice(&len_delim(1, b"W")); // input
    node.extend_from_slice(&len_delim(2, b"Y")); // output
    node.extend_from_slice(&len_delim(3, b"N")); // name
    node.extend_from_slice(&len_delim(4, b"Identity")); // op_type

    let mut graph: Vec<u8> = Vec::new();
    graph.extend_from_slice(&len_delim(1, &node));
    graph.extend_from_slice(&len_delim(5, &tensor));

    len_delim(7, &graph)
}

#[test]
fn load_tiny_model() {
    let bytes = tiny_model_bytes();
    let model = OnnxModel::load_from_bytes(&bytes).expect("tiny model should load");
    assert_eq!(model.tensors.len(), 1);
    assert_eq!(model.operations.len(), 1);

    let w = model.get_tensor("W").expect("W should be registered");
    assert_eq!(w.data_type(), DataType::Float);
    assert_eq!(w.shape(), &[2i64, 2i64]);
    let words = w.copy_data_as_u32().expect("a 16-byte payload reads as four words");
    assert_eq!(words.len(), 4);
    for bits in &words {
        assert_eq!(f32::from_bits(*bits), 0.0f32);
    }

    let op = &model.operations[0];
    assert_eq!(op.op_type, "Identity");
    assert_eq!(op.name, "N");
    assert!(op.is_op_type("Identity"));
    assert_eq!(op.input_count(), 1);
    assert_eq!(op.output_count(), 1);

    let topo = model.topological_order().expect("a single node orders trivially");
    assert_eq!(topo, vec![0usize]);
    let exec = model.execution_order().expect("a single node orders trivially");
    assert_eq!(exec, vec![0usize]);
}

#[test]
fn missing_graph_is_invalid() {
    // a model message with only a producer name and no graph section
    let mut bytes: Vec<u8> = Vec::new();
    bytes.extend_from_slice(&len_delim(2, b"test"));
    match OnnxModel::load_from_bytes(&bytes) {
        Err(Error::InvalidModel(_)) => {},
        other => panic!("expected an invalid-model error, got {:?}", other.map(|_| ())),
    }
}

#[test]
fn metadata_fields_carry_over() {
    let mut bytes: Vec<u8> = Vec::new();
    bytes.extend_from_slice(&len_delim(2, b"maker"));
    bytes.extend_from_slice(&len_delim(3, b"0.1"));
    bytes.extend_from_slice(&small_varint(5, 7)); // model_version
    bytes.extend_from_slice(&len_delim(7, &[])); // empty graph
    let model = OnnxModel::load_from_bytes(&bytes).expect("empty graph is a valid model");
    assert_eq!(model.producer_name, "maker");
    assert_eq!(model.producer_version, "0.1");
    assert_eq!(model.model_version, 7);
    assert!(model.tensors.is_empty());
    assert!(model.operations.is_empty());
}

#[test]
fn garbage_bytes_are_a_decode_error() {
    // field 1 with wire type 2 announcing 100 bytes that are not there
    let bytes = vec![0x0au8, 100];
    match OnnxModel::load_from_bytes(&bytes) {
        Err(Error::Decode(_)) => {},
        other => panic!("expected a decode error, got {:?}", other.map(|_| ())),
    }
}

#[test]
fn initializer_names_leave_inputs() {
    // graph input declarations for W (also an initializer) and X
    let mut w_decl: Vec<u8> = Vec::new();
    {
        let mut tensor_type: Vec<u8> = Vec::new();
        tensor_type.extend_from_slice(&small_varint(1, 1)); // elem_type float
        let type_proto = len_delim(1, &tensor_type);
        w_decl.extend_from_slice(&len_delim(1, b"W"));
        w_decl.extend_from_slice(&len_delim(2, &type_proto));
    }
    let mut x_decl: Vec<u8> = Vec::new();
    {
        let mut tensor_type: Vec<u8> = Vec::new();
        tensor_type.extend_from_slice(&small_varint(1, 1));
        let type_proto = len_delim(1, &tensor_type);
        x_decl.extend_from_slice(&len_delim(1, b"X"));
        x_decl.extend_from_slice(&len_delim(2, &type_proto));
    }
    let mut init: Vec<u8> = Vec::new();
    init.extend_from_slice(&len_delim(8, b"W"));
    init.extend_from_slice(&small_varint(2, 1));
    init.extend_from_slice(&len_delim(9, &[0u8; 4]));

    let mut graph: Vec<u8> = Vec::new();
    graph.extend_from_slice(&len_delim(5, &init));
    graph.extend_from_slice(&len_delim(11, &w_decl));
    graph.extend_from_slice(&len_delim(11, &x_decl));
    let bytes = len_delim(7, &graph);

    let model = OnnxModel::load_from_bytes(&bytes).expect("model should load");
    // W doubles as an initializer, so only X is a runtime input
    assert_eq!(model.inputs, vec!["X".to_string()]);
    // the shape-only W declaration must not erase the initializer's data
    let w = model.get_tensor("W").expect("W stays registered");
    assert!(w.has_data());
    assert!(matches!(w.payload, TensorPayload::Inline(_)));
    let x = model.get_tensor("X").expect("X is registered from its declaration");
    assert!(!x.has_data());
    let weights = model.get_weight_tensors();
    assert_eq!(weights.len(), 1);
    assert_eq!(weights[0].name(), "W");
    let input_tensors = model.get_input_tensors();
    assert_eq!(input_tensors.len(), 1);
    assert_eq!(input_tensors[0].name(), "X");
}

#[test]
fn external_data_without_loader_is_rejected() {
    let mut entry: Vec<u8> = Vec::new();
    entry.extend_from_slice(&len_delim(1, b"location"));
    entry.extend_from_slice(&len_delim(2, b"weights.bin"));
    let mut init: Vec<u8> = Vec::new();
    init.extend_from_slice(&len_delim(8, b"W"));
    init.extend_from_slice(&len_delim(13, &entry));
    let mut graph: Vec<u8> = Vec::new();
    graph.extend_from_slice(&len_delim(5, &init));
    let bytes = len_delim(7, &graph);
    match OnnxModel::load_from_bytes(&bytes) {
        Err(Error::InvalidModel(_)) => {},
        other => panic!("expected an invalid-model error, got {:?}", other.map(|_| ())),
    }
}
