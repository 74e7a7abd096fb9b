use onnx_extractor::error::Error;
use onnx_extractor::model::OnnxModel;
use onnx_extractor::types::DataType;

fn byte_key(field: u8, wire: u8) -> u8 {
    (field << 3) | wire
}

fn delim(field: u8, payload: &[u8]) -> Vec<u8> {
    assert!(payload.len() < 128);
    let mut v = vec![byte_key(field, 2), payload.len() as u8];
    v.extend_from_slice(payload);
    v
}

#[test]
fn multi_byte_varints_decode() {
    // model_version = 300 = 0xAC 0x02 as a varint
    let mut bytes: Vec<u8> = vec![byte_key(5, 0), 0xac, 0x02];
    bytes.extend_from_slice(&delim(7, &[]));
    let model = OnnxModel::load_from_bytes(&bytes).expect("loads");
    assert_eq!(model.model_version, 300);
}

#[test]
fn truncated_varint_is_a_decode_error() {
    // a continuation bit with nothing after it
    let bytes = vec![byte_key(5, 0), 0x80];
    assert!(matches!(OnnxModel::load_from_bytes(&bytes), Err(Error::Decode(_))));
}

#[test]
fn overlong_varint_is_a_decode_error() {
    let mut bytes = vec![byte_key(5, 0)];
    bytes.extend_from_slice(&[0x80; 11]);
    bytes.push(0x01);
    assert!(matches!(OnnxModel::load_from_bytes(&bytes), Err(Error::Decode(_))));
}

#[test]
fn unknown_fields_are_skipped() {
    let mut bytes: Vec<u8> = Vec::new();
    bytes.extend_from_slice(&[byte_key(1, 0), 9]); // ir_version, not consumed
    bytes.extend_from_slice(&delim(6, b"docs")); // doc_string, not consumed
    bytes.extend_from_slice(&delim(7, &[])); // the graph
    let model = OnnxModel::load_from_bytes(&bytes).expect("unknown fields are skipped");
    assert_eq!(model.model_version, 0);
}

#[test]
fn invalid_utf8_in_a_name_is_a_decode_error() {
    let mut graph: Vec<u8> = Vec::new();
    let mut init: Vec<u8> = Vec::new();
    init.extend_from_slice(&delim(8, &[0xff, 0xfe]));
    graph.extend_from_slice(&delim(5, &init));
    let bytes = delim(7, &graph);
    assert!(matches!(OnnxModel::load_from_bytes(&bytes), Err(Error::Decode(_))));
}

#[test]
fn packed_floats_and_value_info_register() {
    // initializer W with a packed float array [1.0, 2.0]
    let mut init: Vec<u8> = Vec::new();
    init.extend_from_slice(&delim(8, b"W"));
    init.extend_from_slice(&[byte_key(2, 0), 1]); // data_type float
    init.extend_from_slice(&[byte_key(1, 0), 2]); // dims 2
    let mut packed: Vec<u8> = Vec::new();
    packed.extend_from_slice(&1.0f32.to_le_bytes());
    packed.extend_from_slice(&2.0f32.to_le_bytes());
    init.extend_from_slice(&delim(4, &packed));

    // value_info for an intermediate tensor "h" of type int64, shape [3]
    let dim: Vec<u8> = vec![byte_key(1, 0), 3];
    let shape = delim(1, &dim);
    let mut tensor_type: Vec<u8> = vec![byte_key(1, 0), 7];
    tensor_type.extend_from_slice(&delim(2, &shape));
    let type_proto = delim(1, &tensor_type);
    let mut vi: Vec<u8> = Vec::new();
    vi.extend_from_slice(&delim(1, b"h"));
    vi.extend_from_slice(&delim(2, &type_proto));

    let mut graph: Vec<u8> = Vec::new();
    graph.extend_from_slice(&delim(5, &init));
    graph.extend_from_slice(&delim(13, &vi));
    let bytes = delim(7, &graph);

    let model = OnnxModel::load_from_bytes(&bytes).expect("loads");
    let w = model.get_tensor("W").expect("registered");
    let words = w.copy_data_as_u32().expect("two elements");
    assert_eq!(f32::from_bits(words[0]), 1.0);
    assert_eq!(f32::from_bits(words[1]), 2.0);

    let h = model.get_tensor("h").expect("value_info registers a record");
    assert_eq!(h.data_type(), DataType::Int64);
    assert_eq!(h.shape(), &[3i64]);
    assert!(!h.has_data());
    // h is shape-only, so asking for its bytes fails
    assert!(h.data().is_err());
}

#[test]
fn negative_int64_dims_round_trip() {
    // dims encoded as ten-byte two's-complement varints: -1
    let mut init: Vec<u8> = Vec::new();
    init.extend_from_slice(&delim(8, b"T"));
    init.extend_from_slice(&[byte_key(2, 0), 1]);
    init.push(byte_key(1, 0));
    init.extend_from_slice(&[0xff, 0xff, 0xff, 0xff, 0xff, 0xff, 0xff, 0xff, 0xff, 0x01]);
    init.extend_from_slice(&delim(9, &[0u8; 4]));
    let mut graph: Vec<u8> = Vec::new();
    graph.extend_from_slice(&delim(5, &init));
    let bytes = delim(7, &graph);
    let model = OnnxModel::load_from_bytes(&bytes).expect("loads");
    let t = model.get_tensor("T").expect("registered");
    assert_eq!(t.shape(), &[-1i64]);
}
