use onnx_extractor::error::Error;
use onnx_extractor::proto::{AttributeProto, NodeProto, TensorProto};
use onnx_extractor::proto_adapter::{operation_from_node_proto, parse_attribute_proto};
use onnx_extractor::types::{AttributeValue, DataType};

fn attr(name: &str, tag: i32) -> AttributeProto {
    AttributeProto {
        name: Some(name.to_string()),
        f: None,
        i: None,
        s: None,
        t: None,
        floats: Vec::new(),
        ints: Vec::new(),
        strings: Vec::new(),
        attr_type: Some(tag),
    }
}

fn empty_tensor_proto() -> TensorProto {
    TensorProto {
        dims: Vec::new(),
        data_type: None,
        float_data: Vec::new(),
        int32_data: Vec::new(),
        string_data: Vec::new(),
        int64_data: Vec::new(),
        name: None,
        raw_data: None,
        double_data: Vec::new(),
        uint64_data: Vec::new(),
        external_data: Vec::new(),
    }
}

#[test]
fn scalar_attributes_parse() {
    let mut a = attr("alpha", 1);
    a.f = Some(0.5f32.to_bits());
    match parse_attribute_proto(a).expect("float attribute parses") {
        AttributeValue::Float(bits) => assert_eq!(f32::from_bits(bits), 0.5),
        _ => panic!("expected a float value"),
    }

    let mut a = attr("axis", 2);
    a.i = Some(-7);
    match parse_attribute_proto(a).expect("int attribute parses") {
        AttributeValue::Int(v) => assert_eq!(v, -7),
        _ => panic!("expected an int value"),
    }

    let mut a = attr("mode", 3);
    a.s = Some(b"reflect".to_vec());
    match parse_attribute_proto(a).expect("string attribute parses") {
        AttributeValue::String(s) => assert_eq!(s, "reflect"),
        _ => panic!("expected a string value"),
    }

    // absent payloads default to zero, as the wire format's defaults do
    match parse_attribute_proto(attr("alpha", 1)).expect("parses") {
        AttributeValue::Float(bits) => assert_eq!(bits, 0),
        _ => panic!("expected a float value"),
    }
}

#[test]
fn array_attributes_parse() {
    let mut a = attr("pads", 7);
    a.ints = vec![0, 1, 0, 1];
    match parse_attribute_proto(a).expect("ints parse") {
        AttributeValue::Ints(v) => assert_eq!(v, vec![0, 1, 0, 1]),
        _ => panic!("expected ints"),
    }

    let mut a = attr("scales", 6);
    a.floats = vec![1.0f32.to_bits(), 2.0f32.to_bits()];
    match parse_attribute_proto(a).expect("floats parse") {
        AttributeValue::Floats(v) => {
            assert_eq!(v.len(), 2);
            assert_eq!(f32::from_bits(v[1]), 2.0);
        },
        _ => panic!("expected floats"),
    }

    let mut a = attr("names", 8);
    a.strings = vec![b"x".to_vec(), b"y".to_vec()];
    match parse_attribute_proto(a).expect("strings parse") {
        AttributeValue::Strings(v) => assert_eq!(v, vec!["x".to_string(), "y".to_string()]),
        _ => panic!("expected strings"),
    }
}

#[test]
fn invalid_utf8_fails_string_attributes() {
    let mut a = attr("mode", 3);
    a.s = Some(vec![0xff, 0xfe]);
    match parse_attribute_proto(a) {
        Err(Error::Utf8(_)) => {},
        other => panic!("expected a UTF-8 error, got {:?}", other.map(|_| ())),
    }
    let mut a = attr("names", 8);
    a.strings = vec![b"ok".to_vec(), vec![0xc0]];
    assert!(matches!(parse_attribute_proto(a), Err(Error::Utf8(_))));
}

#[test]
fn unknown_attribute_tags_are_unsupported() {
    // tag 5 is the subgraph kind, which this reader does not implement
    match parse_attribute_proto(attr("body", 5)) {
        Err(Error::Unsupported(tag)) => assert_eq!(tag, 5),
        other => panic!("expected an unsupported error, got {:?}", other.map(|_| ())),
    }
    assert!(matches!(parse_attribute_proto(attr("x", 0)), Err(Error::Unsupported(0))));
    assert!(matches!(parse_attribute_proto(attr("x", 12)), Err(Error::Unsupported(12))));
}

#[test]
fn tensor_attribute_parses_and_missing_tensor_fails() {
    let mut a = attr("value", 4);
    let mut tp = empty_tensor_proto();
    tp.data_type = Some(6);
    tp.dims = vec![1];
    tp.int32_data = vec![42];
    a.t = Some(tp);
    match parse_attribute_proto(a).expect("tensor attribute parses") {
        AttributeValue::Tensor(t) => {
            assert_eq!(t.data_type(), DataType::Int32);
            assert_eq!(t.shape(), &[1i64]);
            let words = t.copy_data_as_u32().expect("one 4-byte element");
            assert_eq!(words, vec![42u32]);
        },
        _ => panic!("expected a tensor value"),
    }

    match parse_attribute_proto(attr("value", 4)) {
        Err(Error::MissingField(_)) => {},
        other => panic!("expected a missing-field error, got {:?}", other.map(|_| ())),
    }
}

#[test]
fn nested_tensor_with_external_data_is_rejected() {
    // an inline tensor attribute cannot reference a sibling file
    let mut a = attr("value", 4);
    let mut tp = empty_tensor_proto();
    tp.external_data = vec![onnx_extractor::proto::StringEntryProto {
        key: Some("location".to_string()),
        value: Some("w.bin".to_string()),
    }];
    a.t = Some(tp);
    match parse_attribute_proto(a) {
        Err(Error::InvalidModel(_)) => {},
        other => panic!("expected an invalid-model error, got {:?}", other.map(|_| ())),
    }
}

#[test]
fn node_attributes_map_by_name_with_later_wins() {
    let mut first = attr("axis", 2);
    first.i = Some(1);
    let mut second = attr("axis", 2);
    second.i = Some(3);
    let mut other = attr("alpha", 1);
    other.f = Some(1.5f32.to_bits());
    let node = NodeProto {
        input: vec!["x".to_string()],
        output: vec!["y".to_string()],
        name: Some("n".to_string()),
        op_type: Some("Softmax".to_string()),
        attribute: vec![first, second, other],
    };
    let op = operation_from_node_proto(node).expect("all attributes parse");
    assert_eq!(op.name, "n");
    assert_eq!(op.op_type, "Softmax");
    assert_eq!(op.inputs, vec!["x".to_string()]);
    assert_eq!(op.outputs, vec!["y".to_string()]);
    // the later attribute of the same name wins
    assert_eq!(op.get_int_attribute("axis"), Some(3));
    assert_eq!(op.get_float_attribute("alpha"), Some(1.5f32.to_bits()));
    assert!(op.has_attribute("alpha"));
    assert!(!op.has_attribute("beta"));
    assert_eq!(op.get_int_attribute("alpha"), None);
    assert_eq!(op.attribute_names().len(), 2);
}

#[test]
fn one_bad_attribute_fails_the_node() {
    let mut bad = attr("mode", 3);
    bad.s = Some(vec![0x80]);
    let node = NodeProto {
        input: Vec::new(),
        output: Vec::new(),
        name: None,
        op_type: Some("Pad".to_string()),
        attribute: vec![attr("axis", 2), bad],
    };
    assert!(matches!(operation_from_node_proto(node), Err(Error::Utf8(_))));
}
