use onnx_extractor::model::OnnxModel;
use onnx_extractor::operation::{AttributeEntry, OnnxOperation};
use onnx_extractor::tensor::{OnnxTensor, TensorContents, TensorPayload};
use onnx_extractor::types::{AttributeValue, DataType};

fn plain_op(name: &str, op_type: &str, inputs: &[&str], outputs: &[&str]) -> OnnxOperation {
    OnnxOperation {
        name: name.to_string(),
        op_type: op_type.to_string(),
        inputs: inputs.iter().map(|s| s.to_string()).collect(),
        outputs: outputs.iter().map(|s| s.to_string()).collect(),
        attributes: Vec::new(),
    }
}

fn shape_tensor(name: &str) -> OnnxTensor {
    OnnxTensor {
        name: name.to_string(),
        shape: vec![1],
        data_type: DataType::Float,
        payload: TensorPayload::Absent,
    }
}

fn weight_tensor(name: &str) -> OnnxTensor {
    OnnxTensor {
        name: name.to_string(),
        shape: vec![1],
        data_type: DataType::Float,
        payload: TensorPayload::Inline(
            TensorContents {
                raw_data: Some(vec![0, 0, 128, 63]),
                float_data: Vec::new(),
                double_data: Vec::new(),
                int32_data: Vec::new(),
                int64_data: Vec::new(),
                uint64_data: Vec::new(),
                string_data: Vec::new(),
            },
        ),
    }
}

fn sample_model() -> OnnxModel {
    OnnxModel {
        tensors: vec![weight_tensor("w"), shape_tensor("x"), shape_tensor("y")],
        operations: vec![
            plain_op("m1", "MatMul", &["x", "w"], &["h"]),
            plain_op("r1", "Relu", &["h"], &["h2"]),
            plain_op("m2", "MatMul", &["h2", "w"], &["y"]),
        ],
        inputs: vec!["x".to_string()],
        outputs: vec!["y".to_string(), "missing".to_string()],
        model_version: 9,
        producer_name: "sample".to_string(),
        producer_version: "1".to_string(),
    }
}

#[test]
fn tensor_lookup_and_names() {
    let m = sample_model();
    assert!(m.get_tensor("w").is_some());
    assert!(m.get_tensor("nope").is_none());
    assert_eq!(m.get_tensor("x").unwrap().name(), "x");
    let names = m.tensor_names();
    assert_eq!(names, vec!["w".to_string(), "x".to_string(), "y".to_string()]);
}

#[test]
fn operation_lookup_by_name_and_type() {
    let m = sample_model();
    let r = m.get_operation("r1").expect("r1 exists");
    assert_eq!(r.op_type, "Relu");
    assert!(m.get_operation("zz").is_none());

    let matmuls = m.get_operations_by_type("MatMul");
    assert_eq!(matmuls.len(), 2);
    assert_eq!(matmuls[0].name, "m1");
    assert_eq!(matmuls[1].name, "m2");
    assert!(m.get_operations_by_type("Conv").is_empty());
}

#[test]
fn operation_type_listing_and_counts() {
    let m = sample_model();
    let types = m.operation_types();
    // distinct tags, sorted ascending
    assert_eq!(types, vec!["MatMul".to_string(), "Relu".to_string()]);

    // declaration order does not matter: the listing sorts
    let shuffled = OnnxModel {
        tensors: Vec::new(),
        operations: vec![
            plain_op("r", "Relu", &[], &[]),
            plain_op("a", "Add", &[], &[]),
            plain_op("r2", "Relu", &[], &[]),
            plain_op("m", "MatMul", &[], &[]),
        ],
        inputs: Vec::new(),
        outputs: Vec::new(),
        model_version: 0,
        producer_name: String::new(),
        producer_version: String::new(),
    };
    assert_eq!(
        shuffled.operation_types(),
        vec!["Add".to_string(), "MatMul".to_string(), "Relu".to_string()]
    );

    let counts = m.count_operations_by_type();
    assert_eq!(counts.len(), 2);
    let matmul = counts.iter().find(|e| e.0 == "MatMul").expect("MatMul is counted");
    assert_eq!(matmul.1, 2);
    let relu = counts.iter().find(|e| e.0 == "Relu").expect("Relu is counted");
    assert_eq!(relu.1, 1);
}

#[test]
fn boundary_tensor_resolution_skips_missing_names() {
    let m = sample_model();
    let ins = m.get_input_tensors();
    assert_eq!(ins.len(), 1);
    assert_eq!(ins[0].name(), "x");
    // "missing" has no registry record and is silently skipped
    let outs = m.get_output_tensors();
    assert_eq!(outs.len(), 1);
    assert_eq!(outs[0].name(), "y");
}

#[test]
fn attribute_accessors_read_through() {
    let mut op = plain_op("n", "Pad", &[], &[]);
    op.attributes.push(AttributeEntry {
        name: "mode".to_string(),
        value: AttributeValue::String("edge".to_string()),
    });
    op.attributes.push(AttributeEntry {
        name: "pads".to_string(),
        value: AttributeValue::Ints(vec![1, 2]),
    });
    assert_eq!(op.get_string_attribute("mode"), Some("edge"));
    assert_eq!(op.get_ints_attribute("pads"), Some(&vec![1i64, 2]));
    assert_eq!(op.get_floats_attribute("pads"), None);
    assert!(op.get_attribute("mode").is_some());
    assert!(op.get_attribute("nope").is_none());
    match op.get_attribute("pads").unwrap() {
        AttributeValue::Ints(v) => assert_eq!(v, &vec![1i64, 2]),
        _ => panic!("expected ints"),
    }
    assert_eq!(op.get_attribute("mode").unwrap().as_string(), Some("edge"));
    assert_eq!(op.get_attribute("mode").unwrap().as_int(), None);
}
