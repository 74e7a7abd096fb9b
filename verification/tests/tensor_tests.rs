use onnx_extractor::error::Error;
use onnx_extractor::proto::{
    DimensionProto, DimensionValue, TensorShapeProto, TensorTypeProto,
};
use onnx_extractor::tensor::{
    storage_backing, OnnxTensor, StorageBacking, TensorContents, TensorData, TensorPayload,
};
use onnx_extractor::types::DataType;

fn contents() -> TensorContents {
    TensorContents {
        raw_data: None,
        float_data: Vec::new(),
        double_data: Vec::new(),
        int32_data: Vec::new(),
        int64_data: Vec::new(),
        uint64_data: Vec::new(),
        string_data: Vec::new(),
    }
}

fn raw_tensor(name: &str, dtype: DataType, bytes: Vec<u8>) -> OnnxTensor {
    let mut c = contents();
    c.raw_data = Some(bytes);
    OnnxTensor {
        name: name.to_string(),
        shape: Vec::new(),
        data_type: dtype,
        payload: TensorPayload::Inline(c),
    }
}

#[test]
fn shape_round_trip_from_type_declaration() {
    let tensor_type = TensorTypeProto {
        elem_type: Some(1),
        shape: Some(TensorShapeProto {
            dim: vec![
                DimensionProto { value: Some(DimensionValue::Literal(3)) },
                DimensionProto { value: Some(DimensionValue::Symbolic("batch".to_string())) },
                DimensionProto { value: None },
                DimensionProto { value: Some(DimensionValue::Literal(0)) },
            ],
        }),
    };
    let t = OnnxTensor::from_tensor_type("v".to_string(), &tensor_type)
        .expect("a declared float type builds a record");
    // one entry per declared dimension: the literal where given, else -1
    assert_eq!(t.shape(), &[3i64, -1, -1, 0]);
    assert_eq!(t.data_type(), DataType::Float);
    assert_eq!(t.name(), "v");
    assert!(!t.has_data());
}

#[test]
fn declaration_without_shape_is_scalar() {
    let tensor_type = TensorTypeProto { elem_type: Some(7), shape: None };
    let t = OnnxTensor::from_tensor_type("s".to_string(), &tensor_type).expect("builds");
    assert_eq!(t.shape().len(), 0);
    assert_eq!(t.data_type(), DataType::Int64);
}

#[test]
fn declaration_missing_elem_type_fails() {
    let tensor_type = TensorTypeProto { elem_type: None, shape: None };
    match OnnxTensor::from_tensor_type("s".to_string(), &tensor_type) {
        Err(Error::InvalidModel(_)) => {},
        other => panic!("expected an invalid-model error, got {:?}", other.map(|_| ())),
    }
    let zero = TensorTypeProto { elem_type: Some(0), shape: None };
    match OnnxTensor::from_tensor_type("s".to_string(), &zero) {
        Err(Error::InvalidModel(_)) => {},
        other => panic!("expected an invalid-model error, got {:?}", other.map(|_| ())),
    }
}

#[test]
fn byte_alignment_law() {
    // six bytes read as 16-bit elements: exactly three of them
    let t = raw_tensor("t", DataType::Uint16, vec![1, 0, 2, 0, 3, 0]);
    assert_eq!(t.copy_data_as_u16().expect("6 is a multiple of 2"), vec![1u16, 2, 3]);
    // six bytes are not a multiple of four or eight
    match t.copy_data_as_u32() {
        Err(Error::DataConversion { data_size, type_size }) => {
            assert_eq!(data_size, 6);
            assert_eq!(type_size, 4);
        },
        other => panic!("expected a data-conversion error, got {:?}", other.map(|_| ())),
    }
    match t.copy_data_as_u64() {
        Err(Error::DataConversion { data_size, type_size }) => {
            assert_eq!(data_size, 6);
            assert_eq!(type_size, 8);
        },
        other => panic!("expected a data-conversion error, got {:?}", other.map(|_| ())),
    }
    // every byte count is a multiple of one
    assert_eq!(t.copy_data_as_u8().expect("bytes pass through"), vec![1, 0, 2, 0, 3, 0]);
}

#[test]
fn empty_payload_reinterprets_to_nothing() {
    let t = raw_tensor("t", DataType::Float, Vec::new());
    // raw bytes are present but empty, and no typed array backs a float
    // tensor here, so the view is the empty float array
    assert_eq!(t.copy_data_as_u32().expect("zero bytes give zero elements"), Vec::<u32>::new());
}

#[test]
fn raw_bytes_take_precedence_over_typed_arrays() {
    let mut c = contents();
    c.raw_data = Some(vec![9, 9]);
    c.float_data = vec![0x3f800000];
    let t = OnnxTensor {
        name: "t".to_string(),
        shape: Vec::new(),
        data_type: DataType::Float,
        payload: TensorPayload::Inline(c),
    };
    match t.data().expect("raw data resolves") {
        TensorData::Raw(b) => assert_eq!(b, vec![9, 9]),
        other => panic!("expected the raw variant, got {:?} bytes", other.as_slice().len()),
    }
}

#[test]
fn float_array_resolves_little_endian() {
    let mut c = contents();
    c.float_data = vec![1.0f32.to_bits(), 2.5f32.to_bits()];
    let t = OnnxTensor {
        name: "t".to_string(),
        shape: vec![2],
        data_type: DataType::Float,
        payload: TensorPayload::Inline(c),
    };
    let d = t.data().expect("the float bucket resolves");
    let bytes = d.as_slice();
    let mut expected = Vec::new();
    expected.extend_from_slice(&1.0f32.to_le_bytes());
    expected.extend_from_slice(&2.5f32.to_le_bytes());
    assert_eq!(bytes, expected);
    assert_eq!(d.len(), 8);
    assert!(!d.is_empty());
    let words = t.copy_data_as_u32().expect("aligned");
    assert_eq!(f32::from_bits(words[0]), 1.0);
    assert_eq!(f32::from_bits(words[1]), 2.5);
}

#[test]
fn int64_array_resolves_via_bit_patterns() {
    let mut c = contents();
    c.int64_data = vec![-1i64, 5];
    let t = OnnxTensor {
        name: "t".to_string(),
        shape: vec![2],
        data_type: DataType::Int64,
        payload: TensorPayload::Inline(c),
    };
    let words = t.copy_data_as_u64().expect("aligned");
    assert_eq!(words[0] as i64, -1);
    assert_eq!(words[1], 5);
}

#[test]
fn string_elements_concatenate_in_order() {
    let mut c = contents();
    c.string_data = vec![b"ab".to_vec(), b"".to_vec(), b"c".to_vec()];
    let t = OnnxTensor {
        name: "t".to_string(),
        shape: vec![3],
        data_type: DataType::String,
        payload: TensorPayload::Inline(c),
    };
    let d = t.data().expect("string data resolves");
    assert_eq!(d.len(), 3);
    assert!(!d.is_empty());
    assert_eq!(d.as_slice(), b"abc".to_vec());
    let owned = d.into_owned();
    assert_eq!(owned.as_slice(), b"abc".to_vec());
}

#[test]
fn string_tensor_with_promised_elements_needs_data() {
    let mut c = contents();
    c.raw_data = Some(Vec::new());
    let t = OnnxTensor {
        name: "t".to_string(),
        shape: vec![2],
        data_type: DataType::String,
        payload: TensorPayload::Inline(c),
    };
    match t.data() {
        Err(Error::MissingField(_)) => {},
        other => panic!("expected a missing-field error, got {:?}", other.map(|_| ())),
    }
    assert_eq!(t.data_size_bytes(), None);
}

#[test]
fn absent_payload_has_no_data() {
    let t = OnnxTensor {
        name: "t".to_string(),
        shape: vec![2],
        data_type: DataType::Float,
        payload: TensorPayload::Absent,
    };
    assert!(!t.has_data());
    assert!(t.data().is_err());
    assert!(matches!(t.into_data(), Err(Error::MissingField(_))));
}

#[test]
fn storage_buckets_follow_the_type_table() {
    assert!(matches!(storage_backing(DataType::Float), Some(StorageBacking::F32)));
    assert!(matches!(storage_backing(DataType::Complex64), Some(StorageBacking::F32)));
    assert!(matches!(storage_backing(DataType::Double), Some(StorageBacking::F64)));
    assert!(matches!(storage_backing(DataType::Int64), Some(StorageBacking::I64)));
    assert!(matches!(storage_backing(DataType::Uint32), Some(StorageBacking::U64)));
    assert!(matches!(storage_backing(DataType::Uint64), Some(StorageBacking::U64)));
    assert!(matches!(storage_backing(DataType::Int8), Some(StorageBacking::I32)));
    assert!(matches!(storage_backing(DataType::Bool), Some(StorageBacking::I32)));
    assert!(matches!(storage_backing(DataType::Float16), Some(StorageBacking::I32)));
    assert!(matches!(storage_backing(DataType::String), Some(StorageBacking::Strings)));
    assert!(matches!(storage_backing(DataType::Undefined), None));
}

#[test]
fn data_type_codes_and_classes() {
    assert_eq!(DataType::from_onnx_type(1), DataType::Float);
    assert_eq!(DataType::from_onnx_type(7), DataType::Int64);
    assert_eq!(DataType::from_onnx_type(8), DataType::String);
    assert_eq!(DataType::from_onnx_type(11), DataType::Double);
    assert_eq!(DataType::from_onnx_type(16), DataType::Bfloat16);
    assert_eq!(DataType::from_onnx_type(0), DataType::Undefined);
    assert_eq!(DataType::from_onnx_type(99), DataType::Undefined);
    assert_eq!(DataType::from_onnx_type(-3), DataType::Undefined);

    assert_eq!(DataType::Float.size_in_bytes(), Some(4));
    assert_eq!(DataType::Double.size_in_bytes(), Some(8));
    assert_eq!(DataType::Float16.size_in_bytes(), Some(2));
    assert_eq!(DataType::Bool.size_in_bytes(), Some(1));
    assert_eq!(DataType::Complex128.size_in_bytes(), Some(16));
    assert_eq!(DataType::String.size_in_bytes(), None);
    assert_eq!(DataType::Undefined.size_in_bytes(), None);

    assert!(DataType::Float.is_float());
    assert!(DataType::Bfloat16.is_float());
    assert!(!DataType::Int32.is_float());
    assert!(DataType::Uint4.is_integer());
    assert!(DataType::Int64.is_integer());
    assert!(!DataType::Bool.is_integer());
    assert!(!DataType::Float.is_integer());
}
