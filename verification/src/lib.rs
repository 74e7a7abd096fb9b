//! A lightweight ONNX model reader.
//!
//! The crate decodes a serialized ONNX model (a protobuf message tree) into a
//! queryable in-memory form: tensors with shapes, data types and payload
//! bytes; operations with attributes; and derived execution orderings over
//! the operation graph.
//!
//! Multi-byte numeric payloads are interpreted little-endian throughout; this
//! is a documented platform assumption, no byte swapping is performed.
//! Payload views are materialized as owned byte buffers, so every access
//! hands back bytes the caller owns outright.

pub mod decode;
pub mod error;
pub mod external_data;
pub mod model;
pub mod operation;
pub mod text;
pub mod proto;
pub mod proto_adapter;
pub mod schedule;
pub mod tensor;
pub mod types;
pub mod wire;

pub use error::Error;
pub use model::OnnxModel;
pub use operation::OnnxOperation;
pub use tensor::{OnnxTensor, TensorData};
pub use types::{AttributeValue, DataType};
