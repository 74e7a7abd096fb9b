//! The closed set of error kinds that library operations return.

use vstd::prelude::*;

verus! {

/// Everything that can go wrong while decoding, building or querying a model.
#[derive(Debug, Clone)]
pub enum Error {
    /// A file could not be read; the payload names the failing path.
    /// Produced by the I/O layer around the library, never by verified code.
    Io(String),
    /// The model bytes are not a well-formed message tree.
    Decode(String),
    /// A string field holds bytes that are not valid UTF-8.
    Utf8(String),
    /// A structural violation: missing graph, bad external-data bounds,
    /// cycles in the operation graph, and the like.
    InvalidModel(String),
    /// A required-but-absent value was requested, e.g. a tensor with no data.
    MissingField(String),
    /// A recognized but unimplemented schema feature; the payload is the
    /// numeric attribute-type tag that was not understood.
    Unsupported(i64),
    /// A tensor's byte length is not a multiple of the requested element
    /// width; the payload cites both sizes.
    DataConversion { data_size: usize, type_size: usize },
}

} // verus!
