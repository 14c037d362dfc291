//! The ways in which a request to the store, or the reading of its answer,
//! can fail.

use vstd::prelude::*;
use crate::attribute::AttributeKind;

verus! {

/// Why a record map could not be read as a typed record.
#[derive(Debug)]
pub enum DecodeError {
    /// A required field is absent.
    MissingField { field: String },
    /// A field holds a value of another kind than the record expects.
    KindMismatch { field: String, expected: AttributeKind, found: AttributeKind },
    /// A decoder of typed records refused the map, with its own words.
    Malformed { message: String },
}

/// Why a request to the store gave no result.
#[derive(Debug)]
pub enum StoreError {
    /// The store holds no item under the requested key.
    NotFound,
    /// The store answered, but the item does not have the expected shape.
    Decode(DecodeError),
    /// The transport or the service failed. For a batched write, `chunk` is
    /// the index of the batch that failed; batches before it stay applied.
    RemoteStore { chunk: Option<usize>, cause: String },
}

} // verus!
