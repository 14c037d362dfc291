//! Typed helpers for a key-value store that speaks in attribute maps.
//!
//! The crate holds the data model of the store's items, a small attribute
//! codec, and the coordinator that splits a large set of writes into batches
//! and gathers what the store declined. It performs no I/O: requests and
//! responses are plain values, and the caller carries them to the store.

pub mod attribute;
pub mod batch;
pub mod codec;
pub mod error;
pub mod operation;
pub mod partition;
pub mod request;

pub use attribute::{
    encode, set_kv, AttributeKind, AttributeValue, DdbMap, Field, RecordMap,
};
pub use batch::{
    batch_write_items, batch_write_operations, BatchFailure, BatchStep, BatchWrite,
    BatchWriteResponse, TableWrites, BATCH_LIMIT,
};
pub use codec::{decode, decode_field, decode_optional_string, decode_string, FieldShape};
pub use error::{DecodeError, StoreError};
pub use operation::{create_write_request, WriteOperation};
pub use request::{
    answered, collect_decoded, decoded, found_item, get_item, put_item, query, DecodeFailure,
    Decoded, GetItemRequest, PutItemRequest, QueryPage, QueryRequest, QueryRun, QueryStep,
};
