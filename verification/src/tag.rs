//! Read results and read requests: a `Tag` carries a device reference with
//! its value in text form, a `QueryTag` names a device and type to read.

use vstd::prelude::*;
use crate::db::DataType;

verus! {

/// A device reference with its resolved value in text form, the one-letter
/// code of its data type, and an error note.  Produced by reads, consumed by
/// writes.
#[derive(Debug)]
pub struct Tag {
    pub device: String,
    pub value: Option<String>,
    pub data_type: Option<String>,
    pub error: Option<String>,
}

/// A read request: a device reference and the type to read it as.
#[derive(Debug)]
pub struct QueryTag {
    pub device: String,
    pub data_type: DataType,
}

impl Tag {
    /// Assemble a tag from its parts.
    pub fn new(device: String, value: Option<String>, data_type: Option<String>, error: Option<
        String,
    >) -> (r: Tag)
        ensures
            r.device == device,
            r.value == value,
            r.data_type == data_type,
            r.error == error,
    {
        Tag { device, value, data_type, error }
    }

    /// A tag read successfully: it has a value and carries no error.
    pub fn is_success(&self) -> (r: bool)
        ensures
            r == (self.value is Some && self.error is None),
    {
        self.value.is_some() && self.error.is_none()
    }
}

} // verus!
