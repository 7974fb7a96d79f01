//! The success envelope: data, a human-readable detail and the HTTP status.

use vstd::prelude::*;

verus! {

#[derive(Debug)]
pub struct DataResponse<T> {
    pub data: T,
    pub detail: String,
    /// Not part of the serialized body.
    pub status_code: u16,
}

impl<T> DataResponse<T> {
    /// A `200 OK` response.
    pub fn new(data: T, detail: String) -> (r: Self)
        ensures
            r.data == data,
            r.detail == detail,
            r.status_code == 200,
    {
        Self::with_status_code(200, data, detail)
    }

    pub fn with_status_code(status_code: u16, data: T, detail: String) -> (r: Self)
        ensures
            r.data == data,
            r.detail == detail,
            r.status_code == status_code,
    {
        DataResponse { data, detail, status_code }
    }
}

} // verus!
