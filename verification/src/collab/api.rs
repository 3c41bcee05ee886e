//! The shapes of what the control surface takes in and answers.

use vstd::prelude::*;
use vstd::std_specs::convert::IntoSpec;
use vstd::string::StringExecFns;

verus! {

/// Why a request to the control surface failed.
#[derive(Debug)]
pub enum ApiError {
    /// Something went wrong inside.
    Internal(String),
    /// A lock could not be taken.
    LockError(String),
    /// The request makes no sense.
    BadRequest(String),
    /// What was asked for is not there.
    NotFound(String),
}

/// The request to register a peer for reconnection.
pub struct RegisterPeerRequest {
    pub peer_id: String,
    pub url: String,
}

/// How many cells there are of each role.
pub struct DistributionResponse {
    pub sensor: usize,
    pub logic: usize,
    pub motor: usize,
    pub total: usize,
}

/// The answer to a request that went well and yields nothing but a message.
#[derive(Debug)]
pub struct SuccessResponse {
    pub status: String,
    pub message: String,
}

impl SuccessResponse {
    /// The answer with status `ok` and the given message.
    pub fn ok<M: Into<String>>(message: M) -> (response: Self)
        ensures
            response.status@ == "ok"@,
            M::obeys_into_spec() ==> response.message == message.into_spec(),
    {
        SuccessResponse { status: String::from_str("ok"), message: message.into() }
    }
}

/// The answer to a request that went well and yields data.
#[derive(Debug)]
pub struct DataResponse<T> {
    pub status: String,
    pub data: T,
}

impl<T> DataResponse<T> {
    /// The answer with status `ok` and the given data.
    pub fn new(data: T) -> (response: Self)
        ensures
            response.status@ == "ok"@,
            response.data == data,
    {
        DataResponse { status: String::from_str("ok"), data }
    }
}

/// The answer to a request that went well and yields a list.
#[derive(Debug)]
pub struct ListResponse<T> {
    pub status: String,
    pub count: usize,
    pub items: Vec<T>,
}

impl<T> ListResponse<T> {
    /// The answer with status `ok`, the given items and their number.
    pub fn new(items: Vec<T>) -> (response: Self)
        ensures
            response.status@ == "ok"@,
            response.count == items@.len(),
            response.items == items,
    {
        let count: usize = items.len();
        ListResponse { status: String::from_str("ok"), count, items }
    }
}

} // verus!
