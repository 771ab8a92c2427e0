//! Answers of the web layer that reads the queue and the tables.
use vstd::prelude::*;

verus! {

/// An answer to a request: success without data, data as JSON text, or an
/// error message for a bad request or a failure of the server.
pub enum ApiResponse {
    Success,
    Data { data: String },
    BadRequest { message: String },
    ServerError { message: String },
}

impl ApiResponse {
    /// The answer for an error of the server, from the error's message.
    pub fn from_error(error: String) -> (r: ApiResponse)
        ensures
            r matches ApiResponse::ServerError { message } && message == error,
    {
        ApiResponse::ServerError { message: error }
    }
}

} // verus!
