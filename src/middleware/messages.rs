//! The messages that reach the correlation store.
use vstd::prelude::*;
use crate::generic_http::{GenericRequest, GenericResponse};
use crate::masking::Masking;
use crate::path_hint::{normalize_path_hint, normalized};
use crate::text::{chars_of, string_of};
use super::request_id::RequestId;

verus! {

/// A capture event of the middleware.
#[derive(Debug)]
pub enum MiddlewareMessage {
    /// A request was captured.
    Request { request_id: RequestId, request: GenericRequest },
    /// The response of a request was captured.
    Response { request_id: RequestId, response: GenericResponse },
    /// Application code set an override during the handler.
    ControllerMessage(ControllerMessage),
}

/// An override that application code sets for one request.
#[derive(Debug)]
pub enum ControllerMessage {
    SetMasking { request_id: RequestId, masking: Masking },
    /// A path hint already normalised.
    SetPathHint { request_id: RequestId, path_hint: String },
    SetCustomerId { request_id: RequestId, customer_id: String },
    SetMaxCaptureSize { request_id: RequestId, capture_size: usize },
}

impl ControllerMessage {
    /// The override of the path hint of `request_id`, normalised.
    pub fn path_hint(request_id: RequestId, path_hint: &str) -> (r: ControllerMessage)
        ensures
            r matches ControllerMessage::SetPathHint { request_id: id, path_hint: h } && id == request_id && h@ == normalized(path_hint@),
    {
        let h = normalize_path_hint(string_of(chars_of(path_hint).as_slice()));
        ControllerMessage::SetPathHint { request_id, path_hint: h }
    }
}

} // verus!
