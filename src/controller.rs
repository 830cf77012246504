//! The per-request controller: application code sets overrides on it while
//! the handler runs, and it turns the request and its response into a record.
use vstd::prelude::*;
use crate::archive::ArchiveEntry;
use crate::capture::MAX_SIZE;
use crate::generic_http::{GenericRequest, GenericResponse};
use crate::har_builder::{build_entry, entry_matches};
use crate::masking::{Masking, MaskingMetadata};
use crate::path_hint::{normalize_path_hint, normalized};
use crate::text::{chars_of, string_of};
use crate::{Error, RequestConfig};

verus! {

/// An archive entry with the envelope it travels in.
#[derive(Debug, Clone)]
pub struct ArchiveRecord {
    pub entry: ArchiveEntry,
    pub path_hint: String,
    pub api_id: String,
    pub version_id: String,
    pub customer_id: String,
    /// Which names have rules; absent when the policy has none.
    pub masking_metadata: Option<MaskingMetadata>,
}

/// The path hint of a record: the override, else the one found at capture,
/// else empty.
pub open spec fn effective_path_hint(override_hint: Option<String>, captured: Option<String>) -> Seq<char> {
    match override_hint {
        Some(h) => h@,
        None => match captured {
            Some(h) => h@,
            None => Seq::empty(),
        },
    }
}

/// Whether `r` is the record of `request` and `response` under the given
/// policy and overrides.
pub open spec fn record_matches(
    r: ArchiveRecord,
    request: GenericRequest,
    response: GenericResponse,
    masking: Masking,
    path_hint: Option<String>,
    customer_id: Option<String>,
    max_capture_size: Option<usize>,
    config: RequestConfig,
    now_ms: i64,
) -> bool {
    &&& entry_matches(r.entry, request, response, masking, max_capture_size, now_ms)
    &&& r.path_hint@ == effective_path_hint(path_hint, request.path_hint)
    &&& r.api_id == config.api_id
    &&& r.version_id == config.version_id
    &&& r.customer_id@ == match customer_id {
        Some(c) => c@,
        None => Seq::empty(),
    }
    &&& (r.masking_metadata is None <==> masking.spec_is_empty())
}

/// Builds the record of a request/response pair.
pub fn build_record(
    request: GenericRequest,
    response: GenericResponse,
    masking: &Masking,
    path_hint: &Option<String>,
    customer_id: &Option<String>,
    max_capture_size: Option<usize>,
    config: &RequestConfig,
    now_ms: i64,
) -> (r: ArchiveRecord)
    requires
        masking.wf(),
    ensures
        record_matches(r, request, response, *masking, *path_hint, *customer_id, max_capture_size, *config, now_ms),
{
    let hint = match path_hint {
        Some(h) => h.clone(),
        None => match &request.path_hint {
            Some(h) => h.clone(),
            None => String::new(),
        },
    };
    let customer = match customer_id {
        Some(c) => c.clone(),
        None => String::new(),
    };
    let masking_metadata = if masking.is_empty() { None } else { Some(masking.metadata()) };
    let entry = build_entry(request, response, masking, max_capture_size, now_ms);
    ArchiveRecord {
        entry,
        path_hint: hint,
        api_id: config.api_id.clone(),
        version_id: config.version_id.clone(),
        customer_id: customer,
        masking_metadata,
    }
}

/// The state of one request while its handler runs.
#[derive(Debug, Clone)]
pub struct Controller {
    config: RequestConfig,
    request: Option<GenericRequest>,
    masking: Masking,
    path_hint: Option<String>,
    customer_id: Option<String>,
    max_capture_size: Option<usize>,
}

impl Controller {
    pub closed spec fn spec_config(&self) -> RequestConfig {
        self.config
    }

    pub closed spec fn spec_request(&self) -> Option<GenericRequest> {
        self.request
    }

    pub closed spec fn spec_masking(&self) -> Masking {
        self.masking
    }

    pub closed spec fn spec_path_hint(&self) -> Option<String> {
        self.path_hint
    }

    pub closed spec fn spec_customer_id(&self) -> Option<String> {
        self.customer_id
    }

    /// The capture ceiling set by application code, if any.
    pub closed spec fn spec_max_capture_size(&self) -> Option<usize> {
        self.max_capture_size
    }

    /// A controller for a new request under the global policy `masking`.
    pub fn new(config: RequestConfig, masking: Masking) -> (r: Controller)
        ensures
            r.spec_config() == config,
            r.spec_masking() == masking,
            r.spec_request() is None,
            r.spec_path_hint() is None,
            r.spec_customer_id() is None,
            r.spec_max_capture_size() is None,
    {
        Controller { config, request: None, masking, path_hint: None, customer_id: None, max_capture_size: None }
    }

    /// Overrides the path hint of this request with the normalised `path_hint`.
    pub fn set_path_hint(&mut self, path_hint: &str)
        ensures
            final(self).spec_path_hint() matches Some(h) && h@ == normalized(path_hint@),
            final(self).spec_config() == old(self).spec_config(),
            final(self).spec_request() == old(self).spec_request(),
            final(self).spec_masking() == old(self).spec_masking(),
            final(self).spec_customer_id() == old(self).spec_customer_id(),
            final(self).spec_max_capture_size() == old(self).spec_max_capture_size(),
    {
        let hint = normalize_path_hint(string_of(chars_of(path_hint).as_slice()));
        self.path_hint = Some(hint);
    }

    /// Replaces the policy for this request only.
    pub fn set_masking(&mut self, masking: Masking)
        ensures
            final(self).spec_masking() == masking,
            final(self).spec_config() == old(self).spec_config(),
            final(self).spec_request() == old(self).spec_request(),
            final(self).spec_path_hint() == old(self).spec_path_hint(),
            final(self).spec_customer_id() == old(self).spec_customer_id(),
            final(self).spec_max_capture_size() == old(self).spec_max_capture_size(),
    {
        self.masking = masking;
    }

    /// Attaches a customer identifier to this request.
    pub fn set_customer_id(&mut self, customer_id: String)
        ensures
            final(self).spec_customer_id() == Some(customer_id),
            final(self).spec_config() == old(self).spec_config(),
            final(self).spec_request() == old(self).spec_request(),
            final(self).spec_masking() == old(self).spec_masking(),
            final(self).spec_path_hint() == old(self).spec_path_hint(),
            final(self).spec_max_capture_size() == old(self).spec_max_capture_size(),
    {
        self.customer_id = Some(customer_id);
    }

    /// Overrides the capture ceiling of this request.
    pub fn set_max_capture_size(&mut self, max_capture_size: usize)
        ensures
            final(self).spec_max_capture_size() == Some(max_capture_size),
            final(self).spec_config() == old(self).spec_config(),
            final(self).spec_request() == old(self).spec_request(),
            final(self).spec_masking() == old(self).spec_masking(),
            final(self).spec_path_hint() == old(self).spec_path_hint(),
            final(self).spec_customer_id() == old(self).spec_customer_id(),
    {
        self.max_capture_size = Some(max_capture_size);
    }

    /// The ceiling under which bodies of this request are captured: the
    /// override, else 1 MiB.
    pub fn max_capture_size(&self) -> (r: usize)
        ensures
            r == match self.spec_max_capture_size() {
                Some(m) => m,
                None => MAX_SIZE,
            },
    {
        match self.max_capture_size {
            Some(m) => m,
            None => MAX_SIZE,
        }
    }

    /// Stores the captured request.
    pub fn set_request(&mut self, request: GenericRequest)
        ensures
            final(self).spec_request() == Some(request),
            final(self).spec_config() == old(self).spec_config(),
            final(self).spec_masking() == old(self).spec_masking(),
            final(self).spec_path_hint() == old(self).spec_path_hint(),
            final(self).spec_customer_id() == old(self).spec_customer_id(),
            final(self).spec_max_capture_size() == old(self).spec_max_capture_size(),
    {
        self.request = Some(request);
    }

    /// The record of the stored request and its `response`, built at
    /// `now_ms`; without a stored request there is none.
    pub fn build_har(self, response: GenericResponse, now_ms: i64) -> (r: Result<ArchiveRecord, Error>)
        requires
            self.spec_masking().wf(),
        ensures
            self.spec_request() is None <==> r matches Err(Error::RequestNotSaved),
            self.spec_request() is None ==> r is Err,
            self.spec_request() matches Some(request) ==> r matches Ok(record) && record_matches(
                record,
                request,
                response,
                self.spec_masking(),
                self.spec_path_hint(),
                self.spec_customer_id(),
                self.spec_max_capture_size(),
                self.spec_config(),
                now_ms,
            ),
    {
        match self.request {
            Some(request) => Ok(build_record(
                request,
                response,
                &self.masking,
                &self.path_hint,
                &self.customer_id,
                self.max_capture_size,
                &self.config,
                now_ms,
            )),
            None => Err(Error::RequestNotSaved),
        }
    }
}

} // verus!
