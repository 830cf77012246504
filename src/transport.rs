//! The hand-off of records to the ingestion service.
use vstd::prelude::*;
use crate::masking::MaskingMetadata;

verus! {

/// What the ingestion service receives: the archive as JSON text and its
/// tracking envelope.
#[derive(Debug, Clone)]
pub struct IngestRequest {
    pub har: String,
    pub path_hint: String,
    pub api_id: String,
    pub version_id: String,
    pub customer_id: String,
    pub masking_metadata: Option<MaskingMetadata>,
}

/// Delivers records; implemented by the real client and by test doubles.
pub trait Transport {
    fn send(&self, request: IngestRequest) -> Result<(), String>;
}

/// A transport that accepts every record and keeps none.
#[derive(Debug, Clone)]
pub struct GrpcMock {}

impl GrpcMock {
    pub fn new() -> (r: GrpcMock) {
        GrpcMock {}
    }
}

impl Transport for GrpcMock {
    fn send(&self, request: IngestRequest) -> (r: Result<(), String>) {
        Ok(())
    }
}

} // verus!
