//! The configured SDK: the global masking policy, the identifiers of the API
//! and the transport that records are handed to.
use vstd::prelude::*;
use crate::masking::Masking;
use crate::{Config, RequestConfig};

verus! {

/// The SDK instance, generic over its transport.
#[derive(Debug, Clone)]
pub struct GenericSpeakeasySdk<T> {
    /// The policy applied to every request that sets no override.
    pub masking: Masking,
    pub config: RequestConfig,
    pub transport: T,
}

impl<T> GenericSpeakeasySdk<T> {
    /// An SDK that hands records to `transport`, with no masking rules.
    pub fn new_with_transport(config: Config, transport: T) -> (r: Self)
        ensures
            r.masking.wf(),
            r.masking.spec_is_empty(),
            r.config.api_id == config.api_id,
            r.config.version_id == config.version_id,
            r.transport == transport,
    {
        let config = RequestConfig::from_config(config);
        GenericSpeakeasySdk { masking: Masking::new(), config, transport }
    }
}

} // verus!
