//! Capture, masking and correlation of HTTP traffic for an archive pipeline.
//!
//! The library holds the logic of the pipeline: the masking engine that
//! redacts values in JSON bodies and in flat key/value collections, the
//! state machine that captures a streamed body under a size ceiling, the
//! normalisation of route templates, the per-request controller and the
//! correlation store that pair a request with its response, and the builder
//! of the archive record.
use vstd::prelude::*;

pub mod text;
pub mod masking;
pub mod path_hint;
pub mod capture;
pub mod generic_http;
pub mod archive;
pub mod har_builder;
pub mod controller;
pub mod middleware;
pub mod sdk;
pub mod transport;

pub use masking::Masking;
pub use masking::option::{NumberMaskingOption, StringMaskingOption};
pub use masking::fields::Fields;
pub use controller::Controller;

verus! {

/// Why a record could not be built or sent.
#[derive(Debug)]
pub enum Error {
    /// The API key cannot stand in a header.
    InvalidApiKey(String),
    /// A response came without the request it answers.
    RequestNotSaved,
    /// The ingestion server address is unusable.
    InvalidServerError(String),
    /// The access token service refused or failed.
    UnableToGetEmbeddedAccessToken(String),
}

/// What identifies the API whose traffic is captured.
#[derive(Debug, Clone)]
pub struct Config {
    pub api_key: String,
    pub api_id: String,
    pub version_id: String,
}

/// The part of the configuration that travels with each record.
#[derive(Debug, Clone)]
pub struct RequestConfig {
    pub api_id: String,
    pub version_id: String,
}

impl RequestConfig {
    /// The identifiers of `config`.
    pub fn from_config(config: Config) -> (r: RequestConfig)
        ensures
            r.api_id == config.api_id,
            r.version_id == config.version_id,
    {
        RequestConfig { api_id: config.api_id, version_id: config.version_id }
    }
}

impl From<Config> for RequestConfig {
    fn from(config: Config) -> (r: RequestConfig) {
        RequestConfig { api_id: config.api_id, version_id: config.version_id }
    }
}

impl vstd::std_specs::convert::FromSpecImpl<Config> for RequestConfig {
    open spec fn obeys_from_spec() -> bool {
        true
    }

    open spec fn from_spec(config: Config) -> RequestConfig {
        RequestConfig { api_id: config.api_id, version_id: config.version_id }
    }
}

} // verus!
