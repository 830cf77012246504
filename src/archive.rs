//! The archive record of one request/response exchange, in the shape of a
//! HAR entry.
use vstd::prelude::*;

verus! {

/// The body of an archived request.
#[derive(Debug, Clone)]
pub struct ArchivePostData {
    pub mime_type: String,
    pub text: String,
}

/// The body of an archived response.
#[derive(Debug, Clone)]
pub struct ArchiveContent {
    /// The size of the captured body, or -1 where none was kept.
    pub size: i64,
    pub mime_type: String,
    pub text: Option<String>,
}

/// An archived request. Cookies, headers and query parameters are name/value
/// pairs, their values masked.
#[derive(Debug, Clone)]
pub struct ArchiveRequest {
    pub method: String,
    pub url: String,
    pub http_version: String,
    pub cookies: Vec<(String, String)>,
    pub headers: Vec<(String, String)>,
    pub query_string: Vec<(String, String)>,
    pub headers_size: i64,
    pub body_size: i64,
    pub post_data: Option<ArchivePostData>,
}

/// An archived response.
#[derive(Debug, Clone)]
pub struct ArchiveResponse {
    pub status: u16,
    pub status_text: String,
    pub http_version: String,
    pub cookies: Vec<(String, String)>,
    pub headers: Vec<(String, String)>,
    pub content: ArchiveContent,
    pub redirect_url: Option<String>,
    pub headers_size: i64,
    pub body_size: i64,
}

/// One archived exchange.
#[derive(Debug, Clone)]
pub struct ArchiveEntry {
    /// The start of the exchange, in RFC 3339 form; empty where the time
    /// cannot be written.
    pub started_date_time: String,
    /// The time the exchange took, in milliseconds.
    pub time_ms: i64,
    pub request: ArchiveRequest,
    pub response: ArchiveResponse,
    pub server_ip_address: String,
    pub connection: Option<String>,
    /// `request capture for` and the masked path with its query.
    pub comment: String,
}

} // verus!
