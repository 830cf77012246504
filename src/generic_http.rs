//! Snapshots of a request and of a response, as framework adapters hand
//! them over.
use vstd::prelude::*;
use crate::capture::BodyCapture;
use crate::text::{chars_of, same_chars};

verus! {

/// A cookie of a request or a response.
#[derive(Debug, Clone)]
pub struct GenericCookie {
    pub name: String,
    pub value: String,
    pub path: Option<String>,
    pub domain: Option<String>,
    /// The expiry, in milliseconds since the Unix epoch.
    pub expires_ms: Option<i64>,
    pub http_only: Option<bool>,
    pub secure: Option<bool>,
}

/// A captured request. Header names are lower case, as HTTP libraries
/// normalise them; header values are text.
#[derive(Debug, Clone)]
pub struct GenericRequest {
    /// When capture started, in milliseconds since the Unix epoch.
    pub start_time_ms: i64,
    /// The route template that the framework matched, normalised.
    pub path_hint: Option<String>,
    pub full_url: Option<String>,
    pub method: String,
    pub host: String,
    pub path: String,
    pub http_version: String,
    pub headers: Vec<(String, String)>,
    /// The size of the header block as the adapter measured it.
    pub headers_size: i64,
    pub cookies: Vec<GenericCookie>,
    pub port: Option<u16>,
    pub body: BodyCapture,
}

/// A captured response.
#[derive(Debug, Clone)]
pub struct GenericResponse {
    pub status: u16,
    pub http_version: String,
    pub headers: Vec<(String, String)>,
    /// The size of the header block as the adapter measured it.
    pub headers_size: i64,
    pub cookies: Vec<GenericCookie>,
    pub body: BodyCapture,
}

/// The views of a list of name/value pairs.
pub open spec fn pair_views(v: Seq<(String, String)>) -> Seq<(Seq<char>, Seq<char>)> {
    v.map_values(|p: (String, String)| (p.0@, p.1@))
}

/// The value of the first header named `name`.
pub open spec fn header_lookup(headers: Seq<(Seq<char>, Seq<char>)>, name: Seq<char>) -> Option<Seq<char>>
    decreases headers.len(),
{
    if headers.len() == 0 {
        None
    } else if headers[0].0 == name {
        Some(headers[0].1)
    } else {
        header_lookup(headers.drop_first(), name)
    }
}

/// The value of the first header named `name`.
pub fn find_header<'a>(headers: &'a Vec<(String, String)>, name: &str) -> (r: Option<&'a String>)
    ensures
        match r {
            Some(v) => header_lookup(pair_views(headers@), name@) == Some(v@),
            None => header_lookup(pair_views(headers@), name@) is None,
        },
{
    let key = chars_of(name);
    let ghost hs = pair_views(headers@);
    let mut j: usize = 0;
    assert(hs.skip(0) =~= hs);
    while j < headers.len()
        invariant
            j <= headers@.len(),
            hs == pair_views(headers@),
            key@ == name@,
            header_lookup(hs, key@) == header_lookup(hs.skip(j as int), key@),
        decreases headers@.len() - j,
    {
        assert(hs.skip(j as int)[0] == hs[j as int]);
        assert(hs.skip(j as int).drop_first() =~= hs.skip(j as int + 1));
        let n = chars_of(headers[j].0.as_str());
        if same_chars(&n, &key) {
            return Some(&headers[j].1);
        }
        j = j + 1;
    }
    None
}

} // verus!
