//! Builds the archive record of a request/response pair, masking every
//! capturable value once.
use vstd::prelude::*;
use crate::archive::{ArchiveContent, ArchiveEntry, ArchivePostData, ArchiveRequest, ArchiveResponse};
use crate::capture::BodyCapture;
use crate::generic_http::{find_header, header_lookup, pair_views, GenericCookie, GenericRequest, GenericResponse};
use crate::masking::body_mask::BodyMask;
use crate::masking::generic_mask::{GenericMask, QueryStringMask};
use crate::masking::Masking;
use crate::text::{chars_of, decimal, decimal_of, parse_i64, parsed_i64, same_chars, string_of};

verus! {

/// The text that stands in an archive for a body that was not kept.
pub open spec fn dropped_text() -> Seq<char> {
    "--dropped--"@
}

pub open spec fn json_mime() -> Seq<char> {
    "application/json"@
}

pub open spec fn octet_stream_mime() -> Seq<char> {
    "application/octet-stream"@
}

pub open spec fn content_type_header() -> Seq<char> {
    "content-type"@
}

pub open spec fn content_length_header() -> Seq<char> {
    "content-length"@
}

pub open spec fn location_header() -> Seq<char> {
    "location"@
}

/// The text of a body's bytes, with invalid UTF-8 sequences replaced.
pub uninterp spec fn utf8_lossy(bytes: Seq<u8>) -> Seq<char>;

/// Relies on `String::from_utf8_lossy`: the text of the bytes, invalid
/// sequences replaced by U+FFFD; the result depends on the bytes alone.
#[verifier::external_body]
fn body_text(bytes: &Vec<u8>) -> (r: String)
    ensures
        r@ == utf8_lossy(bytes@),
{
    String::from_utf8_lossy(bytes.as_slice()).into_owned()
}

/// The body state that the archive shows: a captured body longer than an
/// override ceiling set after capture is shown as dropped.
pub open spec fn effective_body(body: BodyCapture, max_capture_size: Option<usize>) -> BodyCapture {
    match (max_capture_size, body) {
        (Some(m), BodyCapture::Captured(b)) => if b@.len() > m {
            BodyCapture::Dropped
        } else {
            body
        },
        _ => body,
    }
}

/// The body state that the archive shows.
pub fn demote_body(body: BodyCapture, max_capture_size: Option<usize>) -> (r: BodyCapture)
    ensures
        r == effective_body(body, max_capture_size),
{
    match (max_capture_size, &body) {
        (Some(m), BodyCapture::Captured(b)) => if b.len() > m {
            BodyCapture::Dropped
        } else {
            body
        },
        _ => body,
    }
}

/// A body's text, masked when its type is JSON.
pub open spec fn shown_text(text: Seq<char>, mime: Seq<char>, masker: BodyMask) -> Seq<char> {
    if mime == json_mime() {
        masker.masked(text)
    } else {
        text
    }
}

/// The archived request body: its type and text.
pub open spec fn post_data_view(body: BodyCapture, headers: Seq<(Seq<char>, Seq<char>)>, masker: BodyMask) -> Option<(Seq<char>, Seq<char>)> {
    match body {
        BodyCapture::Empty => None,
        BodyCapture::Captured(b) => {
            let mime = match header_lookup(headers, content_type_header()) {
                Some(v) => v,
                None => Seq::empty(),
            };
            Some((mime, shown_text(utf8_lossy(b@), mime, masker)))
        },
        BodyCapture::Dropped => {
            let mime = match header_lookup(headers, content_type_header()) {
                Some(v) => v,
                None => octet_stream_mime(),
            };
            Some((mime, dropped_text()))
        },
    }
}

fn text_shown(text: String, mime: &String, masker: &BodyMask) -> (r: String)
    requires
        masker.wf(),
    ensures
        r@ == shown_text(text@, mime@, *masker),
{
    let json = chars_of("application/json");
    if same_chars(&chars_of(mime.as_str()), &json) {
        masker.mask(text.as_str())
    } else {
        text
    }
}

/// The archived request body.
pub fn build_post_data(body: &BodyCapture, headers: &Vec<(String, String)>, masker: &BodyMask) -> (r: Option<ArchivePostData>)
    requires
        masker.wf(),
    ensures
        match r {
            Some(p) => post_data_view(*body, pair_views(headers@), *masker) == Some((p.mime_type@, p.text@)),
            None => post_data_view(*body, pair_views(headers@), *masker) is None,
        },
{
    match body {
        BodyCapture::Empty => None,
        BodyCapture::Captured(b) => {
            let mime = match find_header(headers, "content-type") {
                Some(v) => v.clone(),
                None => String::new(),
            };
            let text = text_shown(body_text(b), &mime, masker);
            Some(ArchivePostData { mime_type: mime, text })
        },
        BodyCapture::Dropped => {
            let mime = match find_header(headers, "content-type") {
                Some(v) => v.clone(),
                None => string_of(chars_of("application/octet-stream").as_slice()),
            };
            let text = string_of(chars_of("--dropped--").as_slice());
            Some(ArchivePostData { mime_type: mime, text })
        },
    }
}

/// The archived response body: its size, type and text.
pub open spec fn content_view(body: BodyCapture, headers: Seq<(Seq<char>, Seq<char>)>, masker: BodyMask) -> (i64, Seq<char>, Option<Seq<char>>) {
    let mime = match header_lookup(headers, content_type_header()) {
        Some(v) => v,
        None => octet_stream_mime(),
    };
    match body {
        BodyCapture::Empty => (-1i64, mime, None),
        BodyCapture::Dropped => (-1i64, mime, Some(dropped_text())),
        BodyCapture::Captured(b) => (b@.len() as i64, mime, Some(shown_text(utf8_lossy(b@), mime, masker))),
    }
}

/// The archived response body.
pub fn build_content(body: &BodyCapture, headers: &Vec<(String, String)>, masker: &BodyMask) -> (r: ArchiveContent)
    requires
        masker.wf(),
    ensures
        content_view(*body, pair_views(headers@), *masker) == (r.size, r.mime_type@, match r.text {
            Some(t) => Some(t@),
            None => None::<Seq<char>>,
        }),
{
    let mime = match find_header(headers, "content-type") {
        Some(v) => v.clone(),
        None => string_of(chars_of("application/octet-stream").as_slice()),
    };
    match body {
        BodyCapture::Empty => ArchiveContent { size: -1, mime_type: mime, text: None },
        BodyCapture::Dropped => ArchiveContent {
            size: -1,
            mime_type: mime,
            text: Some(string_of(chars_of("--dropped--").as_slice())),
        },
        BodyCapture::Captured(b) => {
            let size = b.len() as i64;
            let text = text_shown(body_text(b), &mime, masker);
            ArchiveContent { size, mime_type: mime, text: Some(text) }
        },
    }
}

/// The declared body length: the `content-length` header read as an
/// integer, or -1.
pub open spec fn declared_length(headers: Seq<(Seq<char>, Seq<char>)>) -> i64 {
    match header_lookup(headers, content_length_header()) {
        Some(v) => match parsed_i64(v) {
            Some(n) => n,
            None => -1i64,
        },
        None => -1i64,
    }
}

/// The declared body length, or -1.
pub fn declared_length_of(headers: &Vec<(String, String)>) -> (r: i64)
    ensures
        r == declared_length(pair_views(headers@)),
{
    match find_header(headers, "content-length") {
        Some(v) => match parse_i64(v.as_str()) {
            Some(n) => n,
            None => -1,
        },
        None => -1,
    }
}


/// The view of an optional string.
pub open spec fn opt_view(o: Option<String>) -> Option<Seq<char>> {
    match o {
        Some(s) => Some(s@),
        None => None,
    }
}

/// The decoded query parameters of a URL, in order; `None` where the URL
/// does not parse.
pub uninterp spec fn url_query_pairs(url: Seq<char>) -> Option<Seq<(Seq<char>, Seq<char>)>>;

/// Relies on `url::Url::parse` and `Url::query_pairs`: the query parameters
/// of the URL, percent-decoded, in their order.
#[verifier::external_body]
fn query_pairs_of(url: &str) -> (r: Option<Vec<(String, String)>>)
    ensures
        match r {
            Some(v) => url_query_pairs(url@) == Some(pair_views(v@)),
            None => url_query_pairs(url@) is None,
        },
{
    match url::Url::parse(url) {
        Ok(u) => Some(u.query_pairs().map(|(k, v)| (k.into_owned(), v.into_owned())).collect()),
        Err(_) => None,
    }
}

/// The path and the query of a URL once its query is replaced by the
/// form-encoded `pairs`; `None` where the URL does not parse.
pub uninterp spec fn url_with_query(url: Seq<char>, pairs: Seq<(Seq<char>, Seq<char>)>) -> Option<(Seq<char>, Option<Seq<char>>)>;

/// Relies on `url::Url::parse`, `Url::query_pairs_mut`, `Url::path` and
/// `Url::query`: the URL's query is cleared and refilled with the pairs.
#[verifier::external_body]
fn path_and_query_with(url: &str, pairs: &Vec<(String, String)>) -> (r: Option<(String, Option<String>)>)
    ensures
        match r {
            Some((p, q)) => url_with_query(url@, pair_views(pairs@)) == Some((p@, opt_view(q))),
            None => url_with_query(url@, pair_views(pairs@)) is None,
        },
{
    match url::Url::parse(url) {
        Ok(mut u) => {
            u.query_pairs_mut().clear().extend_pairs(pairs.iter().map(|p| (p.0.as_str(), p.1.as_str())));
            Some((u.path().to_string(), u.query().map(|q| q.to_string())))
        },
        Err(_) => None,
    }
}

/// The canonical reason phrase of a status code; `None` where the code is
/// not a valid status or has no canonical phrase.
pub uninterp spec fn status_reason(code: u16) -> Option<Seq<char>>;

/// Relies on `http::StatusCode::from_u16` and `StatusCode::canonical_reason`.
#[verifier::external_body]
fn canonical_reason_of(code: u16) -> (r: Option<String>)
    ensures
        opt_view(r) == status_reason(code),
{
    match http::StatusCode::from_u16(code) {
        Ok(status) => status.canonical_reason().map(|reason| reason.to_string()),
        Err(_) => None,
    }
}

/// The status line text: the code and its reason phrase.
pub open spec fn status_text(code: u16) -> Seq<char> {
    decimal(code as int) + " "@ + match status_reason(code) {
        Some(reason) => reason,
        None => "<unknown status code>"@,
    }
}

fn concat_chars(a: &Vec<char>, b: &Vec<char>) -> (r: Vec<char>)
    ensures
        r@ == a@ + b@,
{
    let mut r: Vec<char> = Vec::new();
    let mut i: usize = 0;
    while i < a.len()
        invariant
            i <= a@.len(),
            r@ == a@.take(i as int),
        decreases a@.len() - i,
    {
        r.push(a[i]);
        assert(a@.take(i as int).push(a@[i as int]) =~= a@.take(i as int + 1));
        i = i + 1;
    }
    let mut j: usize = 0;
    assert(a@.take(a@.len() as int) =~= a@);
    while j < b.len()
        invariant
            j <= b@.len(),
            r@ == a@ + b@.take(j as int),
        decreases b@.len() - j,
    {
        r.push(b[j]);
        assert(b@.take(j as int).push(b@[j as int]) =~= b@.take(j as int + 1));
        j = j + 1;
    }
    assert(b@.take(b@.len() as int) =~= b@);
    r
}

/// The status line text of `code`.
pub fn status_text_of(code: u16) -> (r: String)
    ensures
        r@ == status_text(code),
{
    let reason = match canonical_reason_of(code) {
        Some(reason) => chars_of(reason.as_str()),
        None => chars_of("<unknown status code>"),
    };
    let head = concat_chars(&decimal_of(code as i32), &chars_of(" "));
    string_of(concat_chars(&head, &reason).as_slice())
}

/// The start of an exchange in RFC 3339 form, from milliseconds since the
/// Unix epoch; `None` where the time is out of range.
pub uninterp spec fn rfc3339_of_millis(ms: i64) -> Option<Seq<char>>;

/// Relies on `chrono::DateTime::from_timestamp_millis` and
/// `DateTime::to_rfc3339`.
#[verifier::external_body]
fn rfc3339_of(ms: i64) -> (r: Option<String>)
    ensures
        opt_view(r) == rfc3339_of_millis(ms),
{
    match chrono::DateTime::<chrono::Utc>::from_timestamp_millis(ms) {
        Some(time) => Some(time.to_rfc3339()),
        None => None,
    }
}

/// Name/value pairs with each value masked by `mask`.
pub open spec fn masked_pairs<T>(pairs: Seq<(Seq<char>, Seq<char>)>, mask: GenericMask<T>) -> Seq<(Seq<char>, Seq<char>)> {
    Seq::new(pairs.len(), |j: int| (pairs[j].0, mask.masked(pairs[j].0, pairs[j].1)))
}

/// The name and value of each cookie.
pub open spec fn cookie_pairs(cookies: Seq<GenericCookie>) -> Seq<(Seq<char>, Seq<char>)> {
    cookies.map_values(|c: GenericCookie| (c.name@, c.value@))
}

/// Name/value pairs with each value masked.
pub fn mask_pairs<T>(pairs: &Vec<(String, String)>, mask: &GenericMask<T>) -> (r: Vec<(String, String)>)
    requires
        mask.wf(),
    ensures
        pair_views(r@) == masked_pairs(pair_views(pairs@), *mask),
{
    let mut r: Vec<(String, String)> = Vec::new();
    let mut j: usize = 0;
    while j < pairs.len()
        invariant
            mask.wf(),
            j <= pairs@.len(),
            r@.len() == j,
            forall|i: int| 0 <= i < j ==> (#[trigger] r@[i]).0@ == pairs@[i].0@ && r@[i].1@ == mask.masked(pairs@[i].0@, pairs@[i].1@),
        decreases pairs@.len() - j,
    {
        let value = mask.mask(pairs[j].0.as_str(), pairs[j].1.as_str());
        r.push((pairs[j].0.clone(), value));
        j = j + 1;
    }
    assert(pair_views(r@) =~= masked_pairs(pair_views(pairs@), *mask));
    r
}

/// The name and masked value of each cookie.
pub fn mask_cookies<T>(cookies: &Vec<GenericCookie>, mask: &GenericMask<T>) -> (r: Vec<(String, String)>)
    requires
        mask.wf(),
    ensures
        pair_views(r@) == masked_pairs(cookie_pairs(cookies@), *mask),
{
    let mut r: Vec<(String, String)> = Vec::new();
    let mut j: usize = 0;
    while j < cookies.len()
        invariant
            mask.wf(),
            j <= cookies@.len(),
            r@.len() == j,
            forall|i: int| 0 <= i < j ==> (#[trigger] r@[i]).0@ == cookies@[i].name@ && r@[i].1@ == mask.masked(cookies@[i].name@, cookies@[i].value@),
        decreases cookies@.len() - j,
    {
        let c = &cookies[j];
        let value = mask.mask(c.name.as_str(), c.value.as_str());
        r.push((c.name.clone(), value));
        j = j + 1;
    }
    assert(pair_views(r@) =~= masked_pairs(cookie_pairs(cookies@), *mask));
    r
}

/// The masked query parameters of the request URL.
pub open spec fn query_view(full_url: Option<String>, mask: GenericMask<QueryStringMask>) -> Seq<(Seq<char>, Seq<char>)> {
    match full_url {
        Some(u) => match url_query_pairs(u@) {
            Some(pairs) => masked_pairs(pairs, mask),
            None => Seq::empty(),
        },
        None => Seq::empty(),
    }
}

/// The path of the request with its masked query, as the archive shows it.
pub open spec fn path_with_query(full_url: Option<String>, path: Seq<char>, mask: GenericMask<QueryStringMask>) -> Seq<char> {
    match full_url {
        Some(u) => match url_query_pairs(u@) {
            Some(pairs) => match url_with_query(u@, masked_pairs(pairs, mask)) {
                Some((p, Some(q))) => if q.len() == 0 { p } else { p + "?"@ + q },
                Some((p, None)) => p,
                None => path,
            },
            None => path,
        },
        None => path,
    }
}

/// The masked query parameters and the masked path with query.
fn masked_url(full_url: &Option<String>, path: &String, mask: &GenericMask<QueryStringMask>) -> (r: (Vec<(String, String)>, String))
    requires
        mask.wf(),
    ensures
        pair_views(r.0@) == query_view(*full_url, *mask),
        r.1@ == path_with_query(*full_url, path@, *mask),
{
    match full_url {
        Some(u) => match query_pairs_of(u.as_str()) {
            Some(pairs) => {
                let masked = mask_pairs(&pairs, mask);
                let shown = match path_and_query_with(u.as_str(), &masked) {
                    Some((p, Some(q))) => if q.unicode_len() == 0 {
                        p
                    } else {
                        let head = concat_chars(&chars_of(p.as_str()), &chars_of("?"));
                        string_of(concat_chars(&head, &chars_of(q.as_str())).as_slice())
                    },
                    Some((p, None)) => p,
                    None => path.clone(),
                };
                (masked, shown)
            },
            None => {
                let v: Vec<(String, String)> = Vec::new();
                assert(pair_views(v@) =~= Seq::empty());
                (v, path.clone())
            },
        },
        None => {
            let v: Vec<(String, String)> = Vec::new();
            assert(pair_views(v@) =~= Seq::empty());
            (v, path.clone())
        },
    }
}

/// The time between two instants in milliseconds, as a magnitude.
pub open spec fn elapsed(start_ms: i64, now_ms: i64) -> i64 {
    let d = now_ms - start_ms;
    let m = if d < 0 { -d } else { d };
    if m > i64::MAX { i64::MAX } else { m as i64 }
}

fn elapsed_of(start_ms: i64, now_ms: i64) -> (r: i64)
    ensures
        r == elapsed(start_ms, now_ms),
{
    let d: i128 = now_ms as i128 - start_ms as i128;
    let m: i128 = if d < 0 { 0 - d } else { d };
    if m > i64::MAX as i128 { i64::MAX } else { m as i64 }
}

/// The archived request.
pub open spec fn request_matches(r: ArchiveRequest, request: GenericRequest, masking: Masking, max_capture_size: Option<usize>) -> bool {
    let body = effective_body(request.body, max_capture_size);
    let headers = pair_views(request.headers@);
    &&& r.method@ == request.method@
    &&& r.url@ == path_with_query(request.full_url, request.path@, masking.query_string())
    &&& r.http_version@ == request.http_version@
    &&& pair_views(r.cookies@) == masked_pairs(cookie_pairs(request.cookies@), masking.request_cookie())
    &&& pair_views(r.headers@) == masked_pairs(headers, masking.request_header())
    &&& pair_views(r.query_string@) == query_view(request.full_url, masking.query_string())
    &&& r.headers_size == request.headers_size
    &&& r.body_size == if body is Empty { -1i64 } else { declared_length(headers) }
    &&& match r.post_data {
        Some(p) => post_data_view(body, headers, masking.request_body()) == Some((p.mime_type@, p.text@)),
        None => post_data_view(body, headers, masking.request_body()) is None,
    }
}

/// The archived response.
pub open spec fn response_matches(r: ArchiveResponse, response: GenericResponse, masking: Masking, max_capture_size: Option<usize>) -> bool {
    let body = effective_body(response.body, max_capture_size);
    let headers = pair_views(response.headers@);
    &&& r.status == response.status
    &&& r.status_text@ == status_text(response.status)
    &&& r.http_version@ == response.http_version@
    &&& pair_views(r.cookies@) == masked_pairs(cookie_pairs(response.cookies@), masking.response_cookie())
    &&& pair_views(r.headers@) == masked_pairs(headers, masking.response_header())
    &&& content_view(body, headers, masking.response_body()) == (r.content.size, r.content.mime_type@, opt_view(r.content.text))
    &&& opt_view(r.redirect_url) == match header_lookup(headers, location_header()) {
        Some(v) => if v.len() == 0 { None } else { Some(v) },
        None => None,
    }
    &&& r.headers_size == response.headers_size
    &&& r.body_size == if response.status == 304 { 0i64 } else { declared_length(headers) }
}

/// The archive entry of a request/response pair under `masking`; `now_ms` is
/// the time of building, `max_capture_size` a ceiling set after capture.
pub open spec fn entry_matches(r: ArchiveEntry, request: GenericRequest, response: GenericResponse, masking: Masking, max_capture_size: Option<usize>, now_ms: i64) -> bool {
    &&& request_matches(r.request, request, masking, max_capture_size)
    &&& response_matches(r.response, response, masking, max_capture_size)
    &&& r.started_date_time@ == match rfc3339_of_millis(request.start_time_ms) {
        Some(s) => s,
        None => Seq::empty(),
    }
    &&& r.time_ms == elapsed(request.start_time_ms, now_ms)
    &&& r.server_ip_address@ == request.host@
    &&& opt_view(r.connection) == match request.port {
        Some(p) => Some(decimal(p as int)),
        None => None,
    }
    &&& r.comment@ == "request capture for "@ + path_with_query(request.full_url, request.path@, masking.query_string())
}

/// Builds the archive entry of a request/response pair.
pub fn build_entry(request: GenericRequest, response: GenericResponse, masking: &Masking, max_capture_size: Option<usize>, now_ms: i64) -> (r: ArchiveEntry)
    requires
        masking.wf(),
    ensures
        entry_matches(r, request, response, *masking, max_capture_size, now_ms),
{
    let ghost req0 = request;
    let ghost resp0 = response;
    let (query_string, url) = masked_url(&request.full_url, &request.path, masking.query_string_rules());
    let request_body = demote_body(request.body, max_capture_size);
    let body_size = match request_body {
        BodyCapture::Empty => -1,
        _ => declared_length_of(&request.headers),
    };
    let post_data = build_post_data(&request_body, &request.headers, masking.request_body_rules());
    let comment = string_of(concat_chars(&chars_of("request capture for "), &chars_of(url.as_str())).as_slice());
    let archived_request = ArchiveRequest {
        method: request.method,
        url,
        http_version: request.http_version,
        cookies: mask_cookies(&request.cookies, masking.request_cookie_rules()),
        headers: mask_pairs(&request.headers, masking.request_header_rules()),
        query_string,
        headers_size: request.headers_size,
        body_size,
        post_data,
    };
    let response_body = demote_body(response.body, max_capture_size);
    let content = build_content(&response_body, &response.headers, masking.response_body_rules());
    let redirect_url = match find_header(&response.headers, "location") {
        Some(v) => if v.unicode_len() == 0 { None } else { Some(v.clone()) },
        None => None,
    };
    let archived_response = ArchiveResponse {
        status: response.status,
        status_text: status_text_of(response.status),
        http_version: response.http_version,
        cookies: mask_cookies(&response.cookies, masking.response_cookie_rules()),
        headers: mask_pairs(&response.headers, masking.response_header_rules()),
        content,
        redirect_url,
        headers_size: response.headers_size,
        body_size: if response.status == 304 { 0 } else { declared_length_of(&response.headers) },
    };
    let started_date_time = match rfc3339_of(request.start_time_ms) {
        Some(s) => s,
        None => String::new(),
    };
    let connection = match request.port {
        Some(p) => Some(string_of(decimal_of(p as i32).as_slice())),
        None => None,
    };
    ArchiveEntry {
        started_date_time,
        time_ms: elapsed_of(request.start_time_ms, now_ms),
        request: archived_request,
        response: archived_response,
        server_ip_address: request.host,
        connection,
        comment,
    }
}

} // verus!
