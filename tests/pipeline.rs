use speakeasy_rust_sdk::capture::{capture_stream, BodyCapture, MAX_SIZE};
use speakeasy_rust_sdk::controller::{ArchiveRecord, Controller};
use speakeasy_rust_sdk::generic_http::{GenericCookie, GenericRequest, GenericResponse};
use speakeasy_rust_sdk::har_builder::{build_entry, status_text_of};
use speakeasy_rust_sdk::middleware::controller::State;
use speakeasy_rust_sdk::middleware::messages::{ControllerMessage, MiddlewareMessage};
use speakeasy_rust_sdk::middleware::host_extract::{parse_forwarded, Host};
use speakeasy_rust_sdk::middleware::request_id::RequestId;
use speakeasy_rust_sdk::sdk::GenericSpeakeasySdk;
use speakeasy_rust_sdk::text::parse_i64;
use speakeasy_rust_sdk::transport::{GrpcMock, IngestRequest, Transport};
use speakeasy_rust_sdk::{Config, Error, Fields, Masking, NumberMaskingOption, RequestConfig, StringMaskingOption};

fn s(v: &str) -> String {
    v.to_string()
}

fn config() -> RequestConfig {
    RequestConfig { api_id: s("api"), version_id: s("v1") }
}

fn cookie(name: &str, value: &str) -> GenericCookie {
    GenericCookie {
        name: s(name),
        value: s(value),
        path: None,
        domain: None,
        expires_ms: None,
        http_only: None,
        secure: None,
    }
}

fn request(body: BodyCapture) -> GenericRequest {
    GenericRequest {
        start_time_ms: 1_577_840_400_000,
        path_hint: Some(s("/test/{id}")),
        full_url: Some(s("http://localhost:8080/test/1?password=hunter2&q=ok")),
        method: s("POST"),
        host: s("localhost"),
        path: s("/test/1"),
        http_version: s("HTTP/1.1"),
        headers: vec![
            (s("content-type"), s("application/json")),
            (s("content-length"), s("28")),
            (s("x-api-key"), s("secret-key")),
        ],
        headers_size: 120,
        cookies: vec![cookie("session", "abc"), cookie("theme", "dark")],
        port: Some(8080),
        body,
    }
}

fn response(body: BodyCapture) -> GenericResponse {
    GenericResponse {
        status: 200,
        http_version: s("HTTP/1.1"),
        headers: vec![(s("content-type"), s("application/json")), (s("location"), s(""))],
        headers_size: 40,
        cookies: vec![cookie("session", "xyz")],
        body,
    }
}

fn policy() -> Masking {
    let mut masking = Masking::default();
    masking.with_query_string_mask(Fields::new(vec![s("password")]), StringMaskingOption::DefaultMask);
    masking.with_request_header_mask(Fields::new(vec![s("x-api-key")]), StringMaskingOption::SingleMask(s("***")));
    masking.with_request_cookie_mask(Fields::new(vec![s("session")]), StringMaskingOption::DefaultMask);
    masking.with_response_cookie_mask(Fields::new(vec![s("session")]), StringMaskingOption::SingleMask(s("gone")));
    masking
        .with_request_field_mask_string(Fields::new(vec![s("password")]), StringMaskingOption::DefaultMask)
        .unwrap();
    masking
        .with_response_field_mask_number(Fields::new(vec![s("balance")]), NumberMaskingOption::DefaultMask)
        .unwrap();
    masking
}

#[test]
fn archive_entry_masks_every_category() {
    let req = request(BodyCapture::Captured(br#"{"password": "hunter2", "a": 1}"#.to_vec()));
    let resp = response(BodyCapture::Captured(br#"{"balance": 1000}"#.to_vec()));
    let entry = build_entry(req, resp, &policy(), None, 1_577_840_400_250);
    assert_eq!(entry.time_ms, 250);
    assert_eq!(entry.started_date_time, "2020-01-01T01:00:00+00:00");
    assert_eq!(entry.server_ip_address, "localhost");
    assert_eq!(entry.connection, Some(s("8080")));
    assert_eq!(entry.request.url, "/test/1?password=__masked__&q=ok");
    assert_eq!(entry.comment, "request capture for /test/1?password=__masked__&q=ok");
    assert_eq!(
        entry.request.query_string,
        vec![(s("password"), s("__masked__")), (s("q"), s("ok"))]
    );
    assert_eq!(entry.request.headers[2], (s("x-api-key"), s("***")));
    assert_eq!(entry.request.headers[0], (s("content-type"), s("application/json")));
    assert_eq!(entry.request.cookies, vec![(s("session"), s("__masked__")), (s("theme"), s("dark"))]);
    assert_eq!(entry.request.body_size, 28);
    let post = entry.request.post_data.unwrap();
    assert_eq!(post.mime_type, "application/json");
    assert_eq!(post.text, r#"{"password": "__masked__", "a": 1}"#);
    assert_eq!(entry.response.status, 200);
    assert_eq!(entry.response.status_text, "200 OK");
    assert_eq!(entry.response.cookies, vec![(s("session"), s("gone"))]);
    assert_eq!(entry.response.content.size, 17);
    assert_eq!(entry.response.content.text, Some(s(r#"{"balance": -12321}"#)));
    assert_eq!(entry.response.redirect_url, None);
    assert_eq!(entry.response.body_size, -1);
}

#[test]
fn dropped_bodies_show_the_placeholder() {
    let mut req = request(BodyCapture::Dropped);
    req.headers.remove(0);
    let entry = build_entry(req, response(BodyCapture::Dropped), &policy(), None, 0);
    let post = entry.request.post_data.unwrap();
    assert_eq!(post.mime_type, "application/octet-stream");
    assert_eq!(post.text, "--dropped--");
    assert_eq!(entry.response.content.size, -1);
    assert_eq!(entry.response.content.text, Some(s("--dropped--")));
}

#[test]
fn late_ceiling_demotes_captured_bodies() {
    let req = request(BodyCapture::Captured(b"0123456789".to_vec()));
    let entry = build_entry(req, response(BodyCapture::Empty), &Masking::default(), Some(4), 0);
    assert_eq!(entry.request.post_data.unwrap().text, "--dropped--");
    assert_eq!(entry.response.content.size, -1);
    assert_eq!(entry.response.content.text, None);
}

#[test]
fn non_json_bodies_are_not_masked() {
    let mut req = request(BodyCapture::Captured(br#"{"password": "x"}"#.to_vec()));
    req.headers[0].1 = s("text/plain");
    let entry = build_entry(req, response(BodyCapture::Empty), &policy(), None, 0);
    assert_eq!(entry.request.post_data.unwrap().text, r#"{"password": "x"}"#);
}

#[test]
fn status_texts() {
    assert_eq!(status_text_of(404), "404 Not Found");
    assert_eq!(status_text_of(304), "304 Not Modified");
    assert_eq!(status_text_of(599), "599 <unknown status code>");
}

#[test]
fn integers_read_as_std_does() {
    assert_eq!(parse_i64("28"), Some(28));
    assert_eq!(parse_i64("+7"), Some(7));
    assert_eq!(parse_i64("-9223372036854775808"), Some(i64::MIN));
    assert_eq!(parse_i64("9223372036854775808"), None);
    assert_eq!(parse_i64("99999999999999999999999"), None);
    assert_eq!(parse_i64(""), None);
    assert_eq!(parse_i64("-"), None);
    assert_eq!(parse_i64("1a"), None);
}

#[test]
fn controller_builds_one_record_per_request() {
    let mut controller = Controller::new(config(), policy());
    controller.set_customer_id(s("customer-1"));
    controller.set_path_hint("/test/:id");
    assert_eq!(controller.max_capture_size(), 1024 * 1024);
    controller.set_max_capture_size(8);
    assert_eq!(controller.max_capture_size(), 8);
    controller.set_request(request(BodyCapture::Captured(b"0123456789".to_vec())));
    let record: ArchiveRecord = controller.build_har(response(BodyCapture::Empty), 5).unwrap();
    assert_eq!(record.path_hint, "/test/{id}");
    assert_eq!(record.customer_id, "customer-1");
    assert_eq!(record.api_id, "api");
    assert_eq!(record.version_id, "v1");
    assert!(record.masking_metadata.is_some());
    assert_eq!(record.entry.request.post_data.unwrap().text, "--dropped--");
}

#[test]
fn controller_without_request_builds_nothing() {
    let controller = Controller::new(config(), Masking::default());
    assert!(matches!(controller.build_har(response(BodyCapture::Empty), 0), Err(Error::RequestNotSaved)));
}

#[test]
fn controller_override_policy_and_defaults() {
    let mut controller = Controller::new(config(), policy());
    controller.set_masking(Masking::default());
    controller.set_request(request(BodyCapture::Empty));
    let record = controller.build_har(response(BodyCapture::Empty), 0).unwrap();
    assert!(record.masking_metadata.is_none());
    assert_eq!(record.path_hint, "/test/{id}");
    assert_eq!(record.customer_id, "");
    assert_eq!(record.entry.request.post_data.is_none(), true);
    assert_eq!(record.entry.request.body_size, -1);
}

#[test]
fn store_pairs_each_response_with_its_request() {
    let mut store = State::new(config(), policy());
    let id = || RequestId::new(s("req-1"));
    assert!(store
        .handle_message(MiddlewareMessage::Request { request_id: id(), request: request(BodyCapture::Empty) }, 0)
        .is_none());
    assert!(store
        .handle_message(
            MiddlewareMessage::ControllerMessage(ControllerMessage::path_hint(id(), "/x/:y")),
            0
        )
        .is_none());
    assert!(store
        .handle_message(
            MiddlewareMessage::ControllerMessage(ControllerMessage::SetCustomerId { request_id: id(), customer_id: s("c") }),
            0
        )
        .is_none());
    let record = store
        .handle_message(MiddlewareMessage::Response { request_id: id(), response: response(BodyCapture::Empty) }, 0)
        .unwrap();
    assert_eq!(record.path_hint, "/x/{y}");
    assert_eq!(record.customer_id, "c");
    let again = store.handle_message(
        MiddlewareMessage::Response { request_id: id(), response: response(BodyCapture::Empty) },
        0,
    );
    assert!(again.is_none());
}

#[test]
fn store_ignores_unknown_responses() {
    let mut store = State::new(config(), Masking::default());
    let r = store.handle_message(
        MiddlewareMessage::Response { request_id: RequestId::new(s("nobody")), response: response(BodyCapture::Empty) },
        0,
    );
    assert!(r.is_none());
}

#[test]
fn sdk_and_mock_transport() {
    let sdk = GenericSpeakeasySdk::new_with_transport(
        Config { api_key: s("k"), api_id: s("api"), version_id: s("v") },
        GrpcMock::new(),
    );
    assert!(sdk.masking.is_empty());
    assert_eq!(sdk.config.api_id, "api");
    let sent = sdk.transport.send(IngestRequest {
        har: s("{}"),
        path_hint: s(""),
        api_id: s("api"),
        version_id: s("v"),
        customer_id: s(""),
        masking_metadata: None,
    });
    assert!(sent.is_ok());
    assert_eq!(RequestId::new(s("id")).to_string(), "id");
}

#[test]
fn oversized_request_body_is_dropped_and_archived_as_placeholder() {
    let chunks: Vec<Vec<u8>> = (0..2).map(|_| vec![b'x'; MAX_SIZE]).collect();
    let (state, delivered) = capture_stream(MAX_SIZE, Some(2 * MAX_SIZE as u64), chunks);
    assert_eq!(state, BodyCapture::Dropped);
    assert_eq!(delivered.len(), 2 * 1024 * 1024);
    assert!(delivered.iter().all(|b| *b == b'x'));
    let mut controller = Controller::new(config(), Masking::default());
    controller.set_request(request(state));
    let record = controller.build_har(response(BodyCapture::Empty), 0).unwrap();
    let post = record.entry.request.post_data.unwrap();
    assert_eq!(post.text, "--dropped--");
    assert_eq!(post.mime_type, "application/json");
}

#[test]
fn forwarded_header_names_the_host() {
    assert_eq!(parse_forwarded("for=1.2.3.4;host=example.com, for=5.6.7.8;host=other"), Some(s("example.com")));
    assert_eq!(parse_forwarded("for=1.2.3.4; Host = \"quoted.example\" ;proto=https"), Some(s("quoted.example")));
    assert_eq!(parse_forwarded("for=1.2.3.4;proto=https"), None);
    assert_eq!(parse_forwarded("for=1.2.3.4, host=late.example"), None);
    assert_eq!(parse_forwarded(""), None);
    assert_eq!(Host(s("h")).take_string(), "h");
}
