use http_cache_semantics::{CacheOptions, CachePolicy, Headers, Request, Response};

const NOW: u64 = 1_700_000_000;

fn headers(pairs: &[(&str, &str)]) -> Headers {
    let mut h = Headers::new();
    for (n, v) in pairs {
        h.set(n, v);
    }
    h
}

fn request_with(method: &str, uri: &str, pairs: &[(&str, &str)]) -> Request {
    Request { method: method.to_string(), uri: uri.to_string(), headers: headers(pairs) }
}

fn response_with(status: u16, pairs: &[(&str, &str)]) -> Response {
    Response { status, headers: headers(pairs) }
}

fn simple_request() -> Request {
    request_with(
        "GET",
        "/Protocols/rfc2616/rfc2616-sec14.html",
        &[
            ("host", "www.w3c.org"),
            ("connection", "close"),
            ("x-custom", "yes"),
        ],
    )
}

fn etag_value() -> &'static str {
    "\"123456789\""
}

fn cacheable_header() -> &'static str {
    "max-age=111"
}

fn last_modified_time() -> &'static str {
    "Tue, 15 Nov 1994 12:45:26 GMT"
}

fn simple_request_with_etagged_response() -> CachePolicy {
    CacheOptions::default().policy_for(
        &simple_request(),
        &response_with(200, &[("cache-control", cacheable_header()), ("etag", etag_value())]),
        NOW,
    )
}

fn simple_request_with_cacheable_response() -> CachePolicy {
    CacheOptions::default().policy_for(
        &simple_request(),
        &response_with(200, &[("cache-control", cacheable_header())]),
        NOW,
    )
}

fn simple_request_with_always_variable_response() -> CachePolicy {
    CacheOptions::default().policy_for(
        &simple_request(),
        &response_with(200, &[("cache-control", cacheable_header()), ("vary", "*")]),
        NOW,
    )
}

fn assert_headers_passed(headers: &Headers) {
    assert!(headers.get("connection").is_none());
    assert_eq!(headers.get("x-custom").unwrap().as_str(), "yes");
}

fn assert_no_validators(headers: &Headers) {
    assert!(headers.get("if-none-match").is_none());
    assert!(headers.get("if-modified-since").is_none());
}

#[test]
fn test_ok_if_method_changes_to_head() {
    let policy = simple_request_with_etagged_response();

    let mut head = simple_request();
    head.method = "HEAD".to_string();
    let headers = policy.revalidation_headers(&head);

    assert_headers_passed(&headers);
    assert_eq!(headers.get("if-none-match").unwrap().as_str(), "\"123456789\"");
}

#[test]
fn test_not_if_method_mismatch_other_than_head() {
    let policy = simple_request_with_etagged_response();

    let mut incoming = simple_request();
    incoming.method = "POST".to_string();
    let headers = policy.revalidation_headers(&incoming);

    assert_headers_passed(&headers);
    assert_no_validators(&headers);
}

#[test]
fn test_not_if_url_mismatch() {
    let policy = simple_request_with_etagged_response();

    let mut incoming = simple_request();
    incoming.uri = "/yomomma".to_string();
    let headers = policy.revalidation_headers(&incoming);

    assert_headers_passed(&headers);
    assert_no_validators(&headers);
}

#[test]
fn test_not_if_host_mismatch() {
    let policy = simple_request_with_etagged_response();

    let mut incoming = simple_request();
    incoming.headers.set("host", "www.w4c.org");
    let headers = policy.revalidation_headers(&incoming);

    assert_headers_passed(&headers);
    assert_no_validators(&headers);
}

#[test]
fn test_not_if_vary_fields_prevent() {
    let policy = simple_request_with_always_variable_response();

    let headers = policy.revalidation_headers(&simple_request());

    assert_headers_passed(&headers);
    assert_no_validators(&headers);
}

#[test]
fn test_when_entity_tag_validator_is_present() {
    let policy = simple_request_with_etagged_response();

    let headers = policy.revalidation_headers(&simple_request());

    assert_headers_passed(&headers);
    assert_eq!(headers.get("if-none-match").unwrap().as_str(), "\"123456789\"");
}

#[test]
fn test_skips_weak_validators_on_post() {
    let mut post_request = simple_request();
    post_request.method = "POST".to_string();
    post_request.headers.set("if-none-match", "W/\"weak\", \"strong\", W/\"weak2\"");

    let policy = CacheOptions::default().policy_for(
        &post_request,
        &response_with(
            200,
            &[
                ("cache-control", cacheable_header()),
                ("last-modified", last_modified_time()),
                ("etag", etag_value()),
            ],
        ),
        NOW,
    );

    let headers = policy.revalidation_headers(&post_request);

    assert_eq!(
        headers.get("if-none-match").unwrap().as_str(),
        "\"strong\", \"123456789\""
    );
    assert!(headers.get("if-modified-since").is_none());
}

#[test]
fn test_skips_weak_validators_on_post_2() {
    let mut post_request = simple_request();
    post_request.method = "POST".to_string();
    post_request.headers.set("if-none-match", "W/\"weak\"");

    let policy = CacheOptions::default().policy_for(
        &post_request,
        &response_with(
            200,
            &[("cache-control", cacheable_header()), ("last-modified", last_modified_time())],
        ),
        NOW,
    );

    let headers = policy.revalidation_headers(&post_request);

    assert!(headers.get("if-none-match").is_none());
    assert!(headers.get("if-modified-since").is_none());
}

#[test]
fn test_merges_validators() {
    let mut request = simple_request();
    request.headers.set("if-none-match", "W/\"weak\", \"strong\", W/\"weak2\"");

    let policy = CacheOptions::default().policy_for(
        &request,
        &response_with(
            200,
            &[
                ("cache-control", cacheable_header()),
                ("last-modified", last_modified_time()),
                ("etag", etag_value()),
            ],
        ),
        NOW,
    );

    let headers = policy.revalidation_headers(&request);

    assert_eq!(
        headers.get("if-none-match").unwrap().as_str(),
        "W/\"weak\", \"strong\", W/\"weak2\", \"123456789\""
    );
    assert_eq!(headers.get("if-modified-since").unwrap().as_str(), last_modified_time());
}

#[test]
fn test_when_last_modified_validator_is_present() {
    let policy = CacheOptions::default().policy_for(
        &simple_request(),
        &response_with(
            200,
            &[("cache-control", cacheable_header()), ("last-modified", last_modified_time())],
        ),
        NOW,
    );

    let headers = policy.revalidation_headers(&simple_request());

    assert_headers_passed(&headers);
    assert_eq!(headers.get("if-modified-since").unwrap().as_str(), last_modified_time());

    let projected = policy.response_headers(NOW);
    match projected.get("warning") {
        Some(w) => assert!(!w.contains("113")),
        None => {},
    }
}

#[test]
fn test_not_without_validators() {
    let policy = simple_request_with_cacheable_response();
    let headers = policy.revalidation_headers(&simple_request());

    assert_headers_passed(&headers);
    assert_no_validators(&headers);

    let projected = policy.response_headers(NOW);
    match projected.get("warning") {
        Some(w) => assert!(!w.contains("113")),
        None => {},
    }
}

#[test]
fn test_113_added() {
    let very_old_response = response_with(
        200,
        &[("age", "259200"), ("last-modified", last_modified_time())],
    );
    let policy = CacheOptions::default().policy_for(&simple_request(), &very_old_response, NOW);

    let projected = policy.response_headers(NOW);

    assert!(projected.get("warning").unwrap().contains("113"));
}

#[test]
fn test_removes_warnings() {
    let policy = CacheOptions::default().policy_for(
        &request_with("GET", "/", &[]),
        &response_with(200, &[("warning", "199 test danger")]),
        NOW,
    );

    assert!(policy.response_headers(NOW).get("warning").is_none());
}

#[test]
fn test_get_headers_deletes_cached_100_level_warnings() {
    let policy = CacheOptions::default().policy_for(
        &request_with("GET", "/", &[]),
        &response_with(200, &[("warning", "199 test danger, 200 ok ok")]),
        NOW,
    );

    assert_eq!(policy.response_headers(NOW).get("warning").unwrap().as_str(), "200 ok ok");
}

#[test]
fn test_must_contain_any_etag() {
    let policy = CacheOptions::default().policy_for(
        &simple_request(),
        &response_with(
            200,
            &[
                ("cache-control", cacheable_header()),
                ("last-modified", last_modified_time()),
                ("etag", etag_value()),
            ],
        ),
        NOW,
    );

    let headers = policy.revalidation_headers(&simple_request());

    assert_eq!(headers.get("if-none-match").unwrap().as_str(), etag_value());
}

#[test]
fn test_merges_etags() {
    let policy = simple_request_with_etagged_response();

    let mut incoming = simple_request();
    incoming.headers.set("host", "www.w3c.org");
    incoming.headers.set("if-none-match", "\"foo\", \"bar\"");
    let headers = policy.revalidation_headers(&incoming);

    assert_eq!(
        headers.get("if-none-match").unwrap().as_str(),
        format!("\"foo\", \"bar\", {}", etag_value()).as_str()
    );
}

#[test]
fn test_should_send_the_last_modified_value() {
    let policy = CacheOptions::default().policy_for(
        &simple_request(),
        &response_with(
            200,
            &[
                ("cache-control", cacheable_header()),
                ("last-modified", last_modified_time()),
                ("etag", etag_value()),
            ],
        ),
        NOW,
    );

    let headers = policy.revalidation_headers(&simple_request());

    assert_eq!(headers.get("if-modified-since").unwrap().as_str(), last_modified_time());
}

#[test]
fn test_should_not_send_the_last_modified_value_for_post() {
    let post_request = request_with(
        "POST",
        "/",
        &[("if-modified-since", "yesterday")],
    );

    let policy = CacheOptions::default().policy_for(
        &post_request,
        &response_with(
            200,
            &[("cache-control", cacheable_header()), ("last-modified", last_modified_time())],
        ),
        NOW,
    );

    let headers = policy.revalidation_headers(&post_request);

    assert!(headers.get("if-modified-since").is_none());
}

#[test]
fn test_should_not_send_the_last_modified_value_for_range_request() {
    let range_request = request_with(
        "GET",
        "/",
        &[("accept-ranges", "1-3"), ("if-modified-since", "yesterday")],
    );

    let policy = CacheOptions::default().policy_for(
        &range_request,
        &response_with(
            200,
            &[("cache-control", cacheable_header()), ("last-modified", last_modified_time())],
        ),
        NOW,
    );

    let headers = policy.revalidation_headers(&range_request);

    assert!(headers.get("if-modified-since").is_none());
}
