use http_cache_semantics::{CacheOptions, Headers, Request, Response};

const NOW: u64 = 1_700_000_000;

fn headers(pairs: &[(&str, &str)]) -> Headers {
    let mut h = Headers::new();
    for (n, v) in pairs {
        h.set(n, v);
    }
    h
}

fn simple_request_for_update() -> Request {
    Request {
        method: "GET".to_string(),
        uri: "/Protocols/rfc2616/rfc2616-sec14.html".to_string(),
        headers: headers(&[("host", "www.w3c.org"), ("connection", "close")]),
    }
}

fn etagged_response() -> Response {
    Response {
        status: 200,
        headers: headers(&[("cache-control", "max-age=111"), ("etag", "\"123456789\"")]),
    }
}

fn assert_updates(
    first_request: Request,
    mut first_response: Response,
    second_request: Request,
    mut second_response: Response,
) {
    first_response.headers.set("foo", "original");
    first_response.headers.set("x-other", "original");

    second_response.headers.set("foo", "updated");
    second_response.headers.set("x-ignore-new", "ignoreme");
    let expected_etag = second_response.headers.get("etag").unwrap().clone();
    second_response.status = 304;

    let mut policy = CacheOptions::default().policy_for(&first_request, &first_response, NOW);
    let _conditional = policy.revalidation_headers(&second_request);

    let valid = policy.is_cached_response_valid(&second_request, &second_response, NOW);
    assert!(valid);

    let headers = policy.response_headers(NOW);
    assert_eq!(headers.get("foo").unwrap().as_str(), "updated");
    assert_eq!(headers.get("x-other").unwrap().as_str(), "original");
    assert!(headers.get("x-ignore-new").is_none());
    assert_eq!(headers.get("etag").unwrap().as_str(), expected_etag.as_str());
}

#[test]
fn test_matching_etags_are_updated() {
    assert_updates(
        simple_request_for_update(),
        etagged_response(),
        simple_request_for_update(),
        etagged_response(),
    );
}

#[test]
fn test_mismatching_etags_are_not_updated() {
    let first_request = simple_request_for_update();
    let mut first_response = etagged_response();
    first_response.headers.set("foo", "original");

    let mut second_response = etagged_response();
    second_response.headers.set("etag", "\"something-else\"");
    second_response.status = 304;

    let mut policy = CacheOptions::default().policy_for(&first_request, &first_response, NOW);
    let valid = policy.is_cached_response_valid(
        &simple_request_for_update(),
        &second_response,
        NOW,
    );

    assert!(!valid);
    assert_eq!(
        policy.response_headers(NOW).get("etag").unwrap().as_str(),
        "\"123456789\""
    );
}

#[test]
fn test_weak_etags_are_not_updated() {
    let first_request = simple_request_for_update();
    let mut first_response = etagged_response();
    first_response.headers.set("etag", "W/\"123456789\"");

    let mut second_response = etagged_response();
    second_response.headers.set("etag", "W/\"123456789\"");
    second_response.status = 304;

    let mut policy = CacheOptions::default().policy_for(&first_request, &first_response, NOW);
    let valid = policy.is_cached_response_valid(
        &simple_request_for_update(),
        &second_response,
        NOW,
    );

    assert!(!valid);
}

#[test]
fn test_matching_last_modified_is_accepted() {
    let first_request = simple_request_for_update();
    let first_response = Response {
        status: 200,
        headers: headers(&[
            ("cache-control", "max-age=111"),
            ("last-modified", "Tue, 15 Nov 1994 12:45:26 GMT"),
        ]),
    };

    let second_response = Response {
        status: 304,
        headers: headers(&[("last-modified", "Tue, 15 Nov 1994 12:45:26 GMT")]),
    };

    let mut policy = CacheOptions::default().policy_for(&first_request, &first_response, NOW);
    assert!(policy.is_cached_response_valid(
        &simple_request_for_update(),
        &second_response,
        NOW,
    ));
}

#[test]
fn test_content_headers_are_not_replaced() {
    let first_request = simple_request_for_update();
    let mut first_response = etagged_response();
    first_response.headers.set("content-length", "10");

    let mut second_response = etagged_response();
    second_response.headers.set("content-length", "0");
    second_response.status = 304;

    let mut policy = CacheOptions::default().policy_for(&first_request, &first_response, NOW);
    assert!(policy.is_cached_response_valid(
        &simple_request_for_update(),
        &second_response,
        NOW,
    ));
    assert_eq!(
        policy.response_headers(NOW).get("content-length").unwrap().as_str(),
        "10"
    );
}
