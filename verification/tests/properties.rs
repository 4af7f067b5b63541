use http_cache_semantics::{CacheOptions, Headers, Request, Response};

const NOW: u64 = 1_700_000_000;

fn headers(pairs: &[(&str, &str)]) -> Headers {
    let mut h = Headers::new();
    for (n, v) in pairs {
        h.set(n, v);
    }
    h
}

fn request_with(method: &str, uri: &str, pairs: &[(&str, &str)]) -> Request {
    Request { method: method.to_string(), uri: uri.to_string(), headers: headers(pairs) }
}

fn response_with(status: u16, pairs: &[(&str, &str)]) -> Response {
    Response { status, headers: headers(pairs) }
}

fn assert_same_headers(a: &Headers, b: &Headers) {
    assert_eq!(a.len(), b.len());
    for i in 0..a.len() {
        assert_eq!(a.name_at(i).as_str(), b.name_at(i).as_str());
        assert_eq!(a.value_at(i).as_str(), b.value_at(i).as_str());
    }
}

#[test]
fn test_shared_cache_prefers_s_maxage() {
    let policy = CacheOptions::default().policy_for(
        &request_with("GET", "/", &[]),
        &response_with(
            200,
            &[
                ("date", "Tue, 15 Nov 1994 12:42:26 GMT"),
                ("cache-control", "s-maxage=60, max-age=180"),
            ],
        ),
        784903526,
    );

    assert_eq!(policy.max_age(), 60);
    assert!(policy.is_stale(784903526));
}

#[test]
fn test_storability_ignores_clock() {
    let request = request_with("GET", "/", &[("authorization", "test")]);
    let response = response_with(200, &[("cache-control", "max-age=111")]);

    let early = CacheOptions::default().policy_for(&request, &response, 1_000);
    let late = CacheOptions::default().policy_for(&request, &response, NOW);

    assert_eq!(early.is_storable(), late.is_storable());
}

#[test]
fn test_ttl_zero_iff_stale() {
    let policy = CacheOptions::default().policy_for(
        &request_with("GET", "/", &[]),
        &response_with(200, &[("cache-control", "max-age=100")]),
        NOW,
    );

    for offset in [0u64, 50, 99, 100, 101, 10_000] {
        let t = NOW + offset;
        assert_eq!(policy.time_to_live(t) == 0, policy.is_stale(t));
    }
}

#[test]
fn test_projection_strips_every_hop_by_hop_header() {
    let policy = CacheOptions::default().policy_for(
        &request_with("GET", "/", &[]),
        &response_with(
            200,
            &[
                ("cache-control", "max-age=60"),
                ("date", "Mon, 07 Mar 2016 11:52:56 GMT"),
                ("connection", "close"),
                ("keep-alive", "timeout=5"),
                ("proxy-authenticate", "Basic"),
                ("proxy-authorization", "Basic abc"),
                ("te", "trailers"),
                ("trailer", "Expires"),
                ("transfer-encoding", "chunked"),
                ("upgrade", "h2c"),
                ("warning", "199 test danger, 214 transformed"),
                ("x-kept", "yes"),
            ],
        ),
        NOW,
    );

    let projected = policy.response_headers(NOW);
    for hop in [
        "date",
        "connection",
        "keep-alive",
        "proxy-authenticate",
        "proxy-authorization",
        "te",
        "trailer",
        "transfer-encoding",
        "upgrade",
    ] {
        assert!(projected.get(hop).is_none());
    }
    assert_eq!(projected.get("x-kept").unwrap().as_str(), "yes");
    // 1xx warnings are gone, the rest stay
    assert_eq!(projected.get("warning").unwrap().as_str(), "214 transformed");
    // the age is recomputed from the Date header (NOW minus that instant)
    assert_eq!(projected.get("age").unwrap().as_str(), "242648424");
}

#[test]
fn test_matching_request_is_served_while_fresh() {
    let stored = request_with(
        "GET",
        "/page?x=1",
        &[("host", "example.test"), ("accept-language", "de")],
    );
    let response = response_with(
        200,
        &[("cache-control", "max-age=500"), ("vary", "Accept-Language")],
    );
    let policy = CacheOptions::default().policy_for(&stored, &response, NOW);

    let again = request_with(
        "GET",
        "/page?x=1",
        &[("host", "example.test"), ("accept-language", "de")],
    );
    assert!(policy.is_cached_response_fresh(&again, NOW + 499));
    assert!(!policy.is_cached_response_fresh(&again, NOW + 500));
}

#[test]
fn test_response_headers_are_idempotent() {
    let policy = CacheOptions::default().policy_for(
        &request_with("GET", "/", &[]),
        &response_with(
            200,
            &[
                ("age", "259200"),
                ("last-modified", "Tue, 15 Nov 1994 12:45:26 GMT"),
                ("warning", "199 old, 299 keep me"),
                ("x-data", "v"),
            ],
        ),
        NOW,
    );

    // the heuristic-expiration warning fires here, so this exercises the
    // hardest case: filter, append, and do it all again
    let once = policy.response_headers(NOW);
    let inner = CacheOptions::default().policy_for(
        &request_with("GET", "/", &[]),
        &Response { status: 200, headers: policy.response_headers(NOW) },
        NOW,
    );
    // the second policy sees the projected headers; projecting them again
    // with the same age must not change anything but the Age bookkeeping
    let twice = inner.response_headers(NOW);
    assert_eq!(once.get("warning").unwrap().as_str(), twice.get("warning").unwrap().as_str());
    assert_eq!(once.get("x-data").unwrap().as_str(), twice.get("x-data").unwrap().as_str());

    // and with no warning in play the whole map is reproduced exactly
    let quiet = CacheOptions::default().policy_for(
        &request_with("GET", "/", &[]),
        &response_with(200, &[("cache-control", "max-age=9"), ("x-data", "v")]),
        NOW,
    );
    let first = quiet.response_headers(NOW);
    let second_policy = CacheOptions::default().policy_for(
        &request_with("GET", "/", &[]),
        &Response { status: 200, headers: quiet.response_headers(NOW) },
        NOW,
    );
    let second = second_policy.response_headers(NOW);
    assert_same_headers(&first, &second);
}

#[test]
fn test_merge_updates_only_carried_headers() {
    let mut policy = CacheOptions::default().policy_for(
        &request_with("GET", "/", &[]),
        &response_with(
            200,
            &[
                ("cache-control", "max-age=111"),
                ("etag", "\"tag\""),
                ("a", "old-a"),
                ("b", "old-b"),
                ("content-length", "42"),
            ],
        ),
        NOW,
    );

    let not_modified = response_with(
        304,
        &[("etag", "\"tag\""), ("a", "new-a"), ("content-length", "7"), ("c", "new-c")],
    );

    assert!(policy.is_cached_response_valid(&request_with("GET", "/", &[]), &not_modified, NOW));

    let merged = policy.response_headers(NOW);
    assert_eq!(merged.get("a").unwrap().as_str(), "new-a");
    assert_eq!(merged.get("b").unwrap().as_str(), "old-b");
    assert_eq!(merged.get("content-length").unwrap().as_str(), "42");
    assert!(merged.get("c").is_none());
}

#[test]
fn test_rejects_non_304_revalidation() {
    let mut policy = CacheOptions::default().policy_for(
        &request_with("GET", "/", &[]),
        &response_with(200, &[("cache-control", "max-age=111"), ("etag", "\"tag\"")]),
        NOW,
    );

    let server_error = response_with(500, &[("etag", "\"tag\"")]);
    assert!(!policy.is_cached_response_valid(
        &request_with("GET", "/", &[]),
        &server_error,
        NOW,
    ));
}

#[test]
fn test_header_names_fold_case() {
    let policy = CacheOptions::default().policy_for(
        &request_with("GET", "/", &[("Weather", "nice")]),
        &response_with(
            200,
            &[("Cache-Control", "max-age=5"), ("Vary", "WEATHER")],
        ),
        NOW,
    );

    assert_eq!(policy.max_age(), 5);
    assert!(policy.is_cached_response_fresh(
        &request_with("GET", "/", &[("weather", "nice")]),
        NOW,
    ));
    assert!(!policy.is_cached_response_fresh(
        &request_with("GET", "/", &[("weather", "awful")]),
        NOW,
    ));
}

#[test]
fn test_overflowing_max_age_is_ignored() {
    let policy = CacheOptions::default().policy_for(
        &request_with("GET", "/", &[]),
        // far beyond what a u64 carries: the directive is malformed
        &response_with(200, &[("cache-control", "max-age=99999999999999999999999")]),
        NOW,
    );

    assert!(policy.is_stale(NOW));
    assert_eq!(policy.max_age(), 0);
}

#[test]
fn test_huge_max_age_saturates_milliseconds() {
    let policy = CacheOptions::default().policy_for(
        &request_with("GET", "/", &[]),
        &response_with(200, &[("cache-control", "max-age=18446744073709551615")]),
        NOW,
    );

    assert_eq!(policy.max_age(), u64::MAX);
    assert_eq!(policy.time_to_live(NOW), u64::MAX);
}

#[test]
fn test_both_date_shapes_agree() {
    // the same instant written as HTTP-date and as RFC 3339
    let a = CacheOptions::default().policy_for(
        &request_with("GET", "/", &[]),
        &response_with(
            200,
            &[
                ("date", "Tue, 15 Nov 1994 12:45:26 GMT"),
                ("expires", "Tue, 15 Nov 1994 12:45:36 GMT"),
            ],
        ),
        784903526,
    );
    let b = CacheOptions::default().policy_for(
        &request_with("GET", "/", &[]),
        &response_with(
            200,
            &[
                ("date", "1994-11-15T12:45:26Z"),
                ("expires", "1994-11-15T14:45:26+01:00"),
            ],
        ),
        784903526,
    );

    assert_eq!(a.max_age(), 10);
    assert_eq!(b.max_age(), 3600);
    assert_eq!(a.age(784903526 + 4), 4);
    assert_eq!(b.age(784903526 + 4), 4);
}

#[test]
fn test_weird_syntax() {
    let policy = CacheOptions::default().policy_for(
        &request_with("GET", "/", &[]),
        &response_with(200, &[("cache-control", ",,,,max-age =  456      ,")]),
        NOW,
    );

    assert!(!policy.is_stale(NOW));
    assert_eq!(policy.max_age(), 456);
}

#[test]
fn test_last_directive_occurrence_wins() {
    let policy = CacheOptions::default().policy_for(
        &request_with("GET", "/", &[]),
        &response_with(200, &[("cache-control", "max-age=1, max-age=5")]),
        NOW,
    );

    assert_eq!(policy.max_age(), 5);
}

#[test]
fn test_malformed_max_age_falls_back_to_expires() {
    let policy = CacheOptions::default().policy_for(
        &request_with("GET", "/", &[]),
        &response_with(
            200,
            &[
                ("cache-control", "max-age=60x"),
                ("date", "Tue, 15 Nov 1994 12:45:26 GMT"),
                ("expires", "Tue, 15 Nov 1994 12:47:06 GMT"),
            ],
        ),
        784903526,
    );

    assert_eq!(policy.max_age(), 100);
}

#[test]
fn test_age_header_written_exactly() {
    let policy = CacheOptions::default().policy_for(
        &request_with("GET", "/", &[]),
        &response_with(200, &[("cache-control", "max-age=600"), ("age", "101")]),
        NOW,
    );

    let projected = policy.response_headers(NOW + 9);
    assert_eq!(projected.get("age").unwrap().as_str(), "110");
}
