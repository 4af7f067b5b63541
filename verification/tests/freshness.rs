use http_cache_semantics::{CacheOptions, Headers, Request, Response};

const NOW: u64 = 1_700_000_000;

fn headers(pairs: &[(&str, &str)]) -> Headers {
    let mut h = Headers::new();
    for (n, v) in pairs {
        h.set(n, v);
    }
    h
}

fn request_with(method: &str, uri: &str, pairs: &[(&str, &str)]) -> Request {
    Request { method: method.to_string(), uri: uri.to_string(), headers: headers(pairs) }
}

fn response_with(status: u16, pairs: &[(&str, &str)]) -> Response {
    Response { status, headers: headers(pairs) }
}

fn civil_from_days(z: i64) -> (i64, i64, i64) {
    let z = z + 719468;
    let era = z / 146097;
    let doe = z - era * 146097;
    let yoe = (doe - doe / 1460 + doe / 36524 - doe / 146096) / 365;
    let y = yoe + era * 400;
    let doy = doe - (365 * yoe + yoe / 4 - yoe / 100);
    let mp = (5 * doy + 2) / 153;
    let d = doy - (153 * mp + 2) / 5 + 1;
    let m = if mp < 10 { mp + 3 } else { mp - 9 };
    (if m <= 2 { y + 1 } else { y }, m, d)
}

fn fmt_date(t: u64) -> String {
    let days = (t / 86400) as i64;
    let secs = t % 86400;
    let (y, m, d) = civil_from_days(days);
    format!(
        "{:04}-{:02}-{:02}T{:02}:{:02}:{:02}Z",
        y,
        m,
        d,
        secs / 3600,
        (secs % 3600) / 60,
        secs % 60
    )
}

fn format_date(delta: i64, unit: i64) -> String {
    fmt_date((NOW as i64 + delta * unit) as u64)
}

#[test]
fn test_simple_miss() {
    let policy = CacheOptions::default().policy_for(
        &request_with("GET", "/", &[]),
        &response_with(200, &[]),
        NOW,
    );

    assert!(policy.is_stale(NOW));
}

#[test]
fn test_simple_hit() {
    let policy = CacheOptions::default().policy_for(
        &request_with("GET", "/", &[]),
        &response_with(200, &[("cache-control", "public, max-age=999999")]),
        NOW,
    );

    assert!(!policy.is_stale(NOW));
    assert_eq!(policy.max_age(), 999999);
}

#[test]
fn test_quoted_syntax() {
    let policy = CacheOptions::default().policy_for(
        &request_with("GET", "/", &[]),
        &response_with(200, &[("cache-control", "  max-age = \"678\"      ")]),
        NOW,
    );

    assert!(!policy.is_stale(NOW));
    assert_eq!(policy.max_age(), 678);
}

#[test]
fn test_iis() {
    let options = CacheOptions { shared: false, ..CacheOptions::default() };
    let policy = options.policy_for(
        &request_with("GET", "/", &[]),
        &response_with(200, &[("cache-control", "private, public, max-age=259200")]),
        NOW,
    );

    assert!(!policy.is_stale(NOW));
    assert_eq!(policy.max_age(), 259200);
}

#[test]
fn test_pre_check_tolerated() {
    let cache_control = "pre-check=0, post-check=0, no-store, no-cache, max-age=100";
    let policy = CacheOptions::default().policy_for(
        &request_with("GET", "/", &[]),
        &response_with(200, &[("cache-control", cache_control)]),
        NOW,
    );

    assert!(policy.is_stale(NOW));
    assert!(!policy.is_storable());
    assert_eq!(policy.max_age(), 0);
    assert_eq!(
        policy.response_headers(NOW).get("cache-control").unwrap().as_str(),
        cache_control
    );
}

#[test]
fn test_pre_check_poison() {
    let options = CacheOptions { ignore_cargo_cult: true, ..CacheOptions::default() };
    let original_cache_control =
        "pre-check=0, post-check=0, no-cache, no-store, max-age=100, custom, foo=bar";

    let policy = options.policy_for(
        &request_with("GET", "/", &[]),
        &response_with(
            200,
            &[("cache-control", original_cache_control), ("pragma", "no-cache")],
        ),
        NOW,
    );

    assert!(!policy.is_stale(NOW));
    assert!(policy.is_storable());
    assert_eq!(policy.max_age(), 100);

    let rh = policy.response_headers(NOW);
    let cc = rh.get("cache-control").unwrap().as_str();
    assert!(!cc.contains("pre-check"));
    assert!(!cc.contains("post-check"));
    assert!(!cc.contains("no-store"));
    assert!(cc.contains("max-age=100"));
    assert!(cc.contains("custom"));
    assert!(cc.contains("foo=bar"));
    assert!(rh.get("pragma").is_none());
}

#[test]
fn test_pre_check_poison_undefined_header() {
    let options = CacheOptions { ignore_cargo_cult: true, ..CacheOptions::default() };
    let original_cache_control = "pre-check=0, post-check=0, no-cache, no-store";

    let policy = options.policy_for(
        &request_with("GET", "/", &[]),
        &response_with(
            200,
            &[("cache-control", original_cache_control), ("expires", "yesterday!")],
        ),
        NOW,
    );

    assert!(policy.is_stale(NOW));
    assert!(policy.is_storable());
    assert_eq!(policy.max_age(), 0);

    let rh = policy.response_headers(NOW);
    assert!(rh.get("cache-control").is_none());
    assert!(rh.get("expires").is_none());
}

#[test]
fn test_cache_with_expires() {
    let policy = CacheOptions::default().policy_for(
        &request_with("GET", "/", &[]),
        &response_with(
            200,
            &[("date", &format_date(0, 1)), ("expires", &format_date(2, 1))],
        ),
        NOW,
    );

    assert!(!policy.is_stale(NOW));
    assert_eq!(policy.max_age(), 2);
}

#[test]
fn test_cache_with_expires_relative_to_date() {
    let policy = CacheOptions::default().policy_for(
        &request_with("GET", "/", &[]),
        &response_with(
            200,
            &[("date", &format_date(-3, 1)), ("expires", &format_date(0, 1))],
        ),
        NOW,
    );

    assert_eq!(policy.max_age(), 3);
}

#[test]
fn test_cache_with_expires_always_relative_to_date() {
    let options = CacheOptions { trust_server_date: false, ..CacheOptions::default() };
    let policy = options.policy_for(
        &request_with("GET", "/", &[]),
        &response_with(
            200,
            &[("date", &format_date(-3, 1)), ("expires", &format_date(0, 1))],
        ),
        NOW,
    );

    // with the server date distrusted, age math runs from the reception
    // time, and an Expires equal to it leaves no freshness
    assert_eq!(policy.max_age(), 0);
}

#[test]
fn test_cache_expires_no_date() {
    let policy = CacheOptions::default().policy_for(
        &request_with("GET", "/", &[]),
        &response_with(
            200,
            &[("cache-control", "public"), ("expires", &format_date(1, 3600))],
        ),
        NOW,
    );

    assert!(!policy.is_stale(NOW));
    assert!(policy.max_age() > 3595);
    assert!(policy.max_age() < 3605);
}

#[test]
fn test_age_can_make_stale() {
    let policy = CacheOptions::default().policy_for(
        &request_with("GET", "/", &[]),
        &response_with(200, &[("cache-control", "max-age=100"), ("age", "101")]),
        NOW,
    );

    assert!(policy.is_stale(NOW));
    assert!(policy.is_storable());
}

#[test]
fn test_age_not_always_stale() {
    let policy = CacheOptions::default().policy_for(
        &request_with("GET", "/", &[]),
        &response_with(200, &[("cache-control", "max-age=20"), ("age", "15")]),
        NOW,
    );

    assert!(!policy.is_stale(NOW));
    assert!(policy.is_storable());
}

#[test]
fn test_bogus_age_ignored() {
    let policy = CacheOptions::default().policy_for(
        &request_with("GET", "/", &[]),
        &response_with(200, &[("cache-control", "max-age=20"), ("age", "golden")]),
        NOW,
    );

    assert!(!policy.is_stale(NOW));
    assert!(policy.is_storable());
}

#[test]
fn test_cache_old_files() {
    let policy = CacheOptions::default().policy_for(
        &request_with("GET", "/", &[]),
        &response_with(
            200,
            &[
                ("date", &format_date(0, 1)),
                ("last-modified", "Mon, 07 Mar 2016 11:52:56 GMT"),
            ],
        ),
        NOW,
    );

    assert!(!policy.is_stale(NOW));
    assert!(policy.max_age() > 100);
}

#[test]
fn test_immutable_simple_hit() {
    let policy = CacheOptions::default().policy_for(
        &request_with("GET", "/", &[]),
        &response_with(200, &[("cache-control", "immutable, max-age=999999")]),
        NOW,
    );

    assert!(!policy.is_stale(NOW));
    assert_eq!(policy.max_age(), 999999);
}

#[test]
fn test_immutable_can_expire() {
    let policy = CacheOptions::default().policy_for(
        &request_with("GET", "/", &[]),
        &response_with(200, &[("cache-control", "immutable, max-age=0")]),
        NOW,
    );

    assert!(policy.is_stale(NOW));
    assert_eq!(policy.max_age(), 0);
}

#[test]
fn test_cache_immutable_files() {
    let policy = CacheOptions::default().policy_for(
        &request_with("GET", "/", &[]),
        &response_with(
            200,
            &[
                ("date", &format_date(0, 1)),
                ("cache-control", "immutable"),
                ("last-modified", &format_date(0, 1)),
            ],
        ),
        NOW,
    );

    assert!(!policy.is_stale(NOW));
    assert!(policy.max_age() > 100);
}

#[test]
fn test_immutable_can_be_off() {
    let options = CacheOptions { immutable_min_time_to_live: 0, ..CacheOptions::default() };
    let policy = options.policy_for(
        &request_with("GET", "/", &[]),
        &response_with(
            200,
            &[
                ("date", &format_date(0, 1)),
                ("cache-control", "immutable"),
                ("last-modified", &format_date(0, 1)),
            ],
        ),
        NOW,
    );

    assert!(policy.is_stale(NOW));
    assert_eq!(policy.max_age(), 0);
}

#[test]
fn test_pragma_no_cache() {
    let policy = CacheOptions::default().policy_for(
        &request_with("GET", "/", &[]),
        &response_with(
            200,
            &[("pragma", "no-cache"), ("last-modified", "Mon, 07 Mar 2016 11:52:56 GMT")],
        ),
        NOW,
    );

    assert!(policy.is_stale(NOW));
}

#[test]
fn test_blank_cache_control_and_pragma_no_cache() {
    let policy = CacheOptions::default().policy_for(
        &request_with("GET", "/", &[]),
        &response_with(
            200,
            &[
                ("cache-control", ""),
                ("pragma", "no-cache"),
                ("last-modified", "Mon, 07 Mar 2016 11:52:56 GMT"),
            ],
        ),
        NOW,
    );

    assert!(!policy.is_stale(NOW));
}

#[test]
fn test_no_store() {
    let policy = CacheOptions::default().policy_for(
        &request_with("GET", "/", &[]),
        &response_with(200, &[("cache-control", "no-store, public, max-age=1")]),
        NOW,
    );

    assert!(policy.is_stale(NOW));
    assert_eq!(policy.max_age(), 0);
}

#[test]
fn test_observe_private_cache() {
    let private_header = "private, max-age=1234";
    let request = request_with("GET", "/", &[]);
    let response = response_with(200, &[("cache-control", private_header)]);

    let shared_policy = CacheOptions::default().policy_for(&request, &response, NOW);
    let unshared_policy = CacheOptions { shared: false, ..CacheOptions::default() }
        .policy_for(&request, &response, NOW);

    assert!(shared_policy.is_stale(NOW));
    assert_eq!(shared_policy.max_age(), 0);
    assert!(!unshared_policy.is_stale(NOW));
    assert_eq!(unshared_policy.max_age(), 1234);
}

#[test]
fn test_do_not_share_cookies() {
    let request = request_with("GET", "/", &[]);
    let response =
        response_with(200, &[("set-cookie", "foo=bar"), ("cache-control", "max-age=99")]);

    let shared_policy = CacheOptions::default().policy_for(&request, &response, NOW);
    let unshared_policy = CacheOptions { shared: false, ..CacheOptions::default() }
        .policy_for(&request, &response, NOW);

    assert!(shared_policy.is_stale(NOW));
    assert_eq!(shared_policy.max_age(), 0);
    assert!(!unshared_policy.is_stale(NOW));
    assert_eq!(unshared_policy.max_age(), 99);
}

#[test]
fn test_do_share_cookies_if_immutable() {
    let policy = CacheOptions::default().policy_for(
        &request_with("GET", "/", &[]),
        &response_with(
            200,
            &[("set-cookie", "foo=bar"), ("cache-control", "immutable, max-age=99")],
        ),
        NOW,
    );

    assert!(!policy.is_stale(NOW));
    assert_eq!(policy.max_age(), 99);
}

#[test]
fn test_cache_explicitly_public_cookie() {
    let policy = CacheOptions::default().policy_for(
        &request_with("GET", "/", &[]),
        &response_with(
            200,
            &[("set-cookie", "foo=bar"), ("cache-control", "max-age=5, public")],
        ),
        NOW,
    );

    assert!(!policy.is_stale(NOW));
    assert_eq!(policy.max_age(), 5);
}

#[test]
fn test_miss_max_age_equals_zero() {
    let policy = CacheOptions::default().policy_for(
        &request_with("GET", "/", &[]),
        &response_with(200, &[("cache-control", "public, max-age=0")]),
        NOW,
    );

    assert!(policy.is_stale(NOW));
    assert_eq!(policy.max_age(), 0);
}

#[test]
fn test_uncacheable_503() {
    let policy = CacheOptions::default().policy_for(
        &request_with("GET", "/", &[]),
        &response_with(503, &[("cache-control", "public, max-age=0")]),
        NOW,
    );

    assert!(policy.is_stale(NOW));
    assert_eq!(policy.max_age(), 0);
}

#[test]
fn test_cacheable_301() {
    let policy = CacheOptions::default().policy_for(
        &request_with("GET", "/", &[]),
        &response_with(301, &[("last-modified", "Mon, 07 Mar 2016 11:52:56 GMT")]),
        NOW,
    );

    assert!(!policy.is_stale(NOW));
}

#[test]
fn test_uncacheable_303() {
    let policy = CacheOptions::default().policy_for(
        &request_with("GET", "/", &[]),
        &response_with(303, &[("last-modified", "Mon, 07 Mar 2016 11:52:56 GMT")]),
        NOW,
    );

    assert!(policy.is_stale(NOW));
    assert_eq!(policy.max_age(), 0);
}

#[test]
fn test_cacheable_303() {
    let policy = CacheOptions::default().policy_for(
        &request_with("GET", "/", &[]),
        &response_with(303, &[("cache-control", "max-age=1000")]),
        NOW,
    );

    assert!(!policy.is_stale(NOW));
}

#[test]
fn test_uncacheable_412() {
    let policy = CacheOptions::default().policy_for(
        &request_with("GET", "/", &[]),
        &response_with(412, &[("cache-control", "public, max-age=1000")]),
        NOW,
    );

    assert!(policy.is_stale(NOW));
    assert_eq!(policy.max_age(), 0);
}

#[test]
fn test_expired_expires_cache_with_max_age() {
    let policy = CacheOptions::default().policy_for(
        &request_with("GET", "/", &[]),
        &response_with(
            200,
            &[
                ("cache-control", "public, max-age=9999"),
                ("expires", "Sat, 07 May 2016 15:35:18 GMT"),
            ],
        ),
        NOW,
    );

    assert!(!policy.is_stale(NOW));
    assert_eq!(policy.max_age(), 9999);
}

#[test]
fn test_expired_expires_cached_with_s_maxage() {
    let request = request_with("GET", "/", &[]);
    let response = response_with(
        200,
        &[
            ("cache-control", "public, s-maxage=9999"),
            ("expires", "Sat, 07 May 2016 15:35:18 GMT"),
        ],
    );

    let shared_policy = CacheOptions::default().policy_for(&request, &response, NOW);
    let unshared_policy = CacheOptions { shared: false, ..CacheOptions::default() }
        .policy_for(&request, &response, NOW);

    assert!(!shared_policy.is_stale(NOW));
    assert_eq!(shared_policy.max_age(), 9999);
    assert!(unshared_policy.is_stale(NOW));
    assert_eq!(unshared_policy.max_age(), 0);
}

#[test]
fn test_max_age_wins_over_future_expires() {
    let policy = CacheOptions::default().policy_for(
        &request_with("GET", "/", &[]),
        &response_with(
            200,
            &[
                ("cache-control", "public, max-age=333"),
                ("expires", &format_date(1, 3600)),
            ],
        ),
        NOW,
    );

    assert!(!policy.is_stale(NOW));
    assert_eq!(policy.max_age(), 333);
}
