//! The mathematical model of the cache policy engine: every decision the
//! engine makes — storability, freshness lifetime, reuse, revalidation
//! headers, header projection, and the `304 Not Modified` merge — is
//! defined here as a specification function over views, and the
//! executable methods are proved equal to these definitions.

use vstd::prelude::*;
use vstd::math::max;

use crate::chars::{all_digits, dec_digits, dec_val, lower_seq};
use crate::date::spec_parse_date;
use crate::directives::{has_dir, dir_lookup, dir_seconds, parse_cc, DirView};
use crate::headers::{hs_wf, lookup, spec_remove, spec_set, HeadersView};
use crate::lists::{join_list, list_has, sep, split_list};
use crate::names::{
    s_accept_ranges, s_age, s_authorization, s_cache_control, s_connection, s_content_encoding,
    s_content_length, s_content_range, s_date, s_delete, s_etag, s_expires, s_get, s_head,
    s_host, s_if_modified_since, s_if_none_match, s_immutable, s_keep_alive, s_last_modified,
    s_max_age, s_max_stale, s_min_fresh, s_must_revalidate, s_no_cache, s_no_store, s_patch,
    s_post, s_post_check, s_pragma, s_pre_check, s_private, s_proxy_authenticate,
    s_proxy_authorization, s_proxy_revalidate, s_public, s_put, s_range, s_s_maxage,
    s_set_cookie, s_te, s_trailer, s_transfer_encoding, s_upgrade, s_vary, s_warn113, s_warning,
};

verus! {

/// The mathematical content of a request.
#[verifier::ext_equal]
pub struct RequestView {
    pub method: Seq<char>,
    pub uri: Seq<char>,
    pub headers: HeadersView,
}

/// The mathematical content of a response.
#[verifier::ext_equal]
pub struct ResponseView {
    pub status: int,
    pub headers: HeadersView,
}

/// The mathematical content of a cache policy.
#[verifier::ext_equal]
pub struct PolicyView {
    /// Method of the originating request, upper-cased.
    pub method: Seq<char>,
    /// URI of the originating request.
    pub uri: Seq<char>,
    /// Snapshot of the originating request's headers.
    pub req_headers: HeadersView,
    /// HTTP status of the stored response.
    pub status: int,
    /// Snapshot of the stored response's headers, after the construction
    /// normalization (see `spec_cleanup`).
    pub resp_headers: HeadersView,
    /// Instant at which the response was received (seconds since epoch).
    pub response_time: int,
    /// Evaluate as a shared cache?
    pub shared: bool,
    /// Disarm `pre-check`/`post-check` cargo-cult anti-cache directives?
    pub ignore_cargo_cult: bool,
    /// Use the server's `Date` header as the base of age math?
    pub trust_server_date: bool,
    /// Heuristic freshness fraction, in thousandths (0 to 1000).
    pub heuristic_permille: int,
    /// Freshness floor for `immutable` responses, in seconds.
    pub immutable_min_ttl: int,
}

// ---------------------------------------------------------------------
// Derived directive lists
// ---------------------------------------------------------------------

/// Does this header map carry `Pragma` with a `no-cache` directive?
pub open spec fn pragma_no_cache(hs: HeadersView) -> bool {
    match lookup(hs, s_pragma()) {
        Some(v) => has_dir(parse_cc(v), s_no_cache()),
        None => false,
    }
}

/// The `Cache-Control` directives of a request's headers.
pub open spec fn cc_of(hs: HeadersView) -> Seq<DirView> {
    match lookup(hs, s_cache_control()) {
        Some(v) => parse_cc(v),
        None => Seq::empty(),
    }
}

/// The effective response directives: parsed `Cache-Control`, or a bare
/// `no-cache` when that header is absent but `Pragma: no-cache` is given.
pub open spec fn resp_cc(p: PolicyView) -> Seq<DirView> {
    match lookup(p.resp_headers, s_cache_control()) {
        Some(v) => parse_cc(v),
        None => if pragma_no_cache(p.resp_headers) {
            seq![DirView { name: s_no_cache(), value: None, raw: s_no_cache() }]
        } else {
            Seq::empty()
        },
    }
}

// ---------------------------------------------------------------------
// Storability
// ---------------------------------------------------------------------

/// Statuses a cache is taken to understand; others are never stored.
pub open spec fn understood(status: int) -> bool {
    ||| status == 200 ||| status == 203 ||| status == 204 ||| status == 300 ||| status == 301
    ||| status == 302 ||| status == 303 ||| status == 307 ||| status == 308 ||| status == 404
    ||| status == 405 ||| status == 410 ||| status == 414 ||| status == 501
}

/// Statuses cacheable without explicit freshness information.
pub open spec fn default_cacheable(status: int) -> bool {
    ||| status == 200 ||| status == 203 ||| status == 204 ||| status == 206 ||| status == 300
    ||| status == 301 ||| status == 404 ||| status == 405 ||| status == 410 ||| status == 414
    ||| status == 501
}

/// Does the response declare an explicit expiration: `s-maxage` (in a
/// shared cache), `max-age`, or an `Expires` header?
pub open spec fn has_explicit_expiration(p: PolicyView) -> bool {
    ||| (p.shared && has_dir(resp_cc(p), s_s_maxage()))
    ||| has_dir(resp_cc(p), s_max_age())
    ||| lookup(p.resp_headers, s_expires()) is Some
}

/// Explicit freshness information of any kind: `Expires`, `max-age`,
/// `s-maxage`, or `public`.  This is what qualifies a `POST` response,
/// or a status outside the default-cacheable set, for storage.
pub open spec fn explicit_freshness(p: PolicyView) -> bool {
    ||| lookup(p.resp_headers, s_expires()) is Some
    ||| has_dir(resp_cc(p), s_max_age())
    ||| has_dir(resp_cc(p), s_s_maxage())
    ||| has_dir(resp_cc(p), s_public())
}

/// An authenticated response may still be stored by a shared cache when
/// the response opts in.
pub open spec fn allows_authenticated(p: PolicyView) -> bool {
    ||| has_dir(resp_cc(p), s_must_revalidate())
    ||| has_dir(resp_cc(p), s_public())
    ||| has_dir(resp_cc(p), s_s_maxage())
}

/// May the response be stored at all?
pub open spec fn spec_storable(p: PolicyView) -> bool {
    &&& !has_dir(cc_of(p.req_headers), s_no_store())
    &&& (p.method == s_get() || p.method == s_head() || (p.method == s_post()
        && explicit_freshness(p)))
    &&& understood(p.status)
    &&& p.status != 206
    &&& !has_dir(resp_cc(p), s_no_store())
    &&& !(p.shared && has_dir(resp_cc(p), s_private()))
    &&& !(p.shared && lookup(p.req_headers, s_authorization()) is Some
        && !allows_authenticated(p))
    &&& !(p.shared && lookup(p.resp_headers, s_set_cookie()) is Some && !(has_dir(
        resp_cc(p),
        s_public(),
    ) || has_dir(resp_cc(p), s_immutable())))
    &&& (default_cacheable(p.status) || explicit_freshness(p))
}

// ---------------------------------------------------------------------
// Age
// ---------------------------------------------------------------------

/// The instant the response was generated: the parsed `Date` header when
/// it is present, well-formed and trusted; the reception time otherwise.
pub open spec fn server_date(p: PolicyView) -> int {
    if !p.trust_server_date {
        p.response_time
    } else {
        match lookup(p.resp_headers, s_date()) {
            Some(v) => match spec_parse_date(v) {
                Some(t) => t,
                None => p.response_time,
            },
            None => p.response_time,
        }
    }
}

/// The `Age` header read as a non-negative count of seconds; malformed
/// or absent values count as zero.
pub open spec fn age_value(p: PolicyView) -> int {
    match lookup(p.resp_headers, s_age()) {
        Some(v) => if all_digits(v) && dec_val(v) <= u64::MAX {
            dec_val(v)
        } else {
            0
        },
        None => 0,
    }
}

/// The response's age when it was received: the larger of the apparent
/// age and the `Age` header.
pub open spec fn initial_age(p: PolicyView) -> int {
    max(max(0, p.response_time - server_date(p)), age_value(p))
}

/// The response's age at `now`, per the RFC 7234 calculation with no
/// request-time tracking.
pub open spec fn current_age(p: PolicyView, now: int) -> int {
    initial_age(p) + max(0, now - p.response_time)
}

// ---------------------------------------------------------------------
// Freshness lifetime
// ---------------------------------------------------------------------

/// Does the stored response's `Vary` list contain `*`?
pub open spec fn vary_star(p: PolicyView) -> bool {
    match lookup(p.resp_headers, s_vary()) {
        Some(v) => list_has(split_list(v), seq!['*']),
        None => false,
    }
}

/// The freshness floor granted by `immutable`.
pub open spec fn immutable_floor(p: PolicyView) -> int {
    if has_dir(resp_cc(p), s_immutable()) {
        p.immutable_min_ttl
    } else {
        0
    }
}

/// The server-declared freshness lifetime when no explicit `s-maxage` or
/// `max-age` applies: `Expires`, else the `Last-Modified` heuristic, else
/// zero — in each case raised to the `immutable` floor.
pub open spec fn heuristic_lifetime(p: PolicyView) -> int {
    let fl = immutable_floor(p);
    match lookup(p.resp_headers, s_expires()) {
        Some(v) => match spec_parse_date(v) {
            Some(e) => max(fl, max(0, e - server_date(p))),
            None => max(fl, 0),
        },
        None => match lookup(p.resp_headers, s_last_modified()) {
            Some(v) => match spec_parse_date(v) {
                Some(lm) => if server_date(p) > lm {
                    max(fl, (server_date(p) - lm) * p.heuristic_permille / 1000)
                } else {
                    max(fl, 0)
                },
                None => max(fl, 0),
            },
            None => max(fl, 0),
        },
    }
}

/// The server-declared freshness lifetime, in seconds.
pub open spec fn spec_max_age(p: PolicyView) -> int {
    if !spec_storable(p) {
        0
    } else if has_dir(resp_cc(p), s_no_cache()) || has_dir(resp_cc(p), s_no_store()) {
        0
    } else if has_dir(cc_of(p.req_headers), s_no_cache()) {
        0
    } else if vary_star(p) {
        0
    } else if p.shared && has_dir(resp_cc(p), s_proxy_revalidate()) {
        0
    } else if p.shared && dir_seconds(resp_cc(p), s_s_maxage()) is Some {
        dir_seconds(resp_cc(p), s_s_maxage()).unwrap()
    } else if dir_seconds(resp_cc(p), s_max_age()) is Some {
        dir_seconds(resp_cc(p), s_max_age()).unwrap()
    } else {
        heuristic_lifetime(p)
    }
}

/// Remaining freshness at `now`, in seconds.
pub open spec fn spec_ttl(p: PolicyView, now: int) -> int {
    max(0, spec_max_age(p) - current_age(p, now))
}

/// Stale means no freshness is left.
pub open spec fn spec_stale(p: PolicyView, now: int) -> bool {
    spec_ttl(p, now) == 0
}

/// Saturation at the largest representable count of a `u64`; ages and
/// lifetimes are reported through it.
pub open spec fn sat64(x: int) -> int {
    if x > u64::MAX {
        u64::MAX as int
    } else {
        x
    }
}

// ---------------------------------------------------------------------
// Matching a new request
// ---------------------------------------------------------------------

/// `Vary` satisfaction: every selected request header must agree between
/// the stored request and the new one, and `*` never matches.
pub open spec fn vary_matches(p: PolicyView, rq: RequestView) -> bool {
    match lookup(p.resp_headers, s_vary()) {
        None => true,
        Some(v) => {
            let names = split_list(v);
            &&& !list_has(names, seq!['*'])
            &&& forall|i: int| 0 <= i < names.len() ==> lookup(
                rq.headers,
                lower_seq(#[trigger] names[i]),
            ) == lookup(p.req_headers, lower_seq(names[i]))
        },
    }
}

/// Does the new request address the stored entry: same method (a new
/// `HEAD` may reuse a stored `GET`), same URI, same `Host`, and `Vary`
/// satisfied?
pub open spec fn request_matches(p: PolicyView, rq: RequestView, allow_head: bool) -> bool {
    &&& (rq.method == p.method || (allow_head && rq.method == s_head() && p.method == s_get()))
    &&& rq.uri == p.uri
    &&& lookup(rq.headers, s_host()) == lookup(p.req_headers, s_host())
    &&& vary_matches(p, rq)
}

/// May a stale response still be served, given the new request's
/// `max-stale` and the response's revalidation requirements?
pub open spec fn stale_allowed(p: PolicyView, rq: RequestView, now: int) -> bool {
    &&& !has_dir(resp_cc(p), s_must_revalidate())
    &&& !(p.shared && has_dir(resp_cc(p), s_proxy_revalidate()))
    &&& match dir_lookup(cc_of(rq.headers), s_max_stale()) {
        Some(None) => true,
        Some(Some(v)) => all_digits(v) && dec_val(v) <= u64::MAX && current_age(p, now)
            - spec_max_age(p) <= dec_val(v),
        None => false,
    }
}

/// May the stored response satisfy the new request without revalidation?
pub open spec fn spec_fresh(p: PolicyView, rq: RequestView, now: int) -> bool {
    let rcc = cc_of(rq.headers);
    &&& request_matches(p, rq, true)
    &&& !has_dir(rcc, s_no_cache())
    &&& !pragma_no_cache(rq.headers)
    &&& match dir_seconds(rcc, s_max_age()) {
        Some(n) => current_age(p, now) <= n,
        None => true,
    }
    &&& match dir_seconds(rcc, s_min_fresh()) {
        Some(n) => spec_ttl(p, now) >= n,
        None => true,
    }
    &&& (spec_stale(p, now) ==> stale_allowed(p, rq, now))
}

// ---------------------------------------------------------------------
// Header projection
// ---------------------------------------------------------------------

/// The hop-by-hop header names, never forwarded from a cache.
pub open spec fn hop_names() -> Seq<Seq<char>> {
    seq![
        s_date(),
        s_connection(),
        s_keep_alive(),
        s_proxy_authenticate(),
        s_proxy_authorization(),
        s_te(),
        s_trailer(),
        s_transfer_encoding(),
        s_upgrade(),
    ]
}

/// Is this (lower-case) name hop-by-hop?
pub open spec fn is_hop(name: Seq<char>) -> bool {
    list_has(hop_names(), name)
}

/// The headers with every hop-by-hop entry removed.
pub open spec fn strip_hop(hs: HeadersView) -> HeadersView
    decreases hs.len(),
{
    if hs.len() == 0 {
        Seq::empty()
    } else {
        let rest = strip_hop(hs.drop_first());
        if is_hop(hs[0].0) {
            rest
        } else {
            seq![hs[0]] + rest
        }
    }
}

/// Keeps the warning entries whose code is not 1xx.
pub open spec fn keep_warnings(ts: Seq<Seq<char>>) -> Seq<Seq<char>>
    decreases ts.len(),
{
    if ts.len() == 0 {
        Seq::empty()
    } else {
        let rest = keep_warnings(ts.drop_first());
        if ts[0].len() > 0 && ts[0][0] == '1' {
            rest
        } else {
            seq![ts[0]] + rest
        }
    }
}

/// Rewrites the `Warning` header: 1xx entries dropped, the header gone
/// when nothing remains.
pub open spec fn filter_warnings(hs: HeadersView) -> HeadersView {
    match lookup(hs, s_warning()) {
        None => hs,
        Some(v) => {
            let kept = keep_warnings(split_list(v));
            if kept.len() == 0 {
                spec_remove(hs, s_warning())
            } else {
                spec_set(hs, s_warning(), join_list(kept))
            }
        },
    }
}

/// Appends the heuristic-expiration warning when asked to.
pub open spec fn with_113(hs: HeadersView, add: bool) -> HeadersView {
    if add {
        match lookup(hs, s_warning()) {
            Some(v) => spec_set(hs, s_warning(), v + sep() + s_warn113()),
            None => spec_set(hs, s_warning(), s_warn113()),
        }
    } else {
        hs
    }
}

/// The full projection of stored response headers for delivery, given the
/// response's age and whether the heuristic warning applies.
pub open spec fn project_headers(hs: HeadersView, age: int, add113: bool) -> HeadersView {
    spec_set(with_113(filter_warnings(strip_hop(hs)), add113), s_age(), dec_digits(age))
}

/// Is the stored response's freshness heuristic and older than a day?
pub open spec fn warn113_due(p: PolicyView, now: int) -> bool {
    current_age(p, now) > 86400 && !has_explicit_expiration(p)
}

/// The headers delivered to a client reading this entry at `now`.  The
/// reported `Age` saturates at what a `u64` can carry.
pub open spec fn spec_response_headers(p: PolicyView, now: int) -> HeadersView {
    project_headers(p.resp_headers, sat64(current_age(p, now)), warn113_due(p, now))
}

// ---------------------------------------------------------------------
// Revalidation headers
// ---------------------------------------------------------------------

/// An entity tag is weak when it is prefixed `W/`.
pub open spec fn is_weak_etag(t: Seq<char>) -> bool {
    t.len() >= 2 && t[0] == 'W' && t[1] == '/'
}

/// Keeps the strong entity tags.
pub open spec fn keep_strong(ts: Seq<Seq<char>>) -> Seq<Seq<char>>
    decreases ts.len(),
{
    if ts.len() == 0 {
        Seq::empty()
    } else {
        let rest = keep_strong(ts.drop_first());
        if is_weak_etag(ts[0]) {
            rest
        } else {
            seq![ts[0]] + rest
        }
    }
}

/// Methods whose conditional revalidation must not rely on weak
/// validators.
pub open spec fn unsafe_method(m: Seq<char>) -> bool {
    m == s_post() || m == s_put() || m == s_delete() || m == s_patch()
}

/// The entity tags to send in `If-None-Match`: those of the new request,
/// then the stored response's `ETag`; weak tags dropped for unsafe
/// methods.
pub open spec fn merged_etags(p: PolicyView, rq: RequestView) -> Seq<Seq<char>> {
    let own = match lookup(rq.headers, s_if_none_match()) {
        Some(v) => split_list(v),
        None => Seq::empty(),
    };
    let all = match lookup(p.resp_headers, s_etag()) {
        Some(t) => own.push(t),
        None => own,
    };
    if unsafe_method(rq.method) {
        keep_strong(all)
    } else {
        all
    }
}

/// Should `If-Modified-Since` be suppressed: `POST`, or a range-flavoured
/// request.
pub open spec fn suppress_ims(rq: RequestView) -> bool {
    ||| rq.method == s_post()
    ||| lookup(rq.headers, s_accept_ranges()) is Some
    ||| lookup(rq.headers, s_range()) is Some
}

/// The headers of the conditional request that revalidates this entry.
pub open spec fn spec_revalidation_headers(p: PolicyView, rq: RequestView) -> HeadersView {
    let base = strip_hop(rq.headers);
    if !request_matches(p, rq, true) {
        spec_remove(spec_remove(base, s_if_none_match()), s_if_modified_since())
    } else {
        let tags = merged_etags(p, rq);
        let with_inm = if tags.len() == 0 {
            spec_remove(base, s_if_none_match())
        } else {
            spec_set(base, s_if_none_match(), join_list(tags))
        };
        if suppress_ims(rq) {
            spec_remove(with_inm, s_if_modified_since())
        } else {
            match lookup(p.resp_headers, s_last_modified()) {
                Some(lm) => spec_set(with_inm, s_if_modified_since(), lm),
                None => with_inm,
            }
        }
    }
}

// ---------------------------------------------------------------------
// Revalidation result: validator check and header merge
// ---------------------------------------------------------------------

/// Does the revalidation response confirm the stored entry: strong
/// `ETag` equality, or `Last-Modified` equality when neither side has an
/// `ETag`?
pub open spec fn validators_match(p: PolicyView, nr: ResponseView) -> bool {
    let se = lookup(p.resp_headers, s_etag());
    let ne = lookup(nr.headers, s_etag());
    ||| (se is Some && ne is Some && se == ne && !is_weak_etag(se.unwrap()))
    ||| (se is None && ne is None && lookup(p.resp_headers, s_last_modified()) is Some
        && lookup(nr.headers, s_last_modified()) == lookup(p.resp_headers, s_last_modified()))
}

/// Headers never replaced by a 304's copy.
pub open spec fn excluded_from_merge(name: Seq<char>) -> bool {
    ||| name == s_content_length()
    ||| name == s_content_encoding()
    ||| name == s_transfer_encoding()
    ||| name == s_content_range()
}

/// The stored headers after merging a 304: each stored header outside the
/// exclusion set is overwritten when the 304 carries it; headers only the
/// 304 carries are not added.
pub open spec fn spec_merge(old: HeadersView, new: HeadersView) -> HeadersView
    decreases old.len(),
{
    if old.len() == 0 {
        Seq::empty()
    } else {
        let e = old[0];
        let e2 = if !excluded_from_merge(e.0) && lookup(new, e.0) is Some {
            (e.0, lookup(new, e.0).unwrap())
        } else {
            e
        };
        seq![e2] + spec_merge(old.drop_first(), new)
    }
}

/// Is a revalidation response a confirmation of the stored entry?
pub open spec fn spec_valid(p: PolicyView, nr: ResponseView) -> bool {
    nr.status == 304 && validators_match(p, nr)
}

// ---------------------------------------------------------------------
// Lemmas about stripping, merging and lookups
// ---------------------------------------------------------------------

/// Well-formedness passes to the tail.
pub proof fn lemma_wf_drop_first(hs: HeadersView)
    requires
        hs_wf(hs),
        hs.len() > 0,
    ensures
        hs_wf(hs.drop_first()),
{
    let t = hs.drop_first();
    assert(forall|k: int| 0 <= k < t.len() ==> t[k] == hs[k + 1]);
}

/// A `None` lookup means no entry carries the name.
pub proof fn lemma_lookup_none_inv(hs: HeadersView, q: Seq<char>)
    requires
        lookup(hs, q) is None,
    ensures
        forall|k: int| 0 <= k < hs.len() ==> (#[trigger] hs[k]).0 != q,
    decreases hs.len(),
{
    if hs.len() > 0 {
        lemma_lookup_none_inv(hs.drop_first(), q);
        assert forall|k: int| 0 <= k < hs.len() implies (#[trigger] hs[k]).0 != q by {
            if k > 0 {
                assert(hs.drop_first()[k - 1] == hs[k]);
                assert(hs.drop_first()[k - 1].0 != q);
            }
        }
    }
}

/// Looking a name up after hop-stripping: hop-by-hop names are gone,
/// everything else is untouched.
pub proof fn lemma_strip_lookup(hs: HeadersView, q: Seq<char>)
    ensures
        lookup(strip_hop(hs), q) == if is_hop(q) {
            None::<Seq<char>>
        } else {
            lookup(hs, q)
        },
    decreases hs.len(),
{
    if hs.len() > 0 {
        lemma_strip_lookup(hs.drop_first(), q);
        let rest = strip_hop(hs.drop_first());
        if is_hop(hs[0].0) {
        } else {
            let st = seq![hs[0]] + rest;
            assert(st[0] == hs[0]);
            assert(st.drop_first() =~= rest);
        }
    }
}

/// Hop-stripping keeps the map well-formed.
pub proof fn lemma_strip_wf(hs: HeadersView)
    requires
        hs_wf(hs),
    ensures
        hs_wf(strip_hop(hs)),
    decreases hs.len(),
{
    if hs.len() > 0 {
        lemma_wf_drop_first(hs);
        lemma_strip_wf(hs.drop_first());
        let rest = strip_hop(hs.drop_first());
        if !is_hop(hs[0].0) {
            let st = seq![hs[0]] + rest;
            assert(forall|k: int| 0 <= k < hs.drop_first().len() ==> hs.drop_first()[k] == hs[
                k + 1
            ]);
            assert(forall|k: int| 0 <= k < hs.drop_first().len()
                ==> (#[trigger] hs.drop_first()[k]).0 != hs[0].0);
            crate::headers::lemma_lookup_none(hs.drop_first(), hs[0].0);
            lemma_strip_lookup(hs.drop_first(), hs[0].0);
            lemma_lookup_none_inv(rest, hs[0].0);
            assert forall|a: int, b: int| 0 <= a < b < st.len() implies st[a].0 != st[b].0 by {
                if a == 0 {
                    assert(st[b] == rest[b - 1]);
                } else {
                    assert(st[a] == rest[a - 1]);
                    assert(st[b] == rest[b - 1]);
                }
            }
            assert(forall|i: int| 0 <= i < st.len() ==> crate::headers::is_lower(
                #[trigger] st[i].0,
            ));
        }
    }
}

/// Hop-stripping distributes over concatenation.
pub proof fn lemma_strip_add(a: HeadersView, b: HeadersView)
    ensures
        strip_hop(a + b) == strip_hop(a) + strip_hop(b),
    decreases a.len(),
{
    if a.len() == 0 {
        assert(a + b =~= b);
        assert(strip_hop(a) + strip_hop(b) =~= strip_hop(b));
    } else {
        assert((a + b)[0] == a[0]);
        assert((a + b).drop_first() =~= a.drop_first() + b);
        lemma_strip_add(a.drop_first(), b);
        if is_hop(a[0].0) {
        } else {
            assert(seq![a[0]] + (strip_hop(a.drop_first()) + strip_hop(b)) =~= (seq![a[0]]
                + strip_hop(a.drop_first())) + strip_hop(b));
        }
    }
}

/// Merging distributes over concatenation of the stored entries.
pub proof fn lemma_merge_add(a: HeadersView, b: HeadersView, new: HeadersView)
    ensures
        spec_merge(a + b, new) == spec_merge(a, new) + spec_merge(b, new),
    decreases a.len(),
{
    if a.len() == 0 {
        assert(a + b =~= b);
        assert(spec_merge(a, new) + spec_merge(b, new) =~= spec_merge(b, new));
    } else {
        assert((a + b)[0] == a[0]);
        assert((a + b).drop_first() =~= a.drop_first() + b);
        lemma_merge_add(a.drop_first(), b, new);
        let e = a[0];
        let e2 = if !excluded_from_merge(e.0) && lookup(new, e.0) is Some {
            (e.0, lookup(new, e.0).unwrap())
        } else {
            e
        };
        assert(seq![e2] + (spec_merge(a.drop_first(), new) + spec_merge(b, new)) =~= (seq![e2]
            + spec_merge(a.drop_first(), new)) + spec_merge(b, new));
    }
}

/// Merging changes values only: same length, same names in order.
pub proof fn lemma_merge_names(old: HeadersView, new: HeadersView)
    ensures
        spec_merge(old, new).len() == old.len(),
        forall|k: int| 0 <= k < old.len() ==> (#[trigger] spec_merge(old, new)[k]).0 == old[
            k
        ].0,
    decreases old.len(),
{
    if old.len() > 0 {
        lemma_merge_names(old.drop_first(), new);
        let m = spec_merge(old, new);
        assert forall|k: int| 0 <= k < old.len() implies (#[trigger] m[k]).0 == old[k].0 by {
            if k > 0 {
                assert(m[k] == spec_merge(old.drop_first(), new)[k - 1]);
                assert(old.drop_first()[k - 1] == old[k]);
            }
        }
    }
}

/// What lookups see through a merge: excluded names and names the 304
/// does not carry read the stored value; the rest read the 304's value —
/// and names the store lacks stay absent.
pub proof fn lemma_merge_lookup(old: HeadersView, new: HeadersView, q: Seq<char>)
    requires
        hs_wf(old),
    ensures
        lookup(spec_merge(old, new), q) == if lookup(old, q) is None {
            None::<Seq<char>>
        } else if !excluded_from_merge(q) && lookup(new, q) is Some {
            lookup(new, q)
        } else {
            lookup(old, q)
        },
    decreases old.len(),
{
    if old.len() > 0 {
        lemma_wf_drop_first(old);
        lemma_merge_lookup(old.drop_first(), new, q);
        let m = spec_merge(old, new);
        let e = old[0];
        let e2 = if !excluded_from_merge(e.0) && lookup(new, e.0) is Some {
            (e.0, lookup(new, e.0).unwrap())
        } else {
            e
        };
        assert(m[0] == e2);
        assert(m.drop_first() =~= spec_merge(old.drop_first(), new));
    }
}

// ---------------------------------------------------------------------
// Construction-time normalization (the cargo-cult exception)
// ---------------------------------------------------------------------

/// Do the anti-cache directives qualify for removal: both `pre-check`
/// and `post-check` present in `Cache-Control`?
pub open spec fn cargo_cult_present(hs: HeadersView) -> bool {
    match lookup(hs, s_cache_control()) {
        Some(v) => has_dir(parse_cc(v), s_pre_check()) && has_dir(parse_cc(v), s_post_check()),
        None => false,
    }
}

/// Directives that survive the cargo-cult removal.
pub open spec fn cc_kept(ds: Seq<DirView>) -> Seq<DirView>
    decreases ds.len(),
{
    if ds.len() == 0 {
        Seq::empty()
    } else {
        let rest = cc_kept(ds.drop_first());
        if ds[0].name == s_pre_check() || ds[0].name == s_post_check() || ds[0].name
            == s_no_cache() || ds[0].name == s_no_store() {
            rest
        } else {
            seq![ds[0]] + rest
        }
    }
}

/// The raw texts of a directive list.
pub open spec fn raw_texts(ds: Seq<DirView>) -> Seq<Seq<char>> {
    ds.map_values(|d: DirView| d.raw)
}

/// The response headers as stored: when the cargo-cult exception fires,
/// the four anti-cache directives leave `Cache-Control` (rebuilt from the
/// raw text of the surviving directives, or dropped entirely), and the
/// `Pragma` and `Expires` headers are dropped.
pub open spec fn spec_cleanup(hs: HeadersView, flag: bool) -> HeadersView {
    if flag && cargo_cult_present(hs) {
        let kept = cc_kept(parse_cc(lookup(hs, s_cache_control()).unwrap()));
        let h1 = if kept.len() == 0 {
            spec_remove(hs, s_cache_control())
        } else {
            spec_set(hs, s_cache_control(), join_list(raw_texts(kept)))
        };
        spec_remove(spec_remove(h1, s_pragma()), s_expires())
    } else {
        hs
    }
}

} // verus!
