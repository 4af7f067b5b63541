//! The executable cache policy: construction and the decision methods,
//! each proved equal to its specification in `model`.

use vstd::prelude::*;

use crate::directives::{parse_cc_exec, dir_has, dir_seconds_exec, dir_value, Directive,
    DirView};
use crate::headers::{hs_wf, lookup, Headers, HeadersView};
use crate::lists::{join_list_exec, list_has_exec, split_list, split_list_exec};
use crate::model::{age_value, cargo_cult_present, cc_kept, cc_of, current_age,
    has_explicit_expiration, pragma_no_cache, raw_texts, resp_cc, sat64, server_date,
    spec_cleanup, spec_max_age, spec_stale, spec_storable, spec_ttl, PolicyView, RequestView,
    ResponseView};
use crate::names::lemma_lower_names;
use crate::strutil::{eq_str, parse_u64, to_upper_string};
use crate::date::parse_date;

verus! {

/// Configuration of the cache on whose behalf policies are evaluated.
/// The fields mirror RFC 7234's notions; fractions are expressed in
/// thousandths so that all arithmetic stays exact.
#[derive(Clone, Copy)]
pub struct CacheOptions {
    /// Evaluate as a shared cache (honor `s-maxage`, reject `private`,
    /// reject `Set-Cookie` without `public`/`immutable`).  `false` means
    /// a private, single-user cache.
    pub shared: bool,
    /// When `true`, a response carrying both `pre-check` and `post-check`
    /// has those and its other anti-cache directives ignored and removed.
    pub ignore_cargo_cult: bool,
    /// When `false`, the server's `Date` header is ignored and the
    /// reception time is the base of all age math.
    pub trust_server_date: bool,
    /// Fraction of the time since `Last-Modified` used as heuristic
    /// freshness, in thousandths (values above 1000 count as 1000).
    pub cache_heuristic_permille: u64,
    /// Freshness floor, in seconds, granted to responses marked
    /// `immutable` when no explicit `max-age` applies.
    pub immutable_min_time_to_live: u64,
}

impl Default for CacheOptions {
    /// A shared cache, a 10% heuristic, one day of `immutable` freshness.
    fn default() -> (r: CacheOptions)
        ensures
            r.shared == true,
            r.ignore_cargo_cult == false,
            r.trust_server_date == true,
            r.cache_heuristic_permille == 100,
            r.immutable_min_time_to_live == 86400,
    {
        CacheOptions {
            shared: true,
            ignore_cargo_cult: false,
            trust_server_date: true,
            cache_heuristic_permille: 100,
            immutable_min_time_to_live: 86400,
        }
    }
}

/// A request as the engine sees it: method, target URI, headers.
pub struct Request {
    pub method: String,
    pub uri: String,
    pub headers: Headers,
}

impl View for Request {
    type V = RequestView;

    open spec fn view(&self) -> RequestView {
        RequestView { method: self.method@, uri: self.uri@, headers: self.headers@ }
    }
}

impl Request {
    /// Valid when its header map is.
    pub open spec fn wf(&self) -> bool {
        hs_wf(self.headers@)
    }
}

/// A response as the engine sees it: status and headers.
pub struct Response {
    pub status: u16,
    pub headers: Headers,
}

impl View for Response {
    type V = ResponseView;

    open spec fn view(&self) -> ResponseView {
        ResponseView { status: self.status as int, headers: self.headers@ }
    }
}

impl Response {
    /// Valid when its header map is.
    pub open spec fn wf(&self) -> bool {
        hs_wf(self.headers@)
    }
}

/// A cache policy: the stored judgement about one (request, response)
/// pair, from which every later decision is answered.
pub struct CachePolicy {
    method: String,
    uri: String,
    req_headers: Headers,
    status: u16,
    resp_headers: Headers,
    response_time: u64,
    shared: bool,
    ignore_cargo_cult: bool,
    trust_server_date: bool,
    heuristic_permille: u64,
    immutable_min_ttl: u64,
}

impl View for CachePolicy {
    type V = PolicyView;

    closed spec fn view(&self) -> PolicyView {
        PolicyView {
            method: self.method@,
            uri: self.uri@,
            req_headers: self.req_headers@,
            status: self.status as int,
            resp_headers: self.resp_headers@,
            response_time: self.response_time as int,
            shared: self.shared,
            ignore_cargo_cult: self.ignore_cargo_cult,
            trust_server_date: self.trust_server_date,
            heuristic_permille: self.heuristic_permille as int,
            immutable_min_ttl: self.immutable_min_ttl as int,
        }
    }
}

impl CachePolicy {
    /// Valid when both header snapshots are, and the heuristic fraction
    /// is a true fraction.
    pub open spec fn wf(&self) -> bool {
        &&& hs_wf(self@.req_headers)
        &&& hs_wf(self@.resp_headers)
        &&& 0 <= self@.heuristic_permille <= 1000
    }
}

/// The raw texts of the directives surviving the cargo-cult removal,
/// starting at position `i`.
fn kept_raws_from(ds: &Vec<Directive>, i: usize) -> (r: Vec<String>)
    requires
        i <= ds.len(),
    ensures
        r.deep_view() == raw_texts(cc_kept(ds.deep_view().skip(i as int))),
    decreases ds.len() - i,
{
    if i == ds.len() {
        let r: Vec<String> = Vec::new();
        proof {
            assert(ds.deep_view().skip(i as int) =~= Seq::<DirView>::empty());
            assert(r.deep_view() =~~= raw_texts(cc_kept(ds.deep_view().skip(i as int))));
        }
        r
    } else {
        let mut rest = kept_raws_from(ds, i + 1);
        proof {
            let dv = ds.deep_view();
            assert(dv.skip(i as int)[0] == dv[i as int]);
            assert(dv.skip(i as int).drop_first() =~= dv.skip(i as int + 1));
        }
        let keep = {
            let d = &ds[i];
            !(crate::strutil::eq_str(d.name.as_str(), "pre-check") || crate::strutil::eq_str(
                d.name.as_str(),
                "post-check",
            ) || crate::strutil::eq_str(d.name.as_str(), "no-cache") || crate::strutil::eq_str(
                d.name.as_str(),
                "no-store",
            ))
        };
        if keep {
            let mut r: Vec<String> = Vec::new();
            r.push(ds[i].raw.clone());
            r.append(&mut rest);
            proof {
                let dv = ds.deep_view();
                let tail = cc_kept(dv.skip(i as int + 1));
                assert(cc_kept(dv.skip(i as int)) =~= seq![dv[i as int]] + tail);
                assert(raw_texts(seq![dv[i as int]] + tail) =~= seq![dv[i as int].raw]
                    + raw_texts(tail));
                assert(r.deep_view() =~= seq![dv[i as int].raw] + raw_texts(tail));
            }
            r
        } else {
            proof {
                assert(rest.deep_view() =~~= raw_texts(cc_kept(ds.deep_view().skip(i as int))));
            }
            rest
        }
    }
}

/// Applies the construction-time normalization to response headers.
fn cleanup_headers(h: &Headers, flag: bool) -> (r: Headers)
    requires
        hs_wf(h@),
    ensures
        hs_wf(r@),
        r@ == spec_cleanup(h@, flag),
{
    proof {
        lemma_lower_names();
    }
    if !flag {
        return h.duplicate();
    }
    let cc: String = match h.get("cache-control") {
        Some(v) => v.clone(),
        None => {
            return h.duplicate();
        },
    };
    let ds = parse_cc_exec(cc.as_str());
    if !(dir_has(&ds, "pre-check") && dir_has(&ds, "post-check")) {
        return h.duplicate();
    }
    let raws = kept_raws_from(&ds, 0);
    proof {
        assert(ds.deep_view().skip(0) =~= ds.deep_view());
        assert(cargo_cult_present(h@));
    }
    let mut out = h.duplicate();
    if raws.len() == 0 {
        out.remove("cache-control");
    } else {
        let joined = join_list_exec(&raws);
        out.set("cache-control", joined.as_str());
    }
    out.remove("pragma");
    out.remove("expires");
    out
}

/// The request-side `Cache-Control` directives of a header map.
fn cc_of_exec(h: &Headers) -> (ds: Vec<Directive>)
    ensures
        ds.deep_view() == cc_of(h@),
{
    proof {
        lemma_lower_names();
    }
    match h.get("cache-control") {
        Some(v) => parse_cc_exec(v.as_str()),
        None => {
            let ds: Vec<Directive> = Vec::new();
            proof {
                assert(ds.deep_view() =~~= cc_of(h@));
            }
            ds
        },
    }
}

/// Does this header map carry `Pragma` with `no-cache`?
fn pragma_no_cache_exec(h: &Headers) -> (r: bool)
    ensures
        r == pragma_no_cache(h@),
{
    proof {
        lemma_lower_names();
    }
    match h.get("pragma") {
        Some(v) => {
            let ds = parse_cc_exec(v.as_str());
            dir_has(&ds, "no-cache")
        },
        None => false,
    }
}

impl CachePolicy {
    /// The effective response directives.
    fn resp_cc_exec(&self) -> (ds: Vec<Directive>)
        ensures
            ds.deep_view() == resp_cc(self@),
    {
        proof {
            lemma_lower_names();
        }
        match self.resp_headers.get("cache-control") {
            Some(v) => parse_cc_exec(v.as_str()),
            None => {
                if pragma_no_cache_exec(&self.resp_headers) {
                    let mut ds: Vec<Directive> = Vec::new();
                    ds.push(
                        Directive {
                            name: "no-cache".to_owned(),
                            value: None,
                            raw: "no-cache".to_owned(),
                        },
                    );
                    proof {
                        assert(ds.deep_view() =~~= resp_cc(self@));
                    }
                    ds
                } else {
                    let ds: Vec<Directive> = Vec::new();
                    proof {
                        assert(ds.deep_view() =~~= resp_cc(self@));
                    }
                    ds
                }
            },
        }
    }

    /// Does the response declare explicit expiration?
    fn has_explicit_exec(&self, rcc: &Vec<Directive>) -> (r: bool)
        requires
            rcc.deep_view() == resp_cc(self@),
        ensures
            r == has_explicit_expiration(self@),
    {
        proof {
            lemma_lower_names();
        }
        (self.shared && dir_has(rcc, "s-maxage")) || dir_has(rcc, "max-age")
            || self.resp_headers.contains("expires")
    }

    /// Does the response carry any explicit freshness information?
    fn explicit_freshness_exec(&self, rcc: &Vec<Directive>) -> (r: bool)
        requires
            rcc.deep_view() == resp_cc(self@),
        ensures
            r == crate::model::explicit_freshness(self@),
    {
        proof {
            lemma_lower_names();
        }
        self.resp_headers.contains("expires") || dir_has(rcc, "max-age") || dir_has(
            rcc,
            "s-maxage",
        ) || dir_has(rcc, "public")
    }

    /// Returns `true` if the response can be stored in a cache at all.
    /// Exactly `spec_storable`: an understood, non-partial status; a
    /// cacheable method; no `no-store` on either side; and the shared-
    /// cache restrictions on `private`, `Authorization` and `Set-Cookie`.
    pub fn is_storable(&self) -> (r: bool)
        requires
            self.wf(),
        ensures
            r == spec_storable(self@),
    {
        proof {
            lemma_lower_names();
        }
        let rcc = self.resp_cc_exec();
        let qcc = cc_of_exec(&self.req_headers);
        let m = self.method.as_str();
        let method_ok = eq_str(m, "GET") || eq_str(m, "HEAD") || (eq_str(m, "POST")
            && self.explicit_freshness_exec(&rcc));
        let st = self.status;
        let understood_ok = st == 200 || st == 203 || st == 204 || st == 300 || st == 301 || st
            == 302 || st == 303 || st == 307 || st == 308 || st == 404 || st == 405 || st == 410
            || st == 414 || st == 501;
        let default_ok = st == 200 || st == 203 || st == 204 || st == 206 || st == 300 || st
            == 301 || st == 404 || st == 405 || st == 410 || st == 414 || st == 501;
        let allows_auth = dir_has(&rcc, "must-revalidate") || dir_has(&rcc, "public")
            || dir_has(&rcc, "s-maxage");
        !dir_has(&qcc, "no-store") && method_ok && understood_ok && st != 206 && !dir_has(
            &rcc,
            "no-store",
        ) && !(self.shared && dir_has(&rcc, "private")) && !(self.shared
            && self.req_headers.contains("authorization") && !allows_auth) && !(self.shared
            && self.resp_headers.contains("set-cookie") && !(dir_has(&rcc, "public") || dir_has(
            &rcc,
            "immutable",
        ))) && (default_ok || self.explicit_freshness_exec(&rcc))
    }

    /// The instant the response was generated.
    fn server_date_exec(&self) -> (r: u64)
        ensures
            r as int == server_date(self@),
    {
        proof {
            lemma_lower_names();
        }
        if !self.trust_server_date {
            return self.response_time;
        }
        match self.resp_headers.get("date") {
            Some(v) => match parse_date(v.as_str()) {
                Some(t) => t,
                None => self.response_time,
            },
            None => self.response_time,
        }
    }

    /// The `Age` header as a number; zero when absent or malformed.
    fn age_value_exec(&self) -> (r: u64)
        ensures
            r as int == age_value(self@),
    {
        proof {
            lemma_lower_names();
        }
        match self.resp_headers.get("age") {
            Some(v) => match parse_u64(v.as_str()) {
                Some(n) => n,
                None => 0,
            },
            None => 0,
        }
    }

    /// The exact current age, computed without saturation.
    fn age128(&self, now: u64) -> (r: u128)
        ensures
            r as int == current_age(self@, now as int),
    {
        let sd = self.server_date_exec();
        let av = self.age_value_exec();
        let apparent: u64 = if self.response_time >= sd {
            self.response_time - sd
        } else {
            0
        };
        let initial: u64 = if apparent >= av {
            apparent
        } else {
            av
        };
        let resident: u64 = if now >= self.response_time {
            now - self.response_time
        } else {
            0
        };
        initial as u128 + resident as u128
    }

    /// The response's age at `now`, in seconds (saturated at `u64::MAX`).
    pub fn age(&self, now: u64) -> (r: u64)
        requires
            self.wf(),
        ensures
            r as int == sat64(current_age(self@, now as int)),
    {
        let a = self.age128(now);
        if a > u64::MAX as u128 {
            u64::MAX
        } else {
            a as u64
        }
    }

    /// The server-declared freshness lifetime in seconds: `s-maxage`
    /// (shared) over `max-age` over `Expires` over the `Last-Modified`
    /// heuristic, with zero for responses that cannot be stored or that
    /// demand revalidation, and the `immutable` floor on the heuristic
    /// paths.
    pub fn max_age(&self) -> (r: u64)
        requires
            self.wf(),
        ensures
            r as int == spec_max_age(self@),
    {
        proof {
            lemma_lower_names();
        }
        let rcc = self.resp_cc_exec();
        let qcc = cc_of_exec(&self.req_headers);
        if !self.is_storable() {
            return 0;
        }
        if dir_has(&rcc, "no-cache") || dir_has(&rcc, "no-store") {
            return 0;
        }
        if dir_has(&qcc, "no-cache") {
            return 0;
        }
        let star = match self.resp_headers.get("vary") {
            Some(v) => {
                let items = split_list_exec(v.as_str());
                list_has_exec(&items, "*")
            },
            None => false,
        };
        proof {
            reveal_strlit("*");
            assert(("*")@ =~= seq!['*']);
        }
        if star {
            return 0;
        }
        if self.shared && dir_has(&rcc, "proxy-revalidate") {
            return 0;
        }
        if self.shared {
            match dir_seconds_exec(&rcc, "s-maxage") {
                Some(n) => {
                    return n;
                },
                None => {},
            }
        }
        match dir_seconds_exec(&rcc, "max-age") {
            Some(n) => {
                return n;
            },
            None => {},
        }
        // heuristic paths, with the immutable floor
        let fl: u64 = if dir_has(&rcc, "immutable") {
            self.immutable_min_ttl
        } else {
            0
        };
        let base: u64 = match self.resp_headers.get("expires") {
            Some(v) => match parse_date(v.as_str()) {
                Some(e) => {
                    let sd = self.server_date_exec();
                    if e >= sd {
                        e - sd
                    } else {
                        0
                    }
                },
                None => 0,
            },
            None => match self.resp_headers.get("last-modified") {
                Some(v) => match parse_date(v.as_str()) {
                    Some(lm) => {
                        let sd = self.server_date_exec();
                        if sd > lm {
                            let delta = sd - lm;
                            proof {
                                assert((delta as int) * (self.heuristic_permille as int)
                                    <= (u64::MAX as int) * 1000) by (nonlinear_arith)
                                    requires
                                        0 <= delta <= u64::MAX,
                                        0 <= self.heuristic_permille <= 1000,
                                ;
                            }
                            let h: u128 = (delta as u128) * (self.heuristic_permille as u128)
                                / 1000;
                            proof {
                                assert((delta as int) * (self.heuristic_permille as int) / 1000
                                    <= delta as int) by (nonlinear_arith)
                                    requires
                                        0 <= self.heuristic_permille <= 1000,
                                        delta >= 0,
                                ;
                            }
                            h as u64
                        } else {
                            0
                        }
                    },
                    None => 0,
                },
                None => 0,
            },
        };
        if fl >= base {
            fl
        } else {
            base
        }
    }

    /// Time until the response becomes stale, in milliseconds (saturated
    /// at `u64::MAX`).
    pub fn time_to_live(&self, now: u64) -> (r: u64)
        requires
            self.wf(),
        ensures
            r as int == sat64(1000 * spec_ttl(self@, now as int)),
    {
        let ma = self.max_age() as u128;
        let age = self.age128(now);
        let ttl: u128 = if ma > age {
            ma - age
        } else {
            0
        };
        let ms: u128 = ttl * 1000;
        if ms > u64::MAX as u128 {
            u64::MAX
        } else {
            ms as u64
        }
    }

    /// Has the response no freshness left at `now`?
    pub fn is_stale(&self, now: u64) -> (r: bool)
        requires
            self.wf(),
        ensures
            r == spec_stale(self@, now as int),
    {
        let ma = self.max_age() as u128;
        let age = self.age128(now);
        ma <= age
    }

    /// Do the stored and new values of the `Vary`-selected headers agree?
    fn vary_matches_exec(&self, rq: &Request) -> (r: bool)
        ensures
            r == crate::model::vary_matches(self@, rq@),
    {
        proof {
            lemma_lower_names();
        }
        let v: String = match self.resp_headers.get("vary") {
            Some(v) => v.clone(),
            None => {
                return true;
            },
        };
        let items = split_list_exec(v.as_str());
        proof {
            reveal_strlit("*");
            assert(("*")@ =~= seq!['*']);
        }
        if list_has_exec(&items, "*") {
            return false;
        }
        let n = items.len();
        let mut i: usize = 0;
        while i < n
            invariant
                0 <= i <= n,
                n == items.deep_view().len(),
                items.deep_view() == split_list(v@),
                lookup(self@.resp_headers, crate::names::s_vary()) == Some(v@),
                forall|k: int| 0 <= k < i ==> lookup(
                    rq@.headers,
                    crate::chars::lower_seq(#[trigger] items.deep_view()[k]),
                ) == lookup(self@.req_headers, crate::chars::lower_seq(items.deep_view()[k])),
            decreases n - i,
        {
            let name = &items[i];
            let a = rq.headers.get(name.as_str());
            let b = self.req_headers.get(name.as_str());
            let same = match (a, b) {
                (Some(x), Some(y)) => eq_str(x.as_str(), y.as_str()),
                (None, None) => true,
                _ => false,
            };
            if !same {
                proof {
                    let nm = items.deep_view()[i as int];
                    assert(nm == name@);
                    assert(lookup(rq@.headers, crate::chars::lower_seq(nm)) != lookup(
                        self@.req_headers,
                        crate::chars::lower_seq(nm),
                    ));
                }
                return false;
            }
            i += 1;
        }
        true
    }

    /// Does the new request address this stored entry (method, URI,
    /// `Host`, `Vary`)?
    fn request_matches_exec(&self, rq: &Request, allow_head: bool) -> (r: bool)
        ensures
            r == crate::model::request_matches(self@, rq@, allow_head),
    {
        proof {
            lemma_lower_names();
        }
        let m = rq.method.as_str();
        let method_ok = eq_str(m, self.method.as_str()) || (allow_head && eq_str(m, "HEAD")
            && eq_str(self.method.as_str(), "GET"));
        if !method_ok {
            return false;
        }
        if !eq_str(rq.uri.as_str(), self.uri.as_str()) {
            return false;
        }
        let host_ok = match (rq.headers.get("host"), self.req_headers.get("host")) {
            (Some(x), Some(y)) => eq_str(x.as_str(), y.as_str()),
            (None, None) => true,
            _ => false,
        };
        if !host_ok {
            return false;
        }
        self.vary_matches_exec(rq)
    }

    /// Returns whether the stored response may satisfy `new_request`
    /// without contacting the origin: the request must address this entry,
    /// no client directive may forbid reuse, and the response must be
    /// fresh (or its staleness within what `max-stale` allows and the
    /// response's revalidation directives tolerate).
    pub fn is_cached_response_fresh(&self, new_request: &Request, now: u64) -> (r: bool)
        requires
            self.wf(),
            new_request.wf(),
        ensures
            r == crate::model::spec_fresh(self@, new_request@, now as int),
    {
        proof {
            lemma_lower_names();
        }
        if !self.request_matches_exec(new_request, true) {
            return false;
        }
        let rcc = cc_of_exec(&new_request.headers);
        if dir_has(&rcc, "no-cache") || pragma_no_cache_exec(&new_request.headers) {
            return false;
        }
        let age = self.age128(now);
        match dir_seconds_exec(&rcc, "max-age") {
            Some(n) => {
                if age > n as u128 {
                    return false;
                }
            },
            None => {},
        }
        let ma = self.max_age();
        let ttl: u128 = if (ma as u128) > age {
            ma as u128 - age
        } else {
            0
        };
        match dir_seconds_exec(&rcc, "min-fresh") {
            Some(n) => {
                if ttl < n as u128 {
                    return false;
                }
            },
            None => {},
        }
        if (ma as u128) <= age {
            // stale: only allowed within the client's max-stale margin,
            // and never against must-revalidate / shared proxy-revalidate
            let resp = self.resp_cc_exec();
            if dir_has(&resp, "must-revalidate") {
                return false;
            }
            if self.shared && dir_has(&resp, "proxy-revalidate") {
                return false;
            }
            match dir_value(&rcc, "max-stale") {
                Some(None) => {},
                Some(Some(v)) => match parse_u64(v.as_str()) {
                    Some(n) => {
                        let staleness = age - ma as u128;
                        if staleness > n as u128 {
                            return false;
                        }
                    },
                    None => {
                        return false;
                    },
                },
                None => {
                    return false;
                },
            }
        }
        true
    }
}

/// Is this (already lower-case) header name hop-by-hop?
fn is_hop_exec(name: &str) -> (r: bool)
    ensures
        r == crate::model::is_hop(name@),
{
    if eq_str(name, "date") {
        proof { assert(crate::model::hop_names()[0] == name@); }
        return true;
    }
    if eq_str(name, "connection") {
        proof { assert(crate::model::hop_names()[1] == name@); }
        return true;
    }
    if eq_str(name, "keep-alive") {
        proof { assert(crate::model::hop_names()[2] == name@); }
        return true;
    }
    if eq_str(name, "proxy-authenticate") {
        proof { assert(crate::model::hop_names()[3] == name@); }
        return true;
    }
    if eq_str(name, "proxy-authorization") {
        proof { assert(crate::model::hop_names()[4] == name@); }
        return true;
    }
    if eq_str(name, "te") {
        proof { assert(crate::model::hop_names()[5] == name@); }
        return true;
    }
    if eq_str(name, "trailer") {
        proof { assert(crate::model::hop_names()[6] == name@); }
        return true;
    }
    if eq_str(name, "transfer-encoding") {
        proof { assert(crate::model::hop_names()[7] == name@); }
        return true;
    }
    if eq_str(name, "upgrade") {
        proof { assert(crate::model::hop_names()[8] == name@); }
        return true;
    }
    proof {
        let hn = crate::model::hop_names();
        assert forall|i: int| 0 <= i < hn.len() implies hn[i] != name@ by {
            if i == 0 {
                assert(hn[0] == crate::names::s_date());
            } else if i == 1 {
                assert(hn[1] == crate::names::s_connection());
            } else if i == 2 {
                assert(hn[2] == crate::names::s_keep_alive());
            } else if i == 3 {
                assert(hn[3] == crate::names::s_proxy_authenticate());
            } else if i == 4 {
                assert(hn[4] == crate::names::s_proxy_authorization());
            } else if i == 5 {
                assert(hn[5] == crate::names::s_te());
            } else if i == 6 {
                assert(hn[6] == crate::names::s_trailer());
            } else if i == 7 {
                assert(hn[7] == crate::names::s_transfer_encoding());
            } else {
                assert(hn[8] == crate::names::s_upgrade());
            }
        }
    }
    false
}

/// A copy of the headers with the hop-by-hop entries removed.
fn strip_hop_exec(h: &Headers) -> (r: Headers)
    requires
        hs_wf(h@),
    ensures
        hs_wf(r@),
        r@ == crate::model::strip_hop(h@),
{
    let mut out = Headers::new();
    let n = h.len();
    let mut i: usize = 0;
    proof {
        assert(h@.take(0) =~= Seq::<(Seq<char>, Seq<char>)>::empty());
    }
    while i < n
        invariant
            0 <= i <= n,
            n == h@.len(),
            hs_wf(h@),
            hs_wf(out@),
            out@ == crate::model::strip_hop(h@.take(i as int)),
        decreases n - i,
    {
        let ghost pre = h@.take(i as int);
        let ghost e = h@[i as int];
        let name = h.name_at(i);
        let hop = is_hop_exec(name.as_str());
        proof {
            assert(h@.take(i as int + 1) =~= pre + seq![e]);
            crate::model::lemma_strip_add(pre, seq![e]);
            let single = seq![e];
            assert(single.drop_first() =~= Seq::<(Seq<char>, Seq<char>)>::empty());
            assert(crate::model::strip_hop(single.drop_first()) =~= Seq::<(
                Seq<char>,
                Seq<char>,
            )>::empty());
            if !crate::model::is_hop(e.0) {
                assert(crate::model::strip_hop(single) =~= seq![e]);
            }
        }
        if !hop {
            proof {
                assert(forall|k: int| 0 <= k < i ==> pre[k] == h@[k]);
                assert(forall|k: int| 0 <= k < i ==> (#[trigger] pre[k]).0 != e.0);
                crate::headers::lemma_lookup_none(pre, e.0);
                crate::model::lemma_strip_lookup(pre, e.0);
            }
            out.push_unchecked(name.clone(), h.value_at(i).clone());
            proof {
                assert(out@ =~= crate::model::strip_hop(h@.take(i as int + 1)));
            }
        } else {
            proof {
                assert(out@ =~= crate::model::strip_hop(h@.take(i as int + 1)));
            }
        }
        i += 1;
    }
    proof {
        assert(h@.take(n as int) =~= h@);
    }
    out
}

/// Keeps the warning entries whose code is not 1xx, from position `i`.
fn keep_warnings_from(items: &Vec<String>, i: usize) -> (r: Vec<String>)
    requires
        i <= items.len(),
    ensures
        r.deep_view() == crate::model::keep_warnings(items.deep_view().skip(i as int)),
    decreases items.len() - i,
{
    if i == items.len() {
        let r: Vec<String> = Vec::new();
        proof {
            assert(items.deep_view().skip(i as int) =~= Seq::<Seq<char>>::empty());
            assert(r.deep_view() =~~= crate::model::keep_warnings(
                items.deep_view().skip(i as int),
            ));
        }
        r
    } else {
        let mut rest = keep_warnings_from(items, i + 1);
        proof {
            let dv = items.deep_view();
            assert(dv.skip(i as int)[0] == dv[i as int]);
            assert(dv.skip(i as int).drop_first() =~= dv.skip(i as int + 1));
        }
        let s = items[i].as_str();
        let drop = s.unicode_len() > 0 && s.get_char(0) == '1';
        if drop {
            proof {
                assert(rest.deep_view() =~~= crate::model::keep_warnings(
                    items.deep_view().skip(i as int),
                ));
            }
            rest
        } else {
            let mut r: Vec<String> = Vec::new();
            r.push(items[i].clone());
            r.append(&mut rest);
            proof {
                assert(r.deep_view() =~~= crate::model::keep_warnings(
                    items.deep_view().skip(i as int),
                ));
            }
            r
        }
    }
}

/// Keeps the strong entity tags, from position `i`.
fn keep_strong_from(items: &Vec<String>, i: usize) -> (r: Vec<String>)
    requires
        i <= items.len(),
    ensures
        r.deep_view() == crate::model::keep_strong(items.deep_view().skip(i as int)),
    decreases items.len() - i,
{
    if i == items.len() {
        let r: Vec<String> = Vec::new();
        proof {
            assert(items.deep_view().skip(i as int) =~= Seq::<Seq<char>>::empty());
            assert(r.deep_view() =~~= crate::model::keep_strong(
                items.deep_view().skip(i as int),
            ));
        }
        r
    } else {
        let mut rest = keep_strong_from(items, i + 1);
        proof {
            let dv = items.deep_view();
            assert(dv.skip(i as int)[0] == dv[i as int]);
            assert(dv.skip(i as int).drop_first() =~= dv.skip(i as int + 1));
        }
        let s = items[i].as_str();
        let weak = s.unicode_len() >= 2 && s.get_char(0) == 'W' && s.get_char(1) == '/';
        if weak {
            proof {
                assert(rest.deep_view() =~~= crate::model::keep_strong(
                    items.deep_view().skip(i as int),
                ));
            }
            rest
        } else {
            let mut r: Vec<String> = Vec::new();
            r.push(items[i].clone());
            r.append(&mut rest);
            proof {
                assert(r.deep_view() =~~= crate::model::keep_strong(
                    items.deep_view().skip(i as int),
                ));
            }
            r
        }
    }
}

/// Rewrites `Warning` in place: 1xx entries out, header gone when empty.
fn filter_warnings_exec(h: &mut Headers)
    requires
        hs_wf(old(h)@),
    ensures
        hs_wf(final(h)@),
        final(h)@ == crate::model::filter_warnings(old(h)@),
{
    proof {
        lemma_lower_names();
    }
    let v: String = match h.get("warning") {
        Some(v) => v.clone(),
        None => {
            return ;
        },
    };
    let items = split_list_exec(v.as_str());
    let kept = keep_warnings_from(&items, 0);
    proof {
        assert(items.deep_view().skip(0) =~= items.deep_view());
    }
    if kept.len() == 0 {
        h.remove("warning");
    } else {
        let j = join_list_exec(&kept);
        h.set("warning", j.as_str());
    }
}

/// Appends the heuristic-expiration warning entry.
fn with_113_exec(h: &mut Headers)
    requires
        hs_wf(old(h)@),
    ensures
        hs_wf(final(h)@),
        final(h)@ == crate::model::with_113(old(h)@, true),
{
    proof {
        lemma_lower_names();
    }
    let existing: Option<String> = match h.get("warning") {
        Some(v) => Some(v.clone()),
        None => None,
    };
    match existing {
        Some(v) => {
            let mut s = v;
            s.append(", ");
            s.append("113 - \"Heuristic Expiration\"");
            proof {
                reveal_strlit(", ");
                assert((", ")@ =~= crate::lists::sep());
            }
            h.set("warning", s.as_str());
        },
        None => {
            h.set("warning", "113 - \"Heuristic Expiration\"");
        },
    }
}

/// The stored headers overwritten by a 304's, outside the exclusion set.
fn merge_exec(old_h: &Headers, new_h: &Headers) -> (r: Headers)
    requires
        hs_wf(old_h@),
    ensures
        hs_wf(r@),
        r@ == crate::model::spec_merge(old_h@, new_h@),
{
    proof {
        lemma_lower_names();
    }
    let mut out = Headers::new();
    let n = old_h.len();
    let mut i: usize = 0;
    proof {
        assert(old_h@.take(0) =~= Seq::<(Seq<char>, Seq<char>)>::empty());
        assert(crate::model::spec_merge(old_h@.take(0), new_h@) =~= Seq::<(
            Seq<char>,
            Seq<char>,
        )>::empty());
    }
    while i < n
        invariant
            0 <= i <= n,
            n == old_h@.len(),
            hs_wf(old_h@),
            hs_wf(out@),
            out@ == crate::model::spec_merge(old_h@.take(i as int), new_h@),
        decreases n - i,
    {
        let ghost pre = old_h@.take(i as int);
        let ghost e = old_h@[i as int];
        let name = old_h.name_at(i);
        let excluded = eq_str(name.as_str(), "content-length") || eq_str(
            name.as_str(),
            "content-encoding",
        ) || eq_str(name.as_str(), "transfer-encoding") || eq_str(
            name.as_str(),
            "content-range",
        );
        proof {
            crate::headers::lemma_is_lower_id(e.0);
        }
        let value: String = if excluded {
            old_h.value_at(i).clone()
        } else {
            match new_h.get(name.as_str()) {
                Some(v) => v.clone(),
                None => old_h.value_at(i).clone(),
            }
        };
        proof {
            assert(old_h@.take(i as int + 1) =~= pre + seq![e]);
            crate::model::lemma_merge_add(pre, seq![e], new_h@);
            let single = seq![e];
            assert(single.drop_first() =~= Seq::<(Seq<char>, Seq<char>)>::empty());
            assert(crate::model::spec_merge(single.drop_first(), new_h@) =~= Seq::<(
                Seq<char>,
                Seq<char>,
            )>::empty());
            let e2 = if !crate::model::excluded_from_merge(e.0) && lookup(new_h@, e.0) is Some {
                (e.0, lookup(new_h@, e.0)->Some_0)
            } else {
                e
            };
            assert(crate::model::spec_merge(single, new_h@) =~= seq![e2]);
            // the pushed name never collides: merging keeps old names
            crate::model::lemma_merge_names(pre, new_h@);
            assert(forall|k: int| 0 <= k < i ==> pre[k] == old_h@[k]);
            assert(forall|k: int| 0 <= k < out@.len() ==> (#[trigger] out@[k]).0 != e.0);
            crate::headers::lemma_lookup_none(out@, e.0);
        }
        out.push_unchecked(name.clone(), value);
        proof {
            assert(out@ =~= crate::model::spec_merge(old_h@.take(i as int + 1), new_h@));
        }
        i += 1;
    }
    proof {
        assert(old_h@.take(n as int) =~= old_h@);
    }
    out
}

impl CachePolicy {
    /// The headers to deliver to a client reading this entry at `now`:
    /// hop-by-hop headers removed, 1xx warnings dropped, the heuristic-
    /// expiration warning appended when due, and `Age` recomputed.
    pub fn response_headers(&self, now: u64) -> (r: Headers)
        requires
            self.wf(),
        ensures
            hs_wf(r@),
            r@ == crate::model::spec_response_headers(self@, now as int),
    {
        proof {
            lemma_lower_names();
        }
        let mut out = strip_hop_exec(&self.resp_headers);
        filter_warnings_exec(&mut out);
        let age = self.age128(now);
        let rcc = self.resp_cc_exec();
        if age > 86400 && !self.has_explicit_exec(&rcc) {
            with_113_exec(&mut out);
        }
        let a64: u64 = if age > u64::MAX as u128 {
            u64::MAX
        } else {
            age as u64
        };
        let s = crate::strutil::format_u64(a64);
        out.set("age", s.as_str());
        out
    }

    /// Replaces the headers of `response` with the projection of this
    /// entry's stored headers (see `response_headers`); the status is
    /// untouched.
    pub fn update_response_headers(&self, response: &mut Response, now: u64)
        requires
            self.wf(),
            old(response).wf(),
        ensures
            final(response).wf(),
            final(response)@.headers == crate::model::spec_response_headers(self@, now as int),
            final(response)@.status == old(response)@.status,
    {
        response.headers = self.response_headers(now);
    }

    /// The headers for the conditional request that revalidates this
    /// entry: the new request's headers without hop-by-hop entries, and —
    /// when the request addresses this entry — `If-None-Match` merged
    /// from the request's tags and the stored `ETag` (weak tags dropped
    /// for unsafe methods) and `If-Modified-Since` from the stored
    /// `Last-Modified` (suppressed for `POST` and range requests).
    pub fn revalidation_headers(&self, new_request: &Request) -> (r: Headers)
        requires
            self.wf(),
            new_request.wf(),
        ensures
            hs_wf(r@),
            r@ == crate::model::spec_revalidation_headers(self@, new_request@),
    {
        proof {
            lemma_lower_names();
        }
        let mut base = strip_hop_exec(&new_request.headers);
        if !self.request_matches_exec(new_request, true) {
            base.remove("if-none-match");
            base.remove("if-modified-since");
            return base;
        }
        let mut tags: Vec<String> = match new_request.headers.get("if-none-match") {
            Some(v) => split_list_exec(v.as_str()),
            None => Vec::new(),
        };
        match self.resp_headers.get("etag") {
            Some(t) => {
                tags.push(t.clone());
            },
            None => {},
        }
        proof {
            assert(tags.deep_view() =~~= {
                let own = match lookup(new_request@.headers, crate::names::s_if_none_match()) {
                    Some(v) => split_list(v),
                    None => Seq::<Seq<char>>::empty(),
                };
                match lookup(self@.resp_headers, crate::names::s_etag()) {
                    Some(t) => own.push(t),
                    None => own,
                }
            });
        }
        let m = new_request.method.as_str();
        let unsafe_m = eq_str(m, "POST") || eq_str(m, "PUT") || eq_str(m, "DELETE") || eq_str(
            m,
            "PATCH",
        );
        let finals: Vec<String> = if unsafe_m {
            let k = keep_strong_from(&tags, 0);
            proof {
                assert(tags.deep_view().skip(0) =~= tags.deep_view());
            }
            k
        } else {
            tags
        };
        proof {
            assert(finals.deep_view() == crate::model::merged_etags(self@, new_request@));
        }
        if finals.len() == 0 {
            base.remove("if-none-match");
        } else {
            let j = join_list_exec(&finals);
            base.set("if-none-match", j.as_str());
        }
        let suppress = eq_str(m, "POST") || new_request.headers.contains("accept-ranges")
            || new_request.headers.contains("range");
        if suppress {
            base.remove("if-modified-since");
        } else {
            let lm: Option<String> = match self.resp_headers.get("last-modified") {
                Some(v) => Some(v.clone()),
                None => None,
            };
            match lm {
                Some(v) => {
                    base.set("if-modified-since", v.as_str());
                },
                None => {},
            }
        }
        base
    }

    /// Handles the origin's answer to a revalidation.  On a `304 Not
    /// Modified` whose validator confirms the stored entry, the stored
    /// headers are updated from the 304 (outside the exclusion set),
    /// the reception time becomes `now`, and `true` says the cached body
    /// is still valid.  Anything else leaves the policy unchanged and
    /// returns `false`.
    pub fn is_cached_response_valid(
        &mut self,
        new_request: &Request,
        new_response: &Response,
        now: u64,
    ) -> (r: bool)
        requires
            old(self).wf(),
            new_response.wf(),
        ensures
            final(self).wf(),
            r == crate::model::spec_valid(old(self)@, new_response@),
            r ==> final(self)@ == (PolicyView {
                resp_headers: spec_cleanup(
                    crate::model::spec_merge(old(self)@.resp_headers, new_response@.headers),
                    old(self)@.ignore_cargo_cult,
                ),
                response_time: now as int,
                ..old(self)@
            }),
            !r ==> final(self)@ == old(self)@,
    {
        proof {
            lemma_lower_names();
        }
        if new_response.status != 304 {
            return false;
        }
        let se = self.resp_headers.get("etag");
        let ne = new_response.headers.get("etag");
        let ok: bool = match (se, ne) {
            (Some(s), Some(n)) => {
                let weak = {
                    let t = s.as_str();
                    t.unicode_len() >= 2 && t.get_char(0) == 'W' && t.get_char(1) == '/'
                };
                eq_str(s.as_str(), n.as_str()) && !weak
            },
            (None, None) => {
                match (self.resp_headers.get("last-modified"), new_response.headers.get(
                    "last-modified",
                )) {
                    (Some(a), Some(b)) => eq_str(a.as_str(), b.as_str()),
                    _ => false,
                }
            },
            _ => false,
        };
        if !ok {
            return false;
        }
        let merged = merge_exec(&self.resp_headers, &new_response.headers);
        let cleaned = cleanup_headers(&merged, self.ignore_cargo_cult);
        self.resp_headers = cleaned;
        self.response_time = now;
        proof {
            assert(self@ =~= (PolicyView {
                resp_headers: spec_cleanup(
                    crate::model::spec_merge(old(self)@.resp_headers, new_response@.headers),
                    old(self)@.ignore_cargo_cult,
                ),
                response_time: now as int,
                ..old(self)@
            }));
        }
        true
    }
}

impl CacheOptions {
    /// Builds the policy for a response observed at `response_time`
    /// (seconds since the epoch) for the given request.
    pub fn policy_for(&self, request: &Request, response: &Response, response_time: u64) -> (p:
        CachePolicy)
        requires
            request.wf(),
            response.wf(),
        ensures
            p.wf(),
            p@ == (PolicyView {
                method: crate::chars::upper_seq(request.method@),
                uri: request.uri@,
                req_headers: request.headers@,
                status: response.status as int,
                resp_headers: spec_cleanup(response.headers@, self.ignore_cargo_cult),
                response_time: response_time as int,
                shared: self.shared,
                ignore_cargo_cult: self.ignore_cargo_cult,
                trust_server_date: self.trust_server_date,
                heuristic_permille: if self.cache_heuristic_permille > 1000 {
                    1000
                } else {
                    self.cache_heuristic_permille as int
                },
                immutable_min_ttl: self.immutable_min_time_to_live as int,
            }),
    {
        let permille = if self.cache_heuristic_permille > 1000 {
            1000
        } else {
            self.cache_heuristic_permille
        };
        CachePolicy {
            method: to_upper_string(request.method.as_str()),
            uri: request.uri.clone(),
            req_headers: request.headers.duplicate(),
            status: response.status,
            resp_headers: cleanup_headers(&response.headers, self.ignore_cargo_cult),
            response_time,
            shared: self.shared,
            ignore_cargo_cult: self.ignore_cargo_cult,
            trust_server_date: self.trust_server_date,
            heuristic_permille: permille,
            immutable_min_ttl: self.immutable_min_time_to_live,
        }
    }
}

} // verus!
