//! The engine's laws: properties that hold of every policy, proved once
//! and for all from the specification functions in `model`.

use vstd::prelude::*;

use crate::chars::dec_digits;
use crate::directives::{dir_lookup, dir_seconds, has_dir};
use crate::headers::{
    hs_wf, lemma_lookup_remove, lemma_lookup_set, lemma_lower_eq_is_lower, lemma_spec_remove_wf,
    lemma_spec_set_wf, lookup, HeadersView,
};
use crate::lists::{
    join_list, lemma_join_push, lemma_split_join_roundtrip, lemma_split_list_props,
    lemma_split_single, no_comma, sep, split_list,
};
use crate::strutil::is_trimmed;
use crate::model::{
    cc_of, current_age, filter_warnings, is_hop, hop_names, keep_warnings, pragma_no_cache,
    project_headers, request_matches, sat64, spec_fresh, spec_max_age, spec_merge,
    spec_response_headers, spec_stale, spec_storable, spec_ttl, strip_hop, warn113_due, with_113,
    excluded_from_merge, lemma_merge_lookup, lemma_strip_lookup, lemma_strip_wf, PolicyView,
    RequestView,
};
use crate::names::{
    lemma_lower_names, lemma_warn113_facts, s_age, s_connection, s_date, s_keep_alive,
    s_max_age, s_max_stale, s_min_fresh, s_no_cache, s_proxy_authenticate,
    s_proxy_authorization, s_te, s_trailer, s_transfer_encoding, s_upgrade, s_warn113,
    s_warning,
};

verus! {

/// Storability is a function of the request method and headers, the
/// response status and (normalized) headers, and the shared flag alone;
/// in particular it never depends on the clock.  (The cargo-cult option
/// acts through the normalization of the stored response headers.)
pub proof fn lemma_storable_deterministic(p1: PolicyView, p2: PolicyView)
    requires
        p1.method == p2.method,
        p1.req_headers == p2.req_headers,
        p1.status == p2.status,
        p1.resp_headers == p2.resp_headers,
        p1.shared == p2.shared,
    ensures
        spec_storable(p1) == spec_storable(p2),
{
}

/// The remaining lifetime is zero exactly when the response is stale —
/// also through the millisecond reading that `time_to_live` reports.
pub proof fn lemma_ttl_zero_iff_stale(p: PolicyView, now: int)
    ensures
        (spec_ttl(p, now) == 0) <==> spec_stale(p, now),
        (sat64(1000 * spec_ttl(p, now)) == 0) <==> spec_stale(p, now),
{
}

/// A matching, unconstrained, fresh request is always served: when the
/// new request addresses the stored entry, carries none of the cache
/// directives that restrict reuse, and the response is not stale, reuse
/// is granted.
pub proof fn lemma_fresh_when_matching(p: PolicyView, rq: RequestView, now: int)
    requires
        request_matches(p, rq, true),
        !has_dir(cc_of(rq.headers), s_no_cache()),
        !pragma_no_cache(rq.headers),
        dir_seconds(cc_of(rq.headers), s_max_age()) is None,
        dir_seconds(cc_of(rq.headers), s_min_fresh()) is None,
        dir_lookup(cc_of(rq.headers), s_max_stale()) is None,
        !spec_stale(p, now),
    ensures
        spec_fresh(p, rq, now),
{
}

/// The 304 merge law: for every header name outside the exclusion set,
/// the merged map reads the 304's value when the 304 carries the header
/// and the store already had it, keeps the stored value otherwise, and
/// never invents headers the store lacked.  Excluded names always keep
/// the stored value.  (The stored policy adopts exactly this merge
/// whenever `is_cached_response_valid` confirms the entry and the
/// cargo-cult normalization is off.)
pub proof fn lemma_merge_law(old: HeadersView, new: HeadersView, q: Seq<char>)
    requires
        hs_wf(old),
    ensures
        !excluded_from_merge(q) && lookup(old, q) is Some && lookup(new, q) is Some ==> lookup(
            spec_merge(old, new),
            q,
        ) == lookup(new, q),
        !excluded_from_merge(q) && lookup(old, q) is Some && lookup(new, q) is None ==> lookup(
            spec_merge(old, new),
            q,
        ) == lookup(old, q),
        lookup(old, q) is None ==> lookup(spec_merge(old, new), q) is None,
        excluded_from_merge(q) ==> lookup(spec_merge(old, new), q) == lookup(old, q),
{
    lemma_merge_lookup(old, new, q);
}

/// Neither the recomputed `Age` nor the `Warning` header is hop-by-hop,
/// and the two names differ.
proof fn lemma_proj_names()
    ensures
        s_age() != s_warning(),
        !is_hop(s_age()),
        !is_hop(s_warning()),
{
    reveal_strlit("age");
    reveal_strlit("warning");
    reveal_strlit("date");
    reveal_strlit("connection");
    reveal_strlit("keep-alive");
    reveal_strlit("proxy-authenticate");
    reveal_strlit("proxy-authorization");
    reveal_strlit("te");
    reveal_strlit("trailer");
    reveal_strlit("transfer-encoding");
    reveal_strlit("upgrade");
    assert(s_age().len() == 3);
    assert(s_warning().len() == 7);
    assert(s_warning()[0] == 'w');
    assert(s_trailer()[0] == 't');
    assert(s_upgrade()[0] == 'u');
    let hn = hop_names();
    assert forall|i: int| 0 <= i < hn.len() implies hn[i] != s_age() && hn[i] != s_warning() by {
        if i == 0 {
            assert(hn[0] == s_date());
            assert(s_date().len() == 4);
        } else if i == 1 {
            assert(hn[1] == s_connection());
            assert(s_connection().len() == 10);
        } else if i == 2 {
            assert(hn[2] == s_keep_alive());
            assert(s_keep_alive().len() == 10);
        } else if i == 3 {
            assert(hn[3] == s_proxy_authenticate());
            assert(s_proxy_authenticate().len() == 18);
        } else if i == 4 {
            assert(hn[4] == s_proxy_authorization());
            assert(s_proxy_authorization().len() == 19);
        } else if i == 5 {
            assert(hn[5] == s_te());
            assert(s_te().len() == 2);
        } else if i == 6 {
            assert(hn[6] == s_trailer());
            assert(s_trailer().len() == 7);
        } else if i == 7 {
            assert(hn[7] == s_transfer_encoding());
            assert(s_transfer_encoding().len() == 17);
        } else {
            assert(hn[8] == s_upgrade());
            assert(s_upgrade().len() == 7);
        }
    }
}

/// The `Warning` value a projection reports, if any.
pub open spec fn projected_warning(hs: HeadersView, add: bool) -> Option<Seq<char>> {
    let base = match lookup(hs, s_warning()) {
        None => None::<Seq<char>>,
        Some(v) => {
            let kept = keep_warnings(split_list(v));
            if kept.len() == 0 {
                None
            } else {
                Some(join_list(kept))
            }
        },
    };
    if add {
        match base {
            Some(v) => Some(v + sep() + s_warn113()),
            None => Some(s_warn113()),
        }
    } else {
        base
    }
}

/// Projection keeps the header map well-formed.
pub proof fn lemma_project_wf(hs: HeadersView, age: int, add: bool)
    requires
        hs_wf(hs),
    ensures
        hs_wf(project_headers(hs, age, add)),
{
    lemma_lower_names();
    lemma_lower_eq_is_lower(s_warning());
    lemma_lower_eq_is_lower(s_age());
    lemma_strip_wf(hs);
    let h1 = strip_hop(hs);
    match lookup(h1, s_warning()) {
        None => {},
        Some(v) => {
            let kept = keep_warnings(split_list(v));
            if kept.len() == 0 {
                lemma_spec_remove_wf(h1, s_warning());
            } else {
                lemma_spec_set_wf(h1, s_warning(), join_list(kept));
            }
        },
    }
    let h2 = filter_warnings(h1);
    if add {
        match lookup(h2, s_warning()) {
            Some(v) => lemma_spec_set_wf(h2, s_warning(), v + sep() + s_warn113()),
            None => lemma_spec_set_wf(h2, s_warning(), s_warn113()),
        }
    }
    let h3 = with_113(h2, add);
    lemma_spec_set_wf(h3, s_age(), dec_digits(age));
}

/// What each lookup sees through a projection: the fresh `Age`, the
/// filtered (and possibly extended) `Warning`, no hop-by-hop header, and
/// everything else untouched.
pub proof fn lemma_project_lookup(hs: HeadersView, age: int, add: bool, q: Seq<char>)
    requires
        hs_wf(hs),
    ensures
        lookup(project_headers(hs, age, add), q) == if q == s_age() {
            Some(dec_digits(age))
        } else if q == s_warning() {
            projected_warning(hs, add)
        } else if is_hop(q) {
            None::<Seq<char>>
        } else {
            lookup(hs, q)
        },
{
    lemma_lower_names();
    lemma_proj_names();
    lemma_lower_eq_is_lower(s_warning());
    lemma_lower_eq_is_lower(s_age());
    lemma_strip_wf(hs);
    lemma_strip_lookup(hs, q);
    lemma_strip_lookup(hs, s_warning());
    let h1 = strip_hop(hs);
    let h2 = filter_warnings(h1);
    match lookup(h1, s_warning()) {
        None => {},
        Some(v) => {
            let kept = keep_warnings(split_list(v));
            if kept.len() == 0 {
                lemma_spec_remove_wf(h1, s_warning());
                lemma_lookup_remove(h1, s_warning(), q);
                lemma_lookup_remove(h1, s_warning(), s_warning());
            } else {
                lemma_spec_set_wf(h1, s_warning(), join_list(kept));
                lemma_lookup_set(h1, s_warning(), join_list(kept), q);
                lemma_lookup_set(h1, s_warning(), join_list(kept), s_warning());
            }
        },
    }
    if add {
        match lookup(h2, s_warning()) {
            Some(v) => {
                lemma_spec_set_wf(h2, s_warning(), v + sep() + s_warn113());
                lemma_lookup_set(h2, s_warning(), v + sep() + s_warn113(), q);
            },
            None => {
                lemma_spec_set_wf(h2, s_warning(), s_warn113());
                lemma_lookup_set(h2, s_warning(), s_warn113(), q);
            },
        }
    }
    let h3 = with_113(h2, add);
    lemma_spec_set_wf(h3, s_age(), dec_digits(age));
    lemma_lookup_set(h3, s_age(), dec_digits(age), q);
}

/// Projected headers never carry a hop-by-hop header.
pub proof fn lemma_response_headers_no_hop(p: PolicyView, now: int, q: Seq<char>)
    requires
        hs_wf(p.resp_headers),
        is_hop(q),
    ensures
        lookup(spec_response_headers(p, now), q) is None,
{
    lemma_proj_names();
    lemma_project_lookup(p.resp_headers, sat64(current_age(p, now)), warn113_due(p, now), q);
}

/// The warning entries kept by the filter carry no 1xx code, and stay
/// well-formed list items.
proof fn lemma_keep_warnings_props(ts: Seq<Seq<char>>)
    requires
        forall|i: int| 0 <= i < ts.len() ==> (#[trigger] ts[i]).len() > 0,
        forall|i: int| 0 <= i < ts.len() ==> is_trimmed(#[trigger] ts[i]),
        forall|i: int| 0 <= i < ts.len() ==> no_comma(#[trigger] ts[i]),
    ensures
        forall|i: int| 0 <= i < keep_warnings(ts).len() ==> (#[trigger] keep_warnings(ts)[
            i
        ]).len() > 0,
        forall|i: int| 0 <= i < keep_warnings(ts).len() ==> is_trimmed(
            #[trigger] keep_warnings(ts)[i],
        ),
        forall|i: int| 0 <= i < keep_warnings(ts).len() ==> no_comma(
            #[trigger] keep_warnings(ts)[i],
        ),
        forall|i: int| 0 <= i < keep_warnings(ts).len() ==> (#[trigger] keep_warnings(ts)[i])[0]
            != '1',
    decreases ts.len(),
{
    if ts.len() > 0 {
        assert(forall|k: int| 0 <= k < ts.drop_first().len() ==> ts.drop_first()[k] == ts[k + 1]);
        lemma_keep_warnings_props(ts.drop_first());
        let kw = keep_warnings(ts);
        let rest = keep_warnings(ts.drop_first());
        if !(ts[0].len() > 0 && ts[0][0] == '1') {
            assert forall|i: int| 0 <= i < kw.len() implies (#[trigger] kw[i]).len() > 0
                && is_trimmed(kw[i]) && no_comma(kw[i]) && kw[i][0] != '1' by {
                if i == 0 {
                    assert(kw[0] == ts[0]);
                } else {
                    assert(kw[i] == rest[i - 1]);
                }
            }
        }
    }
}

/// A filter pass over already filtered entries keeps them all.
proof fn lemma_keep_warnings_fixed(ts: Seq<Seq<char>>)
    requires
        forall|i: int| 0 <= i < ts.len() ==> (#[trigger] ts[i]).len() > 0,
        forall|i: int| 0 <= i < ts.len() ==> (#[trigger] ts[i])[0] != '1',
    ensures
        keep_warnings(ts) == ts,
    decreases ts.len(),
{
    if ts.len() > 0 {
        assert(forall|k: int| 0 <= k < ts.drop_first().len() ==> ts.drop_first()[k] == ts[k + 1]);
        lemma_keep_warnings_fixed(ts.drop_first());
        assert(seq![ts[0]] + ts.drop_first() =~= ts);
    }
}

/// Projected headers carry no 1xx warning entry — except when the
/// heuristic-expiration warning itself (code 113) is due.
pub proof fn lemma_response_headers_no_1xx(p: PolicyView, now: int)
    requires
        hs_wf(p.resp_headers),
        !warn113_due(p, now),
    ensures
        match lookup(spec_response_headers(p, now), s_warning()) {
            Some(v) => forall|i: int|
                0 <= i < split_list(v).len() ==> (#[trigger] split_list(v)[i])[0] != '1',
            None => true,
        },
{
    lemma_proj_names();
    lemma_project_lookup(
        p.resp_headers,
        sat64(current_age(p, now)),
        warn113_due(p, now),
        s_warning(),
    );
    match lookup(p.resp_headers, s_warning()) {
        None => {},
        Some(v0) => {
            lemma_split_list_props(v0);
            let kept = keep_warnings(split_list(v0));
            lemma_keep_warnings_props(split_list(v0));
            if kept.len() > 0 {
                lemma_split_join_roundtrip(kept);
            }
        },
    }
}

/// Projecting a second time with the same age and warning flag yields
/// the same headers: every lookup agrees.  This is idempotence of
/// `response_headers` at one instant.
pub proof fn lemma_response_headers_idempotent(p: PolicyView, now: int, q: Seq<char>)
    requires
        hs_wf(p.resp_headers),
    ensures
        ({
            let once = spec_response_headers(p, now);
            let age = sat64(current_age(p, now));
            let add = warn113_due(p, now);
            lookup(project_headers(once, age, add), q) == lookup(once, q)
        }),
{
    let once = spec_response_headers(p, now);
    let age = sat64(current_age(p, now));
    let add = warn113_due(p, now);
    lemma_proj_names();
    lemma_warn113_facts();
    lemma_project_wf(p.resp_headers, age, add);
    lemma_project_lookup(p.resp_headers, age, add, q);
    lemma_project_lookup(once, age, add, q);
    if q == s_warning() {
        // the warning the second pass reads is the first pass's output;
        // filtering it again keeps exactly the kept entries, and the 113
        // entry (when added) is dropped and re-added unchanged
        lemma_project_lookup(p.resp_headers, age, add, s_warning());
        let w1 = projected_warning(p.resp_headers, add);
        match lookup(p.resp_headers, s_warning()) {
            None => {
                if add {
                    // w1 == Some(s_warn113())
                    lemma_split_single(s_warn113());
                    assert(seq![s_warn113()].drop_first() =~= Seq::<Seq<char>>::empty());
                    assert(keep_warnings(Seq::<Seq<char>>::empty()) =~= Seq::<
                        Seq<char>,
                    >::empty());
                    assert(keep_warnings(seq![s_warn113()]) =~= Seq::<Seq<char>>::empty());
                    assert(projected_warning(once, add) == Some(s_warn113()));
                }
            },
            Some(v0) => {
                lemma_split_list_props(v0);
                let kept = keep_warnings(split_list(v0));
                lemma_keep_warnings_props(split_list(v0));
                if kept.len() == 0 {
                    if add {
                        lemma_split_single(s_warn113());
                        assert(seq![s_warn113()].drop_first() =~= Seq::<Seq<char>>::empty());
                        assert(keep_warnings(Seq::<Seq<char>>::empty()) =~= Seq::<
                            Seq<char>,
                        >::empty());
                        assert(keep_warnings(seq![s_warn113()]) =~= Seq::<Seq<char>>::empty());
                        assert(projected_warning(once, add) == Some(s_warn113()));
                    }
                } else {
                    if add {
                        // value is join(kept) ++ ", " ++ 113 == join(kept.push(113))
                        lemma_join_push(kept, s_warn113());
                        let ext = kept.push(s_warn113());
                        assert(forall|i: int| 0 <= i < ext.len() ==> (#[trigger] ext[i]).len()
                            > 0);
                        assert(forall|i: int| 0 <= i < ext.len() ==> is_trimmed(
                            #[trigger] ext[i],
                        ));
                        assert(forall|i: int| 0 <= i < ext.len() ==> no_comma(
                            #[trigger] ext[i],
                        ));
                        lemma_split_join_roundtrip(ext);
                        // re-filtering drops exactly the 113 at the end
                        lemma_keep_warnings_last_1xx(kept, s_warn113());
                        lemma_keep_warnings_fixed(kept);
                        lemma_join_push(kept, s_warn113());
                    } else {
                        lemma_split_join_roundtrip(kept);
                        lemma_keep_warnings_fixed(kept);
                    }
                }
            },
        }
    }
}

/// Filtering entries that end in one 1xx entry keeps the clean prefix.
proof fn lemma_keep_warnings_last_1xx(ts: Seq<Seq<char>>, x: Seq<char>)
    requires
        forall|i: int| 0 <= i < ts.len() ==> (#[trigger] ts[i]).len() > 0,
        forall|i: int| 0 <= i < ts.len() ==> (#[trigger] ts[i])[0] != '1',
        x.len() > 0,
        x[0] == '1',
    ensures
        keep_warnings(ts.push(x)) == ts,
    decreases ts.len(),
{
    let p = ts.push(x);
    if ts.len() == 0 {
        assert(p[0] == x);
        assert(p.drop_first() =~= Seq::<Seq<char>>::empty());
        assert(keep_warnings(Seq::<Seq<char>>::empty()) =~= Seq::<Seq<char>>::empty());
        assert(keep_warnings(p) =~= Seq::<Seq<char>>::empty());
        assert(keep_warnings(p) =~= ts);
    } else {
        assert(p[0] == ts[0]);
        assert(p.drop_first() =~= ts.drop_first().push(x));
        assert(forall|k: int| 0 <= k < ts.drop_first().len() ==> ts.drop_first()[k] == ts[k + 1]);
        lemma_keep_warnings_last_1xx(ts.drop_first(), x);
        assert(keep_warnings(p) == seq![ts[0]] + keep_warnings(ts.drop_first().push(x)));
        assert(seq![ts[0]] + ts.drop_first() =~= ts);
    }
}

} // verus!
