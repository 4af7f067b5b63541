//! The header names, directive names and fixed strings the engine speaks
//! of, as specification-level character sequences, together with the
//! case-folding facts call sites need.

use vstd::prelude::*;

use crate::chars::lower_seq;
use crate::lists::no_comma;
use crate::strutil::is_trimmed;

verus! {

pub open spec fn s_cache_control() -> Seq<char> { "cache-control"@ }
pub open spec fn s_pragma() -> Seq<char> { "pragma"@ }
pub open spec fn s_date() -> Seq<char> { "date"@ }
pub open spec fn s_expires() -> Seq<char> { "expires"@ }
pub open spec fn s_last_modified() -> Seq<char> { "last-modified"@ }
pub open spec fn s_age() -> Seq<char> { "age"@ }
pub open spec fn s_etag() -> Seq<char> { "etag"@ }
pub open spec fn s_vary() -> Seq<char> { "vary"@ }
pub open spec fn s_host() -> Seq<char> { "host"@ }
pub open spec fn s_authorization() -> Seq<char> { "authorization"@ }
pub open spec fn s_set_cookie() -> Seq<char> { "set-cookie"@ }
pub open spec fn s_warning() -> Seq<char> { "warning"@ }
pub open spec fn s_if_none_match() -> Seq<char> { "if-none-match"@ }
pub open spec fn s_if_modified_since() -> Seq<char> { "if-modified-since"@ }
pub open spec fn s_accept_ranges() -> Seq<char> { "accept-ranges"@ }
pub open spec fn s_range() -> Seq<char> { "range"@ }
pub open spec fn s_connection() -> Seq<char> { "connection"@ }
pub open spec fn s_keep_alive() -> Seq<char> { "keep-alive"@ }
pub open spec fn s_proxy_authenticate() -> Seq<char> { "proxy-authenticate"@ }
pub open spec fn s_proxy_authorization() -> Seq<char> { "proxy-authorization"@ }
pub open spec fn s_te() -> Seq<char> { "te"@ }
pub open spec fn s_trailer() -> Seq<char> { "trailer"@ }
pub open spec fn s_transfer_encoding() -> Seq<char> { "transfer-encoding"@ }
pub open spec fn s_upgrade() -> Seq<char> { "upgrade"@ }
pub open spec fn s_content_length() -> Seq<char> { "content-length"@ }
pub open spec fn s_content_encoding() -> Seq<char> { "content-encoding"@ }
pub open spec fn s_content_range() -> Seq<char> { "content-range"@ }

pub open spec fn s_no_store() -> Seq<char> { "no-store"@ }
pub open spec fn s_no_cache() -> Seq<char> { "no-cache"@ }
pub open spec fn s_max_age() -> Seq<char> { "max-age"@ }
pub open spec fn s_s_maxage() -> Seq<char> { "s-maxage"@ }
pub open spec fn s_private() -> Seq<char> { "private"@ }
pub open spec fn s_public() -> Seq<char> { "public"@ }
pub open spec fn s_immutable() -> Seq<char> { "immutable"@ }
pub open spec fn s_must_revalidate() -> Seq<char> { "must-revalidate"@ }
pub open spec fn s_proxy_revalidate() -> Seq<char> { "proxy-revalidate"@ }
pub open spec fn s_min_fresh() -> Seq<char> { "min-fresh"@ }
pub open spec fn s_max_stale() -> Seq<char> { "max-stale"@ }
pub open spec fn s_pre_check() -> Seq<char> { "pre-check"@ }
pub open spec fn s_post_check() -> Seq<char> { "post-check"@ }

pub open spec fn s_get() -> Seq<char> { "GET"@ }
pub open spec fn s_head() -> Seq<char> { "HEAD"@ }
pub open spec fn s_post() -> Seq<char> { "POST"@ }
pub open spec fn s_put() -> Seq<char> { "PUT"@ }
pub open spec fn s_delete() -> Seq<char> { "DELETE"@ }
pub open spec fn s_patch() -> Seq<char> { "PATCH"@ }

/// The warning entry recorded when heuristically fresh content has aged
/// beyond a day.
pub open spec fn s_warn113() -> Seq<char> { "113 - \"Heuristic Expiration\""@ }

/// The heuristic-expiration warning entry is a well-formed list item with
/// a 1xx code.
pub proof fn lemma_warn113_facts()
    ensures
        s_warn113().len() > 0,
        s_warn113()[0] == '1',
        is_trimmed(s_warn113()),
        no_comma(s_warn113()),
{
    reveal_strlit("113 - \"Heuristic Expiration\"");
    assert(s_warn113().len() == 28);
}

/// The header names the engine queries are already lower-case, so folding
/// them is the identity.
pub proof fn lemma_lower_names()
    ensures
        lower_seq(s_cache_control()) == s_cache_control(),
        lower_seq(s_pragma()) == s_pragma(),
        lower_seq(s_date()) == s_date(),
        lower_seq(s_expires()) == s_expires(),
        lower_seq(s_last_modified()) == s_last_modified(),
        lower_seq(s_age()) == s_age(),
        lower_seq(s_etag()) == s_etag(),
        lower_seq(s_vary()) == s_vary(),
        lower_seq(s_host()) == s_host(),
        lower_seq(s_authorization()) == s_authorization(),
        lower_seq(s_set_cookie()) == s_set_cookie(),
        lower_seq(s_warning()) == s_warning(),
        lower_seq(s_if_none_match()) == s_if_none_match(),
        lower_seq(s_if_modified_since()) == s_if_modified_since(),
        lower_seq(s_accept_ranges()) == s_accept_ranges(),
        lower_seq(s_range()) == s_range(),
        lower_seq(s_connection()) == s_connection(),
        lower_seq(s_keep_alive()) == s_keep_alive(),
        lower_seq(s_proxy_authenticate()) == s_proxy_authenticate(),
        lower_seq(s_proxy_authorization()) == s_proxy_authorization(),
        lower_seq(s_te()) == s_te(),
        lower_seq(s_trailer()) == s_trailer(),
        lower_seq(s_transfer_encoding()) == s_transfer_encoding(),
        lower_seq(s_upgrade()) == s_upgrade(),
        lower_seq(s_content_length()) == s_content_length(),
        lower_seq(s_content_encoding()) == s_content_encoding(),
        lower_seq(s_content_range()) == s_content_range(),
{
    reveal_strlit("cache-control");
    reveal_strlit("pragma");
    reveal_strlit("date");
    reveal_strlit("expires");
    reveal_strlit("last-modified");
    reveal_strlit("age");
    reveal_strlit("etag");
    reveal_strlit("vary");
    reveal_strlit("host");
    reveal_strlit("authorization");
    reveal_strlit("set-cookie");
    reveal_strlit("warning");
    reveal_strlit("if-none-match");
    reveal_strlit("if-modified-since");
    reveal_strlit("accept-ranges");
    reveal_strlit("range");
    reveal_strlit("connection");
    reveal_strlit("keep-alive");
    reveal_strlit("proxy-authenticate");
    reveal_strlit("proxy-authorization");
    reveal_strlit("te");
    reveal_strlit("trailer");
    reveal_strlit("transfer-encoding");
    reveal_strlit("upgrade");
    reveal_strlit("content-length");
    reveal_strlit("content-encoding");
    reveal_strlit("content-range");
    assert(lower_seq(s_cache_control()) =~= s_cache_control());
    assert(lower_seq(s_pragma()) =~= s_pragma());
    assert(lower_seq(s_date()) =~= s_date());
    assert(lower_seq(s_expires()) =~= s_expires());
    assert(lower_seq(s_last_modified()) =~= s_last_modified());
    assert(lower_seq(s_age()) =~= s_age());
    assert(lower_seq(s_etag()) =~= s_etag());
    assert(lower_seq(s_vary()) =~= s_vary());
    assert(lower_seq(s_host()) =~= s_host());
    assert(lower_seq(s_authorization()) =~= s_authorization());
    assert(lower_seq(s_set_cookie()) =~= s_set_cookie());
    assert(lower_seq(s_warning()) =~= s_warning());
    assert(lower_seq(s_if_none_match()) =~= s_if_none_match());
    assert(lower_seq(s_if_modified_since()) =~= s_if_modified_since());
    assert(lower_seq(s_accept_ranges()) =~= s_accept_ranges());
    assert(lower_seq(s_range()) =~= s_range());
    assert(lower_seq(s_connection()) =~= s_connection());
    assert(lower_seq(s_keep_alive()) =~= s_keep_alive());
    assert(lower_seq(s_proxy_authenticate()) =~= s_proxy_authenticate());
    assert(lower_seq(s_proxy_authorization()) =~= s_proxy_authorization());
    assert(lower_seq(s_te()) =~= s_te());
    assert(lower_seq(s_trailer()) =~= s_trailer());
    assert(lower_seq(s_transfer_encoding()) =~= s_transfer_encoding());
    assert(lower_seq(s_upgrade()) =~= s_upgrade());
    assert(lower_seq(s_content_length()) =~= s_content_length());
    assert(lower_seq(s_content_encoding()) =~= s_content_encoding());
    assert(lower_seq(s_content_range()) =~= s_content_range());
}

} // verus!
