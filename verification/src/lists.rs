//! Comma-separated header lists: splitting, trimming, joining.
//!
//! `Cache-Control`, `Vary`, `Warning` and `If-None-Match` all carry
//! comma-separated values; this module gives them one common treatment:
//! split on commas, trim each item, drop items that are empty.

use vstd::prelude::*;

use crate::chars::is_ws;
use crate::strutil::{
    find_char, lemma_spec_find, lemma_spec_find_bounds, spec_find, spec_trim, spec_trim_back,
    spec_trim_front, trim, is_trimmed, lemma_trim_is_trimmed, string_from_chars, eq_str,
};

verus! {

/// The raw pieces of `s` between commas (commas excluded), in order.
pub open spec fn split_commas(s: Seq<char>) -> Seq<Seq<char>>
    decreases s.len(),
{
    let j = spec_find(s, ',', 0);
    if 0 <= j < s.len() {
        seq![s.take(j)] + split_commas(s.skip(j + 1))
    } else {
        seq![s]
    }
}

/// Trims every piece and drops the empty ones.
pub open spec fn clean_items(ts: Seq<Seq<char>>) -> Seq<Seq<char>>
    decreases ts.len(),
{
    if ts.len() == 0 {
        Seq::empty()
    } else {
        let h = spec_trim(ts[0]);
        let rest = clean_items(ts.drop_first());
        if h.len() > 0 {
            seq![h] + rest
        } else {
            rest
        }
    }
}

/// The items of a comma-separated header value: trimmed and non-empty.
pub open spec fn split_list(s: Seq<char>) -> Seq<Seq<char>> {
    clean_items(split_commas(s))
}

/// The separator written between items when a list is rebuilt.
pub open spec fn sep() -> Seq<char> {
    seq![',', ' ']
}

/// Joins items with `", "`.
pub open spec fn join_list(ts: Seq<Seq<char>>) -> Seq<char>
    decreases ts.len(),
{
    if ts.len() == 0 {
        Seq::empty()
    } else if ts.len() == 1 {
        ts[0]
    } else {
        ts[0] + sep() + join_list(ts.drop_first())
    }
}

/// Does the list contain this item?
pub open spec fn list_has(ts: Seq<Seq<char>>, x: Seq<char>) -> bool {
    exists|i: int| 0 <= i < ts.len() && ts[i] == x
}

/// Executable split on commas.
pub fn split_commas_exec(s: &str) -> (r: Vec<String>)
    ensures
        r.deep_view() == split_commas(s@),
    decreases s@.len(),
{
    let n = s.unicode_len();
    let j = find_char(s, ',', 0);
    if j < n {
        let head = s.substring_char(0, j);
        let tail = s.substring_char(j + 1, n);
        let mut rest = split_commas_exec(tail);
        let mut r: Vec<String> = Vec::new();
        r.push(head.to_owned());
        r.append(&mut rest);
        proof {
            assert(r.deep_view() =~~= split_commas(s@));
        }
        r
    } else {
        let mut r: Vec<String> = Vec::new();
        r.push(s.to_owned());
        proof {
            assert(r.deep_view() =~~= split_commas(s@));
        }
        r
    }
}

/// Executable trim-and-drop-empties over already split pieces.
fn clean_from(items: &Vec<String>, i: usize) -> (r: Vec<String>)
    requires
        i <= items.len(),
    ensures
        r.deep_view() == clean_items(items.deep_view().skip(i as int)),
    decreases items.len() - i,
{
    if i == items.len() {
        let r: Vec<String> = Vec::new();
        proof {
            assert(items.deep_view().skip(i as int) =~= Seq::<Seq<char>>::empty());
            assert(r.deep_view() =~~= clean_items(items.deep_view().skip(i as int)));
        }
        r
    } else {
        let mut rest = clean_from(items, i + 1);
        let h = trim(items[i].as_str());
        proof {
            let dv = items.deep_view();
            assert(dv.skip(i as int)[0] == dv[i as int]);
            assert(dv.skip(i as int).drop_first() =~= dv.skip(i as int + 1));
        }
        if h.unicode_len() > 0 {
            let mut r: Vec<String> = Vec::new();
            r.push(h.to_owned());
            r.append(&mut rest);
            proof {
                assert(r.deep_view() =~~= clean_items(items.deep_view().skip(i as int)));
            }
            r
        } else {
            proof {
                assert(rest.deep_view() =~~= clean_items(items.deep_view().skip(i as int)));
            }
            rest
        }
    }
}

/// Splits a comma-separated header value into trimmed non-empty items.
pub fn split_list_exec(s: &str) -> (r: Vec<String>)
    ensures
        r.deep_view() == split_list(s@),
{
    let pieces = split_commas_exec(s);
    let r = clean_from(&pieces, 0);
    proof {
        assert(pieces.deep_view().skip(0) =~= pieces.deep_view());
    }
    r
}

/// Joins items with `", "`.
pub fn join_list_exec(items: &Vec<String>) -> (r: String)
    ensures
        r@ == join_list(items.deep_view()),
{
    let r = join_from(items, 0);
    proof {
        assert(items.deep_view().skip(0) =~= items.deep_view());
    }
    r
}

fn join_from(items: &Vec<String>, i: usize) -> (r: String)
    requires
        i <= items.len(),
    ensures
        r@ == join_list(items.deep_view().skip(i as int)),
    decreases items.len() - i,
{
    if i == items.len() {
        proof {
            assert(items.deep_view().skip(i as int) =~= Seq::<Seq<char>>::empty());
        }
        String::new()
    } else if i + 1 == items.len() {
        proof {
            assert(items.deep_view().skip(i as int).len() == 1);
            assert(items.deep_view().skip(i as int)[0] == items.deep_view()[i as int]);
        }
        items[i].clone()
    } else {
        let rest = join_from(items, i + 1);
        let mut out = items[i].clone();
        out.append(", ");
        out.append(rest.as_str());
        proof {
            reveal_strlit(", ");
            assert((", ")@ =~= sep());
            let dv = items.deep_view();
            assert(dv.skip(i as int)[0] == dv[i as int]);
            assert(dv.skip(i as int).drop_first() =~= dv.skip(i as int + 1));
            assert(out@ =~= join_list(dv.skip(i as int)));
        }
        out
    }
}

/// No comma anywhere in the sequence.
pub open spec fn no_comma(s: Seq<char>) -> bool {
    forall|k: int| 0 <= k < s.len() ==> s[k] != ','
}

proof fn lemma_no_comma_trim_front(s: Seq<char>)
    requires
        no_comma(s),
    ensures
        no_comma(spec_trim_front(s)),
    decreases s.len(),
{
    if s.len() > 0 && is_ws(s[0]) {
        assert(forall|k: int| 0 <= k < s.drop_first().len() ==> s.drop_first()[k] == s[k + 1]);
        lemma_no_comma_trim_front(s.drop_first());
    }
}

proof fn lemma_no_comma_trim_back(s: Seq<char>)
    requires
        no_comma(s),
    ensures
        no_comma(spec_trim_back(s)),
    decreases s.len(),
{
    if s.len() > 0 && is_ws(s.last()) {
        assert(forall|k: int| 0 <= k < s.drop_last().len() ==> s.drop_last()[k] == s[k]);
        lemma_no_comma_trim_back(s.drop_last());
    }
}

/// Trimming keeps a sequence comma-free.
pub proof fn lemma_no_comma_trim(s: Seq<char>)
    requires
        no_comma(s),
    ensures
        no_comma(spec_trim(s)),
{
    lemma_no_comma_trim_front(s);
    lemma_no_comma_trim_back(spec_trim_front(s));
}

/// Trimming an already trimmed sequence changes nothing.
pub proof fn lemma_trim_of_trimmed(s: Seq<char>)
    requires
        is_trimmed(s),
    ensures
        spec_trim(s) == s,
{
    if s.len() > 0 {
        assert(spec_trim_front(s) == s);
        assert(spec_trim_back(s) == s);
    } else {
        assert(spec_trim_front(s) == s);
        assert(spec_trim_back(s) == s);
    }
}

/// Every split returns at least one piece.
pub proof fn lemma_split_commas_len(s: Seq<char>)
    ensures
        split_commas(s).len() >= 1,
{
    lemma_spec_find_bounds(s, ',', 0);
}

/// No piece of a comma split contains a comma.
pub proof fn lemma_split_commas_no_comma(s: Seq<char>)
    ensures
        forall|i: int|
            0 <= i < split_commas(s).len() ==> no_comma(#[trigger] split_commas(s)[i]),
    decreases s.len(),
{
    lemma_spec_find_bounds(s, ',', 0);
    let j = spec_find(s, ',', 0);
    let sc = split_commas(s);
    if 0 <= j < s.len() {
        lemma_split_commas_no_comma(s.skip(j + 1));
        assert forall|i: int| 0 <= i < sc.len() implies no_comma(#[trigger] sc[i]) by {
            if i == 0 {
                assert(sc[0] == s.take(j));
                assert(forall|k: int| 0 <= k < j ==> s.take(j)[k] == s[k]);
            } else {
                assert(sc[i] == split_commas(s.skip(j + 1))[i - 1]);
            }
        }
    } else {
        assert(sc[0] == s);
    }
}

/// Every item of a split list is non-empty, trimmed and comma-free.
pub proof fn lemma_split_list_props(s: Seq<char>)
    ensures
        forall|i: int| 0 <= i < split_list(s).len() ==> (#[trigger] split_list(s)[i]).len() > 0,
        forall|i: int| 0 <= i < split_list(s).len() ==> is_trimmed(#[trigger] split_list(s)[i]),
        forall|i: int| 0 <= i < split_list(s).len() ==> no_comma(#[trigger] split_list(s)[i]),
{
    lemma_split_commas_no_comma(s);
    lemma_clean_props(split_commas(s));
}

proof fn lemma_clean_props(ts: Seq<Seq<char>>)
    requires
        forall|i: int| 0 <= i < ts.len() ==> no_comma(#[trigger] ts[i]),
    ensures
        forall|i: int| 0 <= i < clean_items(ts).len() ==> (#[trigger] clean_items(ts)[i]).len()
            > 0,
        forall|i: int| 0 <= i < clean_items(ts).len() ==> is_trimmed(
            #[trigger] clean_items(ts)[i],
        ),
        forall|i: int| 0 <= i < clean_items(ts).len() ==> no_comma(#[trigger] clean_items(ts)[i]),
    decreases ts.len(),
{
    if ts.len() > 0 {
        assert(forall|k: int| 0 <= k < ts.drop_first().len() ==> ts.drop_first()[k] == ts[k + 1]);
        lemma_clean_props(ts.drop_first());
        let h = spec_trim(ts[0]);
        lemma_trim_is_trimmed(ts[0]);
        lemma_no_comma_trim(ts[0]);
        let c = clean_items(ts);
        let rest = clean_items(ts.drop_first());
        if h.len() > 0 {
            assert forall|i: int| 0 <= i < c.len() implies (#[trigger] c[i]).len() > 0
                && is_trimmed(c[i]) && no_comma(c[i]) by {
                if i == 0 {
                    assert(c[0] == h);
                } else {
                    assert(c[i] == rest[i - 1]);
                }
            }
        }
    }
}

/// Joining one more item onto a non-empty list.
pub proof fn lemma_join_push(ts: Seq<Seq<char>>, x: Seq<char>)
    requires
        ts.len() > 0,
    ensures
        join_list(ts.push(x)) == join_list(ts) + sep() + x,
    decreases ts.len(),
{
    let p = ts.push(x);
    if ts.len() == 1 {
        assert(p.len() == 2);
        assert(p[0] == ts[0]);
        assert(p.drop_first() =~= seq![x]);
        assert(join_list(seq![x]) == x);
    } else {
        assert(p[0] == ts[0]);
        assert(p.drop_first() =~= ts.drop_first().push(x));
        lemma_join_push(ts.drop_first(), x);
        assert(ts[0] + sep() + (join_list(ts.drop_first()) + sep() + x) =~= (ts[0] + sep()
            + join_list(ts.drop_first())) + sep() + x);
    }
}

/// Splitting a single well-formed item gives that item back.
pub proof fn lemma_split_single(t: Seq<char>)
    requires
        t.len() > 0,
        is_trimmed(t),
        no_comma(t),
    ensures
        split_list(t) == seq![t],
{
    lemma_spec_find(t, ',', 0, t.len() as int);
    assert(split_commas(t) == seq![t]);
    lemma_trim_of_trimmed(t);
    assert(seq![t].drop_first() =~= Seq::<Seq<char>>::empty());
    assert(clean_items(Seq::<Seq<char>>::empty()) =~= Seq::<Seq<char>>::empty());
    assert(clean_items(seq![t]) =~= seq![t]);
}

/// Splitting at the first comma after a comma-free prefix.
proof fn lemma_split_commas_prefix(a: Seq<char>, b: Seq<char>)
    requires
        no_comma(a),
    ensures
        split_commas(a + seq![','] + b) == seq![a] + split_commas(b),
{
    let s = a + seq![','] + b;
    assert(s[a.len() as int] == ',');
    assert(forall|k: int| 0 <= k < a.len() ==> s[k] == a[k]);
    lemma_spec_find(s, ',', 0, a.len() as int);
    assert(s.take(a.len() as int) =~= a);
    assert(s.skip(a.len() as int + 1) =~= b);
}

/// Prepending one non-comma character only lengthens the first piece.
proof fn lemma_split_commas_cons(c: char, x: Seq<char>)
    requires
        c != ',',
    ensures
        split_commas(seq![c] + x).len() == split_commas(x).len(),
        split_commas(seq![c] + x)[0] == seq![c] + split_commas(x)[0],
        forall|i: int|
            1 <= i < split_commas(x).len() ==> #[trigger] split_commas(seq![c] + x)[i]
                == split_commas(x)[i],
{
    let s = seq![c] + x;
    lemma_spec_find_bounds(x, ',', 0);
    let j = spec_find(x, ',', 0);
    lemma_split_commas_len(x);
    if j < x.len() {
        assert(forall|k: int| 0 <= k < j + 1 ==> s[k] != ',');
        assert(s[j + 1] == ',');
        lemma_spec_find(s, ',', 0, j + 1);
        assert(s.take(j + 1) =~= seq![c] + x.take(j));
        assert(s.skip(j + 2) =~= x.skip(j + 1));
    } else {
        assert(forall|k: int| 0 <= k < s.len() ==> s[k] != ',');
        lemma_spec_find(s, ',', 0, s.len() as int);
        assert(split_commas(s) == seq![s]);
        assert(split_commas(x) == seq![x]);
        assert(s =~= seq![c] + x);
    }
}

/// A leading whitespace character does not change the trim.
proof fn lemma_trim_ws_prefix(c: char, s: Seq<char>)
    requires
        is_ws(c),
    ensures
        spec_trim(seq![c] + s) == spec_trim(s),
{
    let t = seq![c] + s;
    assert(t[0] == c);
    assert(t.drop_first() =~= s);
}

/// Splitting undoes joining, for lists of non-empty, trimmed, comma-free
/// items — the shape every rebuilt header list has.
pub proof fn lemma_split_join_roundtrip(ts: Seq<Seq<char>>)
    requires
        forall|i: int| 0 <= i < ts.len() ==> (#[trigger] ts[i]).len() > 0,
        forall|i: int| 0 <= i < ts.len() ==> is_trimmed(#[trigger] ts[i]),
        forall|i: int| 0 <= i < ts.len() ==> no_comma(#[trigger] ts[i]),
    ensures
        split_list(join_list(ts)) == ts,
    decreases ts.len(),
{
    if ts.len() == 0 {
        let e = Seq::<char>::empty();
        assert(join_list(ts) == e);
        lemma_spec_find(e, ',', 0, 0);
        assert(split_commas(e) == seq![e]);
        assert(spec_trim_front(e) == e);
        assert(spec_trim_back(e) == e);
        assert(seq![e].drop_first() =~= Seq::<Seq<char>>::empty());
        assert(clean_items(Seq::<Seq<char>>::empty()) =~= Seq::<Seq<char>>::empty());
        assert(clean_items(seq![e]) =~= Seq::<Seq<char>>::empty());
        assert(split_list(join_list(ts)) =~= ts);
    } else if ts.len() == 1 {
        assert(join_list(ts) == ts[0]);
        lemma_split_single(ts[0]);
        assert(seq![ts[0]] =~= ts);
    } else {
        let rest = ts.drop_first();
        assert(forall|k: int| 0 <= k < rest.len() ==> rest[k] == ts[k + 1]);
        lemma_split_join_roundtrip(rest);
        let jr = join_list(rest);
        let s = ts[0] + sep() + jr;
        assert(join_list(ts) == s);
        assert(s =~= ts[0] + seq![','] + (seq![' '] + jr));
        lemma_split_commas_prefix(ts[0], seq![' '] + jr);
        lemma_split_commas_cons(' ', jr);
        lemma_split_commas_len(jr);
        let scj = split_commas(jr);
        let scw = split_commas(seq![' '] + jr);
        // clean of the whitespace-shifted pieces equals clean of the
        // original pieces
        lemma_trim_ws_prefix(' ', scj[0]);
        assert(scw.drop_first() =~= scj.drop_first());
        assert(scw[0] == seq![' '] + scj[0]);
        assert(spec_trim(scw[0]) == spec_trim(scj[0]));
        assert(clean_items(scw) == clean_items(scj));
        // assemble
        let whole = seq![ts[0]] + scw;
        assert(split_commas(s) == whole);
        assert(whole[0] == ts[0]);
        assert(whole.drop_first() =~= scw);
        lemma_trim_of_trimmed(ts[0]);
        assert(clean_items(whole) == seq![ts[0]] + clean_items(scw));
        assert(clean_items(scj) == rest);
        assert(seq![ts[0]] + rest =~= ts);
    }
}

/// Does the list of strings contain `x`?
pub fn list_has_exec(items: &Vec<String>, x: &str) -> (r: bool)
    ensures
        r == list_has(items.deep_view(), x@),
{
    let mut i: usize = 0;
    while i < items.len()
        invariant
            0 <= i <= items.len(),
            forall|k: int| 0 <= k < i ==> items.deep_view()[k] != x@,
        decreases items.len() - i,
    {
        if eq_str(items[i].as_str(), x) {
            proof {
                assert(items.deep_view()[i as int] == x@);
            }
            return true;
        }
        i += 1;
    }
    false
}

} // verus!
