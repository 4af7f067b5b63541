//! `Cache-Control`-style directive lists: `name`, `name=token`, or
//! `name="quoted"`, comma-separated.  Names are folded to lower case,
//! values lose one layer of surrounding double quotes, empty items are
//! dropped, and the raw (trimmed) text of each item is kept so that a
//! list can be rebuilt verbatim.

use vstd::prelude::*;

use crate::chars::{all_digits, dec_val, lower_seq};
use crate::lists::{split_list, split_list_exec};
use crate::strutil::{
    eq_str, find_char, parse_u64, spec_find, spec_trim, to_lower_string, trim,
};

verus! {

/// One parsed directive.
pub struct Directive {
    pub name: String,
    pub value: Option<String>,
    pub raw: String,
}

/// The mathematical content of one directive.
pub struct DirView {
    pub name: Seq<char>,
    pub value: Option<Seq<char>>,
    pub raw: Seq<char>,
}

impl View for Directive {
    type V = DirView;

    open spec fn view(&self) -> DirView {
        DirView {
            name: self.name@,
            value: match self.value {
                Some(v) => Some(v@),
                None => None,
            },
            raw: self.raw@,
        }
    }
}

impl DeepView for Directive {
    type V = DirView;

    open spec fn deep_view(&self) -> DirView {
        self.view()
    }
}

/// Removes one layer of surrounding double quotes, if both are present.
pub open spec fn strip_quotes(v: Seq<char>) -> Seq<char> {
    if v.len() >= 2 && v[0] == '"' && v.last() == '"' {
        v.subrange(1, v.len() - 1)
    } else {
        v
    }
}

/// Parses one trimmed, non-empty list item.
pub open spec fn parse_item(t: Seq<char>) -> DirView {
    let e = spec_find(t, '=', 0);
    if e >= t.len() {
        DirView { name: lower_seq(t), value: None, raw: t }
    } else {
        DirView {
            name: lower_seq(spec_trim(t.take(e))),
            value: Some(strip_quotes(spec_trim(t.skip(e + 1)))),
            raw: t,
        }
    }
}

/// Parses a sequence of list items, dropping those whose name is empty.
pub open spec fn parse_items(ts: Seq<Seq<char>>) -> Seq<DirView>
    decreases ts.len(),
{
    if ts.len() == 0 {
        Seq::empty()
    } else {
        let d = parse_item(ts[0]);
        let rest = parse_items(ts.drop_first());
        if d.name.len() > 0 {
            seq![d] + rest
        } else {
            rest
        }
    }
}

/// Parses a whole `Cache-Control`-style header value.
pub open spec fn parse_cc(s: Seq<char>) -> Seq<DirView> {
    parse_items(split_list(s))
}

/// The value recorded for a directive; the last occurrence wins.
/// `None`: absent.  `Some(None)`: present without a value.
/// `Some(Some(v))`: present with value `v`.
pub open spec fn dir_lookup(ds: Seq<DirView>, name: Seq<char>) -> Option<Option<Seq<char>>>
    decreases ds.len(),
{
    if ds.len() == 0 {
        None
    } else if ds.last().name == name {
        Some(ds.last().value)
    } else {
        dir_lookup(ds.drop_last(), name)
    }
}

/// Is the directive present (with or without a value)?
pub open spec fn has_dir(ds: Seq<DirView>, name: Seq<char>) -> bool {
    dir_lookup(ds, name) is Some
}

/// The directive's value read as a non-negative number of seconds;
/// absent, valueless or malformed all yield `None`.
pub open spec fn dir_seconds(ds: Seq<DirView>, name: Seq<char>) -> Option<int> {
    match dir_lookup(ds, name) {
        Some(Some(v)) => if all_digits(v) && dec_val(v) <= u64::MAX {
            Some(dec_val(v))
        } else {
            None
        },
        _ => None,
    }
}

proof fn lemma_dir_lookup_found(ds: Seq<DirView>, name: Seq<char>, j: int)
    requires
        0 <= j < ds.len(),
        ds[j].name == name,
        forall|k: int| j < k < ds.len() ==> ds[k].name != name,
    ensures
        dir_lookup(ds, name) == Some(ds[j].value),
    decreases ds.len(),
{
    if j == ds.len() - 1 {
    } else {
        assert(ds.last().name != name);
        assert(ds.drop_last()[j] == ds[j]);
        assert(forall|k: int| j < k < ds.drop_last().len() ==> ds.drop_last()[k] == ds[k]);
        lemma_dir_lookup_found(ds.drop_last(), name, j);
    }
}

proof fn lemma_dir_lookup_none(ds: Seq<DirView>, name: Seq<char>)
    requires
        forall|k: int| 0 <= k < ds.len() ==> ds[k].name != name,
    ensures
        dir_lookup(ds, name) is None,
    decreases ds.len(),
{
    if ds.len() > 0 {
        assert(forall|k: int| 0 <= k < ds.drop_last().len() ==> ds.drop_last()[k] == ds[k]);
        lemma_dir_lookup_none(ds.drop_last(), name);
    }
}

/// Parses one item (already trimmed and non-empty).
fn parse_item_exec(t: &str) -> (d: Directive)
    ensures
        d@ == parse_item(t@),
{
    let n = t.unicode_len();
    let e = find_char(t, '=', 0);
    if e == n {
        Directive { name: to_lower_string(t), value: None, raw: t.to_owned() }
    } else {
        let name = to_lower_string(trim(t.substring_char(0, e)));
        let rv = trim(t.substring_char(e + 1, n));
        let m = rv.unicode_len();
        let value = if m >= 2 && rv.get_char(0) == '"' && rv.get_char(m - 1) == '"' {
            rv.substring_char(1, m - 1).to_owned()
        } else {
            rv.to_owned()
        };
        proof {
            assert(t@.take(e as int) == t@.subrange(0, e as int));
            assert(t@.skip(e as int + 1) == t@.subrange(e as int + 1, n as int));
            if m >= 2 && rv@[0] == '"' && rv@[m - 1] == '"' {
                assert(rv@.last() == rv@[m - 1]);
            }
        }
        Directive { name, value: Some(value), raw: t.to_owned() }
    }
}

fn parse_from(items: &Vec<String>, i: usize) -> (r: Vec<Directive>)
    requires
        i <= items.len(),
    ensures
        r.deep_view() == parse_items(items.deep_view().skip(i as int)),
    decreases items.len() - i,
{
    if i == items.len() {
        let r: Vec<Directive> = Vec::new();
        proof {
            assert(items.deep_view().skip(i as int) =~= Seq::<Seq<char>>::empty());
            assert(r.deep_view() =~~= parse_items(items.deep_view().skip(i as int)));
        }
        r
    } else {
        let mut rest = parse_from(items, i + 1);
        let d = parse_item_exec(items[i].as_str());
        proof {
            let dv = items.deep_view();
            assert(dv.skip(i as int)[0] == dv[i as int]);
            assert(dv.skip(i as int).drop_first() =~= dv.skip(i as int + 1));
        }
        if d.name.unicode_len() > 0 {
            let mut r: Vec<Directive> = Vec::new();
            r.push(d);
            r.append(&mut rest);
            proof {
                assert(r.deep_view() =~~= parse_items(items.deep_view().skip(i as int)));
            }
            r
        } else {
            proof {
                assert(rest.deep_view() =~~= parse_items(items.deep_view().skip(i as int)));
            }
            rest
        }
    }
}

/// Parses a whole `Cache-Control`-style header value.
pub fn parse_cc_exec(s: &str) -> (r: Vec<Directive>)
    ensures
        r.deep_view() == parse_cc(s@),
{
    let items = split_list_exec(s);
    let r = parse_from(&items, 0);
    proof {
        assert(items.deep_view().skip(0) =~= items.deep_view());
    }
    r
}

/// Looks a directive up by (lower-case) name; the last occurrence wins.
pub fn dir_value<'a>(ds: &'a Vec<Directive>, name: &str) -> (r: Option<Option<&'a String>>)
    ensures
        match r {
            None => dir_lookup(ds.deep_view(), name@) is None,
            Some(None) => dir_lookup(ds.deep_view(), name@) == Some(None::<Seq<char>>),
            Some(Some(v)) => dir_lookup(ds.deep_view(), name@) == Some(Some(v@)),
        },
{
    let n = ds.len();
    let mut i: usize = n;
    while i > 0
        invariant
            0 <= i <= n,
            n == ds.deep_view().len(),
            forall|k: int| i <= k < n ==> ds.deep_view()[k].name != name@,
        decreases i,
    {
        i -= 1;
        if eq_str(ds[i].name.as_str(), name) {
            proof {
                assert(ds.deep_view()[i as int].name == name@);
                lemma_dir_lookup_found(ds.deep_view(), name@, i as int);
            }
            return match &ds[i].value {
                Some(v) => Some(Some(v)),
                None => Some(None),
            };
        }
    }
    proof {
        lemma_dir_lookup_none(ds.deep_view(), name@);
    }
    None
}

/// Is the directive present?
pub fn dir_has(ds: &Vec<Directive>, name: &str) -> (r: bool)
    ensures
        r == has_dir(ds.deep_view(), name@),
{
    match dir_value(ds, name) {
        Some(_) => true,
        None => false,
    }
}

/// The directive's value as a number of seconds, if present and well-formed.
pub fn dir_seconds_exec(ds: &Vec<Directive>, name: &str) -> (r: Option<u64>)
    ensures
        match r {
            Some(n) => dir_seconds(ds.deep_view(), name@) == Some(n as int),
            None => dir_seconds(ds.deep_view(), name@) is None,
        },
{
    match dir_value(ds, name) {
        Some(Some(v)) => parse_u64(v.as_str()),
        _ => None,
    }
}

} // verus!
