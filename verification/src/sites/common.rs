//! URL normalization shared by the site adapters.
use vstd::prelude::*;

use crate::text::{parse_u32, parse_u64, parse_unsigned, trim, trim_str};

verus! {

/// `Some(trimmed)` when the trimmed URL is non-empty, else `None`.
pub open spec fn spec_normalize_url(value: Option<Seq<char>>) -> Option<Seq<char>> {
    match value {
        Some(u) => if trim(u).len() == 0 {
            None
        } else {
            Some(trim(u))
        },
        None => None,
    }
}

/// View of an optional string.
pub open spec fn opt_view(value: Option<String>) -> Option<Seq<char>> {
    match value {
        Some(s) => Some(s@),
        None => None,
    }
}

/// The first candidate that normalizes to a non-empty URL.
pub open spec fn spec_first_url(candidates: Seq<Option<Seq<char>>>) -> Option<Seq<char>>
    decreases candidates.len(),
{
    if candidates.len() == 0 {
        None
    } else {
        match spec_normalize_url(candidates[0]) {
            Some(u) => Some(u),
            None => spec_first_url(candidates.drop_first()),
        }
    }
}

/// Views of a sequence of optional strings.
pub open spec fn opt_views(v: Seq<Option<String>>) -> Seq<Option<Seq<char>>> {
    v.map_values(|o: Option<String>| opt_view(o))
}

/// Trim whitespace and return `None` if the result is empty.
pub fn normalize_url(value: Option<String>) -> (r: Option<String>)
    ensures
        opt_view(r) == spec_normalize_url(opt_view(value)),
{
    match value {
        Some(url) => {
            let trimmed = trim_str(url.as_str());
            if trimmed.as_str().is_empty() {
                None
            } else {
                Some(trimmed)
            }
        },
        None => None,
    }
}

} // verus!

verus! {

/// Return the first non-empty, normalized URL from a list of candidates.
pub fn first_url(candidates: Vec<Option<String>>) -> (r: Option<String>)
    ensures
        opt_view(r) == spec_first_url(opt_views(candidates@)),
{
    let ghost all = opt_views(candidates@);
    let mut i: usize = 0;
    let n = candidates.len();
    let mut rest = candidates;
    assert(rest@ =~= candidates@.skip(0));
    assert(all =~= all.skip(0));
    while i < n
        invariant
            i <= n,
            n == candidates@.len(),
            rest@ == candidates@.skip(i as int),
            all == opt_views(candidates@),
            spec_first_url(all) == spec_first_url(all.skip(i as int)),
        decreases n - i,
    {
        let c = rest.remove(0);
        assert(c == candidates@[i as int]);
        assert(all.skip(i as int)[0] == opt_view(c));
        assert(all.skip(i as int).drop_first() =~= all.skip(i + 1));
        assert(rest@ =~= candidates@.skip(i + 1));
        let normalized = normalize_url(c);
        if normalized.is_some() {
            return normalized;
        }
        i += 1;
    }
    assert(all.skip(n as int) =~= Seq::<Option<Seq<char>>>::empty());
    None
}

/// Return the first non-empty URL, or an empty string if none found.
pub fn first_url_or_empty(candidates: Vec<Option<String>>) -> (r: String)
    ensures
        r@ == match spec_first_url(opt_views(candidates@)) {
            Some(u) => u,
            None => Seq::<char>::empty(),
        },
{
    match first_url(candidates) {
        Some(u) => u,
        None => String::new(),
    }
}

} // verus!

verus! {

/// The first usable URL among the candidates, or the empty string.
pub open spec fn spec_first_url_or_empty(candidates: Seq<Option<Seq<char>>>) -> Seq<char> {
    match spec_first_url(candidates) {
        Some(u) => u,
        None => Seq::empty(),
    }
}

/// `a.or(b)` on optional strings.
pub open spec fn or_else(a: Option<Seq<char>>, b: Option<Seq<char>>) -> Option<Seq<char>> {
    match a {
        Some(x) => Some(x),
        None => b,
    }
}

/// `value.unwrap_or_default()` on an optional string.
pub open spec fn or_empty(value: Option<Seq<char>>) -> Seq<char> {
    match value {
        Some(x) => x,
        None => Seq::empty(),
    }
}

/// Clones an optional string.
pub fn clone_opt(value: &Option<String>) -> (r: Option<String>)
    ensures
        opt_view(r) == opt_view(*value),
{
    match value {
        Some(s) => Some(s.clone()),
        None => None,
    }
}

/// `a.or(b)` on optional strings.
pub fn opt_or(a: Option<String>, b: Option<String>) -> (r: Option<String>)
    ensures
        opt_view(r) == or_else(opt_view(a), opt_view(b)),
{
    match a {
        Some(x) => Some(x),
        None => b,
    }
}

/// `value.unwrap_or_default()` on an optional string.
pub fn opt_or_empty(value: Option<String>) -> (r: String)
    ensures
        r@ == or_empty(opt_view(value)),
{
    match value {
        Some(x) => x,
        None => String::new(),
    }
}

} // verus!

verus! {

/// A scalar JSON value as the site APIs send identifiers and dimensions:
/// a string, a number (with its value when it is a non-negative integer
/// that fits in 64 bits), or anything else.
pub enum JsonScalar {
    Text(String),
    Number(Option<u64>),
    Other,
}

/// The identifier carried by a scalar: parsed from a string, or taken from a number.
pub open spec fn spec_scalar_u64(v: JsonScalar) -> Option<u64> {
    match v {
        JsonScalar::Text(s) => match parse_unsigned(s@, u64::MAX as nat) {
            Some(n) => Some(n as u64),
            None => None,
        },
        JsonScalar::Number(n) => n,
        JsonScalar::Other => None,
    }
}

/// A dimension carried by a scalar, 0 when absent or unparsable; numbers are
/// truncated to 32 bits.
pub open spec fn spec_scalar_u32(v: JsonScalar) -> u32 {
    match v {
        JsonScalar::Text(s) => match parse_unsigned(s@, u32::MAX as nat) {
            Some(n) => n as u32,
            None => 0,
        },
        JsonScalar::Number(n) => match n {
            Some(x) => x as u32,
            None => 0,
        },
        JsonScalar::Other => 0,
    }
}

/// Parse an identifier from a string or number.
pub fn scalar_u64(v: &JsonScalar) -> (r: Option<u64>)
    ensures
        r == spec_scalar_u64(*v),
{
    match v {
        JsonScalar::Text(s) => parse_u64(s.as_str()),
        JsonScalar::Number(n) => *n,
        JsonScalar::Other => None,
    }
}

/// Parse a dimension from a string or number, defaulting to 0.
pub fn scalar_u32(v: &JsonScalar) -> (r: u32)
    ensures
        r == spec_scalar_u32(*v),
{
    match v {
        JsonScalar::Text(s) => match parse_u32(s.as_str()) {
            Some(x) => x,
            None => 0,
        },
        JsonScalar::Number(n) => match n {
            Some(x) => *x as u32,
            None => 0,
        },
        JsonScalar::Other => 0,
    }
}

/// Whether a response body is empty or an HTML page (it starts with `<`):
/// such a body holds no posts.
pub fn is_blank_or_html(body: &str) -> (b: bool)
    ensures
        b == (body@.len() == 0 || body@[0] == '<'),
{
    let mut first: Option<char> = None;
    for c in it: body.chars()
        invariant
            it.index() == 0 ==> first is None,
            it.index() > 0 ==> first == Some(it.seq()[0]),
    {
        if first.is_none() {
            first = Some(c);
        }
    }
    match first {
        None => true,
        Some(c) => c == '<',
    }
}

} // verus!
