//! The response envelope, error body and site-list parsing shared by the API
//! handlers.
use vstd::prelude::*;

use crate::text::{split_on_char, split_char, trim, trim_str, views};

verus! {

/// Pagination and query metadata.
pub struct ResponseMeta {
    /// Number of items returned in this response.
    pub count: usize,
    /// Offset for the next page (`None` when there are no more results).
    pub next_offset: Option<u64>,
}

/// Standard API response envelope.
pub struct ApiResponse<T> {
    /// The response payload.
    pub data: T,
    /// Pagination metadata (present for list endpoints).
    pub meta: Option<ResponseMeta>,
}

impl<T> ApiResponse<T> {
    /// A response without pagination metadata.
    pub fn ok(data: T) -> (r: Self)
        ensures
            r.data == data,
            r.meta is None,
    {
        ApiResponse { data, meta: None }
    }

    /// A list response with its item count and next page offset.
    pub fn list(data: T, count: usize, next_offset: Option<u64>) -> (r: Self)
        ensures
            r.data == data,
            r.meta matches Some(m) && m.count == count && m.next_offset == next_offset,
    {
        ApiResponse { data, meta: Some(ResponseMeta { count, next_offset }) }
    }
}

/// Error response body.
pub struct ErrorDto {
    pub error: String,
}

/// The non-empty trimmed pieces among `pieces`.
pub open spec fn clean_pieces(pieces: Seq<Seq<char>>) -> Seq<Seq<char>>
    decreases pieces.len(),
{
    if pieces.len() == 0 {
        seq![]
    } else {
        let prev = clean_pieces(pieces.drop_last());
        let t = trim(pieces.last());
        if t.len() > 0 {
            prev.push(t)
        } else {
            prev
        }
    }
}

/// The site names in `raw`: every value is split at commas, each piece
/// trimmed, and empty pieces dropped, in order.
pub open spec fn spec_parse_sites(raw: Seq<Seq<char>>) -> Seq<Seq<char>>
    decreases raw.len(),
{
    if raw.len() == 0 {
        seq![]
    } else {
        spec_parse_sites(raw.drop_last()) + clean_pieces(split_char(raw.last(), ','))
    }
}

/// Parse site filter values into normalized non-empty names.
pub fn parse_sites(raw: &Vec<String>) -> (r: Vec<String>)
    ensures
        views(r@) == spec_parse_sites(views(raw@)),
{
    let mut out: Vec<String> = Vec::new();
    let mut i: usize = 0;
    while i < raw.len()
        invariant
            i <= raw@.len(),
            views(out@) == spec_parse_sites(views(raw@.take(i as int))),
        decreases raw@.len() - i,
    {
        let pieces = split_on_char(raw[i].as_str(), ',');
        let ghost start = views(out@);
        let mut j: usize = 0;
        while j < pieces.len()
            invariant
                j <= pieces@.len(),
                views(out@) == start + clean_pieces(views(pieces@).take(j as int)),
            decreases pieces@.len() - j,
        {
            let t = trim_str(pieces[j].as_str());
            let ghost before = views(out@);
            proof {
                assert(views(pieces@).take(j + 1).drop_last() =~= views(pieces@).take(j as int));
                assert(views(pieces@).take(j + 1).last() == pieces@[j as int]@);
            }
            if !t.as_str().is_empty() {
                out.push(t);
                proof {
                    assert(views(out@) =~= before.push(t@));
                }
            }
            j = j + 1;
        }
        proof {
            assert(views(pieces@).take(j as int) =~= views(pieces@));
            let vr = views(raw@.take(i + 1));
            assert(vr.drop_last() =~= views(raw@.take(i as int)));
            assert(vr.last() == raw@[i as int]@);
        }
        i = i + 1;
    }
    proof {
        assert(raw@.take(i as int) =~= raw@);
    }
    out
}

} // verus!
