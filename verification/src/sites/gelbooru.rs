//! Gelbooru: configuration and conversion of raw API records.
use vstd::prelude::*;

use super::common::{scalar_u32, scalar_u64, spec_scalar_u32, spec_scalar_u64, JsonScalar};
use super::Post;

verus! {

/// Site name of gelbooru.
pub const SITE_NAME: &'static str = "gelbooru";

/// Point-ID namespace of gelbooru.
pub const SITE_NAMESPACE: u64 = 4;

/// Configuration of the gelbooru adapter: API credentials.
pub struct GelbooruClient {
    pub api_key: String,
    pub user_id: String,
}

/// A post record as the gelbooru API returns it.
pub struct RawPost {
    pub id: JsonScalar,
    pub tags: String,
    pub preview_url: String,
    pub width: JsonScalar,
    pub height: JsonScalar,
    pub rating: String,
}

/// The gelbooru API answers either with a bare list or with a wrapped one.
pub enum RawResponse {
    List(Vec<RawPost>),
    Wrapped { post: Vec<RawPost> },
}

impl RawResponse {
    /// The post records of the response.
    pub fn into_posts(self) -> (r: Vec<RawPost>)
        ensures
            r@ == match self {
                RawResponse::List(p) => p@,
                RawResponse::Wrapped { post } => post@,
            },
    {
        match self {
            RawResponse::List(posts) => posts,
            RawResponse::Wrapped { post } => post,
        }
    }
}

/// Parse a post ID from a string or number.
pub fn parse_u64(value: &JsonScalar) -> (r: Option<u64>)
    ensures
        r == spec_scalar_u64(*value),
{
    scalar_u64(value)
}

/// Parse a dimension from a string or number, defaulting to 0.
pub fn parse_u32(value: &JsonScalar) -> (r: u32)
    ensures
        r == spec_scalar_u32(*value),
{
    scalar_u32(value)
}

/// `post` is the normalized form of `raw`, whose ID parsed to `id`.
pub open spec fn converted(raw: RawPost, post: Post) -> bool {
    &&& spec_scalar_u64(raw.id) == Some(post.id)
    &&& post.tags@ == raw.tags@
    &&& post.thumbnail_url@ == raw.preview_url@
    &&& post.direct_image_url is None
    &&& post.width == spec_scalar_u32(raw.width)
    &&& post.height == spec_scalar_u32(raw.height)
    &&& post.rating@ == raw.rating@
    &&& post.site@ == "gelbooru"@
    &&& post.site_namespace == 4
    &&& post.canonical_post_url is None
}

impl RawPost {
    /// Normalize the record; `None` when the ID does not parse.
    pub fn into_post(self) -> (r: Option<Post>)
        ensures
            spec_scalar_u64(self.id) is None ==> r is None,
            spec_scalar_u64(self.id) is Some ==> (r matches Some(p) && converted(self, p)),
    {
        let id = match parse_u64(&self.id) {
            Some(id) => id,
            None => return None,
        };
        let width = parse_u32(&self.width);
        let height = parse_u32(&self.height);
        let RawPost { tags, preview_url, rating, .. } = self;
        Some(Post {
            id,
            tags,
            thumbnail_url: preview_url,
            direct_image_url: None,
            width,
            height,
            rating,
            site: SITE_NAME,
            site_namespace: SITE_NAMESPACE,
            canonical_post_url: None,
        })
    }
}

/// The records whose ID parses and is newer than `last_id`, in order.
pub open spec fn newer_raw(raw: Seq<RawPost>, last_id: u64) -> Seq<RawPost> {
    raw.filter(|x: RawPost| spec_scalar_u64(x.id) matches Some(id) && id > last_id)
}

/// Normalize a listing, dropping records without a parsable ID, and keep the
/// posts newer than `last_id`, in order.
pub fn posts_from_listing(raw: Vec<RawPost>, last_id: u64) -> (r: Vec<Post>)
    ensures
        r@.len() == newer_raw(raw@, last_id).len(),
        forall|i: int| 0 <= i < r@.len() ==> converted(#[trigger] newer_raw(raw@, last_id)[i], r@[i]),
{
    let ghost all = raw@;
    let ghost f = |x: RawPost| spec_scalar_u64(x.id) matches Some(id) && id > last_id;
    let mut out: Vec<Post> = Vec::new();
    let mut rest = raw;
    let n = rest.len();
    let mut i: usize = 0;
    assert(all.take(0).filter(f) =~= Seq::<RawPost>::empty());
    while i < n
        invariant
            i <= n,
            n == all.len(),
            rest@ == all.skip(i as int),
            f == (|x: RawPost| spec_scalar_u64(x.id) matches Some(id) && id > last_id),
            out@.len() == all.take(i as int).filter(f).len(),
            forall|k: int| 0 <= k < out@.len() ==> converted(#[trigger] all.take(i as int).filter(f)[k], out@[k]),
        decreases n - i,
    {
        let x = rest.remove(0);
        assert(x == all[i as int]);
        assert(rest@ =~= all.skip(i + 1));
        assert(all.take(i + 1).drop_last() =~= all.take(i as int));
        reveal_with_fuel(Seq::filter, 1);
        let ghost xg = x;
        match x.into_post() {
            Some(p) => {
                if p.id > last_id {
                    out.push(p);
                }
            },
            None => {},
        }
        i += 1;
    }
    assert(all.take(n as int) =~= all);
    out
}

} // verus!
