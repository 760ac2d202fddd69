//! Yande.re: conversion of raw API records.
use vstd::prelude::*;

use super::common::{opt_or, opt_or_empty, opt_view, or_else, or_empty};
use super::Post;

verus! {

/// Site name of yandere.
pub const SITE_NAME: &'static str = "yandere";

/// Point-ID namespace of yandere.
pub const SITE_NAMESPACE: u64 = 11;

/// A post record as the yande.re API returns it.
pub struct RawPost {
    pub id: u64,
    pub tags: String,
    pub preview_url: Option<String>,
    pub sample_url: Option<String>,
    pub jpeg_url: Option<String>,
    pub file_url: Option<String>,
    pub width: u32,
    pub height: u32,
    pub rating: String,
}

/// `post` is the normalized form of `raw`.
pub open spec fn converted(raw: RawPost, post: Post) -> bool {
    &&& post.id == raw.id
    &&& post.tags@ == raw.tags@
    &&& post.thumbnail_url@ == or_empty(
        or_else(
            or_else(or_else(opt_view(raw.preview_url), opt_view(raw.sample_url)), opt_view(raw.jpeg_url)),
            opt_view(raw.file_url),
        ),
    )
    &&& post.direct_image_url is None
    &&& post.width == raw.width
    &&& post.height == raw.height
    &&& post.rating@ == raw.rating@
    &&& post.site@ == "yandere"@
    &&& post.site_namespace == 11
    &&& post.canonical_post_url is None
}

impl RawPost {
    /// Normalize the record: thumbnail from preview, sample, jpeg, then file.
    pub fn into_post(self) -> (p: Post)
        ensures
            converted(self, p),
    {
        let RawPost { id, tags, preview_url, sample_url, jpeg_url, file_url, width, height, rating } =
            self;
        let thumbnail_url = opt_or_empty(opt_or(opt_or(opt_or(preview_url, sample_url), jpeg_url), file_url));
        Post {
            id,
            tags,
            thumbnail_url,
            direct_image_url: None,
            width,
            height,
            rating,
            site: SITE_NAME,
            site_namespace: SITE_NAMESPACE,
            canonical_post_url: None,
        }
    }
}

/// The records newer than `last_id`, in order.
pub open spec fn newer_raw(raw: Seq<RawPost>, last_id: u64) -> Seq<RawPost> {
    raw.filter(|x: RawPost| x.id > last_id)
}

/// Normalize a listing and keep the posts newer than `last_id`, in order.
pub fn posts_from_listing(raw: Vec<RawPost>, last_id: u64) -> (r: Vec<Post>)
    ensures
        r@.len() == newer_raw(raw@, last_id).len(),
        forall|i: int| 0 <= i < r@.len() ==> converted(#[trigger] newer_raw(raw@, last_id)[i], r@[i]),
{
    let ghost all = raw@;
    let ghost f = |x: RawPost| x.id > last_id;
    let mut out: Vec<Post> = Vec::new();
    let mut rest = raw;
    let n = rest.len();
    let mut i: usize = 0;
    assert(all.take(0).filter(f) =~= Seq::<RawPost>::empty());
    while i < n
        invariant
            i <= n,
            n == all.len(),
            rest@ == all.skip(i as int),
            f == (|x: RawPost| x.id > last_id),
            out@.len() == all.take(i as int).filter(f).len(),
            forall|k: int| 0 <= k < out@.len() ==> converted(#[trigger] all.take(i as int).filter(f)[k], out@[k]),
        decreases n - i,
    {
        let x = rest.remove(0);
        assert(x == all[i as int]);
        assert(rest@ =~= all.skip(i + 1));
        assert(all.take(i + 1).drop_last() =~= all.take(i as int));
        reveal_with_fuel(Seq::filter, 1);
        if x.id > last_id {
            let p = x.into_post();
            out.push(p);
        }
        i += 1;
    }
    assert(all.take(n as int) =~= all);
    out
}

} // verus!
