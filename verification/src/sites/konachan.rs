//! Konachan: conversion of raw API records.
use vstd::prelude::*;

use super::common::{
    clone_opt, first_url_or_empty, opt_or, opt_view, opt_views, or_else, spec_first_url_or_empty,
};
use super::Post;

verus! {

/// Site name of konachan.
pub const SITE_NAME: &'static str = "konachan";

/// Point-ID namespace of konachan.
pub const SITE_NAMESPACE: u64 = 10;

/// A post record as the konachan API returns it.
pub struct RawPost {
    pub id: u64,
    pub tags: String,
    pub preview_url: Option<String>,
    pub sample_url: Option<String>,
    pub jpeg_url: Option<String>,
    pub file_url: Option<String>,
    pub width: u32,
    pub height: u32,
    pub rating: String,
}

/// `post` is the normalized form of `raw`.
pub open spec fn converted(raw: RawPost, post: Post) -> bool {
    &&& post.id == raw.id
    &&& post.tags@ == raw.tags@
    &&& post.thumbnail_url@ == spec_first_url_or_empty(
        seq![
            opt_view(raw.preview_url),
            opt_view(raw.sample_url),
            opt_view(raw.jpeg_url),
            opt_view(raw.file_url),
        ],
    )
    &&& opt_view(post.direct_image_url) == or_else(opt_view(raw.file_url), opt_view(raw.jpeg_url))
    &&& post.width == raw.width
    &&& post.height == raw.height
    &&& post.rating@ == raw.rating@
    &&& post.site@ == "konachan"@
    &&& post.site_namespace == 10
    &&& post.canonical_post_url is None
}

impl RawPost {
    /// Normalize the record: thumbnail from preview, sample, jpeg, then file;
    /// direct image from file, then jpeg.
    pub fn into_post(self) -> (p: Post)
        ensures
            converted(self, p),
    {
        let RawPost { id, tags, preview_url, sample_url, jpeg_url, file_url, width, height, rating } =
            self;
        let direct_image_url = opt_or(clone_opt(&file_url), clone_opt(&jpeg_url));
        let candidates = vec![preview_url, sample_url, jpeg_url, file_url];
        assert(opt_views(candidates@) =~= seq![
            opt_view(self.preview_url),
            opt_view(self.sample_url),
            opt_view(self.jpeg_url),
            opt_view(self.file_url),
        ]);
        Post {
            id,
            tags,
            thumbnail_url: first_url_or_empty(candidates),
            direct_image_url,
            width,
            height,
            rating,
            site: SITE_NAME,
            site_namespace: SITE_NAMESPACE,
            canonical_post_url: None,
        }
    }
}

/// The records newer than `last_id`, in order.
pub open spec fn newer_raw(raw: Seq<RawPost>, last_id: u64) -> Seq<RawPost> {
    raw.filter(|x: RawPost| x.id > last_id)
}

/// Normalize a listing and keep the posts newer than `last_id`, in order.
pub fn posts_from_listing(raw: Vec<RawPost>, last_id: u64) -> (r: Vec<Post>)
    ensures
        r@.len() == newer_raw(raw@, last_id).len(),
        forall|i: int| 0 <= i < r@.len() ==> converted(#[trigger] newer_raw(raw@, last_id)[i], r@[i]),
{
    let ghost all = raw@;
    let ghost f = |x: RawPost| x.id > last_id;
    let mut out: Vec<Post> = Vec::new();
    let mut rest = raw;
    let n = rest.len();
    let mut i: usize = 0;
    assert(all.take(0).filter(f) =~= Seq::<RawPost>::empty());
    while i < n
        invariant
            i <= n,
            n == all.len(),
            rest@ == all.skip(i as int),
            f == (|x: RawPost| x.id > last_id),
            out@.len() == all.take(i as int).filter(f).len(),
            forall|k: int| 0 <= k < out@.len() ==> converted(#[trigger] all.take(i as int).filter(f)[k], out@[k]),
        decreases n - i,
    {
        let x = rest.remove(0);
        assert(x == all[i as int]);
        assert(rest@ =~= all.skip(i + 1));
        assert(all.take(i + 1).drop_last() =~= all.take(i as int));
        reveal_with_fuel(Seq::filter, 1);
        if x.id > last_id {
            let p = x.into_post();
            out.push(p);
        }
        i += 1;
    }
    assert(all.take(n as int) =~= all);
    out
}

} // verus!
