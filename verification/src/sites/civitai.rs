//! Civitai: conversion of raw API records, tag building and thumbnail URL
//! rewriting.
use vstd::prelude::*;

use super::common::{
    first_url_or_empty, normalize_url, opt_view, opt_views, or_empty, spec_first_url_or_empty,
    spec_normalize_url,
};
use super::Post;
use crate::text::{
    append_str, append_u64, chars_of, contains_chars, decimal, ends_with_chars, eq_ignore_ascii_case,
    eq_ignore_case, has_infix, has_suffix, join, join_strings, lower, lower_chars, owned,
    split_whitespace, str_eq, trim, trim_str, views, ws_tokens,
};

verus! {

/// Site name of civitai.
pub const SITE_NAME: &'static str = "civitai";

/// Point-ID namespace of civitai.
pub const SITE_NAMESPACE: u64 = 12;

// ── URL path segments (url crate) ───────────────────────────────────────────

/// The path segments of `url` as the `url` crate parses them: `None` when the
/// string is not a URL or cannot be a base.
pub uninterp spec fn url_path_segments(url: Seq<char>) -> Option<Seq<Seq<char>>>;

/// Parses `url` with `reqwest::Url::parse` (the `url` crate) and returns its
/// path segments.  The contract only names the result; it states nothing of
/// how URLs are parsed or percent-encoded.
#[verifier::external_body]
fn path_segments(url: &str) -> (r: Option<Vec<String>>)
    ensures
        match r {
            Some(v) => url_path_segments(url@) == Some(views(v@)),
            None => url_path_segments(url@) is None,
        },
{
    let parsed = reqwest::Url::parse(url).ok()?;
    let segments = parsed.path_segments()?;
    Some(segments.map(|segment| segment.to_string()).collect())
}

/// Index of the first segment equal to one of `a` or `b`.
pub open spec fn first_index_of(segments: Seq<Seq<char>>, a: Seq<char>, b: Seq<char>) -> Option<int>
    decreases segments.len(),
{
    if segments.len() == 0 {
        None
    } else if segments.last() == a || segments.last() == b {
        match first_index_of(segments.drop_last(), a, b) {
            Some(i) => Some(i),
            None => Some(segments.len() - 1),
        }
    } else {
        first_index_of(segments.drop_last(), a, b)
    }
}

proof fn lemma_first_index_bounds(s: Seq<Seq<char>>, a: Seq<char>, b: Seq<char>)
    ensures
        first_index_of(s, a, b) matches Some(i) ==> 0 <= i < s.len() && (s[i] == a || s[i] == b),
    decreases s.len(),
{
    if s.len() > 0 {
        lemma_first_index_bounds(s.drop_last(), a, b);
    }
}

fn position_of(segments: &Vec<String>, a: &str, b: &str) -> (r: Option<usize>)
    ensures
        r matches Some(i) ==> i < segments@.len(),
        match first_index_of(views(segments@), a@, b@) {
            Some(i) => (r matches Some(j) && j as int == i),
            None => r is None,
        },
{
    let ghost s = views(segments@);
    let mut i: usize = 0;
    while i < segments.len()
        invariant
            i <= segments.len(),
            s == views(segments@),
            first_index_of(s.take(i as int), a@, b@) is None,
        decreases segments.len() - i,
    {
        let ghost t = s.take(i + 1);
        assert(t.drop_last() =~= s.take(i as int));
        assert(t.last() == segments@[i as int]@);
        if str_eq(segments[i].as_str(), a) || str_eq(segments[i].as_str(), b) {
            proof {
                lemma_first_index_prefix(s, a@, b@, i as int);
            }
            return Some(i);
        }
        i += 1;
    }
    assert(s.take(i as int) =~= s);
    None
}

proof fn lemma_first_index_prefix(s: Seq<Seq<char>>, a: Seq<char>, b: Seq<char>, i: int)
    requires
        0 <= i < s.len(),
        s[i] == a || s[i] == b,
        first_index_of(s.take(i), a, b) is None,
    ensures
        first_index_of(s, a, b) == Some(i),
    decreases s.len(),
{
    if s.len() - 1 > i {
        assert(s.drop_last().take(i) =~= s.take(i));
        lemma_first_index_prefix(s.drop_last(), a, b, i);
    } else {
        assert(s.drop_last() =~= s.take(i));
    }
}

/// Prefix of the civitai media cache.
pub open spec fn cache_prefix() -> Seq<char> {
    "https://image-b2.civitai.com/file/civitai-media-cache/"@
}

/// Cached-thumbnail URL for an original-image URL with the given path segments.
pub open spec fn spec_cached_thumbnail(segments: Seq<Seq<char>>) -> Option<Seq<char>> {
    match first_index_of(segments, "original=true"@, "original"@) {
        None => None,
        Some(idx) => if idx == 0 {
            None
        } else if trim(segments[idx - 1]).len() == 0 {
            None
        } else {
            Some(cache_prefix() + trim(segments[idx - 1]) + "/450x%3Cauto%3E_so"@)
        },
    }
}

/// Builds the cached-thumbnail URL from the path segments of an original-image
/// URL: the segment before `original=true` (or `original`) is the asset ID.
pub fn cached_thumbnail_from_segments(segments: &Vec<String>) -> (r: Option<String>)
    ensures
        opt_view(r) == spec_cached_thumbnail(views(segments@)),
{
    proof {
        lemma_first_index_bounds(views(segments@), "original=true"@, "original"@);
    }
    let idx = match position_of(segments, "original=true", "original") {
        Some(i) => i,
        None => return None,
    };
    if idx == 0 {
        return None;
    }
    let asset_id = trim_str(segments[idx - 1].as_str());
    assert(views(segments@)[idx - 1] == segments@[idx - 1]@);
    if asset_id.as_str().is_empty() {
        return None;
    }
    let mut out = owned("https://image-b2.civitai.com/file/civitai-media-cache/");
    append_str(&mut out, asset_id.as_str());
    append_str(&mut out, "/450x%3Cauto%3E_so");
    Some(out)
}

/// Rewrite an original-image URL to the smaller cached thumbnail.
pub fn rewrite_to_cached_thumbnail_url(url: &str) -> (r: Option<String>)
    ensures
        match url_path_segments(url@) {
            Some(segs) => opt_view(r) == spec_cached_thumbnail(segs),
            None => r is None,
        },
{
    match path_segments(url) {
        Some(segments) => cached_thumbnail_from_segments(&segments),
        None => None,
    }
}

/// Original-image URL for a cached-thumbnail URL with the given path segments.
pub open spec fn spec_original_from_cached(segments: Seq<Seq<char>>) -> Option<Seq<char>> {
    if segments.len() == 0 {
        None
    } else if !(eq_ignore_case(trim(segments.last()), "450x%3cauto%3e_so"@) || eq_ignore_case(
        trim(segments.last()),
        "450x<auto>_so"@,
    )) {
        None
    } else {
        match first_index_of(segments, "civitai-media-cache"@, "civitai-media-cache"@) {
            None => None,
            Some(idx) => if idx + 1 >= segments.len() {
                None
            } else if trim(segments[idx + 1]).len() == 0 {
                None
            } else {
                Some(cache_prefix() + trim(segments[idx + 1]) + "/original"@)
            },
        }
    }
}

/// Builds the original-image URL from the path segments of a cached-thumbnail
/// URL: the thumbnail variant must be ours, and the segment after the cache
/// directory is the asset ID.
pub fn original_from_cached_segments(segments: &Vec<String>) -> (r: Option<String>)
    ensures
        opt_view(r) == spec_original_from_cached(views(segments@)),
{
    if segments.len() == 0 {
        return None;
    }
    let variant = trim_str(segments[segments.len() - 1].as_str());
    let vc = chars_of(variant.as_str());
    let enc = chars_of("450x%3cauto%3e_so");
    let dec = chars_of("450x<auto>_so");
    let is_our_variant = eq_ignore_ascii_case(vc.as_slice(), enc.as_slice()) || eq_ignore_ascii_case(
        vc.as_slice(),
        dec.as_slice(),
    );
    if !is_our_variant {
        return None;
    }
    proof {
        lemma_first_index_bounds(views(segments@), "civitai-media-cache"@, "civitai-media-cache"@);
    }
    let cache_idx = match position_of(segments, "civitai-media-cache", "civitai-media-cache") {
        Some(i) => i,
        None => return None,
    };
    if cache_idx >= segments.len() - 1 {
        return None;
    }
    let asset_id = trim_str(segments[cache_idx + 1].as_str());
    assert(views(segments@)[cache_idx + 1] == segments@[cache_idx + 1]@);
    if asset_id.as_str().is_empty() {
        return None;
    }
    let mut out = owned("https://image-b2.civitai.com/file/civitai-media-cache/");
    append_str(&mut out, asset_id.as_str());
    append_str(&mut out, "/original");
    Some(out)
}

/// Rewrite a cached-thumbnail URL back to the original image.
pub fn rewrite_cached_thumbnail_to_original_url(url: &str) -> (r: Option<String>)
    ensures
        match url_path_segments(url@) {
            Some(segs) => opt_view(r) == spec_original_from_cached(segs),
            None => r is None,
        },
{
    match path_segments(url) {
        Some(segments) => original_from_cached_segments(&segments),
        None => None,
    }
}

// ── Ratings and tags ────────────────────────────────────────────────────────

/// Rating for a civitai NSFW level, falling back to the NSFW flag.
pub open spec fn spec_rating(nsfw: bool, level: Seq<char>) -> Seq<char> {
    let l = lower(level);
    if l == "none"@ {
        "s"@
    } else if l == "soft"@ {
        "q"@
    } else if l == "mature"@ || l == "x"@ {
        "e"@
    } else if nsfw {
        "e"@
    } else {
        "s"@
    }
}

/// Map the NSFW level (case-insensitively) to a rating letter.
pub fn rating_from_nsfw(nsfw: bool, nsfw_level: &str) -> (r: String)
    ensures
        r@ == spec_rating(nsfw, nsfw_level@),
{
    let lv = chars_of(nsfw_level);
    let l = lower_chars(lv.as_slice());
    let ls = crate::text::string_of(l.as_slice());
    if str_eq(ls.as_str(), "none") {
        owned("s")
    } else if str_eq(ls.as_str(), "soft") {
        owned("q")
    } else if str_eq(ls.as_str(), "mature") || str_eq(ls.as_str(), "x") {
        owned("e")
    } else if nsfw {
        owned("e")
    } else {
        owned("s")
    }
}

/// `value` with whitespace runs collapsed to single spaces and ends trimmed.
pub open spec fn cleaned(value: Seq<char>) -> Seq<char> {
    join(ws_tokens(value), " "@)
}

/// `tags` after offering `value`: its cleaned form is appended unless it is
/// empty or already present.
pub open spec fn spec_push_unique(tags: Seq<Seq<char>>, value: Seq<char>) -> Seq<Seq<char>> {
    if cleaned(value).len() == 0 || tags.contains(cleaned(value)) {
        tags
    } else {
        tags.push(cleaned(value))
    }
}

/// Offer each candidate in turn.
pub open spec fn offer_all(tags: Seq<Seq<char>>, candidates: Seq<Seq<char>>) -> Seq<Seq<char>>
    decreases candidates.len(),
{
    if candidates.len() == 0 {
        tags
    } else {
        spec_push_unique(offer_all(tags, candidates.drop_last()), candidates.last())
    }
}

/// Append the whitespace-normalized `value` unless it is empty or already present.
pub fn push_unique(tags: &mut Vec<String>, value: &str)
    ensures
        views(final(tags)@) == spec_push_unique(views(old(tags)@), value@),
{
    let tokens = split_whitespace(value);
    let cleaned_value = join_strings(&tokens, " ");
    if cleaned_value.as_str().is_empty() {
        return;
    }
    let mut i: usize = 0;
    while i < tags.len()
        invariant
            i <= tags.len(),
            cleaned_value@ == cleaned(value@),
            forall|k: int| 0 <= k < i ==> tags@[k]@ != cleaned_value@,
        decreases tags.len() - i,
    {
        if str_eq(tags[i].as_str(), cleaned_value.as_str()) {
            assert(views(tags@)[i as int] == cleaned(value@));
            return;
        }
        i += 1;
    }
    assert(!views(tags@).contains(cleaned(value@))) by {
        if views(tags@).contains(cleaned(value@)) {
            let k = choose|k: int| 0 <= k < views(tags@).len() && views(tags@)[k] == cleaned(value@);
            assert(tags@[k]@ == cleaned_value@);
        }
    }
    let ghost before = views(tags@);
    tags.push(cleaned_value);
    assert(views(tags@) =~= before.push(cleaned(value@)));
}

/// Generation resource referenced by an image.
pub struct RawResource {
    pub name: Option<String>,
}

/// Generation metadata of an image.
pub struct RawMeta {
    pub prompt: Option<String>,
    pub negative_prompt: Option<String>,
    pub model: Option<String>,
    pub sampler: Option<String>,
    pub resources: Option<Vec<RawResource>>,
}

impl RawMeta {
    /// Metadata with every field absent.
    pub fn empty() -> (m: Self)
        ensures
            m.prompt is None && m.negative_prompt is None && m.model is None && m.sampler is None
                && m.resources is None,
    {
        RawMeta { prompt: None, negative_prompt: None, model: None, sampler: None, resources: None }
    }
}

/// The sequence holding the value of an optional string, if any.
pub open spec fn opt_seq(v: Option<String>) -> Seq<Seq<char>> {
    match v {
        Some(s) => seq![s@],
        None => Seq::empty(),
    }
}

/// Names of the resources that have one.
pub open spec fn resource_names(rs: Seq<RawResource>) -> Seq<Seq<char>>
    decreases rs.len(),
{
    if rs.len() == 0 {
        Seq::empty()
    } else {
        resource_names(rs.drop_last()) + opt_seq(rs.last().name)
    }
}

/// Names of the resources of the metadata, if it lists any.
pub open spec fn resources_of(meta: RawMeta) -> Seq<Seq<char>> {
    match meta.resources {
        Some(rs) => resource_names(rs@),
        None => Seq::empty(),
    }
}

/// Tag candidates in the order they are offered.
pub open spec fn tag_candidates(username: Seq<char>, base_model: Seq<char>, meta: RawMeta) -> Seq<Seq<char>> {
    seq![username, base_model] + opt_seq(meta.model) + opt_seq(meta.sampler) + resources_of(meta)
        + opt_seq(meta.prompt) + opt_seq(meta.negative_prompt)
}

/// The tag string: distinct cleaned candidates joined by spaces.
pub open spec fn spec_build_tags(username: Seq<char>, base_model: Seq<char>, meta: RawMeta) -> Seq<char> {
    join(offer_all(Seq::empty(), tag_candidates(username, base_model, meta)), " "@)
}

proof fn lemma_offer_all_push(tags: Seq<Seq<char>>, c: Seq<Seq<char>>, v: Seq<char>)
    ensures
        offer_all(tags, c.push(v)) == spec_push_unique(offer_all(tags, c), v),
{
    assert(c.push(v).drop_last() =~= c);
}

proof fn lemma_offer_all_concat(tags: Seq<Seq<char>>, a: Seq<Seq<char>>, b: Seq<Seq<char>>)
    ensures
        offer_all(tags, a + b) == offer_all(offer_all(tags, a), b),
    decreases b.len(),
{
    if b.len() == 0 {
        assert(a + b =~= a);
    } else {
        lemma_offer_all_concat(tags, a, b.drop_last());
        assert((a + b).drop_last() =~= a + b.drop_last());
        assert((a + b).last() == b.last());
    }
}

fn offer_optional(tags: &mut Vec<String>, value: &Option<String>)
    ensures
        views(final(tags)@) == offer_all(views(old(tags)@), opt_seq(*value)),
{
    match value {
        Some(v) => {
            push_unique(tags, v.as_str());
            proof {
                assert(opt_seq(*value) =~= seq![v@]);
                assert(opt_seq(*value).drop_last() =~= Seq::<Seq<char>>::empty());
                assert(offer_all(views(old(tags)@), Seq::<Seq<char>>::empty()) == views(old(tags)@));
            }
        },
        None => {
            assert(opt_seq(*value) =~= Seq::<Seq<char>>::empty());
        },
    }
}

/// Build a de-duplicated, whitespace-normalized tag string from the uploader,
/// base model and generation metadata.
pub fn build_tags(username: &str, base_model: &str, meta: &RawMeta) -> (r: String)
    ensures
        r@ == spec_build_tags(username@, base_model@, *meta),
{
    let mut tags: Vec<String> = Vec::new();
    assert(views(tags@) =~= Seq::<Seq<char>>::empty());
    push_unique(&mut tags, username);
    push_unique(&mut tags, base_model);
    let ghost c0 = seq![username@, base_model@];
    proof {
        lemma_offer_all_push(Seq::empty(), seq![username@], base_model@);
        lemma_offer_all_push(Seq::empty(), Seq::empty(), username@);
        assert(Seq::<Seq<char>>::empty().push(username@) =~= seq![username@]);
        assert(seq![username@].push(base_model@) =~= c0);
    }
    assert(views(tags@) == offer_all(Seq::empty(), c0));
    let ghost t1 = views(tags@);
    offer_optional(&mut tags, &meta.model);
    proof { lemma_offer_all_concat(Seq::empty(), c0, opt_seq(meta.model)); }
    let ghost c1 = c0 + opt_seq(meta.model);
    offer_optional(&mut tags, &meta.sampler);
    proof { lemma_offer_all_concat(Seq::empty(), c1, opt_seq(meta.sampler)); }
    let ghost c2 = c1 + opt_seq(meta.sampler);
    let ghost res = resources_of(*meta);
    match &meta.resources {
        Some(resources) => {
            let mut i: usize = 0;
            while i < resources.len()
                invariant
                    i <= resources.len(),
                    views(tags@) == offer_all(Seq::empty(), c2 + resource_names(resources@.take(i as int))),
                decreases resources.len() - i,
            {
                let ghost before = views(tags@);
                offer_optional(&mut tags, &resources[i].name);
                proof {
                    let t = resources@.take(i + 1);
                    assert(t.drop_last() =~= resources@.take(i as int));
                    assert(t.last() == resources@[i as int]);
                    lemma_offer_all_concat(Seq::empty(), c2 + resource_names(resources@.take(i as int)), opt_seq(resources@[i as int].name));
                    assert(c2 + resource_names(resources@.take(i as int)) + opt_seq(resources@[i as int].name) =~= c2 + resource_names(t));
                }
                i += 1;
            }
            assert(resources@.take(resources.len() as int) =~= resources@);
        },
        None => {
            assert(c2 + res =~= c2);
        },
    }
    let ghost c3 = c2 + res;
    offer_optional(&mut tags, &meta.prompt);
    proof { lemma_offer_all_concat(Seq::empty(), c3, opt_seq(meta.prompt)); }
    let ghost c4 = c3 + opt_seq(meta.prompt);
    offer_optional(&mut tags, &meta.negative_prompt);
    proof {
        lemma_offer_all_concat(Seq::empty(), c4, opt_seq(meta.negative_prompt));
        assert(c4 + opt_seq(meta.negative_prompt) =~= tag_candidates(username@, base_model@, *meta));
    }
    join_strings(&tags, " ")
}

// ── Raw images ──────────────────────────────────────────────────────────────

/// An image record as the civitai API returns it.
pub struct RawImage {
    pub id: u64,
    pub url: Option<String>,
    pub media_type: Option<String>,
    pub width: Option<u32>,
    pub height: Option<u32>,
    pub nsfw_level: Option<String>,
    pub nsfw: bool,
    pub username: Option<String>,
    pub base_model: Option<String>,
    pub meta: Option<RawMeta>,
}

/// The record describes a still image: its declared type, if any, is `image`
/// (ignoring ASCII case), and its URL does not name a video.
pub open spec fn spec_is_image_candidate(raw: RawImage) -> bool {
    &&& match raw.media_type {
        Some(kind) => eq_ignore_case(kind@, "image"@),
        None => true,
    }
    &&& match raw.url {
        Some(u) => !(has_suffix(lower(u@), ".mp4"@) || has_suffix(lower(u@), ".webm"@) || has_infix(
            lower(u@),
            ".mp4?"@,
        ) || has_infix(lower(u@), ".webm?"@)),
        None => true,
    }
}

/// Page URL of an image.
pub open spec fn page_url(id: u64) -> Seq<char> {
    "https://civitai.com/images/"@ + decimal(id as nat)
}

/// Thumbnail URL: the cached thumbnail of the normalized URL, else the
/// normalized URL, else the page URL.
pub open spec fn spec_thumbnail(url: Option<Seq<char>>, id: u64) -> Seq<char> {
    let n = spec_normalize_url(url);
    let rewritten = match n {
        Some(u) => match url_path_segments(u) {
            Some(segs) => spec_cached_thumbnail(segs),
            None => None,
        },
        None => None,
    };
    spec_first_url_or_empty(seq![rewritten, n, Some(page_url(id))])
}

/// Metadata, or empty metadata when absent.
pub open spec fn meta_or_empty(m: Option<RawMeta>) -> RawMeta {
    match m {
        Some(x) => x,
        None => RawMeta { prompt: None, negative_prompt: None, model: None, sampler: None, resources: None },
    }
}

/// `post` is the normalized form of `raw`.
pub open spec fn converted(raw: RawImage, post: Post) -> bool {
    &&& post.id == raw.id
    &&& post.tags@ == spec_build_tags(
        or_empty(opt_view(raw.username)),
        or_empty(opt_view(raw.base_model)),
        meta_or_empty(raw.meta),
    )
    &&& post.thumbnail_url@ == spec_thumbnail(opt_view(raw.url), raw.id)
    &&& opt_view(post.direct_image_url) == spec_normalize_url(opt_view(raw.url))
    &&& post.width == match raw.width { Some(w) => w, None => 0 }
    &&& post.height == match raw.height { Some(h) => h, None => 0 }
    &&& post.rating@ == spec_rating(raw.nsfw, or_empty(opt_view(raw.nsfw_level)))
    &&& post.site@ == "civitai"@
    &&& post.site_namespace == 12
    &&& opt_view(post.canonical_post_url) == Some(page_url(raw.id))
}

impl RawImage {
    /// Whether the record is a still image rather than a video.
    pub fn is_image_candidate(&self) -> (b: bool)
        ensures
            b == spec_is_image_candidate(*self),
    {
        match &self.media_type {
            Some(kind) => {
                let k = chars_of(kind.as_str());
                let image = chars_of("image");
                if !eq_ignore_ascii_case(k.as_slice(), image.as_slice()) {
                    return false;
                }
            },
            None => {},
        }
        match &self.url {
            Some(url) => {
                let u = chars_of(url.as_str());
                let l = lower_chars(u.as_slice());
                let mp4 = chars_of(".mp4");
                let webm = chars_of(".webm");
                let mp4q = chars_of(".mp4?");
                let webmq = chars_of(".webm?");
                if ends_with_chars(l.as_slice(), mp4.as_slice()) || ends_with_chars(
                    l.as_slice(),
                    webm.as_slice(),
                ) || contains_chars(l.as_slice(), mp4q.as_slice()) || contains_chars(
                    l.as_slice(),
                    webmq.as_slice(),
                ) {
                    return false;
                }
            },
            None => {},
        }
        true
    }

    /// Normalize the record.
    pub fn into_post(self) -> (p: Post)
        ensures
            converted(self, p),
    {
        let RawImage {
            id,
            url,
            media_type: _,
            width,
            height,
            nsfw_level,
            nsfw,
            username,
            base_model,
            meta,
        } = self;
        let mut fallback_page_url = owned("https://civitai.com/images/");
        append_u64(&mut fallback_page_url, id);
        let normalized_url = normalize_url(url);
        let direct_image_url = super::common::clone_opt(&normalized_url);
        let rewritten = match &normalized_url {
            Some(u) => rewrite_to_cached_thumbnail_url(u.as_str()),
            None => None,
        };
        let candidates = vec![rewritten, normalized_url, Some(fallback_page_url.clone())];
        assert(opt_views(candidates@) =~= seq![
            opt_view(candidates@[0]),
            opt_view(candidates@[1]),
            opt_view(candidates@[2]),
        ]);
        let thumbnail_url = first_url_or_empty(candidates);
        let meta = match meta {
            Some(m) => m,
            None => RawMeta::empty(),
        };
        let username = super::common::opt_or_empty(username);
        let base_model = super::common::opt_or_empty(base_model);
        let nsfw_level = super::common::opt_or_empty(nsfw_level);
        let tags = build_tags(username.as_str(), base_model.as_str(), &meta);
        let rating = rating_from_nsfw(nsfw, nsfw_level.as_str());
        Post {
            id,
            tags,
            thumbnail_url,
            direct_image_url,
            width: match width {
                Some(w) => w,
                None => 0,
            },
            height: match height {
                Some(h) => h,
                None => 0,
            },
            rating,
            site: SITE_NAME,
            site_namespace: SITE_NAMESPACE,
            canonical_post_url: Some(fallback_page_url),
        }
    }
}

/// The image records worth converting: still images newer than `last_id`.
pub open spec fn newer_images(raw: Seq<RawImage>, last_id: u64) -> Seq<RawImage> {
    raw.filter(|x: RawImage| spec_is_image_candidate(x) && x.id > last_id)
}

/// Convert the still images of a page and keep those newer than `last_id`, in order.
pub fn posts_from_items(raw: Vec<RawImage>, last_id: u64) -> (r: Vec<Post>)
    ensures
        r@.len() == newer_images(raw@, last_id).len(),
        forall|i: int| 0 <= i < r@.len() ==> converted(#[trigger] newer_images(raw@, last_id)[i], r@[i]),
{
    let ghost all = raw@;
    let ghost f = |x: RawImage| spec_is_image_candidate(x) && x.id > last_id;
    let mut out: Vec<Post> = Vec::new();
    let mut rest = raw;
    let n = rest.len();
    let mut i: usize = 0;
    assert(all.take(0).filter(f) =~= Seq::<RawImage>::empty());
    while i < n
        invariant
            i <= n,
            n == all.len(),
            rest@ == all.skip(i as int),
            f == (|x: RawImage| spec_is_image_candidate(x) && x.id > last_id),
            out@.len() == all.take(i as int).filter(f).len(),
            forall|k: int| 0 <= k < out@.len() ==> converted(#[trigger] all.take(i as int).filter(f)[k], out@[k]),
        decreases n - i,
    {
        let x = rest.remove(0);
        assert(x == all[i as int]);
        assert(rest@ =~= all.skip(i + 1));
        assert(all.take(i + 1).drop_last() =~= all.take(i as int));
        reveal_with_fuel(Seq::filter, 1);
        if x.is_image_candidate() && x.id > last_id {
            let p = x.into_post();
            out.push(p);
        }
        i += 1;
    }
    assert(all.take(n as int) =~= all);
    out
}

/// Drop the posts rated safe (`"s"`), preserving order.
pub fn retain_not_safe(posts: Vec<Post>) -> (r: Vec<Post>)
    ensures
        r@ == posts@.filter(|p: Post| p.rating@ != "s"@),
{
    let ghost all = posts@;
    let ghost f = |p: Post| p.rating@ != "s"@;
    let mut out: Vec<Post> = Vec::new();
    let mut rest = posts;
    let n = rest.len();
    let mut i: usize = 0;
    assert(all.take(0).filter(f) =~= Seq::<Post>::empty());
    while i < n
        invariant
            i <= n,
            n == all.len(),
            rest@ == all.skip(i as int),
            f == (|p: Post| p.rating@ != "s"@),
            out@ == all.take(i as int).filter(f),
        decreases n - i,
    {
        let p = rest.remove(0);
        assert(p == all[i as int]);
        assert(rest@ =~= all.skip(i + 1));
        assert(all.take(i + 1).drop_last() =~= all.take(i as int));
        reveal_with_fuel(Seq::filter, 1);
        if !str_eq(p.rating.as_str(), "s") {
            out.push(p);
        }
        i += 1;
    }
    assert(all.take(n as int) =~= all);
    out
}

} // verus!
