//! e621: configuration and conversion of raw API records.
use vstd::prelude::*;

use super::common::{
    clone_opt, first_url_or_empty, opt_or, opt_view, opt_views, or_else, spec_first_url_or_empty,
};
use super::Post;
use crate::error::RoobuError;
use crate::text::{has_infix, join, join_strings, occurs_at, owned, views};

verus! {

/// Site name of e621.
pub const SITE_NAME: &'static str = "e621";

/// Point-ID namespace of e621.
pub const SITE_NAMESPACE: u64 = 2;

/// Message for partially supplied e621 credentials.
pub open spec fn msg_e621_partial() -> Seq<char> {
    "e621 credentials must include both login and api key"@
}

/// Configuration of the e621 adapter: optional basic-auth credentials.
pub struct E621Client {
    pub login: Option<String>,
    pub api_key: Option<String>,
}

/// The client carries exactly the given credentials.
pub open spec fn e621_client_ok(login: Option<String>, api_key: Option<String>, c: E621Client) -> bool {
    c.login == login && c.api_key == api_key
}

impl E621Client {
    /// Configure the adapter; both credentials or neither must be given.
    pub fn new(login: Option<String>, api_key: Option<String>) -> (r: Result<Self, RoobuError>)
        ensures
            (login is Some) == (api_key is Some) ==> (r matches Ok(c) && e621_client_ok(login, api_key, c)),
            (login is Some) != (api_key is Some) ==> (r matches Err(RoobuError::Api(m)) && m@ == msg_e621_partial()),
    {
        if login.is_some() != api_key.is_some() {
            return Err(RoobuError::Api(owned("e621 credentials must include both login and api key")));
        }
        Ok(E621Client { login, api_key })
    }
}

/// Tag groups of an e621 post.
pub struct RawTags {
    pub general: Vec<String>,
    pub artist: Vec<String>,
    pub contributor: Vec<String>,
    pub copyright: Vec<String>,
    pub character: Vec<String>,
    pub species: Vec<String>,
    pub invalid: Vec<String>,
    pub meta: Vec<String>,
    pub lore: Vec<String>,
}

/// All tags in group order.
pub open spec fn all_tags(t: RawTags) -> Seq<String> {
    t.general@ + t.artist@ + t.contributor@ + t.copyright@ + t.character@ + t.species@
        + t.invalid@ + t.meta@ + t.lore@
}

/// The space-separated tag string of a post.
pub open spec fn spec_tag_string(t: RawTags) -> Seq<char> {
    join(views(all_tags(t)), " "@)
}

/// Every part of a joined string occurs in it.
pub proof fn lemma_join_contains(parts: Seq<Seq<char>>, sep: Seq<char>, i: int)
    requires
        0 <= i < parts.len(),
    ensures
        has_infix(join(parts, sep), parts[i]),
    decreases parts.len(),
{
    let j = join(parts, sep);
    if parts.len() == 1 {
        assert(j.subrange(0, parts[0].len() as int) =~= parts[0]);
        assert(occurs_at(j, parts[i], 0));
    } else {
        let prev = join(parts.drop_last(), sep);
        if i == parts.len() - 1 {
            let at: int = (prev.len() + sep.len()) as int;
            assert(j.subrange(at, at + parts[i].len()) =~= parts[i]);
            assert(occurs_at(j, parts[i], at));
        } else {
            lemma_join_contains(parts.drop_last(), sep, i);
            assert(parts.drop_last()[i] == parts[i]);
            let k = choose|k: int| occurs_at(prev, parts[i], k);
            assert(j.subrange(k, k + parts[i].len()) =~= prev.subrange(k, k + parts[i].len()));
            assert(occurs_at(j, parts[i], k));
        }
    }
}

/// The tag string is the tags of the nine groups joined by single spaces,
/// in the order general, artist, contributor, copyright, character, species,
/// invalid, meta, lore; in particular every tag of every group occurs in it.
pub proof fn lemma_tag_string_has_every_group(t: RawTags)
    ensures
        spec_tag_string(t) == join(
            views(
                t.general@ + t.artist@ + t.contributor@ + t.copyright@ + t.character@ + t.species@ + t.invalid@
                    + t.meta@ + t.lore@,
            ),
            " "@,
        ),
        forall|x: String|
            #![trigger t.general@.contains(x)]
            #![trigger t.artist@.contains(x)]
            #![trigger t.contributor@.contains(x)]
            #![trigger t.copyright@.contains(x)]
            #![trigger t.character@.contains(x)]
            #![trigger t.species@.contains(x)]
            #![trigger t.invalid@.contains(x)]
            #![trigger t.meta@.contains(x)]
            #![trigger t.lore@.contains(x)]
            (t.general@.contains(x) || t.artist@.contains(x) || t.contributor@.contains(x) || t.copyright@.contains(x)
                || t.character@.contains(x) || t.species@.contains(x) || t.invalid@.contains(x) || t.meta@.contains(x)
                || t.lore@.contains(x)) ==> has_infix(spec_tag_string(t), x@),
{
    broadcast use vstd::seq_lib::lemma_seq_concat_contains_all_elements;
    let all = t.general@ + t.artist@ + t.contributor@ + t.copyright@ + t.character@ + t.species@ + t.invalid@
        + t.meta@ + t.lore@;
    assert(all_tags(t) =~= all);
    assert forall|x: String|
        (t.general@.contains(x) || t.artist@.contains(x) || t.contributor@.contains(x) || t.copyright@.contains(x)
            || t.character@.contains(x) || t.species@.contains(x) || t.invalid@.contains(x) || t.meta@.contains(x)
            || t.lore@.contains(x)) implies has_infix(spec_tag_string(t), x@) by {
        assert(all.contains(x));
        let i = all.lemma_contains_to_index(x);
        assert(views(all)[i] == x@);
        lemma_join_contains(views(all), " "@, i);
    }
}

fn extend(tags: &mut Vec<String>, more: Vec<String>)
    ensures
        final(tags)@ == old(tags)@ + more@,
{
    let mut more = more;
    tags.append(&mut more);
}

impl RawTags {
    /// All tags joined by single spaces, in group order.
    pub fn into_tag_string(self) -> (s: String)
        ensures
            s@ == spec_tag_string(self),
    {
        let mut tags: Vec<String> = Vec::new();
        extend(&mut tags, self.general);
        extend(&mut tags, self.artist);
        extend(&mut tags, self.contributor);
        extend(&mut tags, self.copyright);
        extend(&mut tags, self.character);
        extend(&mut tags, self.species);
        extend(&mut tags, self.invalid);
        extend(&mut tags, self.meta);
        extend(&mut tags, self.lore);
        assert(tags@ =~= all_tags(self));
        join_strings(&tags, " ")
    }
}

/// Preview image reference.
pub struct RawPreview {
    pub url: Option<String>,
}

/// Sample image reference.
pub struct RawSample {
    pub url: Option<String>,
}

/// Original file reference and its dimensions.
pub struct RawFile {
    pub width: u32,
    pub height: u32,
    pub url: Option<String>,
}

/// A post record as the e621 API returns it.
pub struct RawPost {
    pub id: u64,
    pub tags: RawTags,
    pub preview: RawPreview,
    pub sample: RawSample,
    pub file: RawFile,
    pub rating: String,
}

/// `post` is the normalized form of `raw`.
pub open spec fn converted(raw: RawPost, post: Post) -> bool {
    &&& post.id == raw.id
    &&& post.tags@ == spec_tag_string(raw.tags)
    &&& post.thumbnail_url@ == spec_first_url_or_empty(
        seq![opt_view(raw.preview.url), opt_view(raw.sample.url), opt_view(raw.file.url)],
    )
    &&& opt_view(post.direct_image_url) == or_else(opt_view(raw.file.url), opt_view(raw.sample.url))
    &&& post.width == raw.file.width
    &&& post.height == raw.file.height
    &&& post.rating@ == raw.rating@
    &&& post.site@ == "e621"@
    &&& post.site_namespace == 2
    &&& post.canonical_post_url is None
}

impl RawPost {
    /// Normalize the record: thumbnail from preview, then sample, then file;
    /// direct image from file, then sample.
    pub fn into_post(self) -> (p: Post)
        ensures
            converted(self, p),
    {
        let RawPost { id, tags, preview, sample, file, rating } = self;
        let RawFile { width, height, url: file_url } = file;
        let direct_image_url = opt_or(clone_opt(&file_url), clone_opt(&sample.url));
        let candidates = vec![preview.url, sample.url, file_url];
        assert(opt_views(candidates@) =~= seq![
            opt_view(self.preview.url),
            opt_view(self.sample.url),
            opt_view(self.file.url),
        ]);
        let thumbnail_url = first_url_or_empty(candidates);
        Post {
            id,
            tags: tags.into_tag_string(),
            thumbnail_url,
            direct_image_url,
            width,
            height,
            rating,
            site: SITE_NAME,
            site_namespace: SITE_NAMESPACE,
            canonical_post_url: None,
        }
    }
}

/// The records newer than `last_id`, in order.
pub open spec fn newer_raw(raw: Seq<RawPost>, last_id: u64) -> Seq<RawPost> {
    raw.filter(|x: RawPost| x.id > last_id)
}

/// Normalize a listing and keep the posts newer than `last_id`, in order.
pub fn posts_from_listing(raw: Vec<RawPost>, last_id: u64) -> (r: Vec<Post>)
    ensures
        r@.len() == newer_raw(raw@, last_id).len(),
        forall|i: int| 0 <= i < r@.len() ==> converted(#[trigger] newer_raw(raw@, last_id)[i], r@[i]),
{
    let ghost all = raw@;
    let ghost f = |x: RawPost| x.id > last_id;
    let mut out: Vec<Post> = Vec::new();
    let mut rest = raw;
    let n = rest.len();
    let mut i: usize = 0;
    assert(all.take(0).filter(f) =~= Seq::<RawPost>::empty());
    while i < n
        invariant
            i <= n,
            n == all.len(),
            rest@ == all.skip(i as int),
            f == (|x: RawPost| x.id > last_id),
            out@.len() == all.take(i as int).filter(f).len(),
            forall|k: int| 0 <= k < out@.len() ==> converted(#[trigger] all.take(i as int).filter(f)[k], out@[k]),
        decreases n - i,
    {
        let x = rest.remove(0);
        assert(x == all[i as int]);
        assert(rest@ =~= all.skip(i + 1));
        assert(all.take(i + 1).drop_last() =~= all.take(i as int));
        reveal_with_fuel(Seq::filter, 1);
        if x.id > last_id {
            let p = x.into_post();
            out.push(p);
        }
        i += 1;
    }
    assert(all.take(n as int) =~= all);
    out
}

} // verus!
