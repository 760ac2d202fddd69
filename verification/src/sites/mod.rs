//! Booru site adapters: the normalized post model, site identities, client
//! configuration and the per-site conversion of raw API records.
//!
//! Fetching pages and downloading thumbnails is network I/O and is done by
//! the application; the library decides what to fetch, how to retry, and how
//! raw records become [`Post`]s.
use vstd::prelude::*;

pub mod aibooru;
pub mod civitai;
pub mod common;
pub mod e621;
pub mod e6ai;
pub mod gelbooru;
pub mod kemono;
pub mod konachan;
pub mod retry;
pub mod validate;
pub mod yandere;

use crate::error::RoobuError;
use crate::text::{append_str, append_u64, decimal, owned, str_eq};

verus! {

// ── Data Types ──────────────────────────────────────────────────────────────

/// A normalized image post from any supported site.
#[derive(Debug)]
pub struct Post {
    /// Unique post ID within the site.
    pub id: u64,
    /// Space-separated tags describing the image content.
    pub tags: String,
    /// URL to a small thumbnail for quick preview/download.
    pub thumbnail_url: String,
    /// Optional URL to the full-resolution image.
    pub direct_image_url: Option<String>,
    /// Image width in pixels.
    pub width: u32,
    /// Image height in pixels.
    pub height: u32,
    /// Content rating (e.g., "s", "q", "e").
    pub rating: String,
    /// Human-readable site name (e.g., "rule34", "e621").
    pub site: &'static str,
    /// Numeric namespace used for encoding point IDs in the vector store.
    pub site_namespace: u64,
    /// Optional canonical URL to the post page on the site.
    pub canonical_post_url: Option<String>,
}

/// Supported booru sites.
#[derive(Debug, Clone, Copy, PartialEq, Eq)]
pub enum SiteKind {
    Rule34,
    E621,
    Safebooru,
    Xbooru,
    Kemono,
    Aibooru,
    Danbooru,
    Civitai,
    E6Ai,
    Gelbooru,
    Konachan,
    Yandere,
}

/// Site name of each kind.
pub open spec fn site_name_of(kind: SiteKind) -> Seq<char> {
    match kind {
        SiteKind::Rule34 => "rule34"@,
        SiteKind::E621 => "e621"@,
        SiteKind::Safebooru => "safebooru"@,
        SiteKind::Xbooru => "xbooru"@,
        SiteKind::Kemono => "kemono"@,
        SiteKind::Aibooru => "aibooru"@,
        SiteKind::Danbooru => "danbooru"@,
        SiteKind::Civitai => "civitai"@,
        SiteKind::E6Ai => "e6ai"@,
        SiteKind::Gelbooru => "gelbooru"@,
        SiteKind::Konachan => "konachan"@,
        SiteKind::Yandere => "yandere"@,
    }
}

/// Point-ID namespace of each kind.
pub open spec fn site_namespace_of(kind: SiteKind) -> u64 {
    match kind {
        SiteKind::Rule34 => 1,
        SiteKind::E621 => 2,
        SiteKind::Safebooru => 3,
        SiteKind::Gelbooru => 4,
        SiteKind::Danbooru => 5,
        SiteKind::Xbooru => 6,
        SiteKind::Kemono => 7,
        SiteKind::Aibooru => 8,
        SiteKind::E6Ai => 9,
        SiteKind::Konachan => 10,
        SiteKind::Yandere => 11,
        SiteKind::Civitai => 12,
    }
}

impl SiteKind {
    /// The site's name as used in checkpoints, payloads and URLs.
    pub fn name(self) -> (s: &'static str)
        ensures
            s@ == site_name_of(self),
    {
        match self {
            SiteKind::Rule34 => "rule34",
            SiteKind::E621 => "e621",
            SiteKind::Safebooru => "safebooru",
            SiteKind::Xbooru => "xbooru",
            SiteKind::Kemono => "kemono",
            SiteKind::Aibooru => "aibooru",
            SiteKind::Danbooru => "danbooru",
            SiteKind::Civitai => "civitai",
            SiteKind::E6Ai => "e6ai",
            SiteKind::Gelbooru => "gelbooru",
            SiteKind::Konachan => "konachan",
            SiteKind::Yandere => "yandere",
        }
    }

    /// The site's point-ID namespace.
    pub fn namespace(self) -> (n: u64)
        ensures
            n == site_namespace_of(self),
    {
        match self {
            SiteKind::Rule34 => 1,
            SiteKind::E621 => 2,
            SiteKind::Safebooru => 3,
            SiteKind::Gelbooru => 4,
            SiteKind::Danbooru => 5,
            SiteKind::Xbooru => 6,
            SiteKind::Kemono => 7,
            SiteKind::Aibooru => 8,
            SiteKind::E6Ai => 9,
            SiteKind::Konachan => 10,
            SiteKind::Yandere => 11,
            SiteKind::Civitai => 12,
        }
    }
}

/// Two different sites never share a namespace.
pub proof fn lemma_site_namespaces_distinct(a: SiteKind, b: SiteKind)
    requires
        a != b,
    ensures
        site_namespace_of(a) != site_namespace_of(b),
{
}

/// Credentials required for sites that need authentication.
pub struct SiteCredentials {
    pub rule34_api_key: Option<String>,
    pub rule34_user_id: Option<String>,
    pub e621_login: Option<String>,
    pub e621_api_key: Option<String>,
    pub gelbooru_api_key: Option<String>,
    pub gelbooru_user_id: Option<String>,
    pub kemono_session: Option<String>,
    pub kemono_base_url: Option<String>,
}

/// Configuration of the rule34 adapter.
pub struct Rule34Client {
    pub api_key: String,
    pub user_id: String,
}

/// Enum selecting the site adapter and carrying its configuration.
pub enum SiteClient {
    Rule34(Rule34Client),
    E621(e621::E621Client),
    Safebooru,
    Xbooru,
    Kemono(kemono::KemonoClient),
    Aibooru,
    Danbooru,
    Civitai,
    E6Ai,
    Gelbooru(gelbooru::GelbooruClient),
    Konachan,
    Yandere,
}

/// The kind of site a client talks to.
pub open spec fn client_kind(c: SiteClient) -> SiteKind {
    match c {
        SiteClient::Rule34(_) => SiteKind::Rule34,
        SiteClient::E621(_) => SiteKind::E621,
        SiteClient::Safebooru => SiteKind::Safebooru,
        SiteClient::Xbooru => SiteKind::Xbooru,
        SiteClient::Kemono(_) => SiteKind::Kemono,
        SiteClient::Aibooru => SiteKind::Aibooru,
        SiteClient::Danbooru => SiteKind::Danbooru,
        SiteClient::Civitai => SiteKind::Civitai,
        SiteClient::E6Ai => SiteKind::E6Ai,
        SiteClient::Gelbooru(_) => SiteKind::Gelbooru,
        SiteClient::Konachan => SiteKind::Konachan,
        SiteClient::Yandere => SiteKind::Yandere,
    }
}

impl SiteClient {
    /// The kind of site this client talks to.
    pub fn kind(&self) -> (k: SiteKind)
        ensures
            k == client_kind(*self),
    {
        match self {
            SiteClient::Rule34(_) => SiteKind::Rule34,
            SiteClient::E621(_) => SiteKind::E621,
            SiteClient::Safebooru => SiteKind::Safebooru,
            SiteClient::Xbooru => SiteKind::Xbooru,
            SiteClient::Kemono(_) => SiteKind::Kemono,
            SiteClient::Aibooru => SiteKind::Aibooru,
            SiteClient::Danbooru => SiteKind::Danbooru,
            SiteClient::Civitai => SiteKind::Civitai,
            SiteClient::E6Ai => SiteKind::E6Ai,
            SiteClient::Gelbooru(_) => SiteKind::Gelbooru,
            SiteClient::Konachan => SiteKind::Konachan,
            SiteClient::Yandere => SiteKind::Yandere,
        }
    }

    /// The human-readable site name.
    pub fn site_name(&self) -> (s: &'static str)
        ensures
            s@ == site_name_of(client_kind(*self)),
    {
        self.kind().name()
    }
}

// ── Client Factory ──────────────────────────────────────────────────────────

/// Message for a missing rule34 API key.
pub open spec fn msg_rule34_key() -> Seq<char> {
    "--rule34-api-key (or RULE34_API_KEY) is required when --site rule34"@
}

/// Message for a missing rule34 user ID.
pub open spec fn msg_rule34_user() -> Seq<char> {
    "--rule34-user-id (or RULE34_USER_ID) is required when --site rule34"@
}

/// Message for a missing gelbooru API key.
pub open spec fn msg_gelbooru_key() -> Seq<char> {
    "--gelbooru-api-key (or GELBOORU_API_KEY) is required when --site gelbooru"@
}

/// Message for a missing gelbooru user ID.
pub open spec fn msg_gelbooru_user() -> Seq<char> {
    "--gelbooru-user-id (or GELBOORU_USER_ID) is required when --site gelbooru"@
}

/// What `build_client` yields for `site` and `credentials`.
pub open spec fn build_client_ok(site: SiteKind, credentials: SiteCredentials, c: SiteClient) -> bool {
    &&& client_kind(c) == site
    &&& match c {
        SiteClient::Rule34(r) => credentials.rule34_api_key == Some(r.api_key)
            && credentials.rule34_user_id == Some(r.user_id),
        SiteClient::E621(e) => e621::e621_client_ok(
            credentials.e621_login,
            credentials.e621_api_key,
            e,
        ),
        SiteClient::Kemono(k) => kemono::kemono_client_ok(
            credentials.kemono_session,
            credentials.kemono_base_url,
            k,
        ),
        SiteClient::Gelbooru(g) => credentials.gelbooru_api_key == Some(g.api_key)
            && credentials.gelbooru_user_id == Some(g.user_id),
        _ => true,
    }
}

/// Build a site client for the given site kind and credentials.
///
/// Fails exactly when a credential that the site requires is missing, or when
/// e621 credentials are given only partially.
pub fn build_client(site: SiteKind, credentials: SiteCredentials) -> (r: Result<SiteClient, RoobuError>)
    ensures
        r matches Ok(c) ==> build_client_ok(site, credentials, c),
        site == SiteKind::Rule34 ==> match (credentials.rule34_api_key, credentials.rule34_user_id) {
            (None, _) => (r matches Err(RoobuError::MissingCredential(m)) && m@ == msg_rule34_key()),
            (Some(_), None) => (r matches Err(RoobuError::MissingCredential(m)) && m@ == msg_rule34_user()),
            (Some(_), Some(_)) => r is Ok,
        },
        site == SiteKind::Gelbooru ==> match (credentials.gelbooru_api_key, credentials.gelbooru_user_id) {
            (None, _) => (r matches Err(RoobuError::MissingCredential(m)) && m@ == msg_gelbooru_key()),
            (Some(_), None) => (r matches Err(RoobuError::MissingCredential(m)) && m@ == msg_gelbooru_user()),
            (Some(_), Some(_)) => r is Ok,
        },
        site == SiteKind::E621 ==> if (credentials.e621_login is Some) == (credentials.e621_api_key is Some) {
            r is Ok
        } else {
            (r matches Err(RoobuError::Api(m)) && m@ == e621::msg_e621_partial())
        },
        site != SiteKind::Rule34 && site != SiteKind::Gelbooru && site != SiteKind::E621 ==> r is Ok,
{
    match site {
        SiteKind::Rule34 => {
            let SiteCredentials { rule34_api_key, rule34_user_id, .. } = credentials;
            match rule34_api_key {
                None => Err(RoobuError::MissingCredential(
                    owned("--rule34-api-key (or RULE34_API_KEY) is required when --site rule34"),
                )),
                Some(api_key) => match rule34_user_id {
                    None => Err(RoobuError::MissingCredential(
                        owned("--rule34-user-id (or RULE34_USER_ID) is required when --site rule34"),
                    )),
                    Some(user_id) => Ok(SiteClient::Rule34(Rule34Client { api_key, user_id })),
                },
            }
        },
        SiteKind::E621 => {
            let SiteCredentials { e621_login, e621_api_key, .. } = credentials;
            match e621::E621Client::new(e621_login, e621_api_key) {
                Ok(c) => Ok(SiteClient::E621(c)),
                Err(e) => Err(e),
            }
        },
        SiteKind::Safebooru => Ok(SiteClient::Safebooru),
        SiteKind::Xbooru => Ok(SiteClient::Xbooru),
        SiteKind::Kemono => {
            let SiteCredentials { kemono_session, kemono_base_url, .. } = credentials;
            Ok(SiteClient::Kemono(kemono::KemonoClient::new(kemono_session, kemono_base_url)))
        },
        SiteKind::Aibooru => Ok(SiteClient::Aibooru),
        SiteKind::Danbooru => Ok(SiteClient::Danbooru),
        SiteKind::Civitai => Ok(SiteClient::Civitai),
        SiteKind::E6Ai => Ok(SiteClient::E6Ai),
        SiteKind::Gelbooru => {
            let SiteCredentials { gelbooru_api_key, gelbooru_user_id, .. } = credentials;
            match gelbooru_api_key {
                None => Err(RoobuError::MissingCredential(
                    owned("--gelbooru-api-key (or GELBOORU_API_KEY) is required when --site gelbooru"),
                )),
                Some(api_key) => match gelbooru_user_id {
                    None => Err(RoobuError::MissingCredential(
                        owned("--gelbooru-user-id (or GELBOORU_USER_ID) is required when --site gelbooru"),
                    )),
                    Some(user_id) => Ok(SiteClient::Gelbooru(gelbooru::GelbooruClient { api_key, user_id })),
                },
            }
        },
        SiteKind::Konachan => Ok(SiteClient::Konachan),
        SiteKind::Yandere => Ok(SiteClient::Yandere),
    }
}

// ── Post Helpers ────────────────────────────────────────────────────────────

/// Prefix of the post page URL of each site; the post ID follows it.
pub open spec fn post_url_prefix(site: Seq<char>) -> Seq<char> {
    if site == "rule34"@ {
        "https://rule34.xxx/index.php?page=post&s=view&id="@
    } else if site == "e621"@ {
        "https://e621.net/posts/"@
    } else if site == "e6ai"@ {
        "https://e6ai.net/posts/"@
    } else if site == "gelbooru"@ {
        "https://gelbooru.com/index.php?page=post&s=view&id="@
    } else if site == "safebooru"@ {
        "https://safebooru.org/index.php?page=post&s=view&id="@
    } else if site == "xbooru"@ {
        "https://xbooru.com/index.php?page=post&s=view&id="@
    } else if site == "kemono"@ {
        "https://kemono.cr/posts/"@
    } else if site == "aibooru"@ {
        "https://aibooru.online/posts/"@
    } else if site == "danbooru"@ {
        "https://danbooru.donmai.us/posts/"@
    } else if site == "civitai"@ {
        "https://civitai.com/images/"@
    } else if site == "konachan"@ {
        "https://konachan.com/post/show/"@
    } else if site == "yandere"@ {
        "https://yande.re/post/show/"@
    } else {
        "https://unknown/?id="@
    }
}

fn url_prefix(site: &str) -> (p: &'static str)
    ensures
        p@ == post_url_prefix(site@),
{
    if str_eq(site, "rule34") {
        "https://rule34.xxx/index.php?page=post&s=view&id="
    } else if str_eq(site, "e621") {
        "https://e621.net/posts/"
    } else if str_eq(site, "e6ai") {
        "https://e6ai.net/posts/"
    } else if str_eq(site, "gelbooru") {
        "https://gelbooru.com/index.php?page=post&s=view&id="
    } else if str_eq(site, "safebooru") {
        "https://safebooru.org/index.php?page=post&s=view&id="
    } else if str_eq(site, "xbooru") {
        "https://xbooru.com/index.php?page=post&s=view&id="
    } else if str_eq(site, "kemono") {
        "https://kemono.cr/posts/"
    } else if str_eq(site, "aibooru") {
        "https://aibooru.online/posts/"
    } else if str_eq(site, "danbooru") {
        "https://danbooru.donmai.us/posts/"
    } else if str_eq(site, "civitai") {
        "https://civitai.com/images/"
    } else if str_eq(site, "konachan") {
        "https://konachan.com/post/show/"
    } else if str_eq(site, "yandere") {
        "https://yande.re/post/show/"
    } else {
        "https://unknown/?id="
    }
}

/// The canonical post page URL: the stored one, or the site's URL for the ID.
pub open spec fn spec_post_url(post: Post) -> Seq<char> {
    match post.canonical_post_url {
        Some(u) => u@,
        None => post_url_prefix(post.site@) + decimal(post.id as nat),
    }
}

/// The aspect ratio (longer edge over shorter edge, zero edges counted as one)
/// is at most 2, or both edges are unknown (zero).
pub open spec fn aspect_ratio_ok(w: u32, h: u32) -> bool {
    let a = if w == 0 { 1 } else { w as int };
    let b = if h == 0 { 1 } else { h as int };
    (w == 0 && h == 0) || (a <= 2 * b && b <= 2 * a)
}

/// The aspect check does not depend on orientation, and for known edges it
/// holds exactly when the longer edge is at most twice the shorter one; a
/// single zero edge counts as one pixel, and two zero edges (unknown size)
/// pass.
pub proof fn lemma_aspect_ratio_rule(w: u32, h: u32)
    ensures
        aspect_ratio_ok(w, h) == aspect_ratio_ok(h, w),
        w > 0 && h > 0 ==> (aspect_ratio_ok(w, h) <==> vstd::math::max(w as int, h as int) <= 2
            * vstd::math::min(w as int, h as int)),
        w == 0 && h > 0 ==> (aspect_ratio_ok(w, h) <==> h <= 2),
        w == 0 && h == 0 ==> aspect_ratio_ok(w, h),
{
}

impl Post {
    /// Construct the canonical URL to the post page on its source site.
    pub fn post_url(&self) -> (s: String)
        ensures
            s@ == spec_post_url(*self),
    {
        match &self.canonical_post_url {
            Some(url) => url.clone(),
            None => {
                let mut s = owned(url_prefix(self.site));
                append_u64(&mut s, self.id);
                s
            },
        }
    }

    /// Check if the post has a non-empty thumbnail URL.
    pub fn has_thumbnail(&self) -> (b: bool)
        ensures
            b == (self.thumbnail_url@.len() > 0),
    {
        !self.thumbnail_url.as_str().is_empty()
    }

    /// Return the direct image URL if available, falling back to the thumbnail URL.
    pub fn preferred_image_url(&self) -> (s: String)
        ensures
            s@ == match self.direct_image_url {
                Some(u) => u@,
                None => self.thumbnail_url@,
            },
    {
        match &self.direct_image_url {
            Some(u) => u.clone(),
            None => self.thumbnail_url.clone(),
        }
    }

    /// Whether the aspect ratio of the post's dimensions is within bounds.
    pub fn is_aspect_ratio_ok(&self) -> (b: bool)
        ensures
            b == aspect_ratio_ok(self.width, self.height),
    {
        if self.width == 0 && self.height == 0 {
            return true;
        }
        let a: u64 = if self.width == 0 { 1 } else { self.width as u64 };
        let b: u64 = if self.height == 0 { 1 } else { self.height as u64 };
        a <= 2 * b && b <= 2 * a
    }

    /// Run preflight checks to determine if this post is worth processing:
    /// a non-empty thumbnail URL and an acceptable aspect ratio.
    pub fn passes_preflight(&self) -> (b: bool)
        ensures
            b == (self.thumbnail_url@.len() > 0 && aspect_ratio_ok(self.width, self.height)),
    {
        if !self.has_thumbnail() {
            return false;
        }
        self.is_aspect_ratio_ok()
    }
}

/// Posts newer than `last_id`, in their original order.
pub open spec fn newer_than(posts: Seq<Post>, last_id: u64) -> Seq<Post> {
    posts.filter(|p: Post| p.id > last_id)
}

/// Keep the posts newer than `last_id`, preserving order.
pub fn keep_newer(posts: Vec<Post>, last_id: u64) -> (r: Vec<Post>)
    ensures
        r@ == newer_than(posts@, last_id),
{
    let mut out: Vec<Post> = Vec::new();
    let mut rest = posts;
    let ghost all = rest@;
    let mut i: usize = 0;
    let n = rest.len();
    assert(all.take(0).filter(|p: Post| p.id > last_id) =~= Seq::<Post>::empty());
    while i < n
        invariant
            i <= n,
            n == all.len(),
            rest@ == all.skip(i as int),
            out@ == all.take(i as int).filter(|p: Post| p.id > last_id),
        decreases n - i,
    {
        let p = rest.remove(0);
        assert(p == all[i as int]);
        assert(rest@ =~= all.skip(i + 1));
        assert(all.take(i + 1).drop_last() =~= all.take(i as int));
        reveal_with_fuel(Seq::filter, 1);
        if p.id > last_id {
            out.push(p);
        }
        i += 1;
    }
    assert(all.take(n as int) =~= all);
    out
}

/// Keep the posts that pass the preflight checks, preserving order.
pub fn keep_preflight(posts: Vec<Post>) -> (r: Vec<Post>)
    ensures
        r@ == posts@.filter(|p: Post| p.thumbnail_url@.len() > 0 && aspect_ratio_ok(p.width, p.height)),
{
    let mut out: Vec<Post> = Vec::new();
    let mut rest = posts;
    let ghost all = rest@;
    let ghost f = |p: Post| p.thumbnail_url@.len() > 0 && aspect_ratio_ok(p.width, p.height);
    let mut i: usize = 0;
    let n = rest.len();
    assert(all.take(0).filter(f) =~= Seq::<Post>::empty());
    while i < n
        invariant
            i <= n,
            n == all.len(),
            rest@ == all.skip(i as int),
            out@ == all.take(i as int).filter(f),
            f == (|p: Post| p.thumbnail_url@.len() > 0 && aspect_ratio_ok(p.width, p.height)),
        decreases n - i,
    {
        let p = rest.remove(0);
        assert(p == all[i as int]);
        assert(rest@ =~= all.skip(i + 1));
        assert(all.take(i + 1).drop_last() =~= all.take(i as int));
        reveal_with_fuel(Seq::filter, 1);
        if p.passes_preflight() {
            out.push(p);
        }
        i += 1;
    }
    assert(all.take(n as int) =~= all);
    out
}

} // verus!
