//! Kemono: configuration and conversion of raw API records.
use vstd::prelude::*;

use super::common::{opt_view, scalar_u64, spec_scalar_u64, JsonScalar};
use super::Post;
use crate::text::{
    append_str, append_u64, chars_of, decimal, ends_with_chars, has_prefix, has_suffix, is_ws, join, join_strings, lower,
    lower_chars, owned, push_char, starts_with_chars, str_eq, string_of, trim, trim_end_char,
    trim_end_matches_char, trim_str, views,
};

verus! {

/// Default base URL of the kemono API.
pub const DEFAULT_BASE_URL: &'static str = "https://kemono.cr";

/// `Some(trimmed)` when the trimmed value is non-empty.
pub open spec fn spec_normalize_optional(value: Option<Seq<char>>) -> Option<Seq<char>> {
    match value {
        Some(v) => if trim(v).len() == 0 {
            None
        } else {
            Some(trim(v))
        },
        None => None,
    }
}

/// Trim an optional value and drop it when nothing is left.
pub fn normalize_optional(value: Option<String>) -> (r: Option<String>)
    ensures
        opt_view(r) == spec_normalize_optional(opt_view(value)),
{
    match value {
        Some(v) => {
            let trimmed = trim_str(v.as_str());
            if trimmed.as_str().is_empty() {
                None
            } else {
                Some(trimmed)
            }
        },
        None => None,
    }
}

/// Configuration of the kemono adapter.
pub struct KemonoClient {
    /// Normalized session token, if any.
    pub session: Option<String>,
    /// Base URL tried first.
    pub preferred_base_url: String,
}

/// The client carries the normalized session and the normalized base URL,
/// falling back to the default base URL.
pub open spec fn kemono_client_ok(session: Option<String>, base_url: Option<String>, c: KemonoClient) -> bool {
    &&& opt_view(c.session) == spec_normalize_optional(opt_view(session))
    &&& c.preferred_base_url@ == match spec_normalize_optional(opt_view(base_url)) {
        Some(u) => u,
        None => "https://kemono.cr"@,
    }
}

impl KemonoClient {
    /// Configure the adapter from an optional session token and base URL.
    pub fn new(session: Option<String>, base_url: Option<String>) -> (c: Self)
        ensures
            kemono_client_ok(session, base_url, c),
    {
        let normalized_session = normalize_optional(session);
        let preferred = match normalize_optional(base_url) {
            Some(u) => u,
            None => owned(DEFAULT_BASE_URL),
        };
        KemonoClient { session: normalized_session, preferred_base_url: preferred }
    }
}


// ── Listing pages ───────────────────────────────────────────────────────────

/// Posts per listing page of the kemono API.
pub const POSTS_PAGE_SIZE: u64 = 50;

/// The most listing pages read in one cycle.
pub const FETCH_PAGES_PER_CYCLE: u64 = 6;

/// The offset of the next listing page to read, after `pages_read` pages of
/// which the last held `last_len` posts: none once an empty page was read or
/// `FETCH_PAGES_PER_CYCLE` pages were.
pub fn next_page_offset(pages_read: u64, last_len: usize) -> (r: Option<u64>)
    ensures
        r == (if (pages_read > 0 && last_len == 0) || pages_read >= FETCH_PAGES_PER_CYCLE {
            None::<u64>
        } else {
            Some((pages_read * POSTS_PAGE_SIZE) as u64)
        }),
{
    if (pages_read > 0 && last_len == 0) || pages_read >= FETCH_PAGES_PER_CYCLE {
        None
    } else {
        Some(pages_read * POSTS_PAGE_SIZE)
    }
}

/// The URL of the listing page at `offset` under `base_url`.
pub fn listing_url(base_url: &str, offset: u64) -> (r: String)
    ensures
        r@ == trim_end_char(base_url@, '/') + "/api/v1/posts?o="@ + decimal(offset as nat),
{
    let mut url = trim_trailing_slash(base_url);
    append_str(&mut url, "/api/v1/posts?o=");
    append_u64(&mut url, offset);
    url
}

// ── Text helpers ────────────────────────────────────────────────────────────

/// Remove trailing slashes.
pub fn trim_trailing_slash(input: &str) -> (r: String)
    ensures
        r@ == trim_end_char(input@, '/'),
{
    trim_end_matches_char(input, '/')
}

/// Text outside `<...>` markup, together with whether the scan ends inside a tag.
pub open spec fn strip_state(s: Seq<char>) -> (Seq<char>, bool)
    decreases s.len(),
{
    if s.len() == 0 {
        (Seq::empty(), false)
    } else {
        let prev = strip_state(s.drop_last());
        let c = s.last();
        if c == '<' {
            (prev.0, true)
        } else if c == '>' {
            (prev.0, false)
        } else if !prev.1 {
            (prev.0.push(c), prev.1)
        } else {
            prev
        }
    }
}

/// The text of `s` with HTML tags removed.
pub open spec fn spec_strip_html(s: Seq<char>) -> Seq<char> {
    strip_state(s).0
}

/// Remove everything between `<` and `>` (inclusive).
pub fn strip_html_tags(input: &str) -> (r: String)
    ensures
        r@ == spec_strip_html(input@),
{
    let v = chars_of(input);
    let mut out = String::new();
    let mut inside_tag = false;
    let mut i: usize = 0;
    while i < v.len()
        invariant
            i <= v.len(),
            v@ == input@,
            (out@, inside_tag) == strip_state(input@.take(i as int)),
        decreases v.len() - i,
    {
        let ghost t = input@.take(i + 1);
        assert(t.drop_last() =~= input@.take(i as int));
        assert(t.last() == v@[i as int]);
        let ch = v[i];
        if ch == '<' {
            inside_tag = true;
        } else if ch == '>' {
            inside_tag = false;
        } else if !inside_tag {
            push_char(&mut out, ch);
        }
        i += 1;
    }
    assert(input@.take(v.len() as int) =~= input@);
    out
}

/// `s` with every newline replaced by a space.
pub open spec fn newlines_to_spaces(s: Seq<char>) -> Seq<char> {
    s.map_values(|c: char| if c == '\n' { ' ' } else { c })
}

fn replace_newlines(s: &str) -> (r: String)
    ensures
        r@ == newlines_to_spaces(s@),
{
    let v = chars_of(s);
    let mut out: Vec<char> = Vec::new();
    let mut i: usize = 0;
    while i < v.len()
        invariant
            i <= v.len(),
            v@ == s@,
            out@ == newlines_to_spaces(s@.take(i as int)),
        decreases v.len() - i,
    {
        let c = if v[i] == '\n' { ' ' } else { v[i] };
        out.push(c);
        assert(newlines_to_spaces(s@.take(i + 1)) =~= newlines_to_spaces(s@.take(i as int)).push(c));
        i += 1;
    }
    assert(s@.take(v.len() as int) =~= s@);
    string_of(out.as_slice())
}

/// The non-empty parts among `parts`, in order.
pub open spec fn non_empty(parts: Seq<Seq<char>>) -> Seq<Seq<char>> {
    parts.filter(|p: Seq<char>| p.len() > 0)
}

/// Tag text of a kemono post: trimmed title, summary without markup or
/// newlines, and service, each only when non-empty, joined by spaces.
pub open spec fn spec_synthesize_tags(title: Seq<char>, substring: Seq<char>, service: Seq<char>) -> Seq<char> {
    join(
        non_empty(seq![trim(title), trim(newlines_to_spaces(spec_strip_html(substring))), trim(service)]),
        " "@,
    )
}

/// Build tag text from the title, the HTML summary and the service name.
pub fn synthesize_tags(title: &str, substring: &str, service: &str) -> (r: String)
    ensures
        r@ == spec_synthesize_tags(title@, substring@, service@),
{
    let title = trim_str(title);
    let stripped = strip_html_tags(substring);
    let summary_raw = replace_newlines(stripped.as_str());
    let summary = trim_str(summary_raw.as_str());
    let service = trim_str(service);
    let ghost all = seq![title@, summary@, service@];
    let mut parts: Vec<String> = Vec::new();
    proof {
        reveal_with_fuel(Seq::filter, 4);
        assert(all.take(0).filter(|p: Seq<char>| p.len() > 0) =~= Seq::<Seq<char>>::empty());
        assert(all.take(1) =~= seq![title@]);
        assert(all.take(2) =~= seq![title@, summary@]);
        assert(all.take(3) =~= all);
        assert(all.take(1).drop_last() =~= all.take(0));
        assert(all.take(2).drop_last() =~= all.take(1));
        assert(all.take(3).drop_last() =~= all.take(2));
    }
    if !title.as_str().is_empty() {
        parts.push(title);
    }
    assert(views(parts@) =~= non_empty(all.take(1)));
    if !summary.as_str().is_empty() {
        parts.push(summary);
    }
    assert(views(parts@) =~= non_empty(all.take(2)));
    if !service.as_str().is_empty() {
        parts.push(service);
    }
    assert(views(parts@) =~= non_empty(all));
    join_strings(&parts, " ")
}

/// File extensions of supported still images.
pub open spec fn image_extension(path: Seq<char>) -> bool {
    let l = lower(path);
    has_suffix(l, ".jpg"@) || has_suffix(l, ".jpeg"@) || has_suffix(l, ".png"@) || has_suffix(l, ".webp"@)
        || has_suffix(l, ".gif"@) || has_suffix(l, ".bmp"@)
}

/// A path names a supported image exactly when, ignoring ASCII case, it
/// ends in `.jpg`, `.jpeg`, `.png`, `.webp`, `.gif` or `.bmp`.
pub proof fn lemma_supported_extensions(path: Seq<char>)
    ensures
        image_extension(path) <==> (has_suffix(lower(path), ".jpg"@) || has_suffix(lower(path), ".jpeg"@)
            || has_suffix(lower(path), ".png"@) || has_suffix(lower(path), ".webp"@) || has_suffix(
            lower(path),
            ".gif"@,
        ) || has_suffix(lower(path), ".bmp"@)),
        has_suffix(lower(path), ".jpeg"@) ==> image_extension(path),
        has_suffix(lower(path), ".jpg"@) ==> image_extension(path),
{
}

/// Whether the path names a supported still image (by extension, ignoring ASCII case).
pub fn is_supported_image_path(path: &str) -> (b: bool)
    ensures
        b == image_extension(path@),
{
    let v = chars_of(path);
    let l = lower_chars(v.as_slice());
    let jpg = chars_of(".jpg");
    let jpeg = chars_of(".jpeg");
    let png = chars_of(".png");
    let webp = chars_of(".webp");
    let gif = chars_of(".gif");
    let bmp = chars_of(".bmp");
    ends_with_chars(l.as_slice(), jpg.as_slice()) || ends_with_chars(l.as_slice(), jpeg.as_slice())
        || ends_with_chars(l.as_slice(), png.as_slice()) || ends_with_chars(l.as_slice(), webp.as_slice())
        || ends_with_chars(l.as_slice(), gif.as_slice()) || ends_with_chars(l.as_slice(), bmp.as_slice())
}

/// Full media URL for a path on a kemono base URL.
pub open spec fn spec_media_url(base: Seq<char>, path: Seq<char>) -> Seq<char> {
    let clean_base = trim_end_char(base, '/');
    let clean_path = trim(path);
    if has_prefix(path, "http://"@) || has_prefix(path, "https://"@) {
        path
    } else if has_prefix(clean_path, "data/"@) {
        clean_base + "/"@ + clean_path
    } else if !has_prefix(clean_path, "/"@) {
        clean_base + "/data/"@ + clean_path
    } else if has_prefix(clean_path, "/data/"@) {
        clean_base + clean_path
    } else {
        clean_base + "/data"@ + clean_path
    }
}

/// Build the URL of a media file: absolute URLs are kept, other paths are
/// placed under the base URL's `/data` directory.
pub fn build_media_url(base_url: &str, path: &str) -> (r: String)
    ensures
        r@ == spec_media_url(base_url@, path@),
{
    let pv = chars_of(path);
    let http = chars_of("http://");
    let https = chars_of("https://");
    if starts_with_chars(pv.as_slice(), http.as_slice()) || starts_with_chars(pv.as_slice(), https.as_slice()) {
        return owned(path);
    }
    let clean_base = trim_trailing_slash(base_url);
    let clean_path = trim_str(path);
    let cv = chars_of(clean_path.as_str());
    let data = chars_of("data/");
    let slash = chars_of("/");
    let slash_data = chars_of("/data/");
    let mut out = clean_base;
    if starts_with_chars(cv.as_slice(), data.as_slice()) {
        append_str(&mut out, "/");
        append_str(&mut out, clean_path.as_str());
    } else if !starts_with_chars(cv.as_slice(), slash.as_slice()) {
        append_str(&mut out, "/data/");
        append_str(&mut out, clean_path.as_str());
    } else if starts_with_chars(cv.as_slice(), slash_data.as_slice()) {
        append_str(&mut out, clean_path.as_str());
    } else {
        append_str(&mut out, "/data");
        append_str(&mut out, clean_path.as_str());
    }
    out
}

/// Parse a post ID from a string or number.
pub fn parse_id(value: &JsonScalar) -> (r: Option<u64>)
    ensures
        r == spec_scalar_u64(*value),
{
    scalar_u64(value)
}

// ── Raw records ─────────────────────────────────────────────────────────────

/// Thumbnail reference of a post's main file.
pub struct RawThumbnail {
    pub path: Option<String>,
}

/// Main file of a post.
pub struct RawFile {
    pub path: Option<String>,
    pub thumbnail: Option<RawThumbnail>,
}

/// An attachment of a post.
pub struct RawAttachment {
    pub path: Option<String>,
}

/// A post record as the kemono API returns it.
pub struct RawPost {
    pub id: JsonScalar,
    pub title: String,
    pub substring: String,
    pub service: String,
    pub file: RawFile,
    pub attachments: Vec<RawAttachment>,
}

/// `Some(path)` when the path is present and names a supported image.
pub open spec fn image_path(p: Option<String>) -> Option<Seq<char>> {
    match p {
        Some(x) => if image_extension(x@) {
            Some(x@)
        } else {
            None
        },
        None => None,
    }
}

/// The first attachment path that names a supported image.
pub open spec fn first_image_attachment(atts: Seq<RawAttachment>) -> Option<Seq<char>>
    decreases atts.len(),
{
    if atts.len() == 0 {
        None
    } else {
        match image_path(atts[0].path) {
            Some(p) => Some(p),
            None => first_image_attachment(atts.drop_first()),
        }
    }
}

/// The media path of a post: main file, then its thumbnail, then the first image attachment.
pub open spec fn spec_media_path(raw: RawPost) -> Option<Seq<char>> {
    match image_path(raw.file.path) {
        Some(p) => Some(p),
        None => match match raw.file.thumbnail {
            Some(t) => image_path(t.path),
            None => None,
        } {
            Some(p) => Some(p),
            None => first_image_attachment(raw.attachments@),
        },
    }
}

/// `post` is the normalized form of `raw` on `base`.
#[verifier::opaque]
pub open spec fn converted(raw: RawPost, base: Seq<char>, post: Post) -> bool {
    &&& spec_scalar_u64(raw.id) == Some(post.id)
    &&& post.tags@ == spec_synthesize_tags(raw.title@, raw.substring@, raw.service@)
    &&& post.thumbnail_url@ == match spec_media_path(raw) {
        Some(p) => spec_media_url(base, p),
        None => Seq::empty(),
    }
    &&& post.direct_image_url is None
    &&& post.width == 0
    &&& post.height == 0
    &&& post.rating@ == Seq::<char>::empty()
    &&& post.site@ == "kemono"@
    &&& post.site_namespace == 7
    &&& post.canonical_post_url is None
}

fn image_path_of(p: &Option<String>) -> (r: Option<String>)
    ensures
        opt_view(r) == image_path(*p),
{
    match p {
        Some(x) => if is_supported_image_path(x.as_str()) {
            Some(x.clone())
        } else {
            None
        },
        None => None,
    }
}

impl RawPost {
    /// Normalize the record against `base_url`; `None` when the ID does not parse.
    pub fn into_post(self, base_url: &str) -> (r: Option<Post>)
        ensures
            spec_scalar_u64(self.id) is None ==> r is None,
            spec_scalar_u64(self.id) is Some ==> (r matches Some(p) && converted(self, base_url@, p)
                && id_of(self) == Some(p.id)),
    {
        proof {
            reveal(converted);
            reveal(id_of);
        }
        let id = match parse_id(&self.id) {
            Some(id) => id,
            None => return None,
        };
        let mut media_path = image_path_of(&self.file.path);
        if media_path.is_none() {
            media_path = match &self.file.thumbnail {
                Some(t) => image_path_of(&t.path),
                None => None,
            };
        }
        if media_path.is_none() {
            let mut i: usize = 0;
            assert(self.attachments@.skip(0) =~= self.attachments@);
            while i < self.attachments.len() && media_path.is_none()
                invariant
                    i <= self.attachments@.len(),
                    media_path is None ==> first_image_attachment(self.attachments@)
                        == first_image_attachment(self.attachments@.skip(i as int)),
                    media_path is Some ==> opt_view(media_path) == first_image_attachment(self.attachments@),
                decreases self.attachments@.len() - i,
            {
                let ghost rest = self.attachments@.skip(i as int);
                assert(rest[0] == self.attachments@[i as int]);
                assert(rest.drop_first() =~= self.attachments@.skip(i + 1));
                media_path = image_path_of(&self.attachments[i].path);
                i += 1;
            }
            proof {
                if media_path is None {
                    assert(self.attachments@.skip(i as int) =~= Seq::<RawAttachment>::empty());
                }
            }
        }
        assert(opt_view(media_path) == spec_media_path(self));
        let thumbnail_url = match &media_path {
            Some(p) => build_media_url(base_url, p.as_str()),
            None => String::new(),
        };
        let tags = synthesize_tags(self.title.as_str(), self.substring.as_str(), self.service.as_str());
        Some(Post {
            id,
            tags,
            thumbnail_url,
            direct_image_url: None,
            width: 0,
            height: 0,
            rating: String::new(),
            site: "kemono",
            site_namespace: 7,
            canonical_post_url: None,
        })
    }
}

/// Base URLs to try, the preferred one first.
pub open spec fn spec_candidate_base_urls(preferred: Seq<char>) -> Seq<Seq<char>> {
    if preferred == "https://kemono.cr"@ {
        seq![preferred]
    } else {
        seq![preferred, "https://kemono.cr"@]
    }
}

impl KemonoClient {
    /// Base URLs to try, the preferred one first, then the known ones not equal to it.
    pub fn candidate_base_urls(&self) -> (r: Vec<String>)
        ensures
            views(r@) == spec_candidate_base_urls(self.preferred_base_url@),
    {
        let mut out: Vec<String> = Vec::new();
        out.push(self.preferred_base_url.clone());
        if !str_eq(DEFAULT_BASE_URL, self.preferred_base_url.as_str()) {
            out.push(owned(DEFAULT_BASE_URL));
        }
        assert(views(out@) =~= spec_candidate_base_urls(self.preferred_base_url@));
        out
    }

    /// Remember the base URL that answered last.
    pub fn set_preferred_base_url(&mut self, base_url: &str)
        ensures
            final(self).preferred_base_url@ == base_url@,
            final(self).session == old(self).session,
    {
        self.preferred_base_url = owned(base_url);
    }
}


// ── New posts of a fetch ────────────────────────────────────────────────────

/// The parsed ID of a record.
#[verifier::opaque]
pub open spec fn id_of(raw: RawPost) -> Option<u64> {
    spec_scalar_u64(raw.id)
}

/// The record has a parsable ID newer than `last_id`.
pub open spec fn eligible(raw: RawPost, last_id: u64) -> bool {
    id_of(raw) matches Some(id) && id > last_id
}

/// The ID of a record (meaningful when it parses).
pub open spec fn raw_id(raw: RawPost) -> u64 {
    match id_of(raw) {
        Some(id) => id,
        None => 0,
    }
}

/// Record `k` is eligible and no earlier eligible record has its ID.
pub open spec fn first_occurrence(all: Seq<RawPost>, k: int, last_id: u64) -> bool {
    &&& 0 <= k < all.len()
    &&& eligible(all[k], last_id)
    &&& forall|j: int| 0 <= j < k && #[trigger] eligible(all[j], last_id) ==> raw_id(all[j]) != raw_id(all[k])
}

/// `p` comes from the first record among the first `upto` with its ID.
pub open spec fn justified(all: Seq<RawPost>, base: Seq<char>, last_id: u64, upto: int, p: Post) -> bool {
    exists|k: int| 0 <= k < upto && first_occurrence(all, k, last_id) && #[trigger] converted(all[k], base, p)
}

/// Some post in `r` has ID `id`.
pub open spec fn covered(r: Seq<Post>, id: u64) -> bool {
    exists|i: int| 0 <= i < r.len() && #[trigger] r[i].id == id
}

/// The posts newer than `last_id`, one per ID (the first record with that ID),
/// in increasing ID order.
pub open spec fn new_posts_ok(all: Seq<RawPost>, base: Seq<char>, last_id: u64, r: Seq<Post>, upto: int) -> bool {
    &&& forall|i: int, j: int| 0 <= i < j < r.len() ==> (#[trigger] r[i]).id < (#[trigger] r[j]).id
    &&& forall|i: int| 0 <= i < r.len() ==> #[trigger] justified(all, base, last_id, upto, r[i])
    &&& forall|k: int| 0 <= k < upto && #[trigger] eligible(all[k], last_id) ==> covered(r, raw_id(all[k]))
}

proof fn lemma_justified_grow(all: Seq<RawPost>, base: Seq<char>, last_id: u64, upto: int, p: Post)
    requires
        justified(all, base, last_id, upto, p),
    ensures
        justified(all, base, last_id, upto + 1, p),
{
    let k = choose|k: int| 0 <= k < upto && first_occurrence(all, k, last_id) && #[trigger] converted(all[k], base, p);
    assert(converted(all[k], base, p));
}

proof fn lemma_step_skip(all: Seq<RawPost>, base: Seq<char>, last_id: u64, out: Seq<Post>, k: int)
    requires
        0 <= k < all.len(),
        new_posts_ok(all, base, last_id, out, k),
        !eligible(all[k], last_id),
    ensures
        new_posts_ok(all, base, last_id, out, k + 1),
{
    assert forall|i: int| 0 <= i < out.len() implies #[trigger] justified(all, base, last_id, k + 1, out[i]) by {
        lemma_justified_grow(all, base, last_id, k, out[i]);
    }
    assert forall|kk: int| 0 <= kk < k + 1 && #[trigger] eligible(all[kk], last_id) implies covered(out, raw_id(all[kk])) by {
        assert(kk < k);
    }
}

proof fn lemma_step_duplicate(all: Seq<RawPost>, base: Seq<char>, last_id: u64, out: Seq<Post>, k: int, pos: int)
    requires
        0 <= k < all.len(),
        new_posts_ok(all, base, last_id, out, k),
        0 <= pos < out.len(),
        out[pos].id == raw_id(all[k]),
    ensures
        new_posts_ok(all, base, last_id, out, k + 1),
{
    assert forall|i: int| 0 <= i < out.len() implies #[trigger] justified(all, base, last_id, k + 1, out[i]) by {
        lemma_justified_grow(all, base, last_id, k, out[i]);
    }
    assert forall|kk: int| 0 <= kk < k + 1 && #[trigger] eligible(all[kk], last_id) implies covered(out, raw_id(all[kk])) by {
        if kk == k {
            assert(out[pos].id == raw_id(all[kk]));
        }
    }
}

proof fn lemma_step_insert(
    all: Seq<RawPost>,
    base: Seq<char>,
    last_id: u64,
    old_out: Seq<Post>,
    k: int,
    pos: int,
    p: Post,
)
    requires
        0 <= k < all.len(),
        new_posts_ok(all, base, last_id, old_out, k),
        eligible(all[k], last_id),
        raw_id(all[k]) == p.id,
        converted(all[k], base, p),
        0 <= pos <= old_out.len(),
        forall|i: int| 0 <= i < pos ==> (#[trigger] old_out[i]).id < p.id,
        pos < old_out.len() ==> old_out[pos].id > p.id,
    ensures
        new_posts_ok(all, base, last_id, old_out.insert(pos, p), k + 1),
{
    let no = old_out.insert(pos, p);
    assert forall|i: int| pos <= i < old_out.len() implies p.id < (#[trigger] old_out[i]).id by {
        if i > pos {
            assert(old_out[pos].id < old_out[i].id);
        }
    }
    assert forall|j: int| 0 <= j < k && #[trigger] eligible(all[j], last_id) implies raw_id(all[j]) != raw_id(all[k]) by {
        assert(covered(old_out, raw_id(all[j])));
        let i = choose|i: int| 0 <= i < old_out.len() && #[trigger] old_out[i].id == raw_id(all[j]);
        if i < pos {
            assert(old_out[i].id < p.id);
        } else {
            assert(p.id < old_out[i].id);
        }
    }
    assert(first_occurrence(all, k, last_id));
    assert forall|i: int, j: int| 0 <= i < j < no.len() implies (#[trigger] no[i]).id < (#[trigger] no[j]).id by {
        if j < pos {
            assert(no[i] == old_out[i] && no[j] == old_out[j]);
        } else if j == pos {
            assert(no[i] == old_out[i]);
        } else if i < pos {
            assert(no[i] == old_out[i] && no[j] == old_out[j - 1]);
        } else if i == pos {
            assert(no[j] == old_out[j - 1]);
        } else {
            assert(no[i] == old_out[i - 1] && no[j] == old_out[j - 1]);
        }
    }
    assert forall|i: int| 0 <= i < no.len() implies #[trigger] justified(all, base, last_id, k + 1, no[i]) by {
        if i == pos {
            assert(converted(all[k], base, no[i]));
        } else if i < pos {
            assert(no[i] == old_out[i]);
            lemma_justified_grow(all, base, last_id, k, old_out[i]);
        } else {
            assert(no[i] == old_out[i - 1]);
            lemma_justified_grow(all, base, last_id, k, old_out[i - 1]);
        }
    }
    assert forall|kk: int| 0 <= kk < k + 1 && #[trigger] eligible(all[kk], last_id) implies covered(no, raw_id(all[kk])) by {
        if kk == k {
            assert(no[pos].id == raw_id(all[kk]));
        } else {
            assert(covered(old_out, raw_id(all[kk])));
            let i = choose|i: int| 0 <= i < old_out.len() && #[trigger] old_out[i].id == raw_id(all[kk]);
            if i < pos {
                assert(no[i] == old_out[i]);
            } else {
                assert(no[i + 1] == old_out[i]);
            }
        }
    }
}

/// Convert the records of a fetch against `base_url`, keep those newer than
/// `last_id`, one per ID, sorted by ID.
pub fn select_new_posts(raw_posts: Vec<RawPost>, base_url: &str, last_id: u64) -> (r: Vec<Post>)
    ensures
        new_posts_ok(raw_posts@, base_url@, last_id, r@, raw_posts@.len() as int),
{
    let ghost all = raw_posts@;
    let mut out: Vec<Post> = Vec::new();
    let mut rest = raw_posts;
    let n = rest.len();
    let mut k: usize = 0;
    while k < n
        invariant
            k <= n,
            n == all.len(),
            rest@ == all.skip(k as int),
            new_posts_ok(all, base_url@, last_id, out@, k as int),
        decreases n - k,
    {
        let raw = rest.remove(0);
        assert(raw == all[k as int]);
        assert(rest@ =~= all.skip(k + 1));
        let ghost old_out = out@;
        proof {
            reveal(id_of);
        }
        match raw.into_post(base_url) {
            Some(p) => {
                if p.id > last_id {
                    let mut pos: usize = 0;
                    while pos < out.len() && out[pos].id < p.id
                        invariant
                            pos <= out@.len(),
                            out@ == old_out,
                            forall|i: int| 0 <= i < pos ==> (#[trigger] out@[i]).id < p.id,
                        decreases out@.len() - pos,
                    {
                        pos += 1;
                    }
                    if pos < out.len() && out[pos].id == p.id {
                        proof {
                            lemma_step_duplicate(all, base_url@, last_id, out@, k as int, pos as int);
                        }
                    } else {
                        proof {
                            lemma_step_insert(all, base_url@, last_id, old_out, k as int, pos as int, p);
                        }
                        out.insert(pos, p);
                    }
                } else {
                    proof {
                        lemma_step_skip(all, base_url@, last_id, out@, k as int);
                    }
                }
            },
            None => {
                proof {
                    lemma_step_skip(all, base_url@, last_id, out@, k as int);
                }
            },
        }
        k += 1;
    }
    out
}

} // verus!
