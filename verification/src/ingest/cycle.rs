//! The decisions of one ingest cycle: batching, checkpoint advance, cycle
//! statistics, and the per-site loop state.
//!
//! Fetching, downloading, embedding and upserting are done by the
//! application, stage by stage; this module says what each stage hands on.
use vstd::prelude::*;

use crate::checkpoint::{CheckpointMap, spec_get, get};
use crate::sites::{Post, SiteClient, aspect_ratio_ok, client_kind, keep_preflight, site_name_of, spec_post_url};
use crate::text::{owned, append_str};

verus! {

/// Configuration of the ingest pipeline.
pub struct IngestConfig {
    pub poll_interval_secs: u64,
    pub batch_size: usize,
    pub download_concurrency: usize,
    pub site_fetch_timeout_secs: u64,
}

/// State of one site in the multi-site ingest loop.
pub struct SiteLoopState {
    pub client: SiteClient,
    pub site: &'static str,
    pub last_id: u64,
    pub resume_announced: bool,
}

/// Statistics of one ingest cycle.
pub struct CycleStats {
    pub fetched_posts: usize,
    pub valid_images: usize,
    pub skipped_images: usize,
    pub upserted_posts: usize,
    pub batch_count: usize,
    /// Whole seconds of the cycle's duration.
    pub elapsed_secs: u64,
    /// Nanoseconds past the whole seconds.
    pub elapsed_nanos: u32,
}

impl CycleStats {
    /// Stats of a cycle that did nothing, with its duration.
    pub fn empty(elapsed_secs: u64, elapsed_nanos: u32) -> (s: Self)
        ensures
            s.fetched_posts == 0,
            s.valid_images == 0,
            s.skipped_images == 0,
            s.upserted_posts == 0,
            s.batch_count == 0,
            s.elapsed_secs == elapsed_secs,
            s.elapsed_nanos == elapsed_nanos,
    {
        CycleStats {
            fetched_posts: 0,
            valid_images: 0,
            skipped_images: 0,
            upserted_posts: 0,
            batch_count: 0,
            elapsed_secs,
            elapsed_nanos,
        }
    }
}

/// How long a site fetch may take: the configured timeout, at least one
/// second.
pub fn fetch_timeout_secs(config: &IngestConfig) -> (s: u64)
    ensures
        s == if config.site_fetch_timeout_secs >= 1 { config.site_fetch_timeout_secs } else { 1 },
{
    if config.site_fetch_timeout_secs >= 1 {
        config.site_fetch_timeout_secs
    } else {
        1
    }
}

/// A cycle setting that cannot work.
#[derive(Debug, Clone, Copy, PartialEq, Eq, Structural)]
pub enum CycleConfigError {
    ZeroBatchSize,
    ZeroDownloadConcurrency,
}

impl CycleConfigError {
    /// The message for `site`.
    pub fn message(&self, site: &str) -> (s: String)
        ensures
            self == CycleConfigError::ZeroBatchSize ==> s@ == site@ + ": batch size must be greater than 0"@,
            self == CycleConfigError::ZeroDownloadConcurrency ==> s@ == site@
                + ": download concurrency must be greater than 0"@,
    {
        let mut s = owned(site);
        match self {
            CycleConfigError::ZeroBatchSize => append_str(&mut s, ": batch size must be greater than 0"),
            CycleConfigError::ZeroDownloadConcurrency => append_str(
                &mut s,
                ": download concurrency must be greater than 0",
            ),
        }
        s
    }
}

/// The batch size must be positive, then the download concurrency.
pub fn check_cycle_config(config: &IngestConfig) -> (r: Result<(), CycleConfigError>)
    ensures
        config.batch_size == 0 ==> r == Err::<(), CycleConfigError>(CycleConfigError::ZeroBatchSize),
        config.batch_size > 0 && config.download_concurrency == 0 ==> r == Err::<(), CycleConfigError>(
            CycleConfigError::ZeroDownloadConcurrency,
        ),
        config.batch_size > 0 && config.download_concurrency > 0 ==> r is Ok,
{
    if config.batch_size == 0 {
        return Err(CycleConfigError::ZeroBatchSize);
    }
    if config.download_concurrency == 0 {
        return Err(CycleConfigError::ZeroDownloadConcurrency);
    }
    Ok(())
}

/// The largest depth of the queues between pipeline stages.
pub const QUEUE_MAX_DEPTH: usize = 4;

/// The number of batches: `ceil(fetched / batch_size)`.
pub fn batch_count(fetched: usize, batch_size: usize) -> (n: usize)
    requires
        batch_size > 0,
    ensures
        n == (fetched + batch_size - 1) / batch_size as int,
{
    let q = fetched / batch_size;
    let r = fetched % batch_size;
    proof {
        let f = fetched as int;
        let b = batch_size as int;
        vstd::arithmetic::div_mod::lemma_fundamental_div_mod(f, b);
        assert(b * (q as int) == (q as int) * b) by (nonlinear_arith);
        assert((q + 1) * b == (q as int) * b + b) by (nonlinear_arith);
        if r == 0 {
            vstd::arithmetic::div_mod::lemma_fundamental_div_mod_converse(f + b - 1, b, q as int, b - 1);
        } else {
            vstd::arithmetic::div_mod::lemma_fundamental_div_mod_converse(f + b - 1, b, q + 1, r - 1);
            assert(q * b >= q) by (nonlinear_arith)
                requires b >= 1, q >= 0;
            assert(q < f);
        }
    }
    if r == 0 {
        q
    } else {
        q + 1
    }
}

/// The depth of a queue between stages: the batch count, between 1 and
/// `QUEUE_MAX_DEPTH`.
pub fn queue_depth(batches: usize) -> (d: usize)
    ensures
        d == if batches < 1 { 1 } else if batches > QUEUE_MAX_DEPTH { QUEUE_MAX_DEPTH } else { batches },
{
    if batches < 1 {
        1
    } else if batches > QUEUE_MAX_DEPTH {
        QUEUE_MAX_DEPTH
    } else {
        batches
    }
}

/// Consecutive batches of `b` items; the last one may be shorter.
pub open spec fn batches_of(s: Seq<Post>, b: nat) -> Seq<Seq<Post>>
    decreases s.len(),
{
    if s.len() == 0 || b == 0 {
        seq![]
    } else if s.len() <= b {
        seq![s]
    } else {
        seq![s.take(b as int)] + batches_of(s.skip(b as int), b)
    }
}

/// The contents of nested vectors of posts.
pub open spec fn post_batches(v: Seq<Vec<Post>>) -> Seq<Seq<Post>> {
    Seq::new(v.len(), |k: int| v[k]@)
}

/// Split the posts into consecutive batches of `batch_size` (the last one may
/// be shorter).
pub fn into_batches(posts: Vec<Post>, batch_size: usize) -> (r: Vec<Vec<Post>>)
    requires
        batch_size > 0,
    ensures
        post_batches(r@) == batches_of(posts@, batch_size as nat),
{
    let ghost all = posts@;
    let mut rest = posts;
    let mut out: Vec<Vec<Post>> = Vec::new();
    while rest.len() > 0
        invariant
            batch_size > 0,
            post_batches(out@) + batches_of(rest@, batch_size as nat) == batches_of(all, batch_size as nat),
        decreases rest@.len(),
    {
        let ghost before = rest@;
        let ghost done = post_batches(out@);
        if rest.len() <= batch_size {
            let chunk = rest;
            rest = Vec::new();
            out.push(chunk);
            proof {
                assert(post_batches(out@) =~= done.push(before));
                assert(batches_of(rest@, batch_size as nat) =~= Seq::<Seq<Post>>::empty());
                assert(batches_of(before, batch_size as nat) == seq![before]);
                assert(post_batches(out@) + batches_of(rest@, batch_size as nat) =~= done + batches_of(before, batch_size as nat));
            }
        } else {
            let tail = rest.split_off(batch_size);
            let chunk = rest;
            rest = tail;
            out.push(chunk);
            proof {
                assert(chunk@ =~= before.take(batch_size as int));
                assert(rest@ =~= before.skip(batch_size as int));
                assert(post_batches(out@) =~= done.push(chunk@));
                assert(batches_of(before, batch_size as nat) == seq![before.take(batch_size as int)] + batches_of(rest@, batch_size as nat));
                assert(post_batches(out@) + batches_of(rest@, batch_size as nat) =~= done + batches_of(before, batch_size as nat));
            }
        }
    }
    proof {
        assert(batches_of(rest@, batch_size as nat) =~= Seq::<Seq<Post>>::empty());
        assert(post_batches(out@) =~= post_batches(out@) + batches_of(rest@, batch_size as nat));
    }
    out
}

/// The batches hold the posts in order, each batch holds at most `b` posts,
/// and there are `ceil(len / b)` of them.
pub proof fn lemma_batches(s: Seq<Post>, b: nat)
    requires
        b > 0,
    ensures
        batches_of(s, b).len() == (s.len() + b - 1) / b as int,
        forall|k: int| 0 <= k < batches_of(s, b).len() ==> 0 < (#[trigger] batches_of(s, b)[k]).len() <= b,
        flatten_batches(batches_of(s, b)) == s,
    decreases s.len(),
{
    if s.len() == 0 {
        assert(flatten_batches(seq![]) =~= s);
        vstd::arithmetic::div_mod::lemma_fundamental_div_mod_converse(b - 1, b as int, 0, b - 1);
    } else if s.len() <= b {
        assert((s.len() + b - 1) / b as int == 1) by {
            vstd::arithmetic::div_mod::lemma_fundamental_div_mod_converse(s.len() + b - 1, b as int, 1, s.len() - 1);
        }
        assert(seq![s].drop_last() =~= Seq::<Seq<Post>>::empty());
        assert(flatten_batches(seq![s]) =~= flatten_batches(Seq::<Seq<Post>>::empty()) + s);
        assert(flatten_batches(Seq::<Seq<Post>>::empty()) =~= Seq::<Post>::empty());
        assert(flatten_batches(seq![s]) =~= s);
    } else {
        let rest = s.skip(b as int);
        lemma_batches(rest, b);
        let q = (rest.len() + b - 1) / b as int;
        vstd::arithmetic::div_mod::lemma_fundamental_div_mod(rest.len() + b - 1, b as int);
        let r0 = (rest.len() + b - 1) % b as int;
        assert((q + 1) * b == b * q + b) by (nonlinear_arith);
        vstd::arithmetic::div_mod::lemma_fundamental_div_mod_converse(s.len() + b - 1, b as int, q + 1, r0);
        let bs = batches_of(s, b);
        assert forall|k: int| 0 <= k < bs.len() implies 0 < (#[trigger] bs[k]).len() <= b by {
            if k > 0 {
                assert(bs[k] == batches_of(rest, b)[k - 1]);
            }
        }
        lemma_flatten_prepend(s.take(b as int), batches_of(rest, b));
        assert(s.take(b as int) + rest =~= s);
    }
}

/// All batches one after the other.
pub open spec fn flatten_batches(bs: Seq<Seq<Post>>) -> Seq<Post>
    decreases bs.len(),
{
    if bs.len() == 0 {
        seq![]
    } else {
        flatten_batches(bs.drop_last()) + bs.last()
    }
}

/// Flattening a batch list with one more batch in front.
pub proof fn lemma_flatten_prepend(first: Seq<Post>, bs: Seq<Seq<Post>>)
    ensures
        flatten_batches(seq![first] + bs) == first + flatten_batches(bs),
    decreases bs.len(),
{
    if bs.len() == 0 {
        assert(seq![first] + bs =~= seq![first]);
        assert((seq![first]).drop_last() =~= Seq::<Seq<Post>>::empty());
        assert(flatten_batches(Seq::<Seq<Post>>::empty()) =~= Seq::<Post>::empty());
        assert(first + flatten_batches(bs) =~= first);
        assert(flatten_batches(seq![first]) =~= first);
    } else {
        lemma_flatten_prepend(first, bs.drop_last());
        assert((seq![first] + bs).drop_last() =~= seq![first] + bs.drop_last());
        assert((seq![first] + bs).last() == bs.last());
        assert(first + flatten_batches(bs) =~= (first + flatten_batches(bs.drop_last())) + bs.last());
    }
}

/// The highest post ID of a batch, 0 for none.
pub open spec fn max_id(ids: Seq<u64>) -> u64
    decreases ids.len(),
{
    if ids.len() == 0 {
        0
    } else {
        let m = max_id(ids.drop_last());
        if ids.last() > m { ids.last() } else { m }
    }
}

/// The IDs of posts.
pub open spec fn post_ids(posts: Seq<Post>) -> Seq<u64> {
    Seq::new(posts.len(), |i: int| posts[i].id)
}

/// The highest post ID among `posts`, 0 for none.
pub fn newest_id(posts: &Vec<Post>) -> (m: u64)
    ensures
        m == max_id(post_ids(posts@)),
{
    let mut m: u64 = 0;
    let mut i: usize = 0;
    while i < posts.len()
        invariant
            i <= posts@.len(),
            m == max_id(post_ids(posts@.take(i as int))),
        decreases posts@.len() - i,
    {
        proof {
            assert(post_ids(posts@.take(i + 1)).drop_last() =~= post_ids(posts@.take(i as int)));
        }
        if posts[i].id > m {
            m = posts[i].id;
        }
        i = i + 1;
    }
    proof {
        assert(posts@.take(i as int) =~= posts@);
    }
    m
}

/// Move the checkpoint of `site` forward to `new_last` when that is newer than
/// `last_id`; returns whether it moved (and so must be saved and announced).
pub fn advance_checkpoint(last_id: &mut u64, ckpt: &mut CheckpointMap, site: &str, new_last: u64) -> (moved: bool)
    ensures
        moved == (new_last > *old(last_id)),
        moved ==> *final(last_id) == new_last && final(ckpt)@ == old(ckpt)@.insert(site@, new_last),
        !moved ==> *final(last_id) == *old(last_id) && final(ckpt)@ == old(ckpt)@,
{
    if new_last > *last_id {
        *last_id = new_last;
        crate::checkpoint::set(ckpt, site, new_last);
        true
    } else {
        false
    }
}

/// Counts of the upsert stage: valid images, skipped images, upserted posts.
pub struct UpsertTotals {
    pub valid_images: usize,
    pub skipped_images: usize,
    pub upserted_posts: usize,
}

impl UpsertTotals {
    /// Nothing counted.
    pub fn new() -> (t: Self)
        ensures
            t.valid_images == 0 && t.skipped_images == 0 && t.upserted_posts == 0,
    {
        UpsertTotals { valid_images: 0, skipped_images: 0, upserted_posts: 0 }
    }

    /// Count one upserted batch.
    pub fn add_batch(&mut self, valid_count: usize, skipped_count: usize)
        requires
            old(self).valid_images + valid_count <= usize::MAX,
            old(self).skipped_images + skipped_count <= usize::MAX,
            old(self).upserted_posts + valid_count <= usize::MAX,
        ensures
            final(self).valid_images == old(self).valid_images + valid_count,
            final(self).skipped_images == old(self).skipped_images + skipped_count,
            final(self).upserted_posts == old(self).upserted_posts + valid_count,
    {
        self.valid_images = self.valid_images + valid_count;
        self.skipped_images = self.skipped_images + skipped_count;
        self.upserted_posts = self.upserted_posts + valid_count;
    }
}

/// The fetched posts that pass the preflight checks, in order.
pub open spec fn preflight(posts: Seq<Post>) -> Seq<Post> {
    posts.filter(|p: Post| p.thumbnail_url@.len() > 0 && aspect_ratio_ok(p.width, p.height))
}

/// What a cycle does with the posts it fetched.
pub enum CyclePlan {
    /// No post passed the preflight checks: the cycle ends with empty stats.
    NoNewPosts,
    /// The configuration cannot run the pipeline.
    Invalid(CycleConfigError),
    /// Download, embed and upsert these batches in order, through queues of
    /// this depth.
    Run { batches: Vec<Vec<Post>>, fetched_posts: usize, batch_count: usize, queue_depth: usize },
}

/// The first step of a cycle after the fetch: filter the posts, stop when
/// none is left, check the configuration, then split the posts into
/// batches.
pub fn plan_cycle(posts: Vec<Post>, config: &IngestConfig) -> (r: CyclePlan)
    ensures
        ({
            let kept = preflight(posts@);
            let b = config.batch_size as int;
            &&& (r is NoNewPosts <==> kept.len() == 0)
            &&& (kept.len() > 0 && config.batch_size == 0 ==> r == CyclePlan::Invalid(
                CycleConfigError::ZeroBatchSize,
            ))
            &&& (kept.len() > 0 && config.batch_size > 0 && config.download_concurrency == 0 ==> r
                == CyclePlan::Invalid(CycleConfigError::ZeroDownloadConcurrency))
            &&& (kept.len() > 0 && config.batch_size > 0 && config.download_concurrency > 0 ==> r is Run)
            &&& (r matches CyclePlan::Run { batches, fetched_posts, batch_count, queue_depth } ==> {
                &&& post_batches(batches@) == batches_of(kept, config.batch_size as nat)
                &&& fetched_posts == kept.len()
                &&& batch_count == (kept.len() + b - 1) / b
                &&& queue_depth == (if batch_count < 1 { 1 } else if batch_count > QUEUE_MAX_DEPTH {
                    QUEUE_MAX_DEPTH
                } else {
                    batch_count
                })
            })
        }),
{
    let kept = keep_preflight(posts);
    proof {
        assert(kept@ == preflight(posts@));
    }
    if kept.len() == 0 {
        return CyclePlan::NoNewPosts;
    }
    match check_cycle_config(config) {
        Err(e) => CyclePlan::Invalid(e),
        Ok(()) => {
            let fetched_posts = kept.len();
            let batch_count = batch_count(fetched_posts, config.batch_size);
            let queue_depth = queue_depth(batch_count);
            let batches = into_batches(kept, config.batch_size);
            CyclePlan::Run { batches, fetched_posts, batch_count, queue_depth }
        },
    }
}

/// The last step of a batch: count it and move the checkpoint forward to its
/// newest post; returns whether the checkpoint moved (and must be saved).
pub fn finish_batch(
    totals: &mut UpsertTotals,
    last_id: &mut u64,
    ckpt: &mut CheckpointMap,
    site: &str,
    valid_count: usize,
    skipped_count: usize,
    new_last: u64,
) -> (moved: bool)
    requires
        old(totals).valid_images + valid_count <= usize::MAX,
        old(totals).skipped_images + skipped_count <= usize::MAX,
        old(totals).upserted_posts + valid_count <= usize::MAX,
    ensures
        final(totals).valid_images == old(totals).valid_images + valid_count,
        final(totals).skipped_images == old(totals).skipped_images + skipped_count,
        final(totals).upserted_posts == old(totals).upserted_posts + valid_count,
        moved == (new_last > *old(last_id)),
        moved ==> *final(last_id) == new_last && final(ckpt)@ == old(ckpt)@.insert(site@, new_last),
        !moved ==> *final(last_id) == *old(last_id) && final(ckpt)@ == old(ckpt)@,
{
    let moved = advance_checkpoint(last_id, ckpt, site, new_last);
    totals.add_batch(valid_count, skipped_count);
    moved
}

/// The number of posts of a batch that did not yield a valid image.
pub fn skipped_count(batch_len: usize, valid_count: usize) -> (n: usize)
    requires
        valid_count <= batch_len,
    ensures
        n == batch_len - valid_count,
{
    batch_len - valid_count
}

/// The metadata stored with a post's embedding.
pub struct PostRecord {
    pub post_id: u64,
    pub site: &'static str,
    pub site_namespace: u64,
    pub post_url: String,
    pub thumbnail_url: String,
    pub direct_image_url: String,
    pub tags: String,
    pub width: u32,
    pub height: u32,
    pub ingestion_date: i64,
    pub rating: String,
}

/// The record of a post ingested at `ingestion_date`.
pub fn post_record(post: &Post, ingestion_date: i64) -> (r: PostRecord)
    ensures
        r.post_id == post.id,
        r.site == post.site,
        r.site_namespace == post.site_namespace,
        r.post_url@ == spec_post_url(*post),
        r.thumbnail_url@ == post.thumbnail_url@,
        r.direct_image_url@ == match post.direct_image_url {
            Some(u) => u@,
            None => post.thumbnail_url@,
        },
        r.tags@ == post.tags@,
        r.width == post.width,
        r.height == post.height,
        r.ingestion_date == ingestion_date,
        r.rating@ == post.rating@,
{
    PostRecord {
        post_id: post.id,
        site: post.site,
        site_namespace: post.site_namespace,
        post_url: post.post_url(),
        thumbnail_url: owned(post.thumbnail_url.as_str()),
        direct_image_url: post.preferred_image_url(),
        tags: owned(post.tags.as_str()),
        width: post.width,
        height: post.height,
        ingestion_date,
        rating: owned(post.rating.as_str()),
    }
}

/// The loop state of a site, resuming from its checkpoint.
pub fn site_loop_state(client: SiteClient, ckpt: &CheckpointMap) -> (s: SiteLoopState)
    ensures
        s.site@ == site_name_of(client_kind(client)),
        s.last_id == spec_get(ckpt@, s.site@),
        !s.resume_announced,
        s.client == client,
{
    let site = client.site_name();
    let last_id = get(ckpt, site);
    SiteLoopState { client, site, last_id, resume_announced: false }
}

} // verus!
