//! Point ID encoding and decoding.
use vstd::prelude::*;

use vstd::arithmetic::div_mod::lemma_fundamental_div_mod_converse;

verus! {

/// Multiplier used to encode `(site_namespace, post_id)` into one point ID:
/// the namespace occupies the digits above the twelve lowest.
pub const POINT_ID_SITE_MULTIPLIER: u64 = 1_000_000_000_000;

/// The point ID of a post.
pub open spec fn spec_encode(site_ns: u64, post_id: u64) -> int {
    site_ns * POINT_ID_SITE_MULTIPLIER + post_id
}

/// Encode a `(site_namespace, post_id)` pair into a single point ID.
pub fn encode_point_id(site_ns: u64, post_id: u64) -> (id: u64)
    requires
        spec_encode(site_ns, post_id) <= u64::MAX,
    ensures
        id == spec_encode(site_ns, post_id),
{
    proof {
        assert(site_ns * POINT_ID_SITE_MULTIPLIER <= u64::MAX) by (nonlinear_arith)
            requires site_ns * POINT_ID_SITE_MULTIPLIER + post_id <= u64::MAX, post_id >= 0;
    }
    site_ns * POINT_ID_SITE_MULTIPLIER + post_id
}

/// Decode a point ID back into `(site_namespace, post_id)`.
pub fn decode_point_id(point_id: u64) -> (r: (u64, u64))
    ensures
        r.0 == point_id / POINT_ID_SITE_MULTIPLIER,
        r.1 == point_id % POINT_ID_SITE_MULTIPLIER,
{
    (point_id / POINT_ID_SITE_MULTIPLIER, point_id % POINT_ID_SITE_MULTIPLIER)
}

/// Decoding an encoded ID gives back the namespace and the post ID, for post
/// IDs below the multiplier.
pub proof fn lemma_point_id_roundtrip(site_ns: u64, post_id: u64)
    requires
        post_id < POINT_ID_SITE_MULTIPLIER,
        spec_encode(site_ns, post_id) <= u64::MAX,
    ensures
        spec_encode(site_ns, post_id) / (POINT_ID_SITE_MULTIPLIER as int) == site_ns,
        spec_encode(site_ns, post_id) % (POINT_ID_SITE_MULTIPLIER as int) == post_id,
{
    lemma_fundamental_div_mod_converse(
        spec_encode(site_ns, post_id),
        POINT_ID_SITE_MULTIPLIER as int,
        site_ns as int,
        post_id as int,
    );
}

/// Distinct `(namespace, post ID)` pairs have distinct point IDs, for post IDs
/// below the multiplier: posts of different sites never collide.
pub proof fn lemma_point_id_injective(a_ns: u64, a_id: u64, b_ns: u64, b_id: u64)
    requires
        a_id < POINT_ID_SITE_MULTIPLIER,
        b_id < POINT_ID_SITE_MULTIPLIER,
        spec_encode(a_ns, a_id) == spec_encode(b_ns, b_id),
    ensures
        a_ns == b_ns,
        a_id == b_id,
{
    let x = spec_encode(a_ns, a_id);
    lemma_fundamental_div_mod_converse(x, POINT_ID_SITE_MULTIPLIER as int, a_ns as int, a_id as int);
    lemma_fundamental_div_mod_converse(x, POINT_ID_SITE_MULTIPLIER as int, b_ns as int, b_id as int);
}

} // verus!
