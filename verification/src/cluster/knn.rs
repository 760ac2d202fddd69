//! Candidate neighbours for the approximate k-nearest-neighbour graph.
//!
//! Each point is assigned to a few pivots (by distance, which the caller
//! computes); the candidates of a point are the other points that share one
//! of its pivots, topped up by the points that follow it cyclically when
//! there are too few. Scoring and trimming the candidates by distance is the
//! caller's work.
use vstd::prelude::*;

verus! {

// ── Spec model ──────────────────────────────────────────────────────────────

/// The contents of nested vectors.
pub open spec fn nested(v: Seq<Vec<usize>>) -> Seq<Seq<usize>> {
    Seq::new(v.len(), |i: int| v[i]@)
}

/// Walk `seq` and keep each value that is not `exclude` and not kept yet,
/// until `limit` values are kept.
pub open spec fn gather(seq: Seq<usize>, exclude: usize, acc: Seq<usize>, limit: nat) -> Seq<usize>
    decreases seq.len(),
{
    if seq.len() == 0 || acc.len() >= limit {
        acc
    } else if seq[0] == exclude || acc.contains(seq[0]) {
        gather(seq.drop_first(), exclude, acc, limit)
    } else {
        gather(seq.drop_first(), exclude, acc.push(seq[0]), limit)
    }
}

/// `gather` over several sequences one after the other.
pub open spec fn gather_all(seqs: Seq<Seq<usize>>, exclude: usize, acc: Seq<usize>, limit: nat) -> Seq<
    usize,
>
    decreases seqs.len(),
{
    if seqs.len() == 0 {
        acc
    } else {
        gather_all(seqs.drop_first(), exclude, gather(seqs[0], exclude, acc, limit), limit)
    }
}

/// The other points in cyclic order after `point`: `point + 1, …, point + n - 1`
/// taken modulo `n`.
pub open spec fn ring_after(point: usize, n: usize) -> Seq<usize> {
    Seq::new((n - 1) as nat, |o: int| ((point + o + 1) % (n as int)) as usize)
}

/// The buckets of the pivots that `slots` names, in that order.
pub open spec fn assigned_buckets(slots: Seq<usize>, buckets: Seq<Seq<usize>>) -> Seq<Seq<usize>> {
    Seq::new(slots.len(), |i: int| buckets[slots[i] as int])
}

/// The candidates of `point`: up to `max_candidates` distinct other points
/// from the buckets of its pivots, then, while fewer than `target_k`, the
/// points that follow it cyclically.
pub open spec fn spec_candidates(
    point: usize,
    slots: Seq<usize>,
    buckets: Seq<Seq<usize>>,
    n: usize,
    max_candidates: nat,
    target_k: nat,
) -> Seq<usize> {
    let first = gather_all(assigned_buckets(slots, buckets), point, seq![], max_candidates);
    if first.len() < target_k {
        gather(ring_after(point, n), point, first, target_k)
    } else {
        first
    }
}

/// Equal to `s`.
pub open spec fn is_slot(s: usize) -> spec_fn(usize) -> bool {
    |x: usize| x == s
}

/// Bucket `s` lists each point once for every time its pivot list names `s`,
/// in point order.
pub open spec fn bucket_of(point_pivots: Seq<Seq<usize>>, s: usize) -> Seq<usize>
    decreases point_pivots.len(),
{
    if point_pivots.len() == 0 {
        seq![]
    } else {
        let last = (point_pivots.len() - 1) as int;
        let times = point_pivots[last].filter(is_slot(s)).len();
        bucket_of(point_pivots.drop_last(), s) + Seq::new(times, |j: int| last as usize)
    }
}

// ── Lemmas ──────────────────────────────────────────────────────────────────

/// Filtering a sequence with one more value at the end.
pub proof fn lemma_filter_slot_push(s: Seq<usize>, x: usize, t: usize)
    ensures
        s.push(x).filter(is_slot(t)) == (if x == t {
            s.filter(is_slot(t)).push(x)
        } else {
            s.filter(is_slot(t))
        }),
{
    reveal(Seq::filter);
    let q = s.push(x);
    assert(q.drop_last() =~= s);
    assert(q.last() == x);
    assert(is_slot(t)(x) == (x == t));
}

/// A full accumulator is left as it is.
pub proof fn lemma_gather_full(seq: Seq<usize>, exclude: usize, acc: Seq<usize>, limit: nat)
    requires
        acc.len() >= limit,
    ensures
        gather(seq, exclude, acc, limit) == acc,
{
}

/// A full accumulator is left as it is by `gather_all` too.
pub proof fn lemma_gather_all_full(seqs: Seq<Seq<usize>>, exclude: usize, acc: Seq<usize>, limit: nat)
    requires
        acc.len() >= limit,
    ensures
        gather_all(seqs, exclude, acc, limit) == acc,
    decreases seqs.len(),
{
    if seqs.len() > 0 {
        lemma_gather_all_full(seqs.drop_first(), exclude, acc, limit);
    }
}

/// `gather` only appends, and what it appends is new, distinct and not
/// `exclude`, and drawn from `seq`.
pub proof fn lemma_gather_grows(seq: Seq<usize>, exclude: usize, acc: Seq<usize>, limit: nat)
    ensures
        ({
            let r = gather(seq, exclude, acc, limit);
            &&& r.len() >= acc.len()
            &&& r.subrange(0, acc.len() as int) == acc
            &&& forall|i: int| acc.len() <= i < r.len() ==> r[i] != exclude && seq.contains(r[i])
            &&& forall|i: int, j: int| acc.len() <= j < r.len() && 0 <= i < j ==> r[i] != r[j]
            &&& (r.len() > acc.len() ==> r.len() <= limit)
        }),
    decreases seq.len(),
{
    if seq.len() == 0 || acc.len() >= limit {
        assert(gather(seq, exclude, acc, limit).subrange(0, acc.len() as int) =~= acc);
    } else if seq[0] == exclude || acc.contains(seq[0]) {
        lemma_gather_grows(seq.drop_first(), exclude, acc, limit);
        let r = gather(seq, exclude, acc, limit);
        assert forall|i: int| acc.len() <= i < r.len() implies r[i] != exclude && seq.contains(r[i]) by {
            let k = choose|k: int| 0 <= k < seq.drop_first().len() && seq.drop_first()[k] == r[i];
            assert(seq[k + 1] == r[i]);
        }
    } else {
        let acc2 = acc.push(seq[0]);
        lemma_gather_grows(seq.drop_first(), exclude, acc2, limit);
        let r = gather(seq, exclude, acc, limit);
        assert(r.subrange(0, acc2.len() as int) == acc2);
        assert(r.subrange(0, acc.len() as int) =~= acc) by {
            assert forall|i: int| 0 <= i < acc.len() implies r.subrange(0, acc.len() as int)[i] == acc[i] by {
                assert(r.subrange(0, acc2.len() as int)[i] == acc2[i]);
            }
        }
        assert(r[acc.len() as int] == seq[0]) by {
            assert(r.subrange(0, acc2.len() as int)[acc.len() as int] == acc2[acc.len() as int]);
        }
        assert forall|i: int| acc.len() <= i < r.len() implies r[i] != exclude && seq.contains(r[i]) by {
            if i == acc.len() {
                assert(seq[0] == r[i]);
            } else {
                let k = choose|k: int| 0 <= k < seq.drop_first().len() && seq.drop_first()[k] == r[i];
                assert(seq[k + 1] == r[i]);
            }
        }
        assert forall|i: int, j: int| acc.len() <= j < r.len() && 0 <= i < j implies r[i] != r[j] by {
            if j == acc.len() {
                assert(r[i] == acc[i]) by {
                    assert(r.subrange(0, acc.len() as int)[i] == acc[i]);
                }
                assert(acc.contains(acc[i]));
            }
        }
    }
}

/// `gather_all` only appends.
pub proof fn lemma_gather_all_grows(seqs: Seq<Seq<usize>>, exclude: usize, acc: Seq<usize>, limit: nat)
    ensures
        gather_all(seqs, exclude, acc, limit).len() >= acc.len(),
        gather_all(seqs, exclude, acc, limit).len() > acc.len() ==> gather_all(
            seqs,
            exclude,
            acc,
            limit,
        ).len() <= limit,
    decreases seqs.len(),
{
    if seqs.len() > 0 {
        let acc1 = gather(seqs[0], exclude, acc, limit);
        lemma_gather_grows(seqs[0], exclude, acc, limit);
        lemma_gather_all_grows(seqs.drop_first(), exclude, acc1, limit);
    }
}

// ── Candidates ──────────────────────────────────────────────────────────────

/// Append to `cand` the values of `bucket` that are not `exclude` and not
/// marked, marking each one, until `limit` values are held.
fn gather_into(
    bucket: &Vec<usize>,
    exclude: usize,
    cand: &mut Vec<usize>,
    marks: &mut Vec<u32>,
    epoch: u32,
    limit: usize,
)
    requires
        forall|i: int| 0 <= i < bucket@.len() ==> bucket@[i] < old(marks)@.len(),
        forall|c: int| 0 <= c < old(marks)@.len() ==> (old(marks)@[c] == epoch <==> old(cand)@.contains(
            c as usize,
        )),
        forall|i: int| 0 <= i < old(cand)@.len() ==> old(cand)@[i] < old(marks)@.len(),
    ensures
        final(cand)@ == gather(bucket@, exclude, old(cand)@, limit as nat),
        final(marks)@.len() == old(marks)@.len(),
        forall|c: int| 0 <= c < final(marks)@.len() ==> (final(marks)@[c] == epoch <==> final(cand)@.contains(
            c as usize,
        )),
        forall|c: int|
            0 <= c < final(marks)@.len() && final(marks)@[c] != epoch ==> final(marks)@[c] == old(marks)@[c],
        forall|i: int| 0 <= i < final(cand)@.len() ==> final(cand)@[i] < final(marks)@.len(),
{
    let n = marks.len();
    let mut j: usize = 0;
    if cand.len() >= limit {
        return;
    }
    assert(bucket@.skip(0) =~= bucket@);
    while j < bucket.len()
        invariant
            j <= bucket@.len(),
            n == marks@.len(),
            n == old(marks)@.len(),
            forall|i: int| 0 <= i < bucket@.len() ==> bucket@[i] < n,
            forall|c: int| 0 <= c < n ==> (marks@[c] == epoch <==> cand@.contains(c as usize)),
            forall|c: int| 0 <= c < n && marks@[c] != epoch ==> marks@[c] == old(marks)@[c],
            forall|i: int| 0 <= i < cand@.len() ==> cand@[i] < n,
            cand@.len() < limit,
            gather(bucket@.skip(j as int), exclude, cand@, limit as nat) == gather(
                bucket@,
                exclude,
                old(cand)@,
                limit as nat,
            ),
        decreases bucket@.len() - j,
    {
        let c = bucket[j];
        let ghost rest = bucket@.skip(j as int);
        assert(rest.drop_first() =~= bucket@.skip(j + 1));
        if c == exclude || marks[c] == epoch {
            j = j + 1;
            continue;
        }
        marks.set(c, epoch);
        let ghost before = cand@;
        cand.push(c);
        proof {
            assert forall|d: int| 0 <= d < n implies (marks@[d] == epoch <==> cand@.contains(d as usize)) by {
                if cand@.contains(d as usize) && d != c {
                    let k = choose|k: int| 0 <= k < cand@.len() && cand@[k] == d as usize;
                    assert(before[k] == d as usize);
                }
                if before.contains(d as usize) {
                    let k = choose|k: int| 0 <= k < before.len() && before[k] == d as usize;
                    assert(cand@[k] == d as usize);
                }
                if d == c {
                    assert(cand@[before.len() as int] == c);
                }
            }
        }
        j = j + 1;
        if cand.len() >= limit {
            proof {
                lemma_gather_full(bucket@.skip(j as int), exclude, cand@, limit as nat);
            }
            return;
        }
    }
    assert(bucket@.skip(j as int) =~= Seq::<usize>::empty());
}

/// Pick the next mark epoch: one more than `epoch`, skipping 0; when the
/// counter wraps every mark is cleared.
pub fn next_epoch(marks: &mut Vec<u32>, epoch: u32) -> (next: u32)
    requires
        forall|c: int| 0 <= c < old(marks)@.len() ==> old(marks)@[c] <= epoch,
    ensures
        next == if epoch == u32::MAX { 1 } else { epoch + 1 },
        final(marks)@.len() == old(marks)@.len(),
        forall|c: int| 0 <= c < final(marks)@.len() ==> final(marks)@[c] < next,
        epoch == u32::MAX ==> forall|c: int| 0 <= c < final(marks)@.len() ==> final(marks)@[c] == 0,
        epoch < u32::MAX ==> final(marks)@ == old(marks)@,
{
    let next = epoch.wrapping_add(1);
    if next == 0 {
        let n = marks.len();
        let mut i: usize = 0;
        while i < n
            invariant
                n == marks@.len(),
                i <= n,
                forall|c: int| 0 <= c < i ==> marks@[c] == 0,
            decreases n - i,
        {
            marks.set(i, 0);
            i = i + 1;
        }
        return 1;
    }
    next
}

/// The candidate neighbours of every point.
///
/// `point_pivots[i]` lists the pivot slots of point `i` and `pivot_buckets[s]`
/// the points assigned to slot `s`. Entry `i` of the result is
/// `spec_candidates` of point `i`.
pub fn gather_candidates(
    point_pivots: &Vec<Vec<usize>>,
    pivot_buckets: &Vec<Vec<usize>>,
    max_candidates: usize,
    target_k: usize,
) -> (r: Vec<Vec<usize>>)
    requires
        max_candidates >= 1,
        forall|i: int, k: int|
            0 <= i < point_pivots@.len() && 0 <= k < point_pivots@[i]@.len() ==> point_pivots@[i]@[k]
                < pivot_buckets@.len(),
        forall|s: int, k: int|
            0 <= s < pivot_buckets@.len() && 0 <= k < pivot_buckets@[s]@.len() ==> pivot_buckets@[s]@[k]
                < point_pivots@.len(),
    ensures
        r@.len() == point_pivots@.len(),
        forall|i: int|
            0 <= i < r@.len() ==> (#[trigger] r@[i])@ == spec_candidates(
                i as usize,
                point_pivots@[i]@,
                nested(pivot_buckets@),
                point_pivots@.len() as usize,
                max_candidates as nat,
                target_k as nat,
            ),
{
    let n = point_pivots.len();
    let mut marks: Vec<u32> = Vec::new();
    let mut z: usize = 0;
    while z < n
        invariant
            z <= n,
            marks@.len() == z,
            forall|c: int| 0 <= c < z ==> marks@[c] == 0,
        decreases n - z,
    {
        marks.push(0);
        z = z + 1;
    }
    let mut epoch: u32 = 1;
    let mut result: Vec<Vec<usize>> = Vec::new();
    let mut point: usize = 0;
    while point < n
        invariant
            n == point_pivots@.len(),
            point <= n,
            marks@.len() == n,
            max_candidates >= 1,
            forall|c: int| 0 <= c < n ==> marks@[c] <= epoch,
            result@.len() == point,
            forall|i: int, k: int|
                0 <= i < point_pivots@.len() && 0 <= k < point_pivots@[i]@.len() ==> point_pivots@[i]@[k]
                    < pivot_buckets@.len(),
            forall|s: int, k: int|
                0 <= s < pivot_buckets@.len() && 0 <= k < pivot_buckets@[s]@.len()
                    ==> pivot_buckets@[s]@[k] < n,
            forall|i: int|
                0 <= i < point ==> (#[trigger] result@[i])@ == spec_candidates(
                    i as usize,
                    point_pivots@[i]@,
                    nested(pivot_buckets@),
                    n,
                    max_candidates as nat,
                    target_k as nat,
                ),
        decreases n - point,
    {
        epoch = next_epoch(&mut marks, epoch);
        let slots = &point_pivots[point];
        let ghost buckets = nested(pivot_buckets@);
        let ghost assigned = assigned_buckets(slots@, buckets);
        let mut cand: Vec<usize> = Vec::new();
        let mut p: usize = 0;
        assert(assigned.skip(0) =~= assigned);
        while p < slots.len()
            invariant
                n == point_pivots@.len(),
                point < n,
                marks@.len() == n,
                slots@ == point_pivots@[point as int]@,
                p <= slots@.len(),
                max_candidates >= 1,
                forall|k: int| 0 <= k < slots@.len() ==> slots@[k] < pivot_buckets@.len(),
                forall|s: int, k: int|
                    0 <= s < pivot_buckets@.len() && 0 <= k < pivot_buckets@[s]@.len()
                        ==> pivot_buckets@[s]@[k] < n,
                forall|c: int| 0 <= c < n ==> (marks@[c] == epoch <==> cand@.contains(c as usize)),
                forall|c: int| 0 <= c < n ==> marks@[c] <= epoch,
                forall|i: int| 0 <= i < cand@.len() ==> cand@[i] < n,
                assigned == assigned_buckets(slots@, buckets),
                buckets == nested(pivot_buckets@),
                gather_all(assigned.skip(p as int), point, cand@, max_candidates as nat) == gather_all(
                    assigned,
                    point,
                    seq![],
                    max_candidates as nat,
                ),
            ensures
                cand@.len() >= max_candidates || p == slots@.len(),
            decreases slots@.len() - p,
        {
            let slot = slots[p];
            let bucket = &pivot_buckets[slot];
            proof {
                assert(assigned.skip(p as int)[0] == bucket@);
                assert(assigned.skip(p as int).drop_first() =~= assigned.skip(p + 1));
            }
            gather_into(bucket, point, &mut cand, &mut marks, epoch, max_candidates);
            p = p + 1;
            if cand.len() >= max_candidates {
                proof {
                    lemma_gather_all_full(assigned.skip(p as int), point, cand@, max_candidates as nat);
                }
                break;
            }
        }
        proof {
            if cand@.len() >= max_candidates {
                lemma_gather_all_full(assigned.skip(p as int), point, cand@, max_candidates as nat);
            } else {
                assert(assigned.skip(p as int) =~= Seq::<Seq<usize>>::empty());
            }
        }
        let ghost first = cand@;
        assert(first == gather_all(assigned, point, seq![], max_candidates as nat));
        if cand.len() < target_k {
            let ghost ring = ring_after(point, n);
            let mut offset: usize = 1;
            assert(ring.skip(0) =~= ring);
            while offset < n
                invariant_except_break
                    cand@.len() < target_k,
                invariant
                    1 <= offset <= n,
                    point < n,
                    marks@.len() == n,
                    ring == ring_after(point, n),
                    forall|c: int| 0 <= c < n ==> (marks@[c] == epoch <==> cand@.contains(c as usize)),
                    forall|c: int| 0 <= c < n ==> marks@[c] <= epoch,
                    forall|i: int| 0 <= i < cand@.len() ==> cand@[i] < n,
                    gather(ring.skip(offset - 1), point, cand@, target_k as nat) == gather(
                        ring,
                        point,
                        first,
                        target_k as nat,
                    ),
                ensures
                    cand@.len() >= target_k || offset == n,
                decreases n - offset,
            {
                let candidate = if offset < n - point {
                    point + offset
                } else {
                    offset - (n - point)
                };
                proof {
                    let rest = ring.skip(offset - 1);
                    assert(rest[0] == candidate) by {
                        if offset < n - point {
                            vstd::arithmetic::div_mod::lemma_small_mod((point + offset) as nat, n as nat);
                        } else {
                            vstd::arithmetic::div_mod::lemma_fundamental_div_mod_converse(
                                point + offset,
                                n as int,
                                1,
                                offset - (n - point),
                            );
                        }
                    }
                    assert(rest.drop_first() =~= ring.skip(offset as int));
                }
                if candidate == point || marks[candidate] == epoch {
                    offset = offset + 1;
                    continue;
                }
                marks.set(candidate, epoch);
                let ghost before = cand@;
                cand.push(candidate);
                proof {
                    assert forall|d: int| 0 <= d < n implies (marks@[d] == epoch <==> cand@.contains(
                        d as usize,
                    )) by {
                        if cand@.contains(d as usize) && d != candidate {
                            let k = choose|k: int| 0 <= k < cand@.len() && cand@[k] == d as usize;
                            assert(before[k] == d as usize);
                        }
                        if before.contains(d as usize) {
                            let k = choose|k: int| 0 <= k < before.len() && before[k] == d as usize;
                            assert(cand@[k] == d as usize);
                        }
                        if d == candidate {
                            assert(cand@[before.len() as int] == candidate);
                        }
                    }
                }
                offset = offset + 1;
                if cand.len() >= target_k {
                    proof {
                        lemma_gather_full(ring.skip(offset - 1), point, cand@, target_k as nat);
                    }
                    break;
                }
            }
            proof {
                if cand@.len() >= target_k {
                    lemma_gather_full(ring.skip(offset - 1), point, cand@, target_k as nat);
                } else {
                    assert(ring.skip(offset - 1) =~= Seq::<usize>::empty());
                }
            }
        }
        result.push(cand);
        point = point + 1;
    }
    result
}

/// The pivot buckets: bucket `s` lists the points whose pivot list names `s`.
pub fn build_pivot_buckets(point_pivots: &Vec<Vec<usize>>, pivot_count: usize) -> (r: Vec<Vec<usize>>)
    requires
        forall|i: int, k: int|
            0 <= i < point_pivots@.len() && 0 <= k < point_pivots@[i]@.len() ==> point_pivots@[i]@[k]
                < pivot_count,
    ensures
        r@.len() == pivot_count,
        forall|s: int| 0 <= s < pivot_count ==> (#[trigger] r@[s])@ == bucket_of(nested(point_pivots@), s as usize),
{
    let mut buckets: Vec<Vec<usize>> = Vec::new();
    let mut s: usize = 0;
    while s < pivot_count
        invariant
            s <= pivot_count,
            buckets@.len() == s,
            forall|t: int| 0 <= t < s ==> (#[trigger] buckets@[t])@ == Seq::<usize>::empty(),
        decreases pivot_count - s,
    {
        buckets.push(Vec::new());
        s = s + 1;
    }
    assert forall|t: int| 0 <= t < pivot_count implies (#[trigger] buckets@[t])@ == bucket_of(
        nested(point_pivots@).take(0),
        t as usize,
    ) by {
        assert(nested(point_pivots@).take(0).len() == 0);
    }
    let mut point: usize = 0;
    while point < point_pivots.len()
        invariant
            point <= point_pivots@.len(),
            buckets@.len() == pivot_count,
            forall|i: int, k: int|
                0 <= i < point_pivots@.len() && 0 <= k < point_pivots@[i]@.len() ==> point_pivots@[i]@[k]
                    < pivot_count,
            forall|t: int|
                0 <= t < pivot_count ==> (#[trigger] buckets@[t])@ == bucket_of(
                    nested(point_pivots@).take(point as int),
                    t as usize,
                ),
        decreases point_pivots@.len() - point,
    {
        let slots = &point_pivots[point];
        let ghost start = buckets@;
        let mut k: usize = 0;
        while k < slots.len()
            invariant
                k <= slots@.len(),
                slots@ == point_pivots@[point as int]@,
                point < point_pivots@.len(),
                buckets@.len() == pivot_count,
                start.len() == pivot_count,
                forall|j: int| 0 <= j < slots@.len() ==> slots@[j] < pivot_count,
                forall|t: int|
                    0 <= t < pivot_count ==> (#[trigger] buckets@[t])@ == start[t]@ + Seq::new(
                        slots@.take(k as int).filter(is_slot(t as usize)).len(),
                        |j: int| point,
                    ),
            decreases slots@.len() - k,
        {
            let slot = slots[k];
            let ghost before = buckets@;
            let mut bucket = Vec::new();
            std::mem::swap(&mut bucket, &mut buckets[slot]);
            bucket.push(point);
            std::mem::swap(&mut bucket, &mut buckets[slot]);
            proof {
                assert(slots@.take(k + 1) =~= slots@.take(k as int).push(slot));
                assert forall|t: int| 0 <= t < pivot_count implies (#[trigger] buckets@[t])@ == start[t]@
                    + Seq::new(
                    slots@.take(k + 1).filter(is_slot(t as usize)).len(),
                    |j: int| point,
                ) by {
                    lemma_filter_slot_push(slots@.take(k as int), slot, t as usize);
                    if t == slot {
                        assert(buckets@[t]@ =~= before[t]@.push(point));
                        assert(buckets@[t]@ =~= start[t]@ + Seq::new(
                            slots@.take(k + 1).filter(is_slot(t as usize)).len(),
                            |j: int| point,
                        ));
                    } else {
                        assert(buckets@[t] == before[t]);
                        assert(buckets@[t]@ =~= start[t]@ + Seq::new(
                            slots@.take(k + 1).filter(is_slot(t as usize)).len(),
                            |j: int| point,
                        ));
                    }
                }
            }
            k = k + 1;
        }
        proof {
            let pre = nested(point_pivots@).take(point + 1);
            assert(pre.drop_last() =~= nested(point_pivots@).take(point as int));
            assert(slots@.take(k as int) =~= slots@);
            assert(pre[point as int] == slots@);
            assert forall|t: int| 0 <= t < pivot_count implies (#[trigger] buckets@[t])@ == bucket_of(
                pre,
                t as usize,
            ) by {
                assert(buckets@[t]@ =~= bucket_of(pre, t as usize));
            }
        }
        point = point + 1;
    }
    assert(nested(point_pivots@).take(point as int) =~= nested(point_pivots@));
    buckets
}

} // verus!
