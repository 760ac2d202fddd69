//! Scrolling through the store page by page: which points of each page are
//! kept, how many to ask for next, and when to stop.
//!
//! A point that could not be read (no numeric ID, no usable vector) comes as
//! `None`. The first `offset` points are skipped, readable or not; the
//! values of the following points are kept until `wanted` of them are.
use vstd::prelude::*;

verus! {

/// The values among `items`, in order.
pub open spec fn present<T>(items: Seq<Option<T>>) -> Seq<T>
    decreases items.len(),
{
    if items.len() == 0 {
        seq![]
    } else {
        let prev = present(items.drop_last());
        match items.last() {
            Some(v) => prev.push(v),
            None => prev,
        }
    }
}

/// What a scan keeps of the points it has seen: the values of the points
/// after the first `offset`.
pub open spec fn scan_kept<T>(seen: Seq<Option<T>>, offset: nat) -> Seq<T> {
    if seen.len() <= offset {
        seq![]
    } else {
        present(seen.skip(offset as int))
    }
}

/// The values of a concatenation are the values of each part.
pub proof fn lemma_present_append<T>(a: Seq<Option<T>>, b: Seq<Option<T>>)
    ensures
        present(a + b) == present(a) + present(b),
    decreases b.len(),
{
    if b.len() == 0 {
        assert(a + b =~= a);
        assert(present(b) =~= Seq::<T>::empty());
        assert(present(a) + present(b) =~= present(a));
    } else {
        lemma_present_append(a, b.drop_last());
        assert((a + b).drop_last() =~= a + b.drop_last());
        assert((a + b).last() == b.last());
        match b.last() {
            Some(v) => {
                assert(present(a) + present(b.drop_last()).push(v) =~= (present(a) + present(b.drop_last())).push(v));
            },
            None => {},
        }
    }
}

/// One step of a scan past its offset: the new point's value, if any, is
/// kept after the others.
proof fn lemma_scan_step<T>(seen: Seq<Option<T>>, offset: nat, x: Option<T>)
    requires
        seen.len() >= offset,
    ensures
        scan_kept(seen.push(x), offset) == match x {
            Some(v) => scan_kept(seen, offset).push(v),
            None => scan_kept(seen, offset),
        },
{
    let rest = seen.skip(offset as int);
    let longer = seen.push(x).skip(offset as int);
    assert(longer =~= rest.push(x));
    assert(longer.drop_last() =~= rest);
    assert(longer.last() == x);
    assert(present(longer) == match x {
        Some(v) => present(rest).push(v),
        None => present(rest),
    });
    if seen.len() == offset {
        assert(rest =~= Seq::<Option<T>>::empty());
        assert(present(rest) == Seq::<T>::empty());
    }
}

/// A scan that stops once it has `wanted` values, or when the store has no
/// more points, keeps the first `wanted` values of all the points after the
/// offset (all of them when there are fewer).
pub proof fn lemma_scan_keeps_first_values<T>(seen: Seq<Option<T>>, rest: Seq<Option<T>>, offset: nat, wanted: nat)
    requires
        scan_kept(seen, offset).len() <= wanted,
        rest.len() > 0 ==> scan_kept(seen, offset).len() == wanted,
    ensures
        scan_kept(seen, offset) == scan_kept(seen + rest, offset).take(
            vstd::math::min(wanted as int, scan_kept(seen + rest, offset).len() as int),
        ),
{
    let all = seen + rest;
    if rest.len() == 0 {
        assert(all =~= seen);
        assert(scan_kept(seen, offset).take(scan_kept(seen, offset).len() as int) =~= scan_kept(seen, offset));
    } else if seen.len() <= offset {
        assert(scan_kept(all, offset).take(0) =~= Seq::<T>::empty());
    } else {
        assert(all.skip(offset as int) =~= seen.skip(offset as int) + rest);
        lemma_present_append(seen.skip(offset as int), rest);
        let kept = scan_kept(seen, offset);
        assert((kept + present(rest)).take(kept.len() as int) =~= kept);
    }
}

/// A scroll through the store that skips `offset` points and keeps values
/// until `wanted` are kept.
pub struct PageScan<T> {
    offset: u64,
    wanted: u64,
    skipped: u64,
    kept: Vec<T>,
    seen: Ghost<Seq<Option<T>>>,
}

impl<T> PageScan<T> {
    /// The number of points skipped before values are kept.
    pub closed spec fn offset(&self) -> nat {
        self.offset as nat
    }

    /// The number of values after which the scan stops.
    pub closed spec fn wanted(&self) -> nat {
        self.wanted as nat
    }

    /// Every point the scan has looked at, in order.
    pub closed spec fn seen(&self) -> Seq<Option<T>> {
        self.seen@
    }

    /// The values kept so far.
    pub closed spec fn kept(&self) -> Seq<T> {
        self.kept@
    }

    /// The kept values are those of the seen points after the offset, and
    /// there are at most `wanted` of them.
    pub closed spec fn wf(&self) -> bool {
        &&& self.skipped as nat == (if self.seen@.len() < self.offset { self.seen@.len() } else { self.offset as nat })
        &&& self.kept@ == scan_kept(self.seen@, self.offset as nat)
        &&& self.kept@.len() <= self.wanted
    }

    /// Whether enough values are kept.
    pub open spec fn is_done(&self) -> bool {
        self.kept().len() >= self.wanted()
    }

    /// A scan that has seen nothing.
    pub fn new(offset: u64, wanted: u64) -> (s: Self)
        ensures
            s.wf(),
            s.offset() == offset,
            s.wanted() == wanted,
            s.seen() == Seq::<Option<T>>::empty(),
    {
        PageScan { offset, wanted, skipped: 0, kept: Vec::new(), seen: Ghost(Seq::empty()) }
    }

    /// Whether enough values are kept.
    pub fn done(&self) -> (b: bool)
        requires
            self.wf(),
        ensures
            b == self.is_done(),
    {
        self.kept.len() as u64 >= self.wanted
    }

    /// How many points to ask for next: the values still wanted, at most
    /// `page_size`.
    pub fn next_request(&self, page_size: u32) -> (n: u32)
        requires
            self.wf(),
        ensures
            n == vstd::math::min(self.wanted() - self.kept().len(), page_size as int),
    {
        let remaining = self.wanted - self.kept.len() as u64;
        if remaining < page_size as u64 {
            remaining as u32
        } else {
            page_size
        }
    }

    /// Look at the points of one page in order, stopping once enough values
    /// are kept; returns whether the scan is done. The points looked at are
    /// a prefix of the page, the whole page unless the scan finished on it.
    pub fn take_page(&mut self, page: Vec<Option<T>>) -> (done: bool)
        requires
            old(self).wf(),
        ensures
            final(self).wf(),
            final(self).offset() == old(self).offset(),
            final(self).wanted() == old(self).wanted(),
            done == final(self).is_done(),
            exists|k: int|
                0 <= k <= page@.len() && final(self).seen() == old(self).seen() + #[trigger] page@.take(k) && (k
                    < page@.len() ==> done),
    {
        let ghost seen0 = self.seen@;
        let ghost items = page@;
        let n = page.len();
        // Reverse the page so that popping yields its points in order.
        let mut src = page;
        let mut rest: Vec<Option<T>> = Vec::new();
        while src.len() > 0
            invariant
                n == items.len(),
                src@ == items.take(src@.len() as int),
                rest@.len() == n - src@.len(),
                forall|j: int| 0 <= j < rest@.len() ==> #[trigger] rest@[j] == items[n - 1 - j],
            decreases src@.len(),
        {
            let ghost before = src@;
            let x = src.pop().unwrap();
            proof {
                assert(src@ =~= items.take(src@.len() as int));
            }
            rest.push(x);
        }
        let ghost mut k: int = 0;
        let mut i: usize = 0;
        while i < n
            invariant
                self.wf(),
                self.offset() == old(self).offset(),
                self.wanted() == old(self).wanted(),
                n == items.len(),
                i <= n,
                rest@.len() == n - i,
                forall|j: int| 0 <= j < rest@.len() ==> #[trigger] rest@[j] == items[n - 1 - j],
                0 <= k <= i,
                self.seen@ == seen0 + items.take(k),
                k < i ==> self.is_done(),
            decreases n - i,
        {
            let item = rest.pop().unwrap();
            proof {
                assert(item == items[i as int]);
            }
            if (self.kept.len() as u64) < self.wanted {
                proof {
                    assert(k == i);
                    assert(items.take(k + 1) =~= items.take(k).push(item));
                    assert(seen0 + items.take(k + 1) =~= (seen0 + items.take(k)).push(item));
                }
                if self.skipped < self.offset {
                    self.skipped = self.skipped + 1;
                    self.seen = Ghost(self.seen@.push(item));
                } else {
                    proof {
                        lemma_scan_step(self.seen@, self.offset as nat, item);
                    }
                    self.seen = Ghost(self.seen@.push(item));
                    match item {
                        Some(v) => self.kept.push(v),
                        None => {},
                    }
                }
                proof {
                    k = k + 1;
                }
            }
            i = i + 1;
        }
        self.kept.len() as u64 >= self.wanted
    }

    /// The values kept.
    pub fn into_kept(self) -> (r: Vec<T>)
        requires
            self.wf(),
        ensures
            r@ == self.kept(),
            r@ == scan_kept(self.seen(), self.offset()),
            r@.len() <= self.wanted(),
    {
        self.kept
    }
}

/// A page of results and whether more follow: the first `limit` values, and
/// whether there were more than `limit`.
pub fn split_page<T>(values: Vec<T>, limit: u64) -> (r: (Vec<T>, bool))
    ensures
        r.0@ == values@.take(vstd::math::min(values@.len() as int, limit as int)),
        r.1 == (values@.len() > limit),
{
    let has_more = values.len() as u64 > limit;
    let mut page = values;
    if has_more {
        page.truncate(limit as usize);
    }
    proof {
        if !has_more {
            assert(page@.take(page@.len() as int) =~= page@);
        }
    }
    (page, has_more)
}

} // verus!
