use vstd::multiset::Multiset;
use vstd::prelude::*;

use rand::rngs::StdRng;
use rand::seq::SliceRandom;
use rand::SeedableRng;
use ringbuffer::{ConstGenericRingBuffer, RingBuffer};

verus! {

broadcast use vstd::seq_lib::group_to_multiset_ensures;

#[verifier::external_type_specification]
#[verifier::external_body]
#[verifier::reject_recursive_types(T)]
pub struct ExConstGenericRingBuffer<T, const CAP: usize>(ConstGenericRingBuffer<T, CAP>);

#[verifier::external_type_specification]
#[verifier::external_body]
pub struct ExStdRng(StdRng);

/// The upcoming pieces, as kind indices (see `Piece::index`), next first.
pub type Ring = ConstGenericRingBuffer<u8, 14>;

/// What a ring buffer holds, oldest first.
pub uninterp spec fn ring_items(r: ConstGenericRingBuffer<u8, 14>) -> Seq<u8>;

/// Relies on `ConstGenericRingBuffer::default`: a new buffer is empty.
#[verifier::external_body]
fn ring_new() -> (r: Ring)
    ensures
        ring_items(r) == Seq::<u8>::empty(),
{
    ConstGenericRingBuffer::default()
}

/// An empty queue.
pub fn empty_ring() -> (r: Ring)
    ensures
        ring_items(r) == Seq::<u8>::empty(),
{
    ring_new()
}

/// Number of upcoming pieces.
pub fn queue_len(r: &Ring) -> (n: usize)
    ensures
        n == ring_items(*r).len(),
{
    ring_len(r)
}

/// The upcoming piece index at position `i`, next first.
pub fn queue_get(r: &Ring, i: usize) -> (v: u8)
    requires
        i < ring_items(*r).len(),
    ensures
        v == ring_items(*r)[i as int],
{
    match ring_get(r, i) {
        Some(v) => v,
        None => 0,
    }
}

/// Relies on `RingBuffer::len`: the number of items held, at most the capacity.
#[verifier::external_body]
fn ring_len(r: &Ring) -> (n: usize)
    ensures
        n == ring_items(*r).len(),
        n <= 14,
{
    r.len()
}

/// Relies on `RingBuffer::push`: appends; on a full buffer the oldest item is dropped first.
#[verifier::external_body]
fn ring_push(r: &mut Ring, v: u8)
    ensures
        ring_items(*final(r)) == if ring_items(*old(r)).len() < 14 {
            ring_items(*old(r)).push(v)
        } else {
            ring_items(*old(r)).drop_first().push(v)
        },
{
    r.push(v)
}

/// Relies on `RingBuffer::dequeue`: takes the oldest item, `None` when empty.
#[verifier::external_body]
fn ring_dequeue(r: &mut Ring) -> (v: Option<u8>)
    ensures
        ring_items(*old(r)).len() == 0 ==> v is None && ring_items(*final(r)) == ring_items(*old(r)),
        ring_items(*old(r)).len() > 0 ==> v == Some(ring_items(*old(r))[0]) && ring_items(*final(r))
            == ring_items(*old(r)).drop_first(),
{
    r.dequeue()
}

/// Relies on `RingBuffer::get`: for an index below the length, the item that many
/// places after the oldest.
#[verifier::external_body]
fn ring_get(r: &Ring, i: usize) -> (v: Option<u8>)
    ensures
        i < ring_items(*r).len() ==> v == Some(ring_items(*r)[i as int]),
        ring_items(*r).len() == 0 ==> v is None,
{
    r.get(i).copied()
}

/// Relies on `ConstGenericRingBuffer::clone`: the copy holds the same items.
#[verifier::external_body]
pub(crate) fn ring_clone(r: &Ring) -> (c: Ring)
    ensures
        ring_items(c) == ring_items(*r),
{
    r.clone()
}

/// Relies on `SeedableRng::seed_from_u64` for `StdRng`.
#[verifier::external_body]
pub(crate) fn seeded_rng(seed: u64) -> StdRng {
    StdRng::seed_from_u64(seed)
}

/// A random generator seeded with `seed`.
pub fn rng_from_seed(seed: u64) -> StdRng {
    seeded_rng(seed)
}

/// Relies on `SliceRandom::shuffle`: it only swaps items, so the result is a permutation.
#[verifier::external_body]
fn shuffled(rng: &mut StdRng, items: [u8; 7]) -> (r: [u8; 7])
    ensures
        r@.to_multiset() == items@.to_multiset(),
{
    let mut a = items;
    a.shuffle(rng);
    a
}

/// The seven kind indices in order.
pub open spec fn full_bag() -> Seq<u8> {
    seq![0u8, 1u8, 2u8, 3u8, 4u8, 5u8, 6u8]
}

/// `s` holds each of the seven kinds exactly once.
pub open spec fn is_bag(s: Seq<u8>) -> bool {
    s.to_multiset() == full_bag().to_multiset()
}

/// `s` is what is left of a bag after its first items were taken.
pub open spec fn bag_tail(s: Seq<u8>) -> bool {
    s.len() <= 7 && exists|b: Seq<u8>| is_bag(b) && s == b.skip(7 - s.len())
}

/// The upcoming queue: between 7 and 13 items, whose last seven are one bag and
/// whose earlier items are the rest of the bag before it.
pub open spec fn queue_ok(q: Seq<u8>) -> bool {
    &&& 7 <= q.len() <= 13
    &&& is_bag(q.skip(q.len() - 7))
    &&& bag_tail(q.take(q.len() - 7))
}

/// A bag holds each of the seven kinds exactly once, and nothing else.
pub proof fn lemma_bag_counts(s: Seq<u8>)
    requires
        is_bag(s),
    ensures
        s.len() == 7,
        forall|k: u8| k < 7 ==> #[trigger] s.to_multiset().count(k) == 1,
        forall|i: int| 0 <= i < s.len() ==> #[trigger] s[i] < 7,
{
    let e = Seq::<u8>::empty();
    assert(full_bag() =~= e.push(0).push(1).push(2).push(3).push(4).push(5).push(6));
    assert(e.to_multiset().len() == 0);
    assert(e.to_multiset() =~= Multiset::empty());
    assert(s.len() == s.to_multiset().len());
    assert forall|i: int| 0 <= i < s.len() implies #[trigger] s[i] < 7 by {
        assert(s.contains(s[i]));
        assert(s.to_multiset().count(s[i]) > 0);
    }
}

/// Every window of the queue that starts at a bag boundary holds each kind exactly
/// once: the last seven items always do, and the items before them are what is left
/// of the previous bag, so they are pairwise different kinds.
pub proof fn lemma_bag_window(q: Seq<u8>)
    requires
        queue_ok(q),
    ensures
        forall|k: u8| k < 7 ==> #[trigger] q.skip(q.len() - 7).to_multiset().count(k) == 1,
        forall|i: int, j: int| 0 <= i < j < q.len() - 7 ==> q[i] != q[j],
{
    lemma_bag_counts(q.skip(q.len() - 7));
    let t = q.take(q.len() - 7);
    let b = choose|b: Seq<u8>| is_bag(b) && t == b.skip(7 - t.len());
    lemma_bag_counts(b);
    assert forall|i: int, j: int| 0 <= i < j < q.len() - 7 implies q[i] != q[j] by {
        let o = 7 - t.len();
        assert(t[i] == q[i] && t[j] == q[j]);
        assert(b.skip(o)[i] == b[i + o]);
        assert(b.skip(o)[j] == b[j + o]);
        lemma_distinct(b, i + o, j + o);
    }
}

proof fn lemma_distinct(b: Seq<u8>, i: int, j: int)
    requires
        is_bag(b),
        0 <= i < j < b.len(),
    ensures
        b[i] != b[j],
{
    lemma_bag_counts(b);
    if b[i] == b[j] {
        let r = b.remove(j);
        assert(b.to_multiset().remove(b[j]) == r.to_multiset());
        assert(r[i] == b[i]);
        assert(r.contains(b[i]));
        assert(r.to_multiset().count(b[i]) > 0);
    }
}

/// Appends one freshly shuffled bag to the queue.
pub fn fill_bag(queue: &mut Ring, rng: &mut StdRng)
    requires
        ring_items(*old(queue)).len() <= 7,
    ensures
        ring_items(*final(queue)).len() == ring_items(*old(queue)).len() + 7,
        ring_items(*final(queue)).take(ring_items(*old(queue)).len() as int) == ring_items(*old(queue)),
        is_bag(ring_items(*final(queue)).skip(ring_items(*old(queue)).len() as int)),
{
    let bag = shuffled(rng, [0, 1, 2, 3, 4, 5, 6]);
    assert([0u8, 1, 2, 3, 4, 5, 6]@ =~= full_bag());
    push_all(queue, bag);
    assert(ring_items(*queue).skip(ring_items(*old(queue)).len() as int) =~= bag@);
    assert(ring_items(*queue).take(ring_items(*old(queue)).len() as int) =~= ring_items(*old(queue)));
}

/// Appends the seven items of `bag`.
fn push_all(queue: &mut Ring, bag: [u8; 7])
    requires
        ring_items(*old(queue)).len() <= 7,
    ensures
        ring_items(*final(queue)) == ring_items(*old(queue)) + bag@,
{
    let ghost start = ring_items(*queue);
    let mut i: usize = 0;
    while i < 7
        invariant
            0 <= i <= 7,
            start.len() <= 7,
            ring_items(*queue) == start + bag@.take(i as int),
        decreases 7 - i,
    {
        ring_push(queue, bag[i]);
        assert(bag@.take(i as int + 1) =~= bag@.take(i as int).push(bag@[i as int]));
        i = i + 1;
    }
    assert(bag@.take(7) =~= bag@);
}

/// A queue holding one shuffled bag. With `avoid_sz`, the bag is drawn again, up to
/// a fixed number of times, while it starts with S or Z; if every draw did, the first
/// piece that is neither is swapped to the front.
pub fn opening_queue(rng: &mut StdRng, avoid_sz: bool) -> (q: Ring)
    ensures
        queue_ok(ring_items(q)),
        ring_items(q).len() == 7,
        avoid_sz ==> ring_items(q)[0] != 4 && ring_items(q)[0] != 6,
{
    let mut bag = shuffled(rng, [0, 1, 2, 3, 4, 5, 6]);
    assert([0u8, 1, 2, 3, 4, 5, 6]@ =~= full_bag());
    if avoid_sz {
        let mut tries: u32 = 0;
        while (bag[0] == 4 || bag[0] == 6) && tries < 64
            invariant
                is_bag(bag@),
                tries <= 64,
            decreases 64 - tries,
        {
            bag = shuffled(rng, [0, 1, 2, 3, 4, 5, 6]);
            tries = tries + 1;
        }
        if bag[0] == 4 || bag[0] == 6 {
            let mut k: usize = 1;
            while k < 7 && (bag[k] == 4 || bag[k] == 6)
                invariant
                    1 <= k <= 7,
                    is_bag(bag@),
                    forall|j: int| 0 <= j < k ==> bag@[j] == 4 || bag@[j] == 6,
                decreases 7 - k,
            {
                k = k + 1;
            }
            proof {
                if k == 7 {
                    lemma_bag_counts(bag@);
                    assert(bag@.contains(bag@[0]));
                    assert forall|i: int, j: int| 0 <= i < j < 7 implies bag@[i] != bag@[j] by {
                        lemma_distinct(bag@, i, j);
                    }
                    assert(bag@[0] == 4 || bag@[0] == 6);
                    assert(bag@[1] == 4 || bag@[1] == 6);
                    assert(bag@[2] == 4 || bag@[2] == 6);
                    assert(false);
                }
            }
            let ghost before = bag@;
            let first = bag[0];
            bag[0] = bag[k];
            bag[k] = first;
            proof {
                lemma_swap_multiset(before, 0, k as int);
                assert(bag@ =~= before.update(0, before[k as int]).update(k as int, before[0]));
            }
        }
    }
    let mut q = ring_new();
    push_all(&mut q, bag);
    proof {
        let s = ring_items(q);
        assert(s =~= bag@);
        assert(s.skip(0) =~= s);
        assert(s.take(0) =~= full_bag().skip(7));
        assert(is_bag(full_bag()));
        assert(bag_tail(s.take(0)));
    }
    q
}

proof fn lemma_swap_multiset(s: Seq<u8>, i: int, j: int)
    requires
        0 <= i < j < s.len(),
    ensures
        s.update(i, s[j]).update(j, s[i]).to_multiset() == s.to_multiset(),
{
    broadcast use vstd::multiset::group_multiset_axioms;

    let t1 = s.update(i, s[j]);
    vstd::seq_lib::to_multiset_update(s, i, s[j]);
    vstd::seq_lib::to_multiset_update(t1, j, s[i]);
    assert(t1.update(j, s[i]).to_multiset() =~= s.to_multiset());
}

/// Takes the next piece; when fewer than seven remain, a new bag is appended.
pub fn pop_piece(queue: &mut Ring, rng: &mut StdRng) -> (p: u8)
    requires
        queue_ok(ring_items(*old(queue))),
    ensures
        queue_ok(ring_items(*final(queue))),
        p == ring_items(*old(queue))[0],
        p < 7,
        ring_items(*old(queue)).len() > 7 ==> ring_items(*final(queue)) == ring_items(*old(queue)).drop_first(),
        ring_items(*old(queue)).len() == 7 ==> ring_items(*final(queue)).take(6) == ring_items(*old(queue)).drop_first()
            && is_bag(ring_items(*final(queue)).skip(6)),
{
    let ghost q0 = ring_items(*queue);
    proof {
        lemma_bag_window(q0);
        lemma_bag_counts(q0.skip(q0.len() - 7));
    }
    let next = ring_dequeue(queue);
    let p = match next {
        Some(p) => p,
        None => 0,
    };
    let ghost q1 = ring_items(*queue);
    proof {
        let t = q0.take(q0.len() - 7);
        let b = choose|b: Seq<u8>| is_bag(b) && t == b.skip(7 - t.len());
        lemma_bag_counts(b);
        if q0.len() > 7 {
            let o = 7 - t.len();
            assert(t[0] == q0[0]);
            assert(b.skip(o)[0] == b[o]);
            assert(q1.skip(q1.len() - 7) =~= q0.skip(q0.len() - 7));
            assert forall|k: int| 0 <= k < q1.len() - 7 implies #[trigger] q1[k] == b[o + 1 + k] by {
                assert(q1[k] == q0[k + 1]);
                assert(t[k + 1] == q0[k + 1]);
                assert(b.skip(o)[k + 1] == b[o + k + 1]);
            }
            assert(q1.take(q1.len() - 7) =~= b.skip(7 - (q1.len() - 7)));
        } else {
            assert(q0.skip(0) =~= q0);
        }
    }
    if ring_len(queue) < 7 {
        fill_bag(queue, rng);
        proof {
            let q2 = ring_items(*queue);
            assert(q2.take(q2.len() - 7) =~= q0.skip(7 - (q2.len() - 7)));
            assert(q0.skip(0) =~= q0);
        }
    }
    p
}

} // verus!
