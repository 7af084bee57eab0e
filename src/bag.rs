use vstd::prelude::*;

use rand::rngs::ThreadRng;
use rand::seq::SliceRandom;

use crate::piece::{MinoType, catalog};

verus! {

/// rand's thread-local generator, carried through unopened.
#[verifier::external_type_specification]
#[verifier::external_body]
pub struct ExThreadRng(ThreadRng);

/// Pieces in one bag: one of each shape.
pub const BAG_SIZE: usize = 7;

/// A bag: every shape appears exactly once.
pub open spec fn is_full_bag(s: Seq<MinoType>) -> bool {
    &&& s.len() == BAG_SIZE
    &&& s.no_duplicates()
    &&& forall|t: MinoType| s.contains(t)
}

/// What is left of one bag after some of its front pieces were taken.
pub open spec fn partial_bag(q: Seq<MinoType>) -> bool {
    exists|b: Seq<MinoType>| is_full_bag(b) && q == b.subrange(BAG_SIZE - q.len(), BAG_SIZE as int)
}

/// A queue made of the rest of one bag followed by whole bags.
pub open spec fn bags_ok(q: Seq<MinoType>) -> bool
    decreases q.len(),
{
    if q.len() <= BAG_SIZE {
        partial_bag(q)
    } else {
        is_full_bag(q.subrange(q.len() - BAG_SIZE, q.len() as int)) && bags_ok(
            q.take(q.len() - BAG_SIZE),
        )
    }
}

/// A fresh bag is appended once no more than one bag's worth of pieces is left.
pub open spec fn refill(q: Seq<MinoType>, bag: Seq<MinoType>) -> Seq<MinoType> {
    if q.len() <= BAG_SIZE {
        q + bag
    } else {
        q
    }
}

/// The shapes that `n` spawns in a row take from queue `q`, the `k`-th spawn refilling from `bags[k]`.
pub open spec fn spawn_types(q: Seq<MinoType>, bags: Seq<Seq<MinoType>>, n: nat) -> Seq<MinoType>
    decreases n,
{
    if n == 0 || bags.len() == 0 {
        Seq::empty()
    } else {
        let q1 = refill(q, bags[0]);
        seq![q1[0]] + spawn_types(q1.drop_first(), bags.drop_first(), (n - 1) as nat)
    }
}

pub proof fn lemma_catalog_full_bag()
    ensures
        is_full_bag(catalog()),
{
    let c = catalog();
    assert forall|t: MinoType| c.contains(t) by {
        match t {
            MinoType::I => assert(c[0] == t),
            MinoType::J => assert(c[1] == t),
            MinoType::L => assert(c[2] == t),
            MinoType::O => assert(c[3] == t),
            MinoType::S => assert(c[4] == t),
            MinoType::T => assert(c[5] == t),
            MinoType::Z => assert(c[6] == t),
        }
    }
}

/// A permutation of a full bag is a full bag.
proof fn lemma_permuted_bag(a: Seq<MinoType>, b: Seq<MinoType>)
    requires
        is_full_bag(a),
        a.to_multiset() == b.to_multiset(),
    ensures
        is_full_bag(b),
{
    broadcast use vstd::seq::Seq::to_multiset_ensures;

    assert(a.len() == a.to_multiset().len());
    assert(b.len() == b.to_multiset().len());
    a.lemma_multiset_has_no_duplicates();
    assert forall|x: MinoType| b.to_multiset().contains(x) implies b.to_multiset().count(x) == 1 by {
        assert(a.to_multiset().contains(x));
    }
    b.lemma_multiset_has_no_duplicates_conv();
    assert forall|t: MinoType| b.contains(t) by {
        assert(a.contains(t));
        assert(a.to_multiset().count(t) > 0);
        assert(b.to_multiset().count(t) > 0);
    }
}

/// Refilling keeps the queue made of bags.
proof fn lemma_refill_ok(q: Seq<MinoType>, bag: Seq<MinoType>)
    requires
        bags_ok(q),
        is_full_bag(bag),
    ensures
        bags_ok(refill(q, bag)),
        refill(q, bag).len() >= 7,
{
    if q.len() <= 7 {
        let r = q + bag;
        if q.len() == 0 {
            assert(r =~= bag);
            assert(bag =~= bag.subrange(0, 7));
        } else {
            assert(r.subrange(r.len() - 7, r.len() as int) =~= bag);
            assert(r.take(r.len() - 7) =~= q);
        }
    }
}

/// Taking the front piece keeps the queue made of bags.
proof fn lemma_pop_ok(q: Seq<MinoType>)
    requires
        bags_ok(q),
        q.len() >= 1,
    ensures
        bags_ok(q.drop_first()),
    decreases q.len(),
{
    let d = q.drop_first();
    if q.len() <= 7 {
        let b = choose|b: Seq<MinoType>| is_full_bag(b) && q == b.subrange(7 - q.len(), 7);
        assert(d =~= b.subrange(7 - d.len(), 7));
    } else if q.len() == 8 {
        let b = q.subrange(1, 8);
        assert(d =~= b);
        assert(d =~= b.subrange(0, 7));
    } else {
        let h = q.take(q.len() - 7);
        lemma_pop_ok(h);
        assert(d.subrange(d.len() - 7, d.len() as int) =~= q.subrange(q.len() - 7, q.len() as int));
        assert(d.take(d.len() - 7) =~= h.drop_first());
    }
}

/// The take-and-refill steps that a spawn makes keep the queue made of bags.
pub proof fn lemma_spawn_queue_ok(q: Seq<MinoType>, bag: Seq<MinoType>)
    requires
        bags_ok(q),
        is_full_bag(bag),
    ensures
        refill(q, bag).len() >= 1,
        bags_ok(refill(q, bag).drop_first()),
{
    lemma_refill_ok(q, bag);
    lemma_pop_ok(refill(q, bag));
}

/// At a bag boundary the front seven pieces are one whole bag.
proof fn lemma_front_bag(q: Seq<MinoType>)
    requires
        bags_ok(q),
        q.len() % 7 == 0,
        q.len() >= 7,
    ensures
        is_full_bag(q.take(7)),
    decreases q.len(),
{
    if q.len() == 7 {
        let b = choose|b: Seq<MinoType>| is_full_bag(b) && q == b.subrange(7 - q.len(), 7);
        assert(q.take(7) =~= b);
    } else {
        let h = q.take(q.len() - 7);
        lemma_front_bag(h);
        assert(q.take(7) =~= h.take(7));
    }
}

/// The spawns read the refilled queue from the front.
proof fn lemma_spawn_prefix(q: Seq<MinoType>, bags: Seq<Seq<MinoType>>, n: nat)
    requires
        bags.len() >= n,
        forall|k: int| 0 <= k < bags.len() ==> is_full_bag(#[trigger] bags[k]),
        n <= refill(q, bags[0]).len(),
    ensures
        spawn_types(q, bags, n) == refill(q, bags[0]).take(n as int),
    decreases n,
{
    let q1 = refill(q, bags[0]);
    if n == 0 {
        assert(spawn_types(q, bags, n) =~= q1.take(0));
    } else {
        let d = q1.drop_first();
        let rest = bags.drop_first();
        if n == 1 {
            assert(spawn_types(d, rest, 0) =~= Seq::<MinoType>::empty());
        } else {
            assert(is_full_bag(rest[0]));
            lemma_spawn_prefix(d, rest, (n - 1) as nat);
            assert(refill(d, rest[0]).take(n - 1) =~= d.take(n - 1));
        }
        assert(spawn_types(q, bags, n) =~= q1.take(n as int));
    }
}

/// A bag's worth of spawns that start at a bag boundary bring each shape exactly once.
pub proof fn lemma_bag_window(q: Seq<MinoType>, bags: Seq<Seq<MinoType>>)
    requires
        bags_ok(q),
        q.len() % 7 == 0,
        bags.len() >= 7,
        forall|k: int| 0 <= k < bags.len() ==> is_full_bag(#[trigger] bags[k]),
    ensures
        is_full_bag(spawn_types(q, bags, 7)),
{
    assert(is_full_bag(bags[0]));
    lemma_spawn_prefix(q, bags, 7);
    if q.len() == 0 {
        assert(refill(q, bags[0]).take(7) =~= bags[0]);
    } else {
        lemma_front_bag(q);
        assert(refill(q, bags[0]).take(7) =~= q.take(7));
    }
}

/// Relies on rand's `SliceRandom::shuffle`, which only swaps elements: the result is a
/// permutation of its input.
#[verifier::external_body]
fn shuffle_minos(minos: &mut Vec<MinoType>, rng: &mut ThreadRng)
    ensures
        final(minos)@.to_multiset() == old(minos)@.to_multiset(),
{
    minos.shuffle(rng);
}

/// Every shape once, in a random order.
pub fn new_bag(rng: &mut ThreadRng) -> (r: Vec<MinoType>)
    ensures
        is_full_bag(r@),
{
    let mut minos = MinoType::all_minos();
    shuffle_minos(&mut minos, rng);
    proof {
        lemma_catalog_full_bag();
        lemma_permuted_bag(catalog(), minos@);
    }
    minos
}

} // verus!
