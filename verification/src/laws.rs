//! What holds of the ring across many calls.
//!
//! `push_inner` turns the items `s` of a ring into `s.push(x)`, and
//! `pop_inner` turns them into `s.drop_first()` and hands out `s[0]`
//! (`try_push_locked` and `try_pop_locked` do the same when they succeed).
//! The spec functions here apply those steps over and over; the proof
//! functions state what comes of that.

use vstd::prelude::*;

verus! {

/// The items of a ring that held `held` once `xs` were pushed onto it, one
/// by one and in order.
pub open spec fn push_each<T>(held: Seq<T>, xs: Seq<T>) -> Seq<T>
    decreases xs.len(),
{
    if xs.len() == 0 {
        held
    } else {
        push_each(held, xs.drop_last()).push(xs.last())
    }
}

/// The items that `n` pops take out of a ring that holds `held`, in the
/// order in which they come out (fewer when the ring runs empty).
pub open spec fn pop_each<T>(held: Seq<T>, n: nat) -> Seq<T>
    decreases n,
{
    if n == 0 || held.len() == 0 {
        Seq::empty()
    } else {
        seq![held[0]] + pop_each(held.drop_first(), (n - 1) as nat)
    }
}

/// Pushing items one by one appends them, in order, behind those held.
pub proof fn lemma_push_each_appends<T>(held: Seq<T>, xs: Seq<T>)
    ensures
        push_each(held, xs) == held + xs,
    decreases xs.len(),
{
    if xs.len() > 0 {
        lemma_push_each_appends(held, xs.drop_last());
        assert(held + xs =~= (held + xs.drop_last()).push(xs.last()));
    }
}

/// Popping as many times as there are items takes them all out, oldest
/// first.
pub proof fn lemma_pop_each_drains<T>(held: Seq<T>)
    ensures
        pop_each(held, held.len()) == held,
    decreases held.len(),
{
    if held.len() > 0 {
        lemma_pop_each_drains(held.drop_first());
        assert(held =~= seq![held[0]] + held.drop_first());
    }
}

/// First in, first out: when items are pushed onto a ring that holds
/// `held`, and then every item is popped, the items come out in the order
/// in which they went in: those that were held first, then the pushed ones.
pub proof fn lemma_first_in_first_out<T>(held: Seq<T>, xs: Seq<T>)
    ensures
        pop_each(push_each(held, xs), held.len() + xs.len()) == held + xs,
{
    lemma_push_each_appends(held, xs);
    lemma_pop_each_drains(held + xs);
}

/// No item is lost or duplicated by a push: the ring afterwards holds what
/// it held and the pushed item, each as often as before.
pub proof fn lemma_push_keeps_items<T>(held: Seq<T>, x: T)
    ensures
        held.push(x).to_multiset() == held.to_multiset().insert(x),
{
    broadcast use vstd::seq_lib::group_seq_properties;

}

/// No item is lost or duplicated by a pop: what the ring held is what it
/// holds afterwards together with the item handed out.
pub proof fn lemma_pop_keeps_items<T>(held: Seq<T>)
    requires
        held.len() > 0,
    ensures
        held.to_multiset() == held.drop_first().to_multiset().insert(held[0]),
{
    broadcast use vstd::seq_lib::group_seq_properties;

    assert(held =~= held.drop_first().insert(0, held[0]));
}

/// Everything pushed comes out exactly once: popping a ring empty after
/// pushes hands out, counted with repetition, what it held and what was
/// pushed.
pub proof fn lemma_every_item_once<T>(held: Seq<T>, xs: Seq<T>)
    ensures
        pop_each(push_each(held, xs), held.len() + xs.len()).to_multiset()
            == held.to_multiset().add(xs.to_multiset()),
{
    lemma_first_in_first_out(held, xs);
    vstd::seq_lib::lemma_multiset_commutative(held, xs);
}

/// One step that a function of the ring takes under the lock, as its
/// contract states it, from a ring holding `a` with `ca` slots to one
/// holding `b` with `cb` slots: the slot count stays, and either an item is
/// put behind the others while there is a free slot (`push_inner`,
/// `try_push_locked`), or the oldest item is taken out (`pop_inner`,
/// `try_pop_locked`), or the items stay as they are (a refused
/// `try_push_locked`, `try_pop_locked` on an empty ring).
pub open spec fn ring_step<T>(a: Seq<T>, ca: nat, b: Seq<T>, cb: nat) -> bool {
    &&& cb == ca
    &&& {
        ||| a.len() < ca && b.len() == a.len() + 1 && b == a.push(b.last())
        ||| a.len() > 0 && b == a.drop_first()
        ||| b == a
    }
}

/// What `push_inner`, `pop_inner`, `try_push_locked` and `try_pop_locked`
/// ensure of the items and the slot count is a `ring_step`: a push of `x`
/// onto a ring with a free slot, a pop from a ring that holds an item, and a
/// call that leaves the ring as it was.
pub proof fn lemma_calls_are_ring_steps<T>(a: Seq<T>, ca: nat, x: T)
    ensures
        a.len() < ca ==> ring_step(a, ca, a.push(x), ca),
        a.len() > 0 ==> ring_step(a, ca, a.drop_first(), ca),
        ring_step(a, ca, a, ca),
{
    assert(a.push(x).last() == x);
}

/// Over a ring's whole life the slot count is the one it was made with, and
/// the ring never holds more items than that: given the items `items[k]`
/// and slot counts `caps[k]` after each of any number of steps, starting
/// from a ring within its capacity (every ring made by `Inner::new` is
/// empty), every later state has the first slot count and at most that many
/// items.
pub proof fn lemma_capacity_fixed_over_life<T>(items: Seq<Seq<T>>, caps: Seq<nat>)
    requires
        ring_life(items, caps),
        items.len() > 0,
        items[0].len() <= caps[0],
    ensures
        forall|k: int| 0 <= k < items.len() ==> #[trigger] caps[k] == caps[0] && items[k].len() <= caps[0],
    decreases items.len(),
{
    let n = items.len() as int;
    if n > 1 {
        let front_items = items.subrange(0, n - 1);
        let front_caps = caps.subrange(0, n - 1);
        assert forall|k: int| 0 <= k < front_items.len() - 1 implies #[trigger] ring_step(
            front_items[k],
            front_caps[k],
            front_items[k + 1],
            front_caps[k + 1],
        ) by {
            assert(ring_step(items[k], caps[k], items[k + 1], caps[k + 1]));
        }
        lemma_capacity_fixed_over_life(front_items, front_caps);
        assert(caps[n - 2] == caps[0] && items[n - 2].len() <= caps[0]) by {
            assert(front_caps[n - 2] == caps[n - 2]);
        }
        let last = n - 2;
        assert(ring_step(items[last], caps[last], items[last + 1], caps[last + 1]));
        assert forall|k: int| 0 <= k < n implies #[trigger] caps[k] == caps[0] && items[k].len()
            <= caps[0] by {
            if k < n - 1 {
                assert(front_caps[k] == caps[k]);
                assert(front_items[k] == items[k]);
            }
        }
    }
}

/// The items put in over the first `k` steps of a ring's life, where
/// `items[j]` is what the ring holds after step `j`: each step that makes
/// the ring one item longer put its new last item in.
pub open spec fn pushed_by<T>(items: Seq<Seq<T>>, k: int) -> Seq<T>
    decreases k,
{
    if k <= 0 {
        Seq::empty()
    } else if items[k].len() == items[k - 1].len() + 1 {
        pushed_by(items, k - 1).push(items[k].last())
    } else {
        pushed_by(items, k - 1)
    }
}

/// The items taken out over the first `k` steps of a ring's life, in the
/// order they came out: each step that makes the ring one item shorter took
/// out the item that was at its front.
pub open spec fn popped_by<T>(items: Seq<Seq<T>>, k: int) -> Seq<T>
    decreases k,
{
    if k <= 0 {
        Seq::empty()
    } else if items[k].len() + 1 == items[k - 1].len() {
        popped_by(items, k - 1).push(items[k - 1][0])
    } else {
        popped_by(items, k - 1)
    }
}

/// Steps `items[j]` to `items[j + 1]` of a ring's life, each a `ring_step`.
pub open spec fn ring_life<T>(items: Seq<Seq<T>>, caps: Seq<nat>) -> bool {
    &&& items.len() == caps.len()
    &&& forall|j: int|
        0 <= j < items.len() - 1 ==> #[trigger] ring_step(items[j], caps[j], items[j + 1], caps[j + 1])
}

proof fn lemma_flow<T>(items: Seq<Seq<T>>, caps: Seq<nat>, k: int)
    requires
        ring_life(items, caps),
        0 <= k < items.len(),
    ensures
        items[0] + pushed_by(items, k) == popped_by(items, k) + items[k],
    decreases k,
{
    if k == 0 {
        assert(items[0] + Seq::<T>::empty() =~= Seq::<T>::empty() + items[0]);
    } else {
        lemma_flow(items, caps, k - 1);
        let j = k - 1;
        assert(ring_step(items[j], caps[j], items[j + 1], caps[j + 1]));
        let before = items[j];
        let after = items[k];
        let ins = pushed_by(items, j);
        let outs = popped_by(items, j);
        if after.len() == before.len() + 1 {
            assert(after == before.push(after.last()));
            assert(items[0] + ins.push(after.last()) =~= (items[0] + ins).push(after.last()));
            assert(outs + before.push(after.last()) =~= (outs + before).push(after.last()));
        } else if after.len() + 1 == before.len() {
            assert(after == before.drop_first());
            assert(outs.push(before[0]) + before.drop_first() =~= outs + before);
        } else {
            assert(after == before);
        }
    }
}

/// First in, first out, for any mix of pushes and pops over a ring's life:
/// after every step, what has come out is the front of what went in, in
/// order, where what went in is the items the ring first held followed by
/// those pushed since; and what the ring holds is the rest of it.
pub proof fn lemma_first_in_first_out_interleaved<T>(items: Seq<Seq<T>>, caps: Seq<nat>, k: int)
    requires
        ring_life(items, caps),
        0 <= k < items.len(),
    ensures
        popped_by(items, k) == (items[0] + pushed_by(items, k)).subrange(
            0,
            popped_by(items, k).len() as int,
        ),
        items[k] == (items[0] + pushed_by(items, k)).subrange(
            popped_by(items, k).len() as int,
            (items[0].len() + pushed_by(items, k).len()) as int,
        ),
{
    lemma_flow(items, caps, k);
    let all_in = items[0] + pushed_by(items, k);
    let outs = popped_by(items, k);
    assert(outs =~= (outs + items[k]).subrange(0, outs.len() as int));
    assert(items[k] =~= (outs + items[k]).subrange(outs.len() as int, all_in.len() as int));
}

/// Every item comes out exactly once, for any mix of pushes and pops over a
/// ring's life: after every step, the items taken out and the items held
/// are, counted with repetition, the items first held and those pushed
/// since.
pub proof fn lemma_every_item_once_interleaved<T>(items: Seq<Seq<T>>, caps: Seq<nat>, k: int)
    requires
        ring_life(items, caps),
        0 <= k < items.len(),
    ensures
        popped_by(items, k).to_multiset().add(items[k].to_multiset())
            == items[0].to_multiset().add(pushed_by(items, k).to_multiset()),
{
    lemma_flow(items, caps, k);
    vstd::seq_lib::lemma_multiset_commutative(popped_by(items, k), items[k]);
    vstd::seq_lib::lemma_multiset_commutative(items[0], pushed_by(items, k));
}

} // verus!
