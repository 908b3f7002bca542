//! Histories of buffer operations, and the laws they obey.
//!
//! A [`BufOp`] records one call on a buffer of some capacity; applying a
//! history of them to the sequence of live elements mirrors, step by step,
//! what the executable operations promise.  The lemmas here state the
//! buffer's laws over whole histories: filling succeeds up to the capacity,
//! elements come back out in push order (also across the wrap point), and
//! the occupancy is always the number of successful pushes minus the number
//! of successful pops.

use vstd::prelude::*;

verus! {

/// One operation on the buffer: pushing an element, or popping the oldest.
pub enum BufOp<T> {
    Push(T),
    Pop,
}

/// Whether `op` succeeds on a buffer holding `s` with capacity `cap`:
/// a push needs a free slot, a pop needs a live element.
pub open spec fn op_succeeds<T>(s: Seq<T>, cap: nat, op: BufOp<T>) -> bool {
    match op {
        BufOp::Push(_) => s.len() < cap,
        BufOp::Pop => s.len() > 0,
    }
}

/// The live elements after `op` on a buffer holding `s` with capacity
/// `cap`: a successful push appends at the young end, a successful pop
/// removes the oldest element, and a failed operation changes nothing.
pub open spec fn apply_op<T>(s: Seq<T>, cap: nat, op: BufOp<T>) -> Seq<T> {
    match op {
        BufOp::Push(e) => if s.len() < cap {
            s.push(e)
        } else {
            s
        },
        BufOp::Pop => if s.len() > 0 {
            s.subrange(1, s.len() as int)
        } else {
            s
        },
    }
}

/// The live elements after the whole history `ops`, oldest first.
pub open spec fn apply_ops<T>(s: Seq<T>, cap: nat, ops: Seq<BufOp<T>>) -> Seq<T>
    decreases ops.len(),
{
    if ops.len() == 0 {
        s
    } else {
        apply_ops(apply_op(s, cap, ops[0]), cap, ops.skip(1))
    }
}

/// Whether every operation of the history `ops` succeeds in the state it
/// finds.
pub open spec fn all_succeed<T>(s: Seq<T>, cap: nat, ops: Seq<BufOp<T>>) -> bool
    decreases ops.len(),
{
    ops.len() == 0 || (op_succeeds(s, cap, ops[0]) && all_succeed(
        apply_op(s, cap, ops[0]),
        cap,
        ops.skip(1),
    ))
}

/// How many pushes of the history `ops` succeed.
pub open spec fn ok_push_count<T>(s: Seq<T>, cap: nat, ops: Seq<BufOp<T>>) -> nat
    decreases ops.len(),
{
    if ops.len() == 0 {
        0
    } else {
        (match ops[0] {
            BufOp::Push(_) => if s.len() < cap {
                1nat
            } else {
                0nat
            },
            BufOp::Pop => 0nat,
        }) + ok_push_count(apply_op(s, cap, ops[0]), cap, ops.skip(1))
    }
}

/// How many pops of the history `ops` succeed.
pub open spec fn ok_pop_count<T>(s: Seq<T>, cap: nat, ops: Seq<BufOp<T>>) -> nat
    decreases ops.len(),
{
    if ops.len() == 0 {
        0
    } else {
        (match ops[0] {
            BufOp::Push(_) => 0nat,
            BufOp::Pop => if s.len() > 0 {
                1nat
            } else {
                0nat
            },
        }) + ok_pop_count(apply_op(s, cap, ops[0]), cap, ops.skip(1))
    }
}

/// The elements that the successful pops of the history `ops` return, in
/// the order they are returned.
pub open spec fn popped_ops<T>(s: Seq<T>, cap: nat, ops: Seq<BufOp<T>>) -> Seq<T>
    decreases ops.len(),
{
    if ops.len() == 0 {
        Seq::empty()
    } else {
        (match ops[0] {
            BufOp::Push(_) => Seq::<T>::empty(),
            BufOp::Pop => if s.len() > 0 {
                seq![s[0]]
            } else {
                Seq::<T>::empty()
            },
        }) + popped_ops(apply_op(s, cap, ops[0]), cap, ops.skip(1))
    }
}

/// The history that pushes the elements of `es`, in order.
pub open spec fn pushes<T>(es: Seq<T>) -> Seq<BufOp<T>> {
    es.map_values(|e: T| BufOp::Push(e))
}

/// The history of `q` pops.
pub open spec fn pops<T>(q: nat) -> Seq<BufOp<T>> {
    Seq::new(q, |i: int| BufOp::<T>::Pop)
}

/// Running one history after another is running their concatenation, and
/// success, the drained elements and the final state compose accordingly.
pub proof fn lemma_ops_concat<T>(s: Seq<T>, cap: nat, a: Seq<BufOp<T>>, b: Seq<BufOp<T>>)
    ensures
        apply_ops(s, cap, a + b) == apply_ops(apply_ops(s, cap, a), cap, b),
        all_succeed(s, cap, a + b) == (all_succeed(s, cap, a) && all_succeed(
            apply_ops(s, cap, a),
            cap,
            b,
        )),
        popped_ops(s, cap, a + b) == popped_ops(s, cap, a) + popped_ops(
            apply_ops(s, cap, a),
            cap,
            b,
        ),
    decreases a.len(),
{
    if a.len() == 0 {
        assert(a + b =~= b);
        assert(popped_ops(s, cap, a) + popped_ops(s, cap, b) =~= popped_ops(s, cap, b));
    } else {
        let s1 = apply_op(s, cap, a[0]);
        assert((a + b)[0] == a[0]);
        assert((a + b).skip(1) =~= a.skip(1) + b);
        lemma_ops_concat(s1, cap, a.skip(1), b);
        assert(popped_ops(s, cap, a + b) =~= popped_ops(s, cap, a) + popped_ops(
            apply_ops(s, cap, a),
            cap,
            b,
        ));
    }
}

/// Pushing the elements of `es` into a buffer with room for all of them
/// succeeds at every step, returns nothing, and appends them in order.
pub proof fn lemma_pushes_append<T>(s: Seq<T>, cap: nat, es: Seq<T>)
    requires
        s.len() + es.len() <= cap,
    ensures
        all_succeed(s, cap, pushes(es)),
        apply_ops(s, cap, pushes(es)) == s + es,
        popped_ops(s, cap, pushes(es)) == Seq::<T>::empty(),
    decreases es.len(),
{
    let ops = pushes(es);
    if es.len() == 0 {
        assert(s + es =~= s);
        assert(popped_ops(s, cap, ops) =~= Seq::<T>::empty());
    } else {
        let s1 = s.push(es[0]);
        assert(ops[0] == BufOp::Push(es[0]));
        assert(apply_op(s, cap, ops[0]) == s1);
        assert(ops.skip(1) =~= pushes(es.skip(1)));
        lemma_pushes_append(s1, cap, es.skip(1));
        assert(s1 + es.skip(1) =~= s + es);
        assert(popped_ops(s, cap, ops) =~= Seq::<T>::empty());
    }
}

/// Filling a fresh buffer: pushing any `es` with at most `cap` elements
/// into an empty buffer of capacity `cap` succeeds every time and leaves
/// exactly those elements live, so `cap` pushes leave the buffer full.
pub proof fn lemma_fill_from_empty<T>(cap: nat, es: Seq<T>)
    requires
        es.len() <= cap,
    ensures
        all_succeed(Seq::<T>::empty(), cap, pushes(es)),
        apply_ops(Seq::<T>::empty(), cap, pushes(es)) == es,
        popped_ops(Seq::<T>::empty(), cap, pushes(es)) == Seq::<T>::empty(),
{
    lemma_pushes_append(Seq::<T>::empty(), cap, es);
    assert(Seq::<T>::empty() + es =~= es);
}

/// Draining: `q` pops from a buffer holding `s`, with `q <= s.len()`, all
/// succeed, return the `q` oldest elements in order, and leave the rest.
pub proof fn lemma_pops_drain<T>(s: Seq<T>, cap: nat, q: nat)
    requires
        q <= s.len(),
    ensures
        all_succeed(s, cap, pops(q)),
        popped_ops(s, cap, pops(q)) == s.take(q as int),
        apply_ops(s, cap, pops(q)) == s.skip(q as int),
    decreases q,
{
    let ops = pops::<T>(q);
    if q == 0 {
        assert(popped_ops(s, cap, ops) =~= s.take(0));
        assert(s.skip(0) =~= s);
    } else {
        let s1 = s.subrange(1, s.len() as int);
        assert(ops[0] == BufOp::<T>::Pop);
        assert(ops.skip(1) =~= pops::<T>((q - 1) as nat));
        lemma_pops_drain(s1, cap, (q - 1) as nat);
        assert(seq![s[0]] + s1.take(q - 1) =~= s.take(q as int));
        assert(s1.skip(q - 1) =~= s.skip(q as int));
    }
}

/// FIFO order: push `e0, ..., e_{k-1}` (`k` at most the capacity) into an
/// empty buffer with no intervening pops; `k` pops then succeed and return
/// `e0, ..., e_{k-1}` in exactly that order, leaving the buffer empty.
pub proof fn lemma_fifo<T>(cap: nat, es: Seq<T>)
    requires
        es.len() <= cap,
    ensures
        all_succeed(Seq::<T>::empty(), cap, pushes(es) + pops(es.len())),
        popped_ops(Seq::<T>::empty(), cap, pushes(es) + pops(es.len())) == es,
        apply_ops(Seq::<T>::empty(), cap, pushes(es) + pops(es.len())) == Seq::<T>::empty(),
{
    lemma_fill_from_empty(cap, es);
    lemma_pops_drain(es, cap, es.len());
    lemma_ops_concat(Seq::<T>::empty(), cap, pushes(es), pops(es.len()));
    assert(es.take(es.len() as int) =~= es);
    assert(es.skip(es.len() as int) =~= Seq::<T>::empty());
    assert(popped_ops(Seq::<T>::empty(), cap, pushes(es) + pops(es.len())) =~= es);
}

/// Round trip across the wrap point: fill a fresh buffer of capacity `cap`
/// with `es`, pop `fs.len() < cap` elements, push the fresh elements `fs`,
/// then pop `cap` times.  Every operation succeeds, the buffer ends empty,
/// and the popped elements are `es` followed by `fs`, in push order.
pub proof fn lemma_wraparound_round_trip<T>(cap: nat, es: Seq<T>, fs: Seq<T>)
    requires
        es.len() == cap,
        fs.len() < cap,
    ensures
        all_succeed(
            Seq::<T>::empty(),
            cap,
            pushes(es) + pops(fs.len()) + pushes(fs) + pops(cap),
        ),
        popped_ops(
            Seq::<T>::empty(),
            cap,
            pushes(es) + pops(fs.len()) + pushes(fs) + pops(cap),
        ) == es + fs,
        apply_ops(
            Seq::<T>::empty(),
            cap,
            pushes(es) + pops(fs.len()) + pushes(fs) + pops(cap),
        ) == Seq::<T>::empty(),
{
    let m = fs.len();
    let s0 = Seq::<T>::empty();
    lemma_fill_from_empty(cap, es);
    lemma_pops_drain(es, cap, m);
    let s2 = es.skip(m as int);
    lemma_pushes_append(s2, cap, fs);
    let s3 = s2 + fs;
    lemma_pops_drain(s3, cap, cap);
    lemma_ops_concat(s0, cap, pushes(es), pops(m));
    lemma_ops_concat(s0, cap, pushes(es) + pops(m), pushes(fs));
    lemma_ops_concat(s0, cap, pushes(es) + pops(m) + pushes(fs), pops(cap));
    assert(s3.take(cap as int) =~= s3);
    assert(s3.skip(cap as int) =~= Seq::<T>::empty());
    assert(popped_ops(s0, cap, pushes(es) + pops(m) + pushes(fs) + pops(cap)) =~= es + fs);
    assert(apply_ops(s0, cap, pushes(es) + pops(m) + pushes(fs) + pops(cap)) =~= Seq::<T>::empty());
}

/// Occupancy bookkeeping: over any history, the pops that succeed never
/// outnumber the starting occupancy plus the pushes that succeed, the
/// final occupancy is the starting one plus successful pushes minus
/// successful pops, and it stays within the capacity.
pub proof fn lemma_len_after_ops<T>(s: Seq<T>, cap: nat, ops: Seq<BufOp<T>>)
    requires
        s.len() <= cap,
    ensures
        ok_pop_count(s, cap, ops) <= s.len() + ok_push_count(s, cap, ops),
        apply_ops(s, cap, ops).len() == s.len() + ok_push_count(s, cap, ops) - ok_pop_count(
            s,
            cap,
            ops,
        ),
        apply_ops(s, cap, ops).len() <= cap,
    decreases ops.len(),
{
    if ops.len() > 0 {
        lemma_len_after_ops(apply_op(s, cap, ops[0]), cap, ops.skip(1));
    }
}

} // verus!
