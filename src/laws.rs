use vstd::prelude::*;
use crate::error::Error;
use crate::model::{
    Op, overwrite_outcome, plain_queue_use, read_outcome, reads, run, step, write_outcome,
    writes, written,
};

verus! {

/// Running `a` and then `b` is running `a + b`.
proof fn lemma_run_append<T>(cap: nat, q: Seq<T>, a: Seq<Op<T>>, b: Seq<Op<T>>)
    ensures
        ({
            let ra = run(cap, q, a);
            let rb = run(cap, ra.0, b);
            run(cap, q, a + b) == (rb.0, ra.1 + rb.1, ra.2 + rb.2)
        }),
    decreases a.len(),
{
    if a.len() == 0 {
        assert(a + b =~= b);
        assert(Seq::<T>::empty() + run(cap, q, b).1 =~= run(cap, q, b).1);
        assert(Seq::<T>::empty() + run(cap, q, b).2 =~= run(cap, q, b).2);
    } else {
        let s = step(cap, q, a[0]);
        assert((a + b)[0] == a[0]);
        assert((a + b).drop_first() =~= a.drop_first() + b);
        lemma_run_append(cap, s.0, a.drop_first(), b);
        let rest = run(cap, s.0, a.drop_first());
        let rb = run(cap, rest.0, b);
        assert(s.1 + (rest.1 + rb.1) =~= (s.1 + rest.1) + rb.1);
        assert(s.2 + (rest.2 + rb.2) =~= (s.2 + rest.2) + rb.2);
    }
}

/// Writes into a queue with room for all of them are all accepted, and
/// append their elements in order.
proof fn lemma_writes_fit<T>(cap: nat, q: Seq<T>, es: Seq<T>)
    requires
        q.len() + es.len() <= cap,
    ensures
        run(cap, q, writes(es)) == (q + es, Seq::<T>::empty(), es),
    decreases es.len(),
{
    if es.len() == 0 {
        assert(q + es =~= q);
    } else {
        assert(writes(es)[0] == Op::Write(es[0]));
        assert(writes(es).drop_first() =~= writes(es.drop_first()));
        lemma_writes_fit(cap, q.push(es[0]), es.drop_first());
        assert(q.push(es[0]) + es.drop_first() =~= q + es);
        assert(seq![es[0]] + es.drop_first() =~= es);
        assert(Seq::<T>::empty() + Seq::<T>::empty() =~= Seq::<T>::empty());
    }
}

/// As many reads as a queue holds hand out its elements in order.
proof fn lemma_reads_drain<T>(cap: nat, q: Seq<T>)
    ensures
        run(cap, q, reads(q.len())) == (Seq::<T>::empty(), q, Seq::<T>::empty()),
    decreases q.len(),
{
    if q.len() == 0 {
        assert(q =~= Seq::<T>::empty());
    } else {
        let k = q.len();
        assert(reads::<T>(k)[0] == Op::<T>::Read);
        assert(reads::<T>(k).drop_first() =~= reads::<T>((k - 1) as nat));
        lemma_reads_drain(cap, q.drop_first());
        assert(seq![q[0]] + q.drop_first() =~= q);
        assert(Seq::<T>::empty() + Seq::<T>::empty() =~= Seq::<T>::empty());
    }
}

/// Writing exactly `cap` elements into an empty buffer of capacity `cap`
/// succeeds each time and fills it with them; one more write then fails
/// with `FullBuffer`, hands its element back and leaves the length at `cap`.
pub proof fn lemma_fill_to_capacity<T>(cap: nat, es: Seq<T>, extra: T)
    requires
        es.len() == cap,
    ensures
        run(cap, Seq::empty(), writes(es)) == (es, Seq::<T>::empty(), es),
        write_outcome(cap, es, extra) == (es, Err::<(), (Error, T)>((Error::FullBuffer, extra))),
{
    lemma_writes_fit(cap, Seq::empty(), es);
    assert(Seq::<T>::empty() + es =~= es);
}

/// Reads return elements in the order they were written: writing `es`
/// into an empty buffer with room for them, then reading as many times,
/// hands out exactly `es` and leaves the buffer empty.
pub proof fn lemma_fifo<T>(cap: nat, es: Seq<T>)
    requires
        es.len() <= cap,
    ensures
        run(cap, Seq::empty(), writes(es) + reads(es.len())) == (Seq::<T>::empty(), es, es),
{
    lemma_run_append(cap, Seq::empty(), writes(es), reads(es.len()));
    lemma_writes_fit(cap, Seq::empty(), es);
    assert(Seq::<T>::empty() + es =~= es);
    lemma_reads_drain(cap, es);
    assert(Seq::<T>::empty() + es =~= es);
    assert(es + Seq::<T>::empty() =~= es);
}

/// On a buffer that is not full, an overwrite does what a write does, and
/// that write succeeds.
pub proof fn lemma_overwrite_when_not_full<T>(cap: nat, q: Seq<T>, e: T)
    requires
        q.len() < cap,
    ensures
        overwrite_outcome(cap, q, e) == write_outcome(cap, q, e).0,
        write_outcome(cap, q, e).1 == Ok::<(), (Error, T)>(()),
{
}

/// After a clear, whatever the buffer held, it is empty and a read fails
/// with `EmptyBuffer`.
pub proof fn lemma_read_after_clear<T>(cap: nat, q: Seq<T>)
    ensures
        step(cap, q, Op::Clear).0.len() == 0,
        read_outcome(step(cap, q, Op::Clear).0).1 == Err::<T, Error>(Error::EmptyBuffer),
{
}

/// A buffer of capacity zero never holds an element: a write fails with
/// `FullBuffer` and hands its element back, a read with `EmptyBuffer`, an overwrite changes nothing,
/// and over any sequence of operations nothing enters or leaves.
pub proof fn lemma_zero_capacity<T>(q: Seq<T>, e: T, ops: Seq<Op<T>>)
    requires
        q.len() == 0,
    ensures
        write_outcome(0, q, e) == (q, Err::<(), (Error, T)>((Error::FullBuffer, e))),
        read_outcome(q) == (q, Err::<T, Error>(Error::EmptyBuffer)),
        overwrite_outcome(0, q, e) == q,
        run(0, q, ops) == (q, Seq::<T>::empty(), Seq::<T>::empty()),
    decreases ops.len(),
{
    if ops.len() > 0 {
        lemma_zero_capacity(step(0, q, ops[0]).0, e, ops.drop_first());
        assert(step(0, q, ops[0]).0 =~= q);
        assert(Seq::<T>::empty() + Seq::<T>::empty() =~= Seq::<T>::empty());
    }
}

/// Every element that enters a buffer leaves it at most once and is never
/// lost: over any sequence of operations, the elements that left (read,
/// evicted or cleared) followed by those still held are exactly the
/// elements held at the start followed by those that entered, in order.
pub proof fn lemma_conservation<T>(cap: nat, q: Seq<T>, ops: Seq<Op<T>>)
    ensures
        run(cap, q, ops).1 + run(cap, q, ops).0 == q + run(cap, q, ops).2,
    decreases ops.len(),
{
    if ops.len() == 0 {
        assert(Seq::<T>::empty() + q =~= q + Seq::<T>::empty());
    } else {
        let s = step(cap, q, ops[0]);
        assert(s.1 + s.0 =~= q + s.2) by {
            match ops[0] {
                Op::Overwrite(e) => {
                    if cap > 0 && q.len() >= cap {
                        assert(seq![q[0]] + q.drop_first().push(e) =~= q + seq![e]);
                    }
                },
                Op::Read => {
                    if q.len() > 0 {
                        assert(seq![q[0]] + q.drop_first() =~= q);
                    }
                },
                _ => {},
            }
        }
        lemma_conservation(cap, s.0, ops.drop_first());
        let r = run(cap, s.0, ops.drop_first());
        assert((s.1 + r.1) + r.0 =~= q + (s.2 + r.2)) by {
            assert((s.1 + r.1) + r.0 =~= s.1 + (r.1 + r.0));
            assert(s.1 + (s.0 + r.2) =~= (s.1 + s.0) + r.2);
            assert((q + s.2) + r.2 =~= q + (s.2 + r.2));
        }
    }
}

/// Interleaved writes and reads that never write to a full buffer and
/// never read from an empty one accept every write, and the elements read
/// followed by those still held are exactly the elements held at the start
/// followed by those written: none is repeated, skipped or reordered.
pub proof fn lemma_round_trip<T>(cap: nat, q: Seq<T>, ops: Seq<Op<T>>)
    requires
        plain_queue_use(cap, q, ops),
    ensures
        run(cap, q, ops).2 == written(ops),
        run(cap, q, ops).1 + run(cap, q, ops).0 == q + written(ops),
    decreases ops.len(),
{
    lemma_conservation(cap, q, ops);
    if ops.len() > 0 {
        lemma_round_trip(cap, step(cap, q, ops[0]).0, ops.drop_first());
        match ops[0] {
            Op::Write(e) => {},
            _ => {
                assert(Seq::<T>::empty() + written(ops.drop_first()) =~= written(
                    ops.drop_first(),
                ));
            },
        }
    }
}

} // verus!
