use vstd::prelude::*;
use crate::error::Error;

verus! {

// A ring buffer is modelled as its capacity and the sequence of its live
// elements, oldest first. Each operation is a function on that model.

/// Outcome of a write on a queue `q` of capacity `cap`: the element is
/// appended if there is room; otherwise the queue stays as it is and the
/// element is handed back with the error.
pub open spec fn write_outcome<T>(cap: nat, q: Seq<T>, e: T) -> (Seq<T>, Result<(), (Error, T)>) {
    if q.len() < cap {
        (q.push(e), Ok(()))
    } else {
        (q, Err((Error::FullBuffer, e)))
    }
}

/// Outcome of a read on a queue `q`: the oldest element is removed and
/// handed out, or nothing happens if the queue is empty.
pub open spec fn read_outcome<T>(q: Seq<T>) -> (Seq<T>, Result<T, Error>) {
    if q.len() == 0 {
        (q, Err(Error::EmptyBuffer))
    } else {
        (q.drop_first(), Ok(q[0]))
    }
}

/// Queue after an overwrite: a full queue loses its oldest element to make
/// room for `e`; with no slot at all, `e` is discarded.
pub open spec fn overwrite_outcome<T>(cap: nat, q: Seq<T>, e: T) -> Seq<T> {
    if q.len() < cap {
        q.push(e)
    } else if cap == 0 {
        q
    } else {
        q.drop_first().push(e)
    }
}

/// One operation on a buffer, as a step of a longer run.
pub enum Op<T> {
    Write(T),
    Read,
    Overwrite(T),
    Clear,
}

/// Effect of one operation on a queue `q` of capacity `cap`: the next
/// queue, the elements that leave (handed out by a read, evicted by an
/// overwrite, or dropped by a clear) oldest first, and the elements that
/// enter.
pub open spec fn step<T>(cap: nat, q: Seq<T>, op: Op<T>) -> (Seq<T>, Seq<T>, Seq<T>) {
    match op {
        Op::Write(e) => {
            let (next, r) = write_outcome(cap, q, e);
            (next, Seq::empty(), if r is Ok { seq![e] } else { Seq::empty() })
        },
        Op::Read => {
            let (next, r) = read_outcome(q);
            (next, match r {
                Ok(x) => seq![x],
                Err(_) => Seq::empty(),
            }, Seq::empty())
        },
        Op::Overwrite(e) => (
            overwrite_outcome(cap, q, e),
            if cap > 0 && q.len() >= cap { seq![q[0]] } else { Seq::empty() },
            if cap > 0 { seq![e] } else { Seq::empty() },
        ),
        Op::Clear => (Seq::empty(), q, Seq::empty()),
    }
}

/// Effect of a sequence of operations, applied in order from queue `q`:
/// the final queue, every element that left, and every element that
/// entered, each in the order in which it happened.
pub open spec fn run<T>(cap: nat, q: Seq<T>, ops: Seq<Op<T>>) -> (Seq<T>, Seq<T>, Seq<T>)
    decreases ops.len(),
{
    if ops.len() == 0 {
        (q, Seq::empty(), Seq::empty())
    } else {
        let (q1, out1, in1) = step(cap, q, ops[0]);
        let (q2, out2, in2) = run(cap, q1, ops.drop_first());
        (q2, out1 + out2, in1 + in2)
    }
}

/// A write of each of `es`, in order.
pub open spec fn writes<T>(es: Seq<T>) -> Seq<Op<T>> {
    es.map_values(|e: T| Op::Write(e))
}

/// `k` reads.
pub open spec fn reads<T>(k: nat) -> Seq<Op<T>> {
    Seq::new(k, |i: int| Op::Read)
}

/// The elements that the writes among `ops` carry, in order.
pub open spec fn written<T>(ops: Seq<Op<T>>) -> Seq<T>
    decreases ops.len(),
{
    if ops.len() == 0 {
        Seq::empty()
    } else {
        let rest = written(ops.drop_first());
        match ops[0] {
            Op::Write(e) => seq![e] + rest,
            _ => rest,
        }
    }
}

/// Whether `ops`, applied from `q`, holds only writes and reads, never
/// writes to a full queue and never reads from an empty one.
pub open spec fn plain_queue_use<T>(cap: nat, q: Seq<T>, ops: Seq<Op<T>>) -> bool
    decreases ops.len(),
{
    if ops.len() == 0 {
        true
    } else {
        &&& match ops[0] {
            Op::Write(_) => q.len() < cap,
            Op::Read => q.len() > 0,
            _ => false,
        }
        &&& plain_queue_use(cap, step(cap, q, ops[0]).0, ops.drop_first())
    }
}

} // verus!
