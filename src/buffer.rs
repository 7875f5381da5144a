use vstd::prelude::*;
use crate::error::Error;
use crate::model::{Op, overwrite_outcome, read_outcome, step, write_outcome};

verus! {

/// A ring buffer of fixed capacity.
///
/// Each slot holds `Some` value exactly while the value is live, that is,
/// between its write and its read. The two cursors count modulo twice the
/// capacity, so that a full buffer and an empty one have different cursor
/// pairs although both cursors then address the same slot.
///
/// For proofs only, the buffer also records every element that has entered
/// it and every element that has left it (read, evicted or cleared), each
/// in order, since it was created.
pub struct CircularBuffer<T> {
    write_ptr: usize,
    read_ptr: usize,
    buffer: Vec<Option<T>>,
    entered: Ghost<Seq<T>>,
    departed: Ghost<Seq<T>>,
}

impl<T> CircularBuffer<T> {
    /// The fixed number of slots.
    pub closed spec fn spec_capacity(&self) -> nat {
        self.buffer@.len()
    }

    /// Every element that has entered the buffer, in order.
    pub closed spec fn entered(&self) -> Seq<T> {
        self.entered@
    }

    /// Every element that has left the buffer, in order: handed out by a
    /// read, evicted by an overwrite, or dropped by a clear.
    pub closed spec fn departed(&self) -> Seq<T> {
        self.departed@
    }

    /// Number of live elements: the distance from the read cursor to the
    /// write cursor, modulo twice the capacity.
    spec fn spec_len(&self) -> nat {
        if self.write_ptr >= self.read_ptr {
            (self.write_ptr - self.read_ptr) as nat
        } else {
            (self.write_ptr + 2 * self.buffer@.len() - self.read_ptr) as nat
        }
    }

    /// Storage index of the `k`-th live element, counting from the oldest.
    spec fn slot(&self, k: int) -> int {
        (self.read_ptr + k) % (self.buffer.len() as int)
    }

    spec fn occupant(&self, k: int) -> Option<T> {
        self.buffer@[self.slot(k)]
    }

    /// The buffer's invariant: the cursors stay below twice the capacity,
    /// at most `capacity` elements are live, and a slot is occupied exactly
    /// when it lies within the live range. What has left, followed by what
    /// is held, is what has entered.
    pub closed spec fn wf(&self) -> bool {
        let c = self.buffer@.len();
        &&& 2 * c <= usize::MAX
        &&& c == 0 ==> self.write_ptr == 0 && self.read_ptr == 0
        &&& c > 0 ==> self.write_ptr < 2 * c && self.read_ptr < 2 * c
        &&& self.spec_len() <= c
        &&& forall|k: int|
            0 <= k < c ==> (#[trigger] self.occupant(k) is Some <==> k < self.spec_len())
        &&& self.departed@ + self@ == self.entered@
    }

    /// A well-formed buffer never holds more elements than it has slots.
    pub proof fn lemma_len_at_most_capacity(&self)
        requires
            self.wf(),
        ensures
            self@.len() <= self.spec_capacity(),
    {
    }

    /// No element is lost or handed out twice: over any sequence of
    /// operations since the buffer was created, the elements that left it
    /// (read, evicted or cleared), followed by those it holds, are exactly the
    /// elements that entered it, in order.
    pub proof fn lemma_nothing_lost(&self)
        requires
            self.wf(),
        ensures
            self.departed() + self@ == self.entered(),
    {
    }

    /// Creates an empty buffer with `capacity` slots, none of them occupied.
    pub fn new(capacity: usize) -> (r: Self)
        requires
            capacity <= usize::MAX / 2,
        ensures
            r.wf(),
            r.spec_capacity() == capacity,
            r@ == Seq::<T>::empty(),
            r.entered() == Seq::<T>::empty(),
            r.departed() == Seq::<T>::empty(),
    {
        let mut data: Vec<Option<T>> = Vec::with_capacity(capacity);
        let mut i: usize = 0;
        while i < capacity
            invariant
                i <= capacity,
                data.len() == i,
                forall|j: int| 0 <= j < i ==> data@[j] is None,
            decreases capacity - i,
        {
            data.push(None);
            i = i + 1;
        }
        let r = CircularBuffer {
            write_ptr: 0,
            read_ptr: 0,
            buffer: data,
            entered: Ghost(Seq::empty()),
            departed: Ghost(Seq::empty()),
        };
        assert(r@ =~= Seq::<T>::empty());
        assert forall|k: int| 0 <= k < capacity implies !(#[trigger] r.occupant(k) is Some) by {
            lemma_slot(0, k, capacity as int);
        }
        r
    }

    /// The fixed number of slots.
    pub fn capacity(&self) -> (r: usize)
        ensures
            r == self.spec_capacity(),
    {
        self.buffer.len()
    }

    fn ptr_max(&self) -> (r: usize)
        requires
            2 * self.spec_capacity() <= usize::MAX,
        ensures
            r == 2 * self.spec_capacity(),
    {
        2 * self.capacity()
    }

    /// Number of live elements.
    pub fn len(&self) -> (r: usize)
        requires
            self.wf(),
        ensures
            r == self@.len(),
    {
        if self.write_ptr >= self.read_ptr {
            self.write_ptr - self.read_ptr
        } else {
            self.ptr_max() - self.read_ptr + self.write_ptr
        }
    }

    /// Whether every slot is live. A buffer of capacity zero is always full.
    pub fn full(&self) -> (r: bool)
        requires
            self.wf(),
        ensures
            r == (self@.len() == self.spec_capacity()),
    {
        self.len() == self.capacity()
    }

    /// Whether no element is live, told by the two cursors being equal.
    pub fn is_empty(&self) -> (r: bool)
        requires
            self.wf(),
        ensures
            r == (self@.len() == 0),
    {
        self.write_ptr == self.read_ptr
    }

    /// Appends `element` as the newest element. If no slot is free, fails
    /// with `FullBuffer`, hands `element` back with the error and leaves the
    /// buffer untouched.
    pub fn write(&mut self, element: T) -> (r: Result<(), (Error, T)>)
        requires
            old(self).wf(),
        ensures
            final(self).wf(),
            final(self).spec_capacity() == old(self).spec_capacity(),
            (final(self)@, r) == write_outcome(old(self).spec_capacity(), old(self)@, element),
            r is Err ==> *final(self) == *old(self),
            final(self).entered() == old(self).entered() + step(
                old(self).spec_capacity(),
                old(self)@,
                Op::Write(element),
            ).2,
            final(self).departed() == old(self).departed(),
    {
        if self.full() {
            return Err((Error::FullBuffer, element));
        }
        let ghost e = element;
        let ghost n = self.spec_len() as int;
        let ghost c = self.spec_capacity() as int;
        let slot = self.write_ptr % self.capacity();
        proof {
            lemma_slot(self.write_ptr as int, 0, c);
            lemma_slot(self.read_ptr as int, n, c);
            assert(slot == self.slot(n));
        }
        self.buffer.set(slot, Some(element));
        self.write_ptr = (self.write_ptr + 1) % self.ptr_max();
        self.entered = Ghost(self.entered@.push(e));
        proof {
            lemma_slot(old(self).write_ptr as int, 1, 2 * c);
            assert(self.spec_len() == n + 1);
            assert forall|k: int| 0 <= k < c implies (#[trigger] self.occupant(k) is Some <==> k
                < self.spec_len()) by {
                lemma_slot(self.read_ptr as int, k, c);
                assert(old(self).occupant(k) == old(self).buffer@[self.slot(k)]);
                if k != n {
                    assert(self.occupant(k) == old(self).occupant(k));
                }
            }
            assert(self@ =~= old(self)@.push(element)) by {
                assert forall|k: int| 0 <= k < n implies self@[k] == old(self)@[k] by {
                    lemma_slot(self.read_ptr as int, k, c);
                    assert(self.occupant(k) == old(self).occupant(k));
                }
            }
            assert(self.departed@ + self@ =~= (old(self).departed@ + old(self)@).push(e));
            assert(self.entered() =~= old(self).entered() + seq![e]);
        }
        Ok(())
    }

    /// Moves the value out of the slot that `read_ptr` addresses and marks
    /// the slot unoccupied; the cursors are left to the caller.
    fn read_at(&mut self, read_ptr: usize) -> (r: T)
        requires
            old(self).spec_capacity() > 0,
            old(self).buffer@[read_ptr as int % old(self).spec_capacity() as int] is Some,
        ensures
            Some(r) == old(self).buffer@[read_ptr as int % old(self).spec_capacity() as int],
            final(self).buffer@ == old(self).buffer@.update(
                read_ptr as int % old(self).spec_capacity() as int,
                None,
            ),
            final(self).write_ptr == old(self).write_ptr,
            final(self).read_ptr == old(self).read_ptr,
            final(self).entered == old(self).entered,
            final(self).departed == old(self).departed,
    {
        let mut data: Option<T> = None;
        self.buffer.set_and_swap(read_ptr % self.capacity(), &mut data);
        data.unwrap()
    }

    /// Removes and returns the oldest element, or fails with `EmptyBuffer`
    /// and leaves the buffer untouched if there is none.
    pub fn read(&mut self) -> (r: Result<T, Error>)
        requires
            old(self).wf(),
        ensures
            final(self).wf(),
            final(self).spec_capacity() == old(self).spec_capacity(),
            (final(self)@, r) == read_outcome(old(self)@),
            r is Err ==> *final(self) == *old(self),
            final(self).entered() == old(self).entered(),
            final(self).departed() == old(self).departed() + step(
                old(self).spec_capacity(),
                old(self)@,
                Op::Read,
            ).1,
    {
        if self.write_ptr == self.read_ptr {
            return Err(Error::EmptyBuffer);
        }
        let ghost n = self.spec_len() as int;
        let ghost c = self.spec_capacity() as int;
        proof {
            lemma_slot(self.read_ptr as int, 0, c);
            assert(self.occupant(0) is Some);
        }
        let data = self.read_at(self.read_ptr);
        self.read_ptr = (self.read_ptr + 1) % self.ptr_max();
        self.departed = Ghost(self.departed@.push(data));
        proof {
            lemma_slot(old(self).read_ptr as int, 1, 2 * c);
            assert(self.spec_len() == n - 1);
            assert forall|k: int| 0 <= k < c implies self.occupant(k) == if k + 1 < c {
                old(self).occupant(k + 1)
            } else {
                None
            } by {
                lemma_slot(self.read_ptr as int, k, c);
                lemma_slot(old(self).read_ptr as int, k + 1, c);
            }
            assert forall|k: int| 0 <= k < c implies (#[trigger] self.occupant(k) is Some <==> k
                < self.spec_len()) by {
                if k + 1 < c {
                    assert(old(self).occupant(k + 1) is Some <==> k + 1 < n);
                }
            }
            assert(self@ =~= old(self)@.drop_first()) by {
                assert forall|k: int| 0 <= k < n - 1 implies self@[k] == old(self)@[k + 1] by {
                    assert(self.occupant(k) == old(self).occupant(k + 1));
                }
            }
            assert(data == old(self)@[0]);
            assert(self.departed@ + self@ =~= old(self).departed@ + old(self)@);
            assert(self.departed() =~= old(self).departed() + seq![data]);
        }
        Ok(data)
    }

    /// Reads and drops elements until the buffer is empty.
    pub fn clear(&mut self)
        requires
            old(self).wf(),
        ensures
            final(self).wf(),
            final(self).spec_capacity() == old(self).spec_capacity(),
            final(self)@ == Seq::<T>::empty(),
            final(self).entered() == old(self).entered(),
            final(self).departed() == old(self).departed() + step(
                old(self).spec_capacity(),
                old(self)@,
                Op::Clear,
            ).1,
    {
        loop
            invariant
                self.wf(),
                self.spec_capacity() == old(self).spec_capacity(),
                self.entered() == old(self).entered(),
                self.departed() + self@ == old(self).departed() + old(self)@,
            ensures
                self.wf(),
                self.spec_capacity() == old(self).spec_capacity(),
                self@ == Seq::<T>::empty(),
                self.entered() == old(self).entered(),
                self.departed() == old(self).departed() + old(self)@,
            decreases self@.len(),
        {
            match self.read() {
                Ok(_data) => {},
                Err(_) => {
                    assert(self.departed() + self@ =~= self.departed());
                    break ;
                },
            }
        }
    }

    /// Writes `element` unconditionally: if the buffer is full, its oldest
    /// element is read and dropped first. A buffer of capacity zero has no
    /// slot, and drops `element` instead.
    pub fn overwrite(&mut self, element: T)
        requires
            old(self).wf(),
        ensures
            final(self).wf(),
            final(self).spec_capacity() == old(self).spec_capacity(),
            final(self)@ == overwrite_outcome(old(self).spec_capacity(), old(self)@, element),
            final(self).entered() == old(self).entered() + step(
                old(self).spec_capacity(),
                old(self)@,
                Op::Overwrite(element),
            ).2,
            final(self).departed() == old(self).departed() + step(
                old(self).spec_capacity(),
                old(self)@,
                Op::Overwrite(element),
            ).1,
    {
        if self.full() {
            let _data = self.read();
        }
        let _ = self.write(element);
        proof {
            let c = old(self).spec_capacity();
            if c == 0 {
                assert(self.entered() =~= old(self).entered() + Seq::<T>::empty());
                assert(self.departed() =~= old(self).departed() + Seq::<T>::empty());
            } else if old(self)@.len() < c {
                assert(self.departed() =~= old(self).departed() + Seq::<T>::empty());
            }
        }
    }
}

impl<T> View for CircularBuffer<T> {
    type V = Seq<T>;

    /// The live elements, oldest first.
    closed spec fn view(&self) -> Seq<T> {
        Seq::new(self.spec_len(), |k: int| self.occupant(k).unwrap())
    }
}

/// Reduces `(r + k) % c` for the cursor and offset ranges that occur here
/// to a choice among three subtractions.
proof fn lemma_slot(r: int, k: int, c: int)
    requires
        0 < c,
        0 <= r < 2 * c,
        0 <= k <= c,
    ensures
        (r + k) % c == (if r + k < c {
            r + k
        } else if r + k < 2 * c {
            r + k - c
        } else {
            r + k - 2 * c
        }),
{
    let x = r + k;
    if x < c {
        vstd::arithmetic::div_mod::lemma_small_mod(x as nat, c as nat);
    } else if x < 2 * c {
        vstd::arithmetic::div_mod::lemma_small_mod((x - c) as nat, c as nat);
        vstd::arithmetic::div_mod::lemma_mod_multiples_vanish(1, x - c, c);
    } else {
        vstd::arithmetic::div_mod::lemma_small_mod((x - 2 * c) as nat, c as nat);
        vstd::arithmetic::div_mod::lemma_mod_multiples_vanish(2, x - 2 * c, c);
    }
}

} // verus!
