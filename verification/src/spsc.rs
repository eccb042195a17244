//! A bounded ring queue of the kind that carries bytes and commands between
//! the threads of a pane: a power-of-two number of slots, two counters that
//! only grow and wrap at 64 bits, and a closed flag for each side.
//!
//! The queue is used here by one caller at a time; what is proved of it is
//! what one producer and one consumer see of each other's steps.

use vstd::prelude::*;
use vstd::arithmetic::div_mod::lemma_mod_mod;
use vstd::arithmetic::power2::{lemma2_to64, lemma2_to64_rest, lemma_pow2_adds, lemma_pow2_pos, lemma_pow2_unfold, pow2};
use vstd::bits::{lemma_u64_low_bits_mask_is_mod, low_bits_mask};

verus! {

pub struct Inner<T> {
    buf: Vec<Option<T>>,
    mask: u64,
    capacity: u64,
    head: u64,
    tail: u64,
    producer_closed: bool,
    consumer_closed: bool,
    log2: Ghost<nat>,
    pushed: Ghost<nat>,
    popped: Ghost<nat>,
}

/// What to do while a full queue is waited for.
#[derive(Debug, Clone, Copy, PartialEq, Eq, Structural)]
pub enum Backoff {
    /// Spin once more.
    Spin,
    /// Give the processor to another thread.
    Yield,
}

/// The number of failed attempts after which a waiting producer yields.
pub const SPIN_LIMIT: u32 = 64;

/// Spin for the first 64 attempts, then yield.
pub fn backoff(spins: u32) -> (b: Backoff)
    ensures
        b == if spins < SPIN_LIMIT {
            Backoff::Spin
        } else {
            Backoff::Yield
        },
{
    if spins < SPIN_LIMIT {
        Backoff::Spin
    } else {
        Backoff::Yield
    }
}

/// The first of `p`, `2p`, `4p`, ... that is at least `n`.
pub open spec fn doubled_up_to(n: nat, p: nat) -> nat
    decreases
            (if p < n {
                n - p
            } else {
                0
            }),
{
    if p >= n || p == 0 {
        p
    } else {
        doubled_up_to(n, p + p)
    }
}

/// The smallest power of two that is at least `n`, and at least one.
pub open spec fn next_power_of_two(n: nat) -> nat {
    doubled_up_to(n, 1)
}

/// The slot of the item with the given number in a ring of `cap` slots.
pub open spec fn slot_of(count: int, cap: int) -> int {
    count % cap
}

/// Two numbers less than `c` apart fall into different slots of `c`.
proof fn lemma_distinct_slots(a: nat, b: nat, c: nat)
    requires
        a < b < a + c,
    ensures
        a % c != b % c,
{
    let qa = a / c;
    let qb = b / c;
    assert(a == c * qa + a % c && b == c * qb + b % c) by (nonlinear_arith)
        requires
            c > 0,
            qa == a / c,
            qb == b / c,
    ;
    if a % c == b % c {
        assert(b - a == c * (qb - qa)) by (nonlinear_arith)
            requires
                a == c * qa + a % c,
                b == c * qb + b % c,
                a % c == b % c,
        ;
        assert(false) by (nonlinear_arith)
            requires
                b - a == c * (qb - qa),
                0 < b - a < c,
        ;
    }
}

/// The slot of a count: its low bits, under a mask of one less than a power
/// of two that divides `2^64`.
proof fn lemma_slot(count: nat, k: nat)
    requires
        k <= 63,
    ensures
        pow2(k) <= 0x8000_0000_0000_0000,
        low_bits_mask(k) == pow2(k) - 1,
        (((count % 0x1_0000_0000_0000_0000) as u64) & ((pow2(k) - 1) as u64)) as nat == count % pow2(
            k,
        ),
{
    lemma2_to64();
    lemma2_to64_rest();
    lemma_pow2_pos(k);
    lemma_pow2_pos((64 - k) as nat);
    lemma_pow2_adds(k, (64 - k) as nat);
    lemma_pow2_adds(k, (63 - k) as nat);
    lemma_pow2_pos((63 - k) as nat);
    let m: int = 0x1_0000_0000_0000_0000;
    let c = pow2(k) as int;
    assert(c * pow2((64 - k) as nat) == m);
    assert(c <= 0x8000_0000_0000_0000) by (nonlinear_arith)
        requires
            c * pow2((63 - k) as nat) == 0x8000_0000_0000_0000,
            pow2((63 - k) as nat) >= 1,
            c >= 1,
    ;
    let h = (count % (m as nat)) as u64;
    lemma_u64_low_bits_mask_is_mod(h, k);
    lemma_mod_mod(count as int, c, pow2((64 - k) as nat) as int);
}

impl<T> Inner<T> {
    /// The items in the queue, oldest first.
    pub closed spec fn queue(&self) -> Seq<T> {
        Seq::new(
            (self.pushed@ - self.popped@) as nat,
            |k: int| self.buf@[slot_of(self.popped@ + k, self.capacity as int)]->Some_0,
        )
    }

    /// The number of slots.
    pub closed spec fn slots(&self) -> nat {
        self.capacity as nat
    }

    pub closed spec fn producer_gone(&self) -> bool {
        self.producer_closed
    }

    pub closed spec fn consumer_gone(&self) -> bool {
        self.consumer_closed
    }

    /// How many items were ever pushed.
    pub closed spec fn total_pushed(&self) -> nat {
        self.pushed@
    }

    /// How many items were ever popped.
    pub closed spec fn total_popped(&self) -> nat {
        self.popped@
    }

    /// The counters agree with the slots: see the fields.
    pub closed spec fn wf(&self) -> bool {
        &&& self.log2@ <= 63
        &&& self.capacity == pow2(self.log2@)
        &&& self.mask == self.capacity - 1
        &&& self.buf@.len() == self.capacity
        &&& self.head == self.pushed@ % 0x1_0000_0000_0000_0000
        &&& self.tail == self.popped@ % 0x1_0000_0000_0000_0000
        &&& self.popped@ <= self.pushed@ <= self.popped@ + self.capacity
        &&& forall|k: int|
            0 <= k < self.pushed@ - self.popped@ ==> self.buf@[#[trigger] slot_of(
                self.popped@ + k,
                self.capacity as int,
            )] is Some
    }

    /// An empty queue with the smallest power-of-two number of slots that
    /// holds `capacity` items, at least one.
    pub fn new(capacity: usize) -> (q: Self)
        requires
            capacity as u64 <= 0x4000_0000_0000_0000,
        ensures
            q.wf(),
            q.queue().len() == 0,
            q.slots() == next_power_of_two(capacity as nat),
            q.slots() >= capacity,
            q.slots() >= 1,
            !q.producer_gone(),
            !q.consumer_gone(),
            q.total_pushed() == 0,
            q.total_popped() == 0,
    {
        let mut p: u64 = 1;
        let mut k: Ghost<nat> = Ghost(0);
        let want: u64 = capacity as u64;
        proof {
            lemma2_to64();
            lemma2_to64_rest();
        }
        while p < want
            invariant
                p == pow2(k@),
                p >= 1,
                k@ <= 62,
                want <= 0x4000_0000_0000_0000,
                p <= 0x4000_0000_0000_0000,
                doubled_up_to(want as nat, p as nat) == doubled_up_to(want as nat, 1),
            decreases
                    (if p < want {
                        want - p
                    } else {
                        0
                    }),
        {
            proof {
                lemma2_to64_rest();
                lemma_pow2_unfold(k@ + 1);
                if k@ >= 62 {
                    lemma_pow2_adds(62, (k@ - 62) as nat);
                    lemma_pow2_pos((k@ - 62) as nat);
                    assert(pow2(k@) >= pow2(62)) by (nonlinear_arith)
                        requires
                            pow2(k@) == pow2(62) * pow2((k@ - 62) as nat),
                            pow2((k@ - 62) as nat) >= 1,
                    ;
                }
                lemma_pow2_adds(k@ + 1, (61 - k@) as nat);
                lemma_pow2_pos((61 - k@) as nat);
                assert(pow2(k@ + 1) <= pow2(62)) by (nonlinear_arith)
                    requires
                        pow2(62) == pow2(k@ + 1) * pow2((61 - k@) as nat),
                        pow2((61 - k@) as nat) >= 1,
                        pow2(k@ + 1) >= 0,
                ;
            }
            p = p * 2;
            k = Ghost((k@ + 1) as nat);
        }
        let cap = p;
        let mut buf: Vec<Option<T>> = Vec::new();
        let mut i: u64 = 0;
        while i < cap
            invariant
                i <= cap,
                buf@.len() == i,
            decreases cap - i,
        {
            buf.push(None);
            i += 1;
        }
        Inner {
            buf,
            mask: cap - 1,
            capacity: cap,
            head: 0,
            tail: 0,
            producer_closed: false,
            consumer_closed: false,
            log2: k,
            pushed: Ghost(0),
            popped: Ghost(0),
        }
    }
}


/// An empty queue for at least `capacity` items.
pub fn channel<T>(capacity: usize) -> (q: Inner<T>)
    requires
        capacity as u64 <= 0x4000_0000_0000_0000,
    ensures
        q.wf(),
        q.queue().len() == 0,
        q.slots() == next_power_of_two(capacity as nat),
        q.slots() >= capacity,
        !q.producer_gone(),
        !q.consumer_gone(),
        q.total_pushed() == 0,
        q.total_popped() == 0,
{
    Inner::new(capacity)
}

impl<T> Inner<T> {
    /// The queue never holds more items than it has slots, and what it holds
    /// is what was pushed and not yet popped.
    pub proof fn lemma_bounds(&self)
        requires
            self.wf(),
        ensures
            self.queue().len() <= self.slots(),
            self.slots() >= 1,
            self.queue().len() == self.total_pushed() - self.total_popped(),
    {
        lemma_pow2_pos(self.log2@);
    }

    /// Puts an item at the back, unless the queue is full or the consumer is
    /// gone: then the item comes back and nothing changes.
    pub fn try_push(&mut self, value: T) -> (r: Result<(), T>)
        requires
            old(self).wf(),
        ensures
            final(self).wf(),
            final(self).slots() == old(self).slots(),
            final(self).producer_gone() == old(self).producer_gone(),
            final(self).consumer_gone() == old(self).consumer_gone(),
            final(self).total_popped() == old(self).total_popped(),
            old(self).consumer_gone() || old(self).queue().len() >= old(self).slots() ==> r == Err::<
                (),
                T,
            >(value) && final(self).queue() == old(self).queue() && final(self).total_pushed()
                == old(self).total_pushed(),
            !old(self).consumer_gone() && old(self).queue().len() < old(self).slots() ==> r is Ok
                && final(self).queue() == old(self).queue().push(value) && final(self).total_pushed() == old(self).total_pushed() + 1,
    {
        if self.consumer_closed {
            return Err(value);
        }
        let head = self.head;
        let tail = self.tail;
        let occupancy: u64 = if head >= tail {
            head - tail
        } else {
            (u64::MAX - tail) + head + 1
        };
        proof {
            lemma_slot(self.pushed@, self.log2@);
            assert(occupancy == self.pushed@ - self.popped@);
        }
        if occupancy >= self.capacity {
            return Err(value);
        }
        let raw: u64 = head & self.mask;
        let len = self.buf.len();
        let ghost before = self.queue();
        let ghost cap = self.capacity as int;
        let ghost pushed = self.pushed@;
        let ghost popped = self.popped@;
        proof {
            lemma_slot(pushed, self.log2@);
            assert(head == (pushed % 0x1_0000_0000_0000_0000) as u64);
            assert(self.mask == (pow2(self.log2@) - 1) as u64);
            assert(raw as nat == pushed % pow2(self.log2@));
            assert(raw < len);
        }
        let idx = raw as usize;
        proof {
            assert(idx == pushed % (cap as nat));
            assert forall|k: int| 0 <= k < pushed - popped implies #[trigger] slot_of(popped + k, cap)
                != idx by {
                lemma_distinct_slots((popped + k) as nat, pushed, cap as nat);
            }
        }
        self.buf.set(idx, Some(value));
        self.head = if head == u64::MAX {
            0
        } else {
            head + 1
        };
        self.pushed = Ghost(pushed + 1);
        proof {
            assert(self.queue() =~= before.push(value));
        }
        Ok(())
    }

    /// Takes the oldest item, if there is one.
    pub fn try_pop(&mut self) -> (r: Option<T>)
        requires
            old(self).wf(),
        ensures
            final(self).wf(),
            final(self).slots() == old(self).slots(),
            final(self).producer_gone() == old(self).producer_gone(),
            final(self).consumer_gone() == old(self).consumer_gone(),
            final(self).total_pushed() == old(self).total_pushed(),
            old(self).queue().len() == 0 ==> r is None && final(self).queue() == old(self).queue()
                && final(self).total_popped() == old(self).total_popped(),
            old(self).queue().len() > 0 ==> r == Some(old(self).queue()[0]) && final(self).queue()
                == old(self).queue().drop_first() && final(self).total_popped() == old(self).total_popped() + 1,
    {
        let tail = self.tail;
        let head = self.head;
        proof {
            lemma_slot(self.popped@, self.log2@);
            lemma_slot(self.pushed@, self.log2@);
        }
        if tail == head {
            proof {
                if self.pushed@ > self.popped@ {
                    lemma_distinct_slots(self.popped@, self.pushed@, 0x1_0000_0000_0000_0000);
                }
            }
            return None;
        }
        proof {
            if self.pushed@ == self.popped@ {
                assert(head == tail);
            }
        }
        let raw: u64 = tail & self.mask;
        let len = self.buf.len();
        let ghost before = self.queue();
        let ghost cap = self.capacity as int;
        let ghost pushed = self.pushed@;
        let ghost popped = self.popped@;
        let ghost slots = self.buf@;
        proof {
            lemma_slot(popped, self.log2@);
            assert(tail == (popped % 0x1_0000_0000_0000_0000) as u64);
            assert(self.mask == (pow2(self.log2@) - 1) as u64);
            assert(raw as nat == popped % pow2(self.log2@));
            assert(raw < len);
        }
        let idx = raw as usize;
        proof {
            assert(idx == popped % (cap as nat));
            assert(slots[slot_of(popped + 0int, cap)] is Some);
            assert forall|k: int| 1 <= k < pushed - popped implies #[trigger] slot_of(popped + k, cap)
                != idx by {
                lemma_distinct_slots(popped, (popped + k) as nat, cap as nat);
            }
        }
        self.buf.push(None);
        let value = self.buf.swap_remove(idx);
        self.tail = if tail == u64::MAX {
            0
        } else {
            tail + 1
        };
        self.popped = Ghost(popped + 1);
        proof {
            assert(self.buf@ =~= slots.update(idx as int, None));
            assert forall|k: int| 0 <= k < pushed - (popped + 1) implies self.buf@[#[trigger] slot_of(
                popped + 1 + k,
                cap,
            )] is Some by {
                assert(slot_of(popped + (k + 1), cap) != idx);
                assert(slots[slot_of(popped + (k + 1), cap)] is Some);
            }
            assert(self.queue() =~= before.drop_first()) by {
                assert forall|k: int| 0 <= k < pushed - popped - 1 implies self.queue()[k]
                    == before[k + 1] by {
                    assert(slot_of(popped + (k + 1), cap) != idx);
                }
            }
        }
        value
    }

    /// The producer leaves: what is in the queue can still be popped.
    pub fn close_producer(&mut self)
        requires
            old(self).wf(),
        ensures
            final(self).wf(),
            final(self).producer_gone(),
            final(self).consumer_gone() == old(self).consumer_gone(),
            final(self).queue() == old(self).queue(),
            final(self).slots() == old(self).slots(),
            final(self).total_pushed() == old(self).total_pushed(),
            final(self).total_popped() == old(self).total_popped(),
    {
        self.producer_closed = true;
    }

    /// The consumer leaves: every later push fails.
    pub fn close_consumer(&mut self)
        requires
            old(self).wf(),
        ensures
            final(self).wf(),
            final(self).consumer_gone(),
            final(self).producer_gone() == old(self).producer_gone(),
            final(self).queue() == old(self).queue(),
            final(self).slots() == old(self).slots(),
            final(self).total_pushed() == old(self).total_pushed(),
            final(self).total_popped() == old(self).total_popped(),
    {
        self.consumer_closed = true;
    }

    pub fn is_producer_closed(&self) -> (b: bool)
        ensures
            b == self.producer_gone(),
    {
        self.producer_closed
    }

    pub fn is_consumer_closed(&self) -> (b: bool)
        ensures
            b == self.consumer_gone(),
    {
        self.consumer_closed
    }

    /// The consumer has seen everything: the producer is gone and the queue
    /// is empty.
    pub fn is_drained(&self) -> (b: bool)
        requires
            self.wf(),
        ensures
            b == (self.producer_gone() && self.queue().len() == 0),
    {
        proof {
            if self.pushed@ > self.popped@ {
                lemma_pow2_pos(self.log2@);
                lemma_slot(self.pushed@, self.log2@);
                lemma_distinct_slots(self.popped@, self.pushed@, 0x1_0000_0000_0000_0000);
            }
        }
        self.producer_closed && self.head == self.tail
    }
}

/// One step of either side of a queue.
pub enum QueueStep<T> {
    /// The producer offers an item.
    Push(T),
    /// The consumer asks for an item.
    Pop,
}

/// What a run of steps has done: the items now in the queue, the items that
/// the queue took, and the items that it gave, each in order.
pub struct QueueTrace<T> {
    pub queue: Seq<T>,
    pub accepted: Seq<T>,
    pub popped: Seq<T>,
}

/// The trace of a run of steps on a queue of `slots` slots that holds
/// `start`: a push is taken while there is room, as [`Inner::try_push`] does
/// it, and a pop gives the oldest item, as [`Inner::try_pop`] does it.
pub open spec fn after_steps<T>(start: Seq<T>, slots: nat, steps: Seq<QueueStep<T>>) -> QueueTrace<T>
    decreases steps.len(),
{
    if steps.len() == 0 {
        QueueTrace { queue: start, accepted: Seq::empty(), popped: Seq::empty() }
    } else {
        let t = after_steps(start, slots, steps.drop_last());
        match steps.last() {
            QueueStep::Push(v) => if t.queue.len() < slots {
                QueueTrace { queue: t.queue.push(v), accepted: t.accepted.push(v), popped: t.popped }
            } else {
                t
            },
            QueueStep::Pop => if t.queue.len() > 0 {
                QueueTrace {
                    queue: t.queue.drop_first(),
                    accepted: t.accepted,
                    popped: t.popped.push(t.queue[0]),
                }
            } else {
                t
            },
        }
    }
}

/// First in, first out: however the steps of producer and consumer follow
/// each other, the items that the queue gave, followed by those still in
/// it, are the items that it held and took, in the order in which it took
/// them. So each item comes out once, none is lost and none overtakes
/// another.
pub proof fn lemma_fifo<T>(start: Seq<T>, slots: nat, steps: Seq<QueueStep<T>>)
    ensures
        ({
            let t = after_steps(start, slots, steps);
            t.popped + t.queue == start + t.accepted && t.queue.len() <= if start.len() > slots {
                start.len()
            } else {
                slots
            }
        }),
    decreases steps.len(),
{
    if steps.len() == 0 {
        assert(Seq::<T>::empty() + start =~= start + Seq::<T>::empty());
    } else {
        lemma_fifo(start, slots, steps.drop_last());
        let p = after_steps(start, slots, steps.drop_last());
        let t = after_steps(start, slots, steps);
        match steps.last() {
            QueueStep::Push(v) => {
                if p.queue.len() < slots {
                    assert(t.popped + t.queue =~= (p.popped + p.queue).push(v));
                    assert(start + t.accepted =~= (start + p.accepted).push(v));
                }
            },
            QueueStep::Pop => {
                if p.queue.len() > 0 {
                    assert(t.popped + t.queue =~= p.popped + p.queue);
                }
            },
        }
    }
}

} // verus!
