use vstd::prelude::*;

verus! {

/// Bounded queue of 16-bit PCM samples between one producer and one consumer.
///
/// The storage is allocated once, by `new`; `push` and `pop` never allocate.
pub struct RingBuffer {
    slots: Vec<i16>,
    head: usize,
    count: usize,
}

/// The slot that holds the queued sample number `i` when the oldest one stands at `head`.
spec fn slot_of(head: int, i: int, size: int) -> int {
    if head + i < size {
        head + i
    } else {
        head + i - size
    }
}

/// The smaller of two naturals.
pub open spec fn min_nat(a: nat, b: nat) -> nat {
    if a <= b {
        a
    } else {
        b
    }
}

/// The queue `queued` after a write of `samples` into a buffer that holds `capacity` of them:
/// what fits is appended in order, what does not fit is dropped.
pub open spec fn pushed(queued: Seq<i16>, capacity: nat, samples: Seq<i16>) -> Seq<i16>
    recommends
        queued.len() <= capacity,
{
    queued + samples.take(min_nat(samples.len(), (capacity - queued.len()) as nat) as int)
}

impl View for RingBuffer {
    type V = Seq<i16>;

    /// The queued samples, oldest first.
    closed spec fn view(&self) -> Seq<i16> {
        Seq::new(
            self.count as nat,
            |i: int| self.slots@[slot_of(self.head as int, i, self.slots@.len() as int)],
        )
    }
}

impl RingBuffer {
    /// How many samples the buffer can hold.
    pub closed spec fn capacity(&self) -> nat {
        self.slots@.len()
    }

    /// What every operation keeps: the queue lies inside the storage.
    pub closed spec fn wf(&self) -> bool {
        &&& self.count <= self.slots@.len()
        &&& self.head <= self.slots@.len()
        &&& self.slots@.len() > 0 ==> self.head < self.slots@.len()
    }

    /// An empty buffer for `capacity` samples.
    pub fn new(capacity: usize) -> (ring: RingBuffer)
        ensures
            ring.wf(),
            ring.capacity() == capacity,
            ring@ == Seq::<i16>::empty(),
    {
        let mut slots: Vec<i16> = Vec::with_capacity(capacity);
        let mut i: usize = 0;
        while i < capacity
            invariant
                i <= capacity,
                slots@.len() == i,
            decreases capacity - i,
        {
            slots.push(0);
            i = i + 1;
        }
        let ring = RingBuffer { slots, head: 0, count: 0 };
        assert(ring@ =~= Seq::<i16>::empty());
        ring
    }

    /// How many samples are queued.
    pub fn len(&self) -> (n: usize)
        ensures
            n == self@.len(),
    {
        self.count
    }

    /// Queues `samples` in order, as many of them as there is room for.
    pub fn push(&mut self, samples: &[i16])
        requires
            old(self).wf(),
        ensures
            final(self).wf(),
            final(self).capacity() == old(self).capacity(),
            final(self)@ == pushed(old(self)@, old(self).capacity(), samples@),
            final(self)@.len() <= old(self).capacity(),
            final(self)@.len() <= old(self)@.len() + samples@.len(),
            final(self)@.len() == old(self).capacity() || final(self)@.len() == old(self)@.len()
                + samples@.len(),
            forall|i: int| 0 <= i < old(self)@.len() ==> final(self)@[i] == old(self)@[i],
            forall|i: int|
                old(self)@.len() <= i < final(self)@.len() ==> final(self)@[i] == samples@[i
                    - old(self)@.len()],
    {
        let size: usize = self.slots.len();
        let room: usize = size - self.count;
        let n: usize = if samples.len() <= room {
            samples.len()
        } else {
            room
        };
        let ghost before = self@;
        let mut i: usize = 0;
        while i < n
            invariant
                i <= n <= samples@.len(),
                n <= size - before.len(),
                size == self.slots@.len(),
                self.wf(),
                self.count == before.len() + i,
                self@ =~= before + samples@.take(i as int),
            decreases n - i,
        {
            let to_end: usize = size - self.head;
            let at: usize = if self.count < to_end {
                self.head + self.count
            } else {
                self.count - to_end
            };
            let ghost queue = self@;
            self.slots[at] = samples[i];
            self.count = self.count + 1;
            i = i + 1;
            assert(self@ =~= queue.push(samples@[i - 1]));
            assert(samples@.take(i as int) =~= samples@.take(i - 1).push(samples@[i - 1]));
        }
    }

    /// Moves the oldest samples into `out`, as many as are queued and fit, and returns how many
    /// they were; the rest of `out` stays as it was.
    pub fn pop(&mut self, out: &mut [i16]) -> (n: usize)
        requires
            old(self).wf(),
        ensures
            final(self).wf(),
            final(self).capacity() == old(self).capacity(),
            n == min_nat(old(self)@.len(), old(out)@.len()),
            n <= old(self)@.len(),
            n <= old(out)@.len(),
            n == old(self)@.len() || n == old(out)@.len(),
            final(self)@ == old(self)@.skip(n as int),
            final(out)@ == old(self)@.take(n as int) + old(out)@.skip(n as int),
    {
        let size: usize = self.slots.len();
        let wanted: usize = out.len();
        let n: usize = if self.count <= wanted {
            self.count
        } else {
            wanted
        };
        let ghost before = self@;
        let ghost out_before = out@;
        let mut i: usize = 0;
        while i < n
            invariant
                i <= n <= before.len(),
                n <= out_before.len(),
                size == self.slots@.len(),
                self.wf(),
                self.count == before.len() - i,
                self@ =~= before.skip(i as int),
                out@ =~= before.take(i as int) + out_before.skip(i as int),
            decreases n - i,
        {
            let ghost queue = self@;
            assert(queue[0] == before[i as int]);
            out[i] = self.slots[self.head];
            let next: usize = self.head + 1;
            self.head = if next < size {
                next
            } else {
                0
            };
            self.count = self.count - 1;
            i = i + 1;
            assert(self@ =~= queue.skip(1));
        }
        n
    }
}

/// A buffer never holds more than its capacity.
pub proof fn a_queue_fits_its_buffer(ring: RingBuffer)
    requires
        ring.wf(),
    ensures
        ring@.len() <= ring.capacity(),
{
}

/// Samples come out in the order in which they went in: where there is room, a reader that takes
/// what was queued before finds next exactly what was pushed.
pub proof fn a_read_gives_back_what_was_pushed(
    queued: Seq<i16>,
    capacity: nat,
    samples: Seq<i16>,
)
    requires
        queued.len() + samples.len() <= capacity,
    ensures
        pushed(queued, capacity, samples).take(queued.len() as int) == queued,
        pushed(queued, capacity, samples).skip(queued.len() as int) == samples,
{
    assert(samples.take(samples.len() as int) =~= samples);
}

/// A push never disturbs what is queued, whether or not all of it fits, and never fills the
/// buffer beyond its capacity.
pub proof fn a_push_keeps_the_queue(queued: Seq<i16>, capacity: nat, samples: Seq<i16>)
    requires
        queued.len() <= capacity,
    ensures
        pushed(queued, capacity, samples).take(queued.len() as int) == queued,
        pushed(queued, capacity, samples).len() == min_nat(
            capacity,
            (queued.len() + samples.len()) as nat,
        ),
{
}

/// Whatever the room, a push appends the beginning of what it is given, sample by sample, and
/// nothing else. It stops short only at a full buffer.
pub proof fn a_push_appends_a_prefix(queued: Seq<i16>, capacity: nat, samples: Seq<i16>)
    requires
        queued.len() <= capacity,
    ensures
        ({
            let after = pushed(queued, capacity, samples);
            &&& queued.is_prefix_of(after)
            &&& after.skip(queued.len() as int).is_prefix_of(samples)
            &&& forall|i: int|
                queued.len() <= i < after.len() ==> #[trigger] after[i] == samples[i
                    - queued.len()]
            &&& queued.len() <= after.len() <= capacity
            &&& after.len() < queued.len() + samples.len() ==> after.len() == capacity
        }),
{
}

/// One push of two stretches of samples leaves what pushing one and then the other leaves, also
/// where the buffer fills up on the way.
pub proof fn pushes_compose(
    queued: Seq<i16>,
    capacity: nat,
    first: Seq<i16>,
    second: Seq<i16>,
)
    requires
        queued.len() <= capacity,
    ensures
        pushed(pushed(queued, capacity, first), capacity, second) == pushed(
            queued,
            capacity,
            first + second,
        ),
{
    assert(pushed(pushed(queued, capacity, first), capacity, second) =~= pushed(
        queued,
        capacity,
        first + second,
    ));
}

} // verus!
