//! A fixed-capacity first-in first-out queue.
use vstd::prelude::*;

verus! {

/// The number of items a ring buffer holds.
pub const RING_BUFFER_SIZE: u32 = 240;

/// A queue of at most `RING_BUFFER_SIZE` items: `count` items from slot
/// `tail` on, wrapping around; `head` is the next free slot.
pub struct RingBuffer<T: Copy> {
    pub count: u32,
    pub head: u32,
    pub tail: u32,
    pub buffer: [T; 240],
}

impl<T: Copy> RingBuffer<T> {
    /// The counters agree.
    pub open spec fn wf(&self) -> bool {
        &&& self.count <= RING_BUFFER_SIZE
        &&& self.head < RING_BUFFER_SIZE
        &&& self.tail < RING_BUFFER_SIZE
        &&& self.head == (self.tail + self.count) % (RING_BUFFER_SIZE as int)
    }

    /// The items, oldest first.
    pub open spec fn view(&self) -> Seq<T> {
        Seq::new(self.count as nat, |i: int| self.buffer@[(self.tail + i) % (RING_BUFFER_SIZE as int)])
    }

    /// An empty buffer whose slots hold `fill`.
    pub fn new(fill: T) -> (r: RingBuffer<T>)
        ensures
            r.wf(),
            r.view() == Seq::<T>::empty(),
    {
        let r = RingBuffer { count: 0, head: 0, tail: 0, buffer: [fill; 240] };
        assert(r.view() =~= Seq::<T>::empty());
        r
    }

    pub fn is_empty(&self) -> (r: bool)
        ensures
            r == (self.count == 0),
    {
        self.count == 0
    }

    /// Appends `item` unless the buffer is full; tells whether it did.
    pub fn push(&mut self, item: T) -> (r: bool)
        requires
            old(self).wf(),
        ensures
            final(self).wf(),
            r == (old(self).count < RING_BUFFER_SIZE),
            r ==> final(self).view() == old(self).view().push(item),
            r ==> final(self).count == old(self).count + 1 && final(self).tail == old(self).tail && final(self).head
                == (old(self).head + 1) % (RING_BUFFER_SIZE as int) && final(self).buffer@ == old(self).buffer@.update(
                old(self).head as int,
                item,
            ),
            !r ==> *final(self) == *old(self),
    {
        if self.count < RING_BUFFER_SIZE {
            let ghost before = self.view();
            self.buffer[self.head as usize] = item;
            self.head = (self.head + 1) % RING_BUFFER_SIZE;
            self.count = self.count + 1;
            assert(self.view() =~= before.push(item));
            true
        } else {
            false
        }
    }

    /// Removes and returns the oldest item, if any.
    pub fn pop(&mut self) -> (r: Option<T>)
        requires
            old(self).wf(),
        ensures
            final(self).wf(),
            old(self).count == 0 ==> r is None && final(self).view() == old(self).view(),
            old(self).count > 0 ==> r == Some(old(self).view()[0]) && final(self).view() == old(
                self,
            ).view().drop_first(),
            old(self).count > 0 ==> final(self).count == old(self).count - 1 && final(self).head == old(self).head
                && final(self).tail == (old(self).tail + 1) % (RING_BUFFER_SIZE as int) && final(self).buffer
                == old(self).buffer,
            old(self).count == 0 ==> *final(self) == *old(self),
    {
        if self.count == 0 {
            None
        } else {
            let ghost before = self.view();
            let item: T = self.buffer[self.tail as usize];
            self.tail = (self.tail + 1) % RING_BUFFER_SIZE;
            self.count = self.count - 1;
            assert(self.view() =~= before.drop_first());
            Some(item)
        }
    }
}

} // verus!
