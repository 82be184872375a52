//! A circular buffer of input bytes from the PS/2 controller.
use vstd::prelude::*;

verus! {

/// Size of the buffer's storage; it holds one byte less.
pub const BUFFER_SIZE: usize = 256;

/// A circular buffer for storing input from the PS/2 controller.
pub struct InputBuffer {
    /// The storage
    pub buf: [u8; 256],
    /// Where the next byte goes
    pub head: usize,
    /// Where the next byte comes from
    pub tail: usize,
}

impl InputBuffer {
    /// Both indices lie within the storage.
    pub open spec fn wf(&self) -> bool {
        self.head < BUFFER_SIZE && self.tail < BUFFER_SIZE
    }

    /// The bytes in the buffer, oldest first.
    pub open spec fn contents(&self) -> Seq<u8> {
        let n = (self.head - self.tail + BUFFER_SIZE) % (BUFFER_SIZE as int);
        Seq::new(n as nat, |i: int| self.buf@[(self.tail + i) % (BUFFER_SIZE as int)])
    }

    /// A new, empty input buffer.
    pub fn new() -> (r: InputBuffer)
        ensures
            r.wf(),
            r.contents() == Seq::<u8>::empty(),
    {
        let r = InputBuffer { buf: [0u8; 256], head: 0, tail: 0 };
        assert(r.contents() =~= Seq::<u8>::empty());
        r
    }

    /// Whether the buffer is empty.
    pub fn is_empty(&self) -> (r: bool)
        requires
            self.wf(),
        ensures
            r == (self.contents().len() == 0),
    {
        self.head == self.tail
    }

    /// Add byte `c` at the end. The buffer holds at most 255 bytes: adding to
    /// a full buffer wraps around and leaves it empty.
    pub fn putc(&mut self, c: u8)
        requires
            old(self).wf(),
        ensures
            final(self).wf(),
            final(self).contents() == if old(self).contents().len() == BUFFER_SIZE - 1 {
                Seq::<u8>::empty()
            } else {
                old(self).contents().push(c)
            },
    {
        let ghost before = self.contents();
        self.buf[self.head] = c;
        self.head = (self.head + 1) % BUFFER_SIZE;
        proof {
            if before.len() == BUFFER_SIZE - 1 {
                assert(self.contents() =~= Seq::<u8>::empty());
            } else {
                assert(self.contents() =~= before.push(c)) by {
                    let n = before.len();
                    assert forall|i: int| 0 <= i < n implies self.contents()[i] == before[i] by {
                        assert((old(self).tail + i) % 256 != old(self).head as int);
                    }
                }
            }
        }
    }

    /// Take the oldest byte, if any.
    pub fn getc(&mut self) -> (r: Option<u8>)
        requires
            old(self).wf(),
        ensures
            final(self).wf(),
            old(self).contents().len() == 0 ==> r is None && final(self).contents() == old(self).contents(),
            old(self).contents().len() > 0 ==> r == Some(old(self).contents()[0]) && final(self).contents() == old(
                self,
            ).contents().drop_first(),
    {
        if self.head == self.tail {
            None
        } else {
            let ghost before = self.contents();
            let c = self.buf[self.tail];
            self.tail = (self.tail + 1) % BUFFER_SIZE;
            assert(self.contents() =~= before.drop_first());
            Some(c)
        }
    }

    /// The bytes that the buffer prints as: those from the tail up to the
    /// head when the head has not wrapped around below the tail (none
    /// otherwise).
    pub fn display_bytes(&self) -> (r: Vec<u8>)
        requires
            self.wf(),
        ensures
            r@ == if self.tail <= self.head {
                self.buf@.subrange(self.tail as int, self.head as int)
            } else {
                Seq::<u8>::empty()
            },
    {
        let mut out: Vec<u8> = Vec::new();
        let mut i = self.tail;
        while i < self.head
            invariant
                self.wf(),
                self.tail <= i <= self.head || (i == self.tail && self.head < self.tail),
                out@ == self.buf@.subrange(self.tail as int, i as int),
            decreases self.head - i,
        {
            out.push(self.buf[i % BUFFER_SIZE]);
            i = i + 1;
            assert(out@ =~= self.buf@.subrange(self.tail as int, i as int));
        }
        assert(self.tail > self.head ==> out@ =~= Seq::<u8>::empty());
        out
    }
}

} // verus!
