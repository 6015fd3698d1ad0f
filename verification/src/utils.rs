//! The refill buffer: a bounded window of bytes over a source, filled at its
//! end and consumed from its front.

use crate::scan::{run, run_len, ByteClass};
use vstd::prelude::*;

verus! {

/// A source of bytes that is read once, front to back.
pub struct ByteSource {
    bytes: Vec<u8>,
    position: usize,
}

impl View for ByteSource {
    type V = Seq<u8>;

    /// The bytes that were not read yet.
    closed spec fn view(&self) -> Seq<u8> {
        self.bytes@.skip(self.position as int)
    }
}

impl ByteSource {
    #[verifier::type_invariant]
    spec fn inv(&self) -> bool {
        self.position <= self.bytes.len()
    }

    /// A source that gives `bytes`.
    pub fn new(bytes: Vec<u8>) -> (source: ByteSource)
        ensures
            source@ == bytes@,
    {
        let source = ByteSource { bytes, position: 0 };
        assert(source@ =~= bytes@);
        source
    }

    /// The number of bytes that were not read yet.
    pub fn remaining(&self) -> (n: usize)
        ensures
            n == self@.len(),
    {
        proof {
            use_type_invariant(self);
        }
        self.bytes.len() - self.position
    }

    /// Reads up to `count` bytes into `dst`, from index `at` on, and answers how
    /// many were read: `count`, or all that the source still had.
    pub fn read(&mut self, dst: &mut Vec<u8>, at: usize, count: usize) -> (n: usize)
        requires
            at + count <= old(dst).len(),
        ensures
            n == if count <= old(self)@.len() {
                count as int
            } else {
                old(self)@.len() as int
            },
            final(self)@ == old(self)@.skip(n as int),
            final(dst)@ == old(dst)@.take(at as int) + old(self)@.take(n as int) + old(dst)@.skip(
                at + n,
            ),
    {
        proof {
            use_type_invariant(&*self);
        }
        let left = self.bytes.len() - self.position;
        let n = if count <= left {
            count
        } else {
            left
        };
        let start = self.position;
        let mut i: usize = 0;
        while i < n
            invariant
                i <= n,
                start + n <= self.bytes.len(),
                at + n <= dst.len(),
                dst.len() == old(dst).len(),
                self.bytes == old(self).bytes,
                self.position == start,
                start == old(self).position,
                forall|k: int|
                    at <= k < at + i ==> #[trigger] dst@[k] == self.bytes@[k - at + start],
                forall|k: int|
                    0 <= k < dst.len() && !(at <= k < at + i) ==> #[trigger] dst@[k] == old(
                        dst,
                    )@[k],
            decreases n - i,
        {
            dst[at + i] = self.bytes[start + i];
            i += 1;
        }
        self.position = start + n;
        assert(self@ =~= old(self)@.skip(n as int));
        assert(dst@ =~= old(dst)@.take(at as int) + old(self)@.take(n as int) + old(dst)@.skip(
            at + n,
        ));
        n
    }
}

/// A window of bytes over a source. The bytes in front of the window are dead,
/// the room behind it is spare; a refill reads into the spare room.
pub struct Buffer {
    inner: ByteSource,
    offset: usize,
    size: usize,
    data: Vec<u8>,
}

/// A buffer as a mathematical value.
pub struct BufferView {
    /// The number of dead bytes in front of the window.
    pub dead: nat,
    /// The live bytes.
    pub window: Seq<u8>,
    /// The room behind the window.
    pub spare: nat,
    /// The bytes that the source still holds.
    pub source: Seq<u8>,
}

impl BufferView {
    /// After one byte was appended to the window.
    pub open spec fn push(self, b: u8) -> BufferView {
        BufferView {
            window: self.window.push(b),
            spare: if self.spare > 0 {
                (self.spare - 1) as nat
            } else {
                0
            },
            ..self
        }
    }

    /// After `n` bytes were consumed from the front of the window. Consuming
    /// all of it, or more, leaves an empty window at the start of the array.
    pub open spec fn consume(self, n: nat) -> BufferView {
        if n >= self.window.len() {
            BufferView {
                dead: 0,
                window: Seq::empty(),
                spare: self.dead + self.window.len() + self.spare,
                ..self
            }
        } else {
            BufferView { dead: self.dead + n, window: self.window.skip(n as int), ..self }
        }
    }

    /// After the dead bytes were dropped.
    pub open spec fn shift(self) -> BufferView {
        BufferView { dead: 0, ..self }
    }

    /// How many bytes a refill of `n` reads: `n`, or all that the source still holds.
    pub open spec fn refill_count(self, n: nat) -> nat {
        if n <= self.source.len() {
            n
        } else {
            self.source.len()
        }
    }

    /// After a refill of `n`: there was room for `n` bytes, and those that the
    /// source gave stand at the end of the window.
    pub open spec fn refill(self, n: nat) -> BufferView {
        let count = self.refill_count(n);
        let room = if self.spare < n {
            n
        } else {
            self.spare
        };
        BufferView {
            dead: self.dead,
            window: self.window + self.source.take(count as int),
            spare: (room - count) as nat,
            source: self.source.skip(count as int),
        }
    }

    /// The number of whitespace bytes at the front of the window.
    pub open spec fn padding(self) -> nat {
        run_len(self.window, ByteClass::Space)
    }

    /// After the whitespace at the front of the window was consumed.
    pub open spec fn trim(self) -> BufferView {
        self.consume(self.padding())
    }
}

impl View for Buffer {
    type V = BufferView;

    closed spec fn view(&self) -> BufferView {
        BufferView {
            dead: self.offset as nat,
            window: self.data@.subrange(self.offset as int, self.offset + self.size),
            spare: (self.data.len() - self.offset - self.size) as nat,
            source: self.inner@,
        }
    }
}

impl Buffer {
    /// The window lies inside the array.
    pub closed spec fn wf(&self) -> bool {
        self.offset + self.size <= self.data.len()
    }

    /// An empty buffer over `inner`, with memory reserved for `capacity` bytes.
    pub fn with_capacity(capacity: usize, inner: ByteSource) -> (buffer: Buffer)
        ensures
            buffer.wf(),
            buffer@ == (BufferView { dead: 0, window: Seq::empty(), spare: 0, source: inner@ }),
    {
        let buffer = Buffer { inner, offset: 0, size: 0, data: Vec::with_capacity(capacity) };
        assert(buffer@.window =~= Seq::empty());
        buffer
    }

    /// The length of the array: dead bytes, window and spare room.
    pub fn capacity(&self) -> (n: usize)
        requires
            self.wf(),
        ensures
            n == self@.dead + self@.window.len() + self@.spare,
    {
        self.data.len()
    }

    /// The room behind the window.
    pub fn available(&self) -> (n: usize)
        requires
            self.wf(),
        ensures
            n == self@.spare,
    {
        self.data.len() - (self.size + self.offset)
    }

    /// Appends one byte to the window. The array grows if there is no spare room.
    pub fn push(&mut self, elt: u8)
        requires
            old(self).wf(),
        ensures
            final(self).wf(),
            final(self)@ == old(self)@.push(elt),
    {
        if self.available() == 0 {
            self.data.push(elt);
        } else {
            let at = self.offset + self.size;
            self.data[at] = elt;
        }
        let total = self.data.len();
        assert(self.offset + self.size < total);
        self.size += 1;
        assert(self@.window =~= old(self)@.window.push(elt));
    }

    /// Consumes `size` bytes from the front of the window, or all of it if it
    /// holds no more than that.
    pub fn consume(&mut self, size: usize)
        requires
            old(self).wf(),
        ensures
            final(self).wf(),
            final(self)@ == old(self)@.consume(size as nat),
    {
        if size >= self.size {
            self.offset = 0;
            self.size = 0;
            assert(self@.window =~= Seq::empty());
        } else {
            self.size -= size;
            self.offset += size;
            assert(self@.window =~= old(self)@.window.skip(size as int));
        }
    }

    /// Consumes the ASCII whitespace at the front of the window and answers how
    /// many bytes it was.
    pub fn trim(&mut self) -> (n: usize)
        requires
            old(self).wf(),
        ensures
            final(self).wf(),
            n == old(self)@.padding(),
            n <= old(self)@.window.len(),
            final(self)@ == old(self)@.trim(),
    {
        let n = run(self.data(), ByteClass::Space);
        self.consume(n);
        n
    }

    /// Moves the window to the start of the array, dropping the dead bytes.
    pub fn shift(&mut self)
        requires
            old(self).wf(),
        ensures
            final(self).wf(),
            final(self)@ == old(self)@.shift(),
    {
        let from = self.offset;
        let live = self.data.len() - from;
        self.offset = 0;
        let mut i: usize = 0;
        while i < live
            invariant
                i <= live,
                from + live == self.data.len(),
                self.data.len() == old(self).data.len(),
                self.offset == 0,
                self.size == old(self).size,
                self.inner == old(self).inner,
                from == old(self).offset,
                from + self.size <= self.data.len(),
                forall|k: int|
                    0 <= k < i ==> #[trigger] self.data@[k] == old(self).data@[from + k],
                forall|k: int|
                    i <= k < self.data.len() ==> #[trigger] self.data@[k] == old(self).data@[k],
            decreases live - i,
        {
            let b = self.data[from + i];
            self.data[i] = b;
            i += 1;
        }
        self.data.truncate(live);
        assert(self@.window =~= old(self)@.window);
    }

    /// Makes room for `size` bytes behind the window, reads up to `size` bytes
    /// from the source into it, and answers how many were read. Zero means
    /// that the source is at its end, or that `size` is zero.
    pub fn refill(&mut self, size: usize) -> (n: usize)
        requires
            old(self).wf(),
        ensures
            final(self).wf(),
            n == old(self)@.refill_count(size as nat),
            final(self)@ == old(self)@.refill(size as nat),
    {
        let end = self.offset + self.size;
        let mut room = self.data.len() - end;
        while room < size
            invariant
                end == self.offset + self.size,
                room == self.data.len() - end,
                self.offset == old(self).offset,
                self.size == old(self).size,
                self.inner == old(self).inner,
                old(self).data.len() <= self.data.len(),
                self.data@.take(old(self).data.len() as int) == old(self).data@,
                room <= size || self.data.len() == old(self).data.len(),
            decreases size - room,
        {
            self.data.push(0);
            room += 1;
            assert(self.data@.take(old(self).data.len() as int) =~= old(self).data@);
        }
        let ghost before = self.data@;
        let n = self.inner.read(&mut self.data, end, size);
        self.size += n;
        proof {
            assert(before.take(old(self).data.len() as int) == old(self).data@);
            assert forall|k: int|
                self.offset <= k < self.offset + old(self).size implies #[trigger] self.data@[k]
                == old(self).data@[k] by {
                assert(old(self).data@[k] == before.take(old(self).data.len() as int)[k]);
            }
            assert(self@.window =~= old(self)@.refill(size as nat).window);
        }
        n
    }

    /// The live bytes.
    pub fn data(&self) -> (window: &[u8])
        requires
            self.wf(),
        ensures
            window@ == self@.window,
    {
        vstd::slice::slice_subrange(self.data.as_slice(), self.offset, self.offset + self.size)
    }

    /// The number of live bytes.
    pub fn len(&self) -> (n: usize)
        requires
            self.wf(),
        ensures
            n == self@.window.len(),
    {
        self.size
    }
}

} // verus!
