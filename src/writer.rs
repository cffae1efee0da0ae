use vstd::prelude::*;
use crate::blksize::IO_BUFSIZE;
use crate::format::push_all;

verus! {

/// The bytes of a list of blocks, one block after the other.
pub open spec fn concat(blocks: Seq<Vec<u8>>) -> Seq<u8>
    decreases blocks.len(),
{
    if blocks.len() == 0 {
        Seq::empty()
    } else {
        concat(blocks.drop_last()) + blocks.last()@
    }
}

/// An output buffer of fixed capacity in front of a sink.
///
/// Writing never sends anything itself: the methods hand back the blocks that
/// are due for the sink, in order, and the caller sends them. What has been
/// handed back followed by what is still buffered is always exactly what was
/// written, in the order it was written.
pub struct BufferedWriterSingleThread {
    buffer: Vec<u8>,
    max_size: usize,
}

impl BufferedWriterSingleThread {
    /// The bytes written and not yet handed back.
    pub closed spec fn view(&self) -> Seq<u8> {
        self.buffer@
    }

    /// The capacity of the buffer.
    pub closed spec fn capacity(&self) -> nat {
        self.max_size as nat
    }

    /// The buffer holds at most its capacity, which is positive.
    pub closed spec fn wf(&self) -> bool {
        &&& self.max_size > 0
        &&& self.buffer@.len() <= self.max_size
    }

    /// Creates an empty writer with a capacity of `IO_BUFSIZE` bytes.
    pub fn new() -> (r: Self)
        ensures
            r.wf(),
            r@ == Seq::<u8>::empty(),
            r.capacity() == IO_BUFSIZE,
    {
        let max_size = IO_BUFSIZE as usize;
        BufferedWriterSingleThread { buffer: Vec::with_capacity(max_size), max_size }
    }

    /// Writes `data`. Returns the blocks that are now due for the sink: each
    /// is exactly one buffer's capacity long.
    pub fn write(&mut self, data: &[u8]) -> (blocks: Vec<Vec<u8>>)
        requires
            old(self).wf(),
        ensures
            final(self).wf(),
            final(self).capacity() == old(self).capacity(),
            concat(blocks@) + final(self)@ == old(self)@ + data@,
            forall|i: int| 0 <= i < blocks@.len() ==> #[trigger] blocks@[i]@.len() == old(self).capacity(),
    {
        let ghost all = self.buffer@ + data@;
        let mut blocks: Vec<Vec<u8>> = Vec::new();
        let mut data = data;
        assert(concat(blocks@) =~= Seq::<u8>::empty());
        assert(Seq::<u8>::empty() + self.buffer@ + data@ =~= all);
        while data.len() > self.max_size - self.buffer.len()
            invariant
                self.wf(),
                self.max_size == old(self).max_size,
                concat(blocks@) + self.buffer@ + data@ == all,
                forall|i: int| 0 <= i < blocks@.len() ==> #[trigger] blocks@[i]@.len() == self.max_size,
            decreases data@.len(), self.buffer@.len(),
        {
            let ghost before = blocks@;
            let process_len = self.max_size - self.buffer.len();
            push_all(&mut self.buffer, vstd::slice::slice_subrange(data, 0, process_len));
            let ghost head = data@.subrange(0, process_len as int);
            data = vstd::slice::slice_subrange(data, process_len, data.len());
            let block = self.flush();
            blocks.push(block);
            proof {
                assert(blocks@.drop_last() =~= before);
                assert(head + data@ =~= old(self)@.subrange(0, 0) + head + data@);
                assert(concat(blocks@) + self.buffer@ + data@ =~= concat(before) + block@ + data@);
                assert(block@.len() == self.max_size);
            }
        }
        if data.len() == self.max_size {
            // The buffer is empty here: the block goes out as it is.
            let ghost before = blocks@;
            let mut block: Vec<u8> = Vec::new();
            push_all(&mut block, data);
            blocks.push(block);
            proof {
                assert(blocks@.drop_last() =~= before);
                assert(concat(blocks@) + self.buffer@ =~= concat(before) + self.buffer@ + data@);
            }
        } else {
            push_all(&mut self.buffer, data);
            assert(concat(blocks@) + self.buffer@ =~= all);
        }
        blocks
    }

    /// Writes one byte. Where the buffer is full, its contents are handed back
    /// first, as the block due for the sink.
    pub fn write_byte(&mut self, byte: u8) -> (flushed: Option<Vec<u8>>)
        requires
            old(self).wf(),
        ensures
            final(self).wf(),
            final(self).capacity() == old(self).capacity(),
            old(self)@.len() == old(self).capacity() ==> flushed is Some && flushed->0@ == old(self)@
                && final(self)@ == seq![byte],
            old(self)@.len() < old(self).capacity() ==> flushed is None && final(self)@ == old(
                self,
            )@.push(byte),
    {
        let flushed = if self.buffer.len() == self.max_size {
            Some(self.flush())
        } else {
            None
        };
        self.buffer.push(byte);
        flushed
    }

    /// Hands back everything buffered, leaving the buffer empty.
    pub fn flush(&mut self) -> (r: Vec<u8>)
        ensures
            r@ == old(self)@,
            final(self)@ == Seq::<u8>::empty(),
            final(self).capacity() == old(self).capacity(),
            final(self).wf() == (old(self).capacity() > 0),
    {
        let mut r: Vec<u8> = Vec::new();
        core::mem::swap(&mut r, &mut self.buffer);
        r
    }

    /// Nothing is left to wait for: a buffer is only handed back, never sent.
    pub fn wait(&mut self)
        ensures
            final(self)@ == old(self)@,
            final(self).capacity() == old(self).capacity(),
            final(self).wf() == old(self).wf(),
    {
    }
}

} // verus!
