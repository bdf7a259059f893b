//! The owner of a string's block of memory.
use crate::layout::Layout;
use vstd::prelude::*;

verus! {

/// A block of bytes on the heap, held as a pointer and a length.
///
/// The length is the number of bytes in use: the block has no spare room, so
/// a change of length moves the content into a new block of the new length.
#[derive(Debug)]
pub struct MutStrPtr {
    bytes: Box<[u8]>,
}

/// `Vec::into_boxed_slice`: the vector's elements, in their order, in a block
/// that has room for them and no more.
#[verifier::external_body]
fn into_block(bytes: Vec<u8>) -> (block: Box<[u8]>)
    ensures
        block@ == bytes@,
{
    bytes.into_boxed_slice()
}

/// `len` zero bytes.
pub open spec fn zeros(len: nat) -> Seq<u8> {
    Seq::new(len, |i: int| 0u8)
}

/// `content` cut or extended to `new_size` bytes: what lies within both sizes
/// stays, and what is added is zero.
pub open spec fn resized(content: Seq<u8>, new_size: nat) -> Seq<u8> {
    if new_size <= content.len() {
        content.take(new_size as int)
    } else {
        content + zeros((new_size - content.len()) as nat)
    }
}

/// `content` with the bytes from offset `at` on overwritten by `src`.
pub open spec fn overwritten(content: Seq<u8>, at: int, src: Seq<u8>) -> Seq<u8>
    recommends
        0 <= at,
        at + src.len() <= content.len(),
{
    content.take(at) + src + content.skip(at + src.len())
}

impl View for MutStrPtr {
    type V = Seq<u8>;

    closed spec fn view(&self) -> Seq<u8> {
        self.bytes@
    }
}

impl MutStrPtr {
    /// The length of the block, as a machine integer.
    pub open spec fn spec_size(&self) -> usize {
        self@.len() as usize
    }

    /// Two buffers with the same content are the same value.
    pub proof fn lemma_view_injective(a: MutStrPtr, b: MutStrPtr)
        requires
            a@ == b@,
        ensures
            a == b,
    {
        assert(a.bytes =~= b.bytes);
    }

    /// The length of a block fits a machine integer.
    pub proof fn lemma_size_fits(&self)
        ensures
            self@.len() <= usize::MAX,
            self.size() == self@.len(),
    {
        vstd::slice::axiom_spec_len(&*self.bytes);
    }

    /// A fresh block of `size` zero bytes.
    pub fn allocate(size: usize) -> (buffer: MutStrPtr)
        ensures
            buffer@ == zeros(size as nat),
    {
        let mut block: Vec<u8> = Vec::with_capacity(size);
        let mut i: usize = 0;
        while i < size
            invariant
                i <= size,
                block@ == zeros(i as nat),
            decreases size - i,
        {
            block.push(0u8);
            i += 1;
        }
        MutStrPtr { bytes: into_block(block) }
    }

    /// The number of bytes in the block.
    #[verifier::when_used_as_spec(spec_size)]
    pub fn size(&self) -> (size: usize)
        ensures
            size == self@.len(),
            size == self.spec_size(),
    {
        self.bytes.len()
    }

    /// The shape of the block: `size()` bytes, aligned to one byte.
    pub fn layout(&self) -> (layout: Layout)
        ensures
            layout.size() == self@.len(),
            layout.align() == 1,
    {
        Layout::bytes(self.size())
    }

    /// The block's bytes.
    pub fn as_slice(&self) -> (bytes: &[u8])
        ensures
            bytes@ == self@,
    {
        &*self.bytes
    }

    /// Hands the block over to the caller, who from now on owns it and
    /// gives it back to the allocator.
    pub fn into_boxed_bytes(self) -> (block: Box<[u8]>)
        ensures
            block@ == self@,
    {
        self.bytes
    }

    /// The block's bytes, open to change in place.
    pub fn as_mut_slice(&mut self) -> (bytes: &mut [u8])
        ensures
            bytes@ == old(self)@,
            final(self)@ == final(bytes)@,
    {
        &mut *self.bytes
    }

    /// Moves the content into a block of exactly `new_size` bytes.
    pub fn realloc(&mut self, new_size: usize)
        ensures
            final(self)@ == resized(old(self)@, new_size as nat),
    {
        let old_size: usize = self.size();
        let kept: usize = if new_size < old_size { new_size } else { old_size };
        let mut block: Vec<u8> = Vec::with_capacity(new_size);
        let mut i: usize = 0;
        while i < kept
            invariant
                i <= kept <= self@.len(),
                block@ == self@.take(i as int),
            decreases kept - i,
        {
            block.push(self.bytes[i]);
            i += 1;
        }
        while i < new_size
            invariant
                kept <= i <= new_size,
                kept == if new_size < self@.len() { new_size as int } else { self@.len() as int },
                block@ == self@.take(kept as int) + zeros((i - kept) as nat),
            decreases new_size - i,
        {
            block.push(0u8);
            i += 1;
        }
        self.bytes = into_block(block);
    }

    /// Moves the content into a block that holds it and, behind it, `tail`,
    /// and nothing more.
    pub fn grow(&mut self, tail: &[u8])
        ensures
            final(self)@ == old(self)@ + tail@,
    {
        let old_size: usize = self.size();
        // A sum past the address space asks for a block that no allocator has.
        let mut block: Vec<u8> = Vec::with_capacity(old_size.saturating_add(tail.len()));
        let mut i: usize = 0;
        while i < old_size
            invariant
                i <= old_size == self@.len(),
                block@ == self@.take(i as int),
            decreases old_size - i,
        {
            block.push(self.bytes[i]);
            i += 1;
        }
        let mut j: usize = 0;
        while j < tail.len()
            invariant
                j <= tail@.len(),
                block@ == self@ + tail@.take(j as int),
            decreases tail.len() - j,
        {
            block.push(tail[j]);
            j += 1;
        }
        self.bytes = into_block(block);
    }

    /// Copies `src` over the bytes from offset `at` on.
    pub fn write(&mut self, at: usize, src: &[u8])
        requires
            at + src@.len() <= old(self)@.len(),
        ensures
            final(self)@ == overwritten(old(self)@, at as int, src@),
    {
        let size: usize = self.size();
        let ghost before: Seq<u8> = self@;
        let mut i: usize = 0;
        while i < src.len()
            invariant
                i <= src@.len(),
                at + src@.len() <= size,
                before.len() == size,
                self@ == overwritten(before, at as int, src@.take(i as int)),
            decreases src.len() - i,
        {
            self.bytes[at + i] = src[i];
            i += 1;
        }
    }
}

} // verus!
