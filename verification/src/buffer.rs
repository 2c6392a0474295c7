use vstd::prelude::*;

verus! {

/// Size in bytes of the scratch buffer behind every copy loop: no single
/// read moves more than this.
pub const CHUNK_SIZE: usize = 8192;

/// The fixed-size scratch space one copy loop reads into and writes from.
pub struct TransferBuffer {
    bytes: [u8; CHUNK_SIZE],
}

impl View for TransferBuffer {
    type V = Seq<u8>;

    closed spec fn view(&self) -> Seq<u8> {
        self.bytes@
    }
}

impl TransferBuffer {
    /// A buffer spans exactly `CHUNK_SIZE` bytes, whatever it holds.
    pub proof fn lemma_len(&self)
        ensures
            self@.len() == CHUNK_SIZE,
    {
    }

    /// A fresh buffer, zero-filled.
    pub fn new() -> (buffer: Self)
        ensures
            buffer@ == Seq::new(CHUNK_SIZE as nat, |i: int| 0u8),
    {
        TransferBuffer { bytes: [0u8; CHUNK_SIZE] }
    }

    /// The whole buffer, for a read to fill from the front.
    pub fn as_mut_slice(&mut self) -> (space: &mut [u8])
        ensures
            space@ == old(self)@,
            final(self)@ == final(space)@,
            final(self)@.len() == CHUNK_SIZE,
    {
        &mut self.bytes
    }

    /// The first `len` bytes: what the latest read delivered.
    pub fn filled(&self, len: usize) -> (chunk: &[u8])
        requires
            len <= CHUNK_SIZE,
        ensures
            chunk@ == self@.take(len as int),
    {
        vstd::slice::slice_subrange(self.bytes.as_slice(), 0, len)
    }
}

} // verus!
