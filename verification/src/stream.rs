//! The bytes of a connection that have come in and are not yet read.
use crate::wire;
use vstd::prelude::*;
use vstd::slice::slice_subrange;

verus! {

/// Bytes received from a peer, with the place up to which they have been read. Its
/// view is what is left to read.
pub struct ByteStream {
    bytes: Vec<u8>,
    position: usize,
}

impl View for ByteStream {
    type V = Seq<u8>;

    closed spec fn view(&self) -> Seq<u8> {
        self.bytes@.skip(self.position as int)
    }
}

/// The length of a block (a length of four bytes, then that many bytes) at the start
/// of the input. None when the length itself has not arrived.
pub open spec fn block_len(input: Seq<u8>) -> Option<int> {
    if input.len() < 4 {
        None
    } else {
        Some(4 + wire::le_u32(input.take(4)))
    }
}

/// How many bytes have to arrive before the length of the block, or the block, is
/// there whole.
pub open spec fn missing_from_block(input: Seq<u8>) -> int {
    match block_len(input) {
        None => 4 - input.len(),
        Some(n) => if n <= input.len() { 0 } else { n - input.len() },
    }
}

impl ByteStream {
    #[verifier::type_invariant]
    closed spec fn in_bounds(self) -> bool {
        self.position <= self.bytes@.len()
    }

    /// A stream that holds these bytes, all of them unread.
    pub fn new(bytes: Vec<u8>) -> (stream: ByteStream)
        ensures
            stream@ == bytes@,
    {
        let stream = ByteStream { bytes, position: 0 };
        assert(stream@ =~= bytes@);
        stream
    }

    /// Adds bytes that have just arrived behind those that are there.
    pub fn extend(&mut self, arrived: &[u8])
        ensures
            final(self)@ == old(self)@ + arrived@,
    {
        proof {
            use_type_invariant(&*self);
        }
        let mut bytes = self.unread();
        wire::write_all(&mut bytes, arrived);
        *self = ByteStream::new(bytes);
    }

    /// A copy of what is left to read.
    pub fn unread(&self) -> (bytes: Vec<u8>)
        ensures
            bytes@ == self@,
    {
        proof {
            use_type_invariant(self);
        }
        let mut bytes: Vec<u8> = Vec::new();
        let rest = slice_subrange(self.bytes.as_slice(), self.position, self.bytes.len());
        wire::write_all(&mut bytes, rest);
        assert(bytes@ =~= self@);
        bytes
    }

    /// The number of bytes left to read.
    pub fn len(&self) -> (n: usize)
        ensures
            n == self@.len(),
    {
        proof {
            use_type_invariant(self);
        }
        self.bytes.len() - self.position
    }

    /// The number at the start of what is left to read, which stays unread.
    pub(crate) fn peek_u32(&self) -> (n: Option<u32>)
        ensures
            n == (if self@.len() < 4 { None } else { Some(wire::le_u32(self@.take(4))) }),
    {
        proof {
            use_type_invariant(self);
        }
        let rest = slice_subrange(self.bytes.as_slice(), self.position, self.bytes.len());
        assert(rest@ =~= self@);
        wire::read_u32(rest)
    }

    /// Reads `n` bytes, which have to be there.
    pub(crate) fn read_exact(&mut self, n: usize) -> (bytes: Vec<u8>)
        requires
            n <= old(self)@.len(),
        ensures
            bytes@ == old(self)@.take(n as int),
            final(self)@ == old(self)@.skip(n as int),
    {
        proof {
            use_type_invariant(&*self);
        }
        assert(self@.len() == self.bytes.len() - self.position);
        let end: usize = self.position + n;
        let mut bytes: Vec<u8> = Vec::new();
        wire::write_all(&mut bytes, slice_subrange(self.bytes.as_slice(), self.position, end));
        assert(bytes@ =~= self@.take(n as int));
        self.position = end;
        assert(self@ =~= old(self)@.skip(n as int));
        bytes
    }

    /// How many more bytes have to arrive before the next block can be read: first
    /// those of its length, then those that the length announces.
    pub fn missing(&self) -> (n: usize)
        ensures
            n == missing_from_block(self@),
    {
        let available: usize = self.len();
        match self.peek_u32() {
            None => 4 - available,
            Some(length) => {
                let announced: usize = length as usize;
                if announced <= available - 4 {
                    0
                } else {
                    announced - (available - 4)
                }
            },
        }
    }
}

} // verus!
