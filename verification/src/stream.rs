use vstd::prelude::*;

verus! {

/// An in-memory, growable, order-preserving byte buffer: sequential append
/// at the back, sequential consume from the front. Its view is the sequence
/// of bytes that have been written but not yet read.
pub struct ByteStream {
    data: Vec<u8>,
}

impl View for ByteStream {
    type V = Seq<u8>;

    closed spec fn view(&self) -> Seq<u8> {
        self.data@
    }
}

impl ByteStream {
    /// An empty stream.
    pub fn new() -> (r: ByteStream)
        ensures
            r@ == Seq::<u8>::empty(),
    {
        ByteStream { data: Vec::new() }
    }

    /// A stream holding exactly the given bytes, unread.
    pub fn from_vec(data: Vec<u8>) -> (r: ByteStream)
        ensures
            r@ == data@,
    {
        ByteStream { data }
    }

    /// The number of unread bytes.
    pub fn len(&self) -> (r: usize)
        ensures
            r == self@.len(),
    {
        self.data.len()
    }

    /// Appends one byte at the back.
    pub fn write_byte(&mut self, b: u8)
        ensures
            final(self)@ == old(self)@.push(b),
    {
        self.data.push(b);
    }

    /// Appends all of `buf` at the back.
    pub fn write_bytes(&mut self, buf: &[u8])
        ensures
            final(self)@ == old(self)@ + buf@,
    {
        let ghost orig: Seq<u8> = self.data@;
        let mut i: usize = 0;
        while i < buf.len()
            invariant
                i <= buf.len(),
                self.data@ == orig + buf@.take(i as int),
            decreases buf.len() - i,
        {
            self.data.push(buf[i]);
            proof {
                assert(buf@.take(i + 1) =~= buf@.take(i as int).push(buf@[i as int]));
            }
            i = i + 1;
        }
        proof {
            assert(buf@.take(buf@.len() as int) =~= buf@);
        }
    }

    /// Removes and returns the front byte, or `None` on an empty stream.
    pub fn read_byte(&mut self) -> (r: Option<u8>)
        ensures
            old(self)@.len() == 0 ==> r is None && final(self)@ == old(self)@,
            old(self)@.len() > 0 ==> r == Some(old(self)@[0]) && final(self)@ == old(self)@.skip(
                1,
            ),
    {
        if self.data.len() == 0 {
            None
        } else {
            let ghost orig: Seq<u8> = self.data@;
            let b = self.data.remove(0);
            proof {
                assert(orig.remove(0) =~= orig.skip(1));
            }
            Some(b)
        }
    }

    /// Removes and returns exactly `count` front bytes, or `None`, leaving
    /// the stream unchanged, when fewer are available.
    pub fn read_bytes(&mut self, count: usize) -> (r: Option<Vec<u8>>)
        ensures
            count > old(self)@.len() ==> r is None && final(self)@ == old(self)@,
            count <= old(self)@.len() ==> (r matches Some(v) && v@ == old(self)@.take(count as int)
                && final(self)@ == old(self)@.skip(count as int)),
    {
        if count > self.data.len() {
            return None;
        }
        let ghost orig: Seq<u8> = self.data@;
        let mut out: Vec<u8> = Vec::new();
        let mut i: usize = 0;
        while i < count
            invariant
                i <= count,
                count <= orig.len(),
                out@ == orig.take(i as int),
                self.data@ == orig.skip(i as int),
            decreases count - i,
        {
            let b = self.data.remove(0);
            out.push(b);
            proof {
                assert(orig.skip(i as int).remove(0) =~= orig.skip(i + 1));
                assert(orig.take(i + 1) =~= orig.take(i as int).push(orig[i as int]));
            }
            i = i + 1;
        }
        Some(out)
    }

    /// The unread bytes, copied out in order; the stream is not consumed.
    pub fn to_vec(&self) -> (r: Vec<u8>)
        ensures
            r@ == self@,
    {
        let mut out: Vec<u8> = Vec::new();
        let mut i: usize = 0;
        while i < self.data.len()
            invariant
                i <= self.data@.len(),
                out@ == self.data@.take(i as int),
            decreases self.data@.len() - i,
        {
            out.push(self.data[i]);
            proof {
                assert(self.data@.take(i + 1) =~= self.data@.take(i as int).push(
                    self.data@[i as int],
                ));
            }
            i = i + 1;
        }
        proof {
            assert(self.data@.take(self.data@.len() as int) =~= self.data@);
        }
        out
    }
}

} // verus!
