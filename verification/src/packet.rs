use vstd::prelude::*;
use crate::error::CodecError;
use crate::stream::ByteStream;
use crate::varint::{venc32, vsize32, vparse, i32_of_u32, write_varint, read_varint};

verus! {

/// The in-memory form of one message: a 32-bit signed identifier and an
/// opaque byte payload. The payload grows by sequential writes at the back
/// and is consumed by sequential reads from the front; it is never indexed
/// or truncated directly.
pub struct Packet {
    /// The packet-type identifier; negative values are legal and take the
    /// long five-byte varint encoding.
    pub id: i32,
    data: ByteStream,
}

/// The mathematical reading of a `Packet`: the identifier and the payload
/// bytes written but not yet read.
pub struct PacketView {
    pub id: i32,
    pub payload: Seq<u8>,
}

impl View for Packet {
    type V = PacketView;

    closed spec fn view(&self) -> PacketView {
        PacketView { id: self.id, payload: self.data@ }
    }
}


impl Packet {
    /// A packet with the given identifier and an empty payload.
    pub fn new(id: i32) -> (r: Packet)
        ensures
            r@.id == id,
            r@.payload == Seq::<u8>::empty(),
    {
        Packet { id, data: ByteStream::new() }
    }

    /// Appends `buf` to the payload; returns the number of bytes written,
    /// which is always all of them.
    pub fn write(&mut self, buf: &[u8]) -> (r: usize)
        ensures
            final(self)@.id == old(self)@.id,
            final(self)@.payload == old(self)@.payload + buf@,
            r == buf@.len(),
    {
        self.data.write_bytes(buf);
        buf.len()
    }

    /// Consumes up to `count` bytes from the front of the payload and
    /// returns them; fewer only when the payload runs out first.
    pub fn read(&mut self, count: usize) -> (r: Vec<u8>)
        ensures
            final(self)@.id == old(self)@.id,
            ({
                let k: int = if count <= old(self)@.payload.len() {
                    count as int
                } else {
                    old(self)@.payload.len() as int
                };
                r@ == old(self)@.payload.take(k) && final(self)@.payload == old(
                    self,
                )@.payload.skip(k)
            }),
    {
        let k: usize = if count <= self.data.len() {
            count
        } else {
            self.data.len()
        };
        match self.data.read_bytes(k) {
            Some(v) => v,
            None => Vec::new(),
        }
    }

    /// The packet-type identifier.
    pub fn get_id(&self) -> (r: i32)
        ensures
            r == self@.id,
    {
        self.id
    }

    /// Replaces the identifier, leaving the payload untouched.
    pub fn set_id(&mut self, id: i32)
        ensures
            final(self)@.id == id,
            final(self)@.payload == old(self)@.payload,
    {
        self.id = id;
    }

    /// Flushing is a no-op that always succeeds.
    pub fn flush(&mut self)
        ensures
            *final(self) == *old(self),
    {
    }

    /// The number of unread payload bytes.
    pub fn payload_len(&self) -> (r: usize)
        ensures
            r == self@.payload.len(),
    {
        self.data.len()
    }

    /// The unread payload bytes, copied out in order.
    pub fn payload_to_vec(&self) -> (r: Vec<u8>)
        ensures
            r@ == self@.payload,
    {
        self.data.to_vec()
    }

    /// Appends the varint encoding of `value` to the payload; never fails.
    pub fn write_var_int(&mut self, value: i32) -> (r: Result<usize, CodecError>)
        ensures
            final(self)@.id == old(self)@.id,
            final(self)@.payload == old(self)@.payload + venc32(value),
            r is Ok && r->Ok_0 == vsize32(value),
    {
        let n = write_varint(&mut self.data, value);
        Ok(n)
    }

    /// Reads one varint from the front of the payload.
    pub fn read_var_int(&mut self) -> (r: Result<i32, CodecError>)
        ensures
            final(self)@.id == old(self)@.id,
            (match vparse(old(self)@.payload) {
                Ok((u, n)) => r == Ok::<i32, CodecError>(i32_of_u32(u)) && final(self)@.payload
                    == old(self)@.payload.skip(n),
                Err(e) => r == Err::<i32, CodecError>(e),
            }),
    {
        read_varint(&mut self.data)
    }
}

} // verus!
