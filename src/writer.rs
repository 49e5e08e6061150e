use vstd::prelude::*;
use crate::packet::Packet;
use crate::packet::append_bytes;

verus! {

/// The write half of one connection: the bytes queued for the socket and
/// not yet accepted by it.
pub struct ConnWriter {
    write_buf: Vec<u8>,
}

impl ConnWriter {
    /// The bytes queued and not yet written.
    pub closed spec fn view(&self) -> Seq<u8> {
        self.write_buf@
    }

    pub fn new() -> (w: ConnWriter)
        ensures
            w@ == Seq::<u8>::empty(),
    {
        ConnWriter { write_buf: Vec::new() }
    }

    /// Queues all of a packet's bytes, in one piece, behind what is queued.
    pub fn push(&mut self, p: &Packet)
        ensures
            final(self)@ == old(self)@ + p@,
    {
        append_bytes(&mut self.write_buf, p.bytes.as_slice());
    }

    /// The queued bytes, in the order they are to be sent.
    pub fn pending(&self) -> (r: &[u8])
        ensures
            r@ == self@,
    {
        self.write_buf.as_slice()
    }

    /// Whether nothing is queued.
    pub fn is_empty(&self) -> (r: bool)
        ensures
            r == (self@.len() == 0),
    {
        self.write_buf.len() == 0
    }

    /// Drops from the head of the queue the `n` bytes that the socket accepted.
    pub fn advance(&mut self, n: usize)
        requires
            n <= old(self)@.len(),
        ensures
            final(self)@ == old(self)@.skip(n as int),
    {
        let rest = self.write_buf.split_off(n);
        self.write_buf = rest;
    }
}

} // verus!
