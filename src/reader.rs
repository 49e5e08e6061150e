use vstd::prelude::*;
use crate::framing::{has_packet, packet_size, next_packet_len};
use crate::packet::Packet;
use crate::packet::append_bytes;

verus! {

/// The read half of one connection: the bytes received and not yet framed,
/// and whether the peer has closed its side.
pub struct ConnReader {
    packet_buf: Vec<u8>,
    closed: bool,
}

impl ConnReader {
    /// The bytes received that have not yet been taken as packets.
    pub closed spec fn view(&self) -> Seq<u8> {
        self.packet_buf@
    }

    /// Whether the peer has closed its side of the connection.
    pub closed spec fn is_closed(&self) -> bool {
        self.closed
    }

    pub fn new() -> (r: ConnReader)
        ensures
            r@ == Seq::<u8>::empty(),
            !r.is_closed(),
    {
        ConnReader { packet_buf: Vec::new(), closed: false }
    }

    /// Takes in the bytes of one read from the socket. An empty read is the
    /// peer's orderly close: it marks the reader closed and returns `false`.
    pub fn read(&mut self, data: &[u8]) -> (open: bool)
        ensures
            open == (data@.len() > 0),
            final(self)@ == old(self)@ + data@,
            final(self).is_closed() == (old(self).is_closed() || data@.len() == 0),
    {
        if data.len() == 0 {
            self.closed = true;
            assert(old(self)@ + data@ == old(self)@);
            false
        } else {
            append_bytes(&mut self.packet_buf, data);
            true
        }
    }

    /// Takes the whole packet at the head of the buffer, if one is there; the
    /// rest of the buffer becomes its new head.
    pub fn next(&mut self) -> (r: Option<Packet>)
        ensures
            final(self).is_closed() == old(self).is_closed(),
            has_packet(old(self)@) ==> r.is_some()
                && r.unwrap()@ == old(self)@.take(packet_size(old(self)@) as int)
                && final(self)@ == old(self)@.skip(packet_size(old(self)@) as int),
            !has_packet(old(self)@) ==> r.is_none() && final(self)@ == old(self)@,
    {
        match next_packet_len(self.packet_buf.as_slice()) {
            Some(s) => {
                let mut bytes = self.packet_buf.split_off(0);
                self.packet_buf = bytes.split_off(s);
                Some(Packet { bytes })
            },
            None => None,
        }
    }

    /// Whether the peer has closed its side of the connection.
    pub fn closed(&self) -> (r: bool)
        ensures
            r == self.is_closed(),
    {
        self.closed
    }

    /// The bytes received and not yet framed.
    pub fn buffered(&self) -> (r: &[u8])
        ensures
            r@ == self@,
    {
        self.packet_buf.as_slice()
    }
}

} // verus!
