use vstd::prelude::*;

verus! {

/// Bytes in a packet header: three of payload length, one of sequence id.
pub const HEADER_LEN: usize = 4;

/// The payload length that the first three bytes of `s` encode (little endian).
pub open spec fn payload_len(s: Seq<u8>) -> nat
    recommends
        s.len() >= 3,
{
    s[0] as nat + 256 * (s[1] as nat) + 65536 * (s[2] as nat)
}

/// The wire size of the packet whose header starts `s`.
pub open spec fn packet_size(s: Seq<u8>) -> nat
    recommends
        s.len() >= 4,
{
    4 + payload_len(s)
}

/// Whether `s` begins with a whole packet.
pub open spec fn has_packet(s: Seq<u8>) -> bool {
    s.len() >= 4 && s.len() >= packet_size(s)
}

/// Whether `p` is exactly one well-formed packet.
pub open spec fn is_packet(p: Seq<u8>) -> bool {
    p.len() >= 4 && p.len() == packet_size(p)
}

/// The whole packets at the head of `s`, in order, as the framer takes them.
pub open spec fn frames(s: Seq<u8>) -> Seq<Seq<u8>>
    decreases s.len(),
{
    if has_packet(s) {
        seq![s.take(packet_size(s) as int)] + frames(s.skip(packet_size(s) as int))
    } else {
        Seq::empty()
    }
}

/// What is left of `s` once every whole packet at its head has been taken.
pub open spec fn remainder(s: Seq<u8>) -> Seq<u8>
    decreases s.len(),
{
    if has_packet(s) {
        remainder(s.skip(packet_size(s) as int))
    } else {
        s
    }
}

/// The concatenation of a sequence of byte strings.
pub open spec fn flatten(ps: Seq<Seq<u8>>) -> Seq<u8>
    decreases ps.len(),
{
    if ps.len() == 0 {
        Seq::empty()
    } else {
        flatten(ps.drop_last()) + ps.last()
    }
}

/// Reads the 3-byte little-endian payload length at the start of a header.
pub fn parse_packet_length(header: &[u8]) -> (l: usize)
    requires
        header@.len() >= 3,
    ensures
        l as nat == payload_len(header@),
        l <= 0xff_ffff,
{
    header[0] as usize + 256 * (header[1] as usize) + 65536 * (header[2] as usize)
}

/// The wire size of the whole packet at the head of `buf`, if one is there.
pub fn next_packet_len(buf: &[u8]) -> (r: Option<usize>)
    ensures
        r == (if has_packet(buf@) { Some(packet_size(buf@) as usize) } else { None::<usize> }),
{
    if buf.len() < HEADER_LEN {
        return None;
    }
    let size = HEADER_LEN + parse_packet_length(buf);
    if buf.len() >= size {
        Some(size)
    } else {
        None
    }
}

/// Prepending a byte string to a sequence prepends it to the concatenation.
pub proof fn lemma_flatten_prepend(p: Seq<u8>, ps: Seq<Seq<u8>>)
    ensures
        flatten(seq![p] + ps) == p + flatten(ps),
    decreases ps.len(),
{
    if ps.len() == 0 {
        assert(seq![p] + ps == seq![p]);
        assert(seq![p].drop_last() == Seq::<Seq<u8>>::empty());
        assert(flatten(seq![p]) == flatten(Seq::<Seq<u8>>::empty()) + p);
        assert(p + flatten(ps) == p);
        assert(Seq::<u8>::empty() + p == p);
    } else {
        let q = seq![p] + ps;
        assert(q.drop_last() == seq![p] + ps.drop_last());
        assert(q.last() == ps.last());
        lemma_flatten_prepend(p, ps.drop_last());
        assert(p + flatten(ps.drop_last()) + ps.last() == p + (flatten(ps.drop_last()) + ps.last()));
    }
}

/// The framer never loses or reorders bytes: the packets it takes, followed
/// by what it leaves in the buffer, are exactly the buffer it was given.
pub proof fn lemma_compaction(s: Seq<u8>)
    ensures
        flatten(frames(s)) + remainder(s) == s,
    decreases s.len(),
{
    if has_packet(s) {
        let n = packet_size(s) as int;
        lemma_compaction(s.skip(n));
        lemma_flatten_prepend(s.take(n), frames(s.skip(n)));
        assert(s.take(n) + s.skip(n) == s);
        assert(s.take(n) + flatten(frames(s.skip(n))) + remainder(s.skip(n))
            == s.take(n) + (flatten(frames(s.skip(n))) + remainder(s.skip(n))));
    } else {
        assert(flatten(Seq::<Seq<u8>>::empty()) + s == s);
    }
}

/// Framing does not depend on how the bytes were cut into reads: framing `a`
/// first and then what is left of it followed by `b` gives the same packets,
/// and leaves the same bytes, as framing `a + b` at once.
pub proof fn lemma_frames_chunked(a: Seq<u8>, b: Seq<u8>)
    ensures
        frames(a + b) == frames(a) + frames(remainder(a) + b),
        remainder(a + b) == remainder(remainder(a) + b),
    decreases a.len(),
{
    if has_packet(a) {
        let n = packet_size(a) as int;
        let ab = a + b;
        assert(ab.subrange(0, 3) == a.subrange(0, 3));
        assert(ab[0] == a[0] && ab[1] == a[1] && ab[2] == a[2]);
        assert(packet_size(ab) == packet_size(a));
        assert(has_packet(ab));
        assert(ab.take(n) == a.take(n));
        assert(ab.skip(n) == a.skip(n) + b);
        lemma_frames_chunked(a.skip(n), b);
        assert(seq![a.take(n)] + frames(a.skip(n)) + frames(remainder(a.skip(n)) + b)
            == seq![a.take(n)] + (frames(a.skip(n)) + frames(remainder(a.skip(n)) + b)));
    } else {
        assert(Seq::<Seq<u8>>::empty() + frames(a + b) == frames(a + b));
    }
}

/// A stream made of whole packets frames back into exactly those packets,
/// with nothing left over.
pub proof fn lemma_frames_of_packets(ps: Seq<Seq<u8>>)
    requires
        forall|i: int| 0 <= i < ps.len() ==> is_packet(#[trigger] ps[i]),
    ensures
        frames(flatten(ps)) == ps,
        remainder(flatten(ps)) == Seq::<u8>::empty(),
    decreases ps.len(),
{
    if ps.len() == 0 {
        assert(!has_packet(Seq::<u8>::empty()));
    } else {
        let p = ps[0];
        let rest = ps.drop_first();
        assert(ps == seq![p] + rest);
        lemma_flatten_prepend(p, rest);
        let s = flatten(ps);
        assert(is_packet(p));
        assert(s == p + flatten(rest));
        assert(s[0] == p[0] && s[1] == p[1] && s[2] == p[2]);
        assert(packet_size(s) == p.len());
        assert(has_packet(s));
        let n = p.len() as int;
        assert(s.take(n) == p);
        assert(s.skip(n) == flatten(rest));
        assert forall|i: int| 0 <= i < rest.len() implies is_packet(#[trigger] rest[i]) by {
            assert(rest[i] == ps[i + 1]);
        }
        lemma_frames_of_packets(rest);
    }
}

/// A reader that starts with `buf`, and after each read of `chunks` takes
/// every whole packet it holds: the packets taken, in order, and the bytes
/// left in its buffer at the end.
pub open spec fn feed(buf: Seq<u8>, chunks: Seq<Seq<u8>>) -> (Seq<Seq<u8>>, Seq<u8>)
    decreases chunks.len(),
{
    if chunks.len() == 0 {
        (Seq::empty(), buf)
    } else {
        let b = buf + chunks[0];
        let rest = feed(remainder(b), chunks.drop_first());
        (frames(b) + rest.0, rest.1)
    }
}

/// What the framer leaves never begins with a whole packet.
pub proof fn lemma_remainder_has_no_packet(s: Seq<u8>)
    ensures
        !has_packet(remainder(s)),
    decreases s.len(),
{
    if has_packet(s) {
        lemma_remainder_has_no_packet(s.skip(packet_size(s) as int));
    }
}

/// However the bytes are cut into reads, a reader takes the packets of their
/// concatenation and keeps its unframed tail.
pub proof fn lemma_feed(buf: Seq<u8>, chunks: Seq<Seq<u8>>)
    requires
        !has_packet(buf),
    ensures
        feed(buf, chunks) == (frames(buf + flatten(chunks)), remainder(buf + flatten(chunks))),
    decreases chunks.len(),
{
    if chunks.len() == 0 {
        assert(buf + flatten(chunks) == buf);
    } else {
        let c = chunks[0];
        let cs = chunks.drop_first();
        let b = buf + c;
        lemma_remainder_has_no_packet(b);
        lemma_feed(remainder(b), cs);
        lemma_frames_chunked(b, flatten(cs));
        assert(chunks == seq![c] + cs);
        lemma_flatten_prepend(c, cs);
        assert(buf + flatten(chunks) == b + flatten(cs));
    }
}

/// Round trip: bytes made of whole packets `ps`, delivered to a fresh reader
/// in any chunking (one byte at a time included), come out as exactly `ps`,
/// in order, with nothing left over.
pub proof fn lemma_reader_round_trip(ps: Seq<Seq<u8>>, chunks: Seq<Seq<u8>>)
    requires
        forall|i: int| 0 <= i < ps.len() ==> is_packet(#[trigger] ps[i]),
        flatten(chunks) == flatten(ps),
    ensures
        feed(Seq::empty(), chunks) == (ps, Seq::<u8>::empty()),
{
    lemma_feed(Seq::empty(), chunks);
    assert(Seq::<u8>::empty() + flatten(chunks) == flatten(ps));
    lemma_frames_of_packets(ps);
}

/// The buffer after `k` takes with no read in between, each take removing the
/// whole packet at the head if there is one.
pub open spec fn after_takes(s: Seq<u8>, k: nat) -> Seq<u8>
    decreases k,
{
    if k == 0 || !has_packet(s) {
        s
    } else {
        after_takes(s.skip(packet_size(s) as int), (k - 1) as nat)
    }
}

/// Repeated takes with no read in between leave exactly the buffer with the
/// taken packets' bytes removed from its head.
pub proof fn lemma_repeated_takes(s: Seq<u8>, k: nat)
    ensures
        k <= frames(s).len() ==> flatten(frames(s).take(k as int)) + after_takes(s, k) == s,
        k >= frames(s).len() ==> after_takes(s, k) == remainder(s),
    decreases k,
{
    if k == 0 {
        assert(frames(s).take(0) == Seq::<Seq<u8>>::empty());
        assert(flatten(Seq::<Seq<u8>>::empty()) + s == s);
        if frames(s).len() == 0 {
            assert(!has_packet(s));
        }
    } else if !has_packet(s) {
    } else {
        let n = packet_size(s) as int;
        let t = s.skip(n);
        lemma_repeated_takes(t, (k - 1) as nat);
        if k <= frames(s).len() {
            let f = frames(s).take(k as int);
            assert(f == seq![s.take(n)] + frames(t).take(k - 1));
            lemma_flatten_prepend(s.take(n), frames(t).take(k - 1));
            assert(s.take(n) + t == s);
            assert(s.take(n) + flatten(frames(t).take(k - 1)) + after_takes(t, (k - 1) as nat)
                == s.take(n) + (flatten(frames(t).take(k - 1)) + after_takes(t, (k - 1) as nat)));
        }
    }
}

} // verus!
