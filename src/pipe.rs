use vstd::prelude::*;
use vstd::utf8::encode_utf8;
use crate::framing::{flatten, frames, remainder, has_packet, next_packet_len, lemma_compaction};
use crate::packet::{Action, Packet, MAX_PAYLOAD_LEN, error_packet_bytes};
use crate::reader::ConnReader;
use crate::writer::ConnWriter;

verus! {

/// The policy that a pipe consults for every framed packet. Requests come
/// from the client, responses from the server.
pub trait PacketHandler {
    fn handle_request(&mut self, p: &Packet) -> Action;

    fn handle_response(&mut self, p: &Packet) -> Action;
}

/// Why a pipe stopped while handling packets.
#[derive(Debug, Clone, Copy, PartialEq, Eq, Structural)]
pub enum PipeError {
    /// A handler asked for an error packet whose payload exceeds the
    /// 3-byte length field.
    MessageTooLong,
}

/// The concatenated wire bytes of a list of packets.
pub open spec fn packets_bytes(v: Seq<Packet>) -> Seq<u8>
    decreases v.len(),
{
    if v.len() == 0 {
        Seq::empty()
    } else {
        packets_bytes(v.drop_last()) + v.last()@
    }
}

/// Whether the pipe can carry out `a`: an error packet's payload must fit
/// the 3-byte length field.
pub open spec fn action_fits(a: Action) -> bool {
    match a {
        Action::Error { code, state, msg } => encode_utf8(msg@).len() + 9 <= MAX_PAYLOAD_LEN,
        _ => true,
    }
}

/// The bytes that action `a` on packet `p` queues (to the client, to the
/// server). `from_client` tells whether `p` is a request. Forward and Mutate
/// go to the opposite side, Respond back to the originating side, and an
/// error packet always to the client.
pub open spec fn routed(a: Action, p: Seq<u8>, from_client: bool) -> (Seq<u8>, Seq<u8>) {
    let none = Seq::<u8>::empty();
    match a {
        Action::Drop => (none, none),
        Action::Forward => if from_client { (none, p) } else { (p, none) },
        Action::Mutate(q) => if from_client { (none, q@) } else { (q@, none) },
        Action::Respond(v) => if from_client {
            (packets_bytes(v@), none)
        } else {
            (none, packets_bytes(v@))
        },
        Action::Error { code, state, msg } => (
            error_packet_bytes(code, state@, encode_utf8(msg@)),
            none,
        ),
    }
}

/// The bytes queued (to the client, to the server) by applying `acts[i]` to
/// `ps[i]` for each packet in turn.
pub open spec fn routed_all(ps: Seq<Seq<u8>>, acts: Seq<Action>, from_client: bool) -> (
    Seq<u8>,
    Seq<u8>,
)
    decreases ps.len(),
{
    if ps.len() == 0 || acts.len() == 0 {
        (Seq::empty(), Seq::empty())
    } else {
        let pre = routed_all(ps.drop_last(), acts.drop_last(), from_client);
        let last = routed(acts.last(), ps.last(), from_client);
        (pre.0 + last.0, pre.1 + last.1)
    }
}

/// Every packet framed from `ins` was handled, by the actions `acts` in
/// order: the queues went from `c0`, `s0` to `c1`, `s1`, and the buffer
/// holds the unframed tail `in1`.
pub open spec fn handled_all(
    ins: Seq<u8>,
    acts: Seq<Action>,
    from_client: bool,
    c0: Seq<u8>,
    s0: Seq<u8>,
    c1: Seq<u8>,
    s1: Seq<u8>,
    in1: Seq<u8>,
) -> bool {
    let ps = frames(ins);
    &&& acts.len() == ps.len()
    &&& forall|i: int| 0 <= i < acts.len() ==> action_fits(#[trigger] acts[i])
    &&& c1 == c0 + routed_all(ps, acts, from_client).0
    &&& s1 == s0 + routed_all(ps, acts, from_client).1
    &&& in1 == remainder(ins)
}

/// Handling stopped at the packet whose action `acts.last()` could not be
/// carried out; the packets before it were handled, those after it wait in
/// the buffer `in1`.
pub open spec fn stopped_at(
    ins: Seq<u8>,
    acts: Seq<Action>,
    from_client: bool,
    c0: Seq<u8>,
    s0: Seq<u8>,
    c1: Seq<u8>,
    s1: Seq<u8>,
    in1: Seq<u8>,
) -> bool {
    let ps = frames(ins);
    let k = acts.len() - 1;
    &&& 1 <= acts.len() <= ps.len()
    &&& forall|i: int| 0 <= i < k ==> action_fits(#[trigger] acts[i])
    &&& !action_fits(acts.last())
    &&& c1 == c0 + routed_all(ps.take(k), acts.drop_last(), from_client).0
    &&& s1 == s0 + routed_all(ps.take(k), acts.drop_last(), from_client).1
    &&& frames(in1) == ps.skip(acts.len() as int)
    &&& remainder(in1) == remainder(ins)
}

/// Forwarding preserves bytes: when every packet framed from `ins` is
/// forwarded, the opposite side is queued exactly the bytes received, less
/// the unframed tail, and the originating side nothing.
pub proof fn lemma_forward_preserves(ins: Seq<u8>, acts: Seq<Action>, from_client: bool)
    requires
        acts.len() == frames(ins).len(),
        forall|i: int| 0 <= i < acts.len() ==> #[trigger] acts[i] == Action::Forward,
    ensures
        from_client ==> routed_all(frames(ins), acts, from_client).1 + remainder(ins) == ins
            && routed_all(frames(ins), acts, from_client).0 == Seq::<u8>::empty(),
        !from_client ==> routed_all(frames(ins), acts, from_client).0 + remainder(ins) == ins
            && routed_all(frames(ins), acts, from_client).1 == Seq::<u8>::empty(),
{
    lemma_forward_all(frames(ins), acts, from_client);
    lemma_compaction(ins);
}

/// Forwarding every packet of `ps` queues their concatenation on the
/// opposite side and nothing on the originating side.
pub proof fn lemma_forward_all(ps: Seq<Seq<u8>>, acts: Seq<Action>, from_client: bool)
    requires
        acts.len() == ps.len(),
        forall|i: int| 0 <= i < acts.len() ==> #[trigger] acts[i] == Action::Forward,
    ensures
        from_client ==> routed_all(ps, acts, from_client) == (Seq::<u8>::empty(), flatten(ps)),
        !from_client ==> routed_all(ps, acts, from_client) == (flatten(ps), Seq::<u8>::empty()),
    decreases ps.len(),
{
    if ps.len() > 0 {
        let a2 = acts.drop_last();
        assert forall|i: int| 0 <= i < a2.len() implies #[trigger] a2[i] == Action::Forward by {
            assert(a2[i] == acts[i]);
        }
        lemma_forward_all(ps.drop_last(), a2, from_client);
        assert(acts.last() == acts[acts.len() - 1]);
        assert(Seq::<u8>::empty() + Seq::<u8>::empty() == Seq::<u8>::empty());
    }
}

/// Action locality: `Drop` queues nothing on either side, and `Respond(v)`
/// to a request queues exactly the bytes of `v` for the client and nothing
/// for the server.
pub proof fn lemma_action_locality(p: Seq<u8>, v: Vec<Packet>)
    ensures
        routed(Action::Drop, p, true) == (Seq::<u8>::empty(), Seq::<u8>::empty()),
        routed(Action::Drop, p, false) == (Seq::<u8>::empty(), Seq::<u8>::empty()),
        routed(Action::Respond(v), p, true) == (packets_bytes(v@), Seq::<u8>::empty()),
{
}

/// Queues the bytes that action `a` on packet `p` calls for.
fn dispatch(
    a: Action,
    p: &Packet,
    from_client: bool,
    client_w: &mut ConnWriter,
    server_w: &mut ConnWriter,
) -> (r: Result<(), PipeError>)
    ensures
        r is Ok <==> action_fits(a),
        r is Ok ==> final(client_w)@ == old(client_w)@ + routed(a, p@, from_client).0
            && final(server_w)@ == old(server_w)@ + routed(a, p@, from_client).1,
        r is Err ==> final(client_w)@ == old(client_w)@ && final(server_w)@ == old(server_w)@,
{
    match a {
        Action::Drop => {
            assert(old(client_w)@ + Seq::<u8>::empty() == old(client_w)@);
            assert(old(server_w)@ + Seq::<u8>::empty() == old(server_w)@);
        },
        Action::Forward => {
            if from_client {
                server_w.push(p);
                assert(old(client_w)@ + Seq::<u8>::empty() == old(client_w)@);
            } else {
                client_w.push(p);
                assert(old(server_w)@ + Seq::<u8>::empty() == old(server_w)@);
            }
        },
        Action::Mutate(q) => {
            if from_client {
                server_w.push(&q);
                assert(old(client_w)@ + Seq::<u8>::empty() == old(client_w)@);
            } else {
                client_w.push(&q);
                assert(old(server_w)@ + Seq::<u8>::empty() == old(server_w)@);
            }
        },
        Action::Respond(v) => {
            if from_client {
                push_all(client_w, &v);
                assert(old(server_w)@ + Seq::<u8>::empty() == old(server_w)@);
            } else {
                push_all(server_w, &v);
                assert(old(client_w)@ + Seq::<u8>::empty() == old(client_w)@);
            }
        },
        Action::Error { code, state, msg } => {
            if msg.as_str().as_bytes().len() > MAX_PAYLOAD_LEN - 9 {
                return Err(PipeError::MessageTooLong);
            }
            let e = Packet::error_packet(code, state, msg);
            client_w.push(&e);
            assert(old(server_w)@ + Seq::<u8>::empty() == old(server_w)@);
        },
    }
    Ok(())
}

/// Queues each packet of `v`, in order.
fn push_all(w: &mut ConnWriter, v: &Vec<Packet>)
    ensures
        final(w)@ == old(w)@ + packets_bytes(v@),
{
    let mut i: usize = 0;
    while i < v.len()
        invariant
            i <= v@.len(),
            w@ == old(w)@ + packets_bytes(v@.take(i as int)),
        decreases v@.len() - i,
    {
        w.push(&v[i]);
        proof {
            let t = v@.take(i + 1 as int);
            assert(t.drop_last() == v@.take(i as int));
            assert(t.last() == v@[i as int]);
        }
        i = i + 1;
    }
    assert(v@.take(v@.len() as int) == v@);
}

/// Frames every whole packet in `reader`, asks the handler about each, and
/// queues what its action calls for. Stops at the first action that cannot
/// be carried out.
fn handle_all<H: PacketHandler>(
    handler: &mut H,
    reader: &mut ConnReader,
    from_client: bool,
    client_w: &mut ConnWriter,
    server_w: &mut ConnWriter,
) -> (r: Result<(), PipeError>)
    ensures
        final(reader).is_closed() == old(reader).is_closed(),
        r is Ok ==> exists|acts: Seq<Action>|
            handled_all(
                old(reader)@,
                acts,
                from_client,
                old(client_w)@,
                old(server_w)@,
                final(client_w)@,
                final(server_w)@,
                final(reader)@,
            ),
        r is Err ==> exists|acts: Seq<Action>|
            stopped_at(
                old(reader)@,
                acts,
                from_client,
                old(client_w)@,
                old(server_w)@,
                final(client_w)@,
                final(server_w)@,
                final(reader)@,
            ),
{
    let ghost ins = reader@;
    let ghost c0 = client_w@;
    let ghost s0 = server_w@;
    let ghost mut acts: Seq<Action> = Seq::empty();
    let ghost mut taken: Seq<Seq<u8>> = Seq::empty();
    loop
        invariant
            reader.is_closed() == old(reader).is_closed(),
            ins == old(reader)@,
            c0 == old(client_w)@,
            s0 == old(server_w)@,
            taken.len() == acts.len(),
            frames(ins) == taken + frames(reader@),
            remainder(reader@) == remainder(ins),
            forall|i: int| 0 <= i < acts.len() ==> action_fits(#[trigger] acts[i]),
            client_w@ == c0 + routed_all(taken, acts, from_client).0,
            server_w@ == s0 + routed_all(taken, acts, from_client).1,
        ensures
            !has_packet(reader@),
            frames(ins) == taken,
        decreases reader@.len(),
    {
        let ghost cur = reader@;
        match reader.next() {
            Some(p) => {
                let a = if from_client {
                    handler.handle_request(&p)
                } else {
                    handler.handle_response(&p)
                };
                let ghost ga = a;
                let ghost cw = client_w@;
                let ghost sw = server_w@;
                let res = dispatch(a, &p, from_client, client_w, server_w);
                proof {
                    assert(frames(cur) == seq![p@] + frames(reader@));
                    assert(frames(ins) == taken.push(p@) + frames(reader@));
                    assert(remainder(cur) == remainder(reader@));
                    let acts2 = acts.push(ga);
                    let taken2 = taken.push(p@);
                    assert(acts2.drop_last() == acts);
                    assert(taken2.drop_last() == taken);
                    assert(acts2.last() == ga);
                    assert(taken2.last() == p@);
                    if res is Err {
                        let ps = frames(ins);
                        assert(ps.take(acts.len() as int) == taken);
                        assert(ps.skip(acts2.len() as int) == frames(reader@));
                        assert(forall|i: int| 0 <= i < acts.len() ==> acts2[i] == acts[i]);
                        assert(stopped_at(ins, acts2, from_client, c0, s0, client_w@, server_w@, reader@));
                    } else {
                        assert(forall|i: int| 0 <= i < acts.len() ==> acts2[i] == acts[i]);
                        assert(c0 + routed_all(taken, acts, from_client).0 + routed(ga, p@, from_client).0
                            == c0 + (routed_all(taken, acts, from_client).0 + routed(ga, p@, from_client).0));
                        assert(s0 + routed_all(taken, acts, from_client).1 + routed(ga, p@, from_client).1
                            == s0 + (routed_all(taken, acts, from_client).1 + routed(ga, p@, from_client).1));
                    }
                    acts = acts2;
                    taken = taken2;
                }
                if res.is_err() {
                    return res;
                }
            },
            None => {
                proof {
                    assert(frames(reader@) == Seq::<Seq<u8>>::empty());
                    assert(taken + Seq::<Seq<u8>>::empty() == taken);
                }
                break;
            },
        }
    }
    proof {
        assert(remainder(reader@) == reader@);
        assert(handled_all(ins, acts, from_client, c0, s0, client_w@, server_w@, reader@));
    }
    Ok(())
}

} // verus!

verus! {

/// One end of the pipe.
#[derive(Debug, Clone, Copy, PartialEq, Eq, Structural)]
pub enum Side {
    Client,
    Server,
}

/// What one socket operation of a poll round came to. For a read, `Ready`
/// means the peer has closed its side (the orderly close is absorbed); for a
/// write, that the queue is drained.
#[derive(Debug, Clone, Copy, PartialEq, Eq, Structural)]
pub enum IoStatus {
    Ready,
    NotReady,
    Failed,
}

/// What the driver of a pipe does after one poll round.
#[derive(Debug, Clone, Copy, PartialEq, Eq, Structural)]
pub enum PollOutcome {
    /// Progress was made: poll again.
    Again,
    /// Nothing more can happen until a socket is ready.
    NotReady,
    /// Both directions are closed and both queues drained.
    Complete,
    /// An I/O failure that the pipe cannot absorb.
    Failed,
}

/// The decision at the end of a poll round: a failure is surfaced; a round
/// in which all four operations are ready, with no whole packet left to
/// frame on either side, completes; otherwise the driver polls again while
/// it makes progress.
pub open spec fn poll_decision(
    client_read: IoStatus,
    server_read: IoStatus,
    client_write: IoStatus,
    server_write: IoStatus,
    framed_all: bool,
    progress: bool,
) -> PollOutcome {
    if client_read == IoStatus::Failed || server_read == IoStatus::Failed
        || client_write == IoStatus::Failed || server_write == IoStatus::Failed {
        PollOutcome::Failed
    } else if client_read == IoStatus::Ready && server_read == IoStatus::Ready
        && client_write == IoStatus::Ready && server_write == IoStatus::Ready && framed_all {
        PollOutcome::Complete
    } else if progress {
        PollOutcome::Again
    } else {
        PollOutcome::NotReady
    }
}

/// One proxied connection: a reader and a writer per side, and the handler.
/// A side's write half is shut down once the other side has closed and the
/// bytes queued for it have drained.
pub struct Pipe<H: PacketHandler> {
    client_reader: ConnReader,
    client_writer: ConnWriter,
    server_reader: ConnReader,
    server_writer: ConnWriter,
    handler: H,
    client_shut: bool,
    server_shut: bool,
}

impl<H: PacketHandler> Pipe<H> {
    /// Bytes received from `side` and not yet framed.
    pub closed spec fn input(&self, side: Side) -> Seq<u8> {
        match side {
            Side::Client => self.client_reader@,
            Side::Server => self.server_reader@,
        }
    }

    /// Bytes queued for `side` and not yet written.
    pub closed spec fn output(&self, side: Side) -> Seq<u8> {
        match side {
            Side::Client => self.client_writer@,
            Side::Server => self.server_writer@,
        }
    }

    /// Whether `side` has closed its end (its read returned no bytes).
    pub closed spec fn peer_closed(&self, side: Side) -> bool {
        match side {
            Side::Client => self.client_reader.is_closed(),
            Side::Server => self.server_reader.is_closed(),
        }
    }

    /// Whether the write half towards `side` has been shut down.
    pub closed spec fn write_shut(&self, side: Side) -> bool {
        match side {
            Side::Client => self.client_shut,
            Side::Server => self.server_shut,
        }
    }

    /// The handler that the pipe consults.
    pub closed spec fn handler_state(&self) -> H {
        self.handler
    }

    /// The handler, for inspecting the state it keeps per connection.
    pub fn handler(&self) -> (r: &H)
        ensures
            *r == self.handler_state(),
    {
        &self.handler
    }

    pub fn new(handler: H) -> (p: Pipe<H>)
        ensures
            forall|s: Side| #[trigger] p.input(s) == Seq::<u8>::empty(),
            forall|s: Side| #[trigger] p.output(s) == Seq::<u8>::empty(),
            forall|s: Side| !#[trigger] p.peer_closed(s),
            forall|s: Side| !#[trigger] p.write_shut(s),
            p.handler_state() == handler,
    {
        Pipe {
            client_reader: ConnReader::new(),
            client_writer: ConnWriter::new(),
            server_reader: ConnReader::new(),
            server_writer: ConnWriter::new(),
            handler,
            client_shut: false,
            server_shut: false,
        }
    }

    /// Takes in the bytes of one read from `side`'s socket. An empty read is
    /// that peer's orderly close: it returns `false` and marks the side closed.
    pub fn read(&mut self, side: Side, data: &[u8]) -> (open: bool)
        ensures
            open == (data@.len() > 0),
            final(self).input(side) == old(self).input(side) + data@,
            final(self).peer_closed(side) == (old(self).peer_closed(side) || data@.len() == 0),
            forall|s: Side| #[trigger] final(self).output(s) == old(self).output(s),
            forall|s: Side| #[trigger] final(self).write_shut(s) == old(self).write_shut(s),
            forall|s: Side| s != side ==> #[trigger] final(self).input(s) == old(self).input(s),
            forall|s: Side| s != side ==> #[trigger] final(self).peer_closed(s) == old(self).peer_closed(s),
    {
        match side {
            Side::Client => self.client_reader.read(data),
            Side::Server => self.server_reader.read(data),
        }
    }

    /// Frames every whole request received from the client, hands each to
    /// the handler, and queues what its action calls for.
    pub fn process_requests(&mut self) -> (r: Result<(), PipeError>)
        ensures
            r is Ok ==> exists|acts: Seq<Action>|
                handled_all(
                    old(self).input(Side::Client),
                    acts,
                    true,
                    old(self).output(Side::Client),
                    old(self).output(Side::Server),
                    final(self).output(Side::Client),
                    final(self).output(Side::Server),
                    final(self).input(Side::Client),
                ),
            r is Err ==> exists|acts: Seq<Action>|
                stopped_at(
                    old(self).input(Side::Client),
                    acts,
                    true,
                    old(self).output(Side::Client),
                    old(self).output(Side::Server),
                    final(self).output(Side::Client),
                    final(self).output(Side::Server),
                    final(self).input(Side::Client),
                ),
            final(self).input(Side::Server) == old(self).input(Side::Server),
            forall|s: Side| #[trigger] final(self).peer_closed(s) == old(self).peer_closed(s),
            forall|s: Side| #[trigger] final(self).write_shut(s) == old(self).write_shut(s),
    {
        let ghost pre = *old(self);
        let r = handle_all(
            &mut self.handler,
            &mut self.client_reader,
            true,
            &mut self.client_writer,
            &mut self.server_writer,
        );
        proof {
            let args = (pre.input(Side::Client), pre.output(Side::Client), pre.output(Side::Server));
            if r is Ok {
                let acts = choose|acts: Seq<Action>|
                    handled_all(
                        args.0,
                        acts,
                        true,
                        args.1,
                        args.2,
                        self.client_writer@,
                        self.server_writer@,
                        self.client_reader@,
                    );
                assert(handled_all(
                    args.0,
                    acts,
                    true,
                    args.1,
                    args.2,
                    self.output(Side::Client),
                    self.output(Side::Server),
                    self.input(Side::Client),
                ));
            } else {
                let acts = choose|acts: Seq<Action>|
                    stopped_at(
                        args.0,
                        acts,
                        true,
                        args.1,
                        args.2,
                        self.client_writer@,
                        self.server_writer@,
                        self.client_reader@,
                    );
                assert(stopped_at(
                    args.0,
                    acts,
                    true,
                    args.1,
                    args.2,
                    self.output(Side::Client),
                    self.output(Side::Server),
                    self.input(Side::Client),
                ));
            }
        }
        r
    }

    /// Frames every whole response received from the server, hands each to
    /// the handler, and queues what its action calls for.
    pub fn process_responses(&mut self) -> (r: Result<(), PipeError>)
        ensures
            r is Ok ==> exists|acts: Seq<Action>|
                handled_all(
                    old(self).input(Side::Server),
                    acts,
                    false,
                    old(self).output(Side::Client),
                    old(self).output(Side::Server),
                    final(self).output(Side::Client),
                    final(self).output(Side::Server),
                    final(self).input(Side::Server),
                ),
            r is Err ==> exists|acts: Seq<Action>|
                stopped_at(
                    old(self).input(Side::Server),
                    acts,
                    false,
                    old(self).output(Side::Client),
                    old(self).output(Side::Server),
                    final(self).output(Side::Client),
                    final(self).output(Side::Server),
                    final(self).input(Side::Server),
                ),
            final(self).input(Side::Client) == old(self).input(Side::Client),
            forall|s: Side| #[trigger] final(self).peer_closed(s) == old(self).peer_closed(s),
            forall|s: Side| #[trigger] final(self).write_shut(s) == old(self).write_shut(s),
    {
        let ghost pre = *old(self);
        let r = handle_all(
            &mut self.handler,
            &mut self.server_reader,
            false,
            &mut self.client_writer,
            &mut self.server_writer,
        );
        proof {
            let args = (pre.input(Side::Server), pre.output(Side::Client), pre.output(Side::Server));
            if r is Ok {
                let acts = choose|acts: Seq<Action>|
                    handled_all(
                        args.0,
                        acts,
                        false,
                        args.1,
                        args.2,
                        self.client_writer@,
                        self.server_writer@,
                        self.server_reader@,
                    );
                assert(handled_all(
                    args.0,
                    acts,
                    false,
                    args.1,
                    args.2,
                    self.output(Side::Client),
                    self.output(Side::Server),
                    self.input(Side::Server),
                ));
            } else {
                let acts = choose|acts: Seq<Action>|
                    stopped_at(
                        args.0,
                        acts,
                        false,
                        args.1,
                        args.2,
                        self.client_writer@,
                        self.server_writer@,
                        self.server_reader@,
                    );
                assert(stopped_at(
                    args.0,
                    acts,
                    false,
                    args.1,
                    args.2,
                    self.output(Side::Client),
                    self.output(Side::Server),
                    self.input(Side::Server),
                ));
            }
        }
        r
    }

    /// Carries out action `a` for a request from the client `p`: queues on each
    /// side exactly the bytes that `routed` gives, each packet whole. Fails,
    /// queueing nothing, only when `a` asks for an error packet too long for
    /// the length field.
    pub fn apply_request(&mut self, p: &Packet, a: Action) -> (r: Result<(), PipeError>)
        ensures
            r is Ok <==> action_fits(a),
            r is Ok ==> final(self).output(Side::Client) == old(self).output(Side::Client)
                + routed(a, p@, true).0 && final(self).output(Side::Server) == old(self).output(
                Side::Server,
            ) + routed(a, p@, true).1,
            r is Err ==> final(self).output(Side::Client) == old(self).output(Side::Client)
                && final(self).output(Side::Server) == old(self).output(Side::Server),
            forall|s: Side| #[trigger] final(self).input(s) == old(self).input(s),
            forall|s: Side| #[trigger] final(self).peer_closed(s) == old(self).peer_closed(s),
            forall|s: Side| #[trigger] final(self).write_shut(s) == old(self).write_shut(s),
    {
        dispatch(a, p, true, &mut self.client_writer, &mut self.server_writer)
    }

    /// Carries out action `a` for a response from the server `p`: queues on each
    /// side exactly the bytes that `routed` gives, each packet whole. Fails,
    /// queueing nothing, only when `a` asks for an error packet too long for
    /// the length field.
    pub fn apply_response(&mut self, p: &Packet, a: Action) -> (r: Result<(), PipeError>)
        ensures
            r is Ok <==> action_fits(a),
            r is Ok ==> final(self).output(Side::Client) == old(self).output(Side::Client)
                + routed(a, p@, false).0 && final(self).output(Side::Server) == old(self).output(
                Side::Server,
            ) + routed(a, p@, false).1,
            r is Err ==> final(self).output(Side::Client) == old(self).output(Side::Client)
                && final(self).output(Side::Server) == old(self).output(Side::Server),
            forall|s: Side| #[trigger] final(self).input(s) == old(self).input(s),
            forall|s: Side| #[trigger] final(self).peer_closed(s) == old(self).peer_closed(s),
            forall|s: Side| #[trigger] final(self).write_shut(s) == old(self).write_shut(s),
    {
        dispatch(a, p, false, &mut self.client_writer, &mut self.server_writer)
    }

    /// The bytes queued for `side`, in the order they are to be sent.
    pub fn pending(&self, side: Side) -> (r: &[u8])
        ensures
            r@ == self.output(side),
    {
        match side {
            Side::Client => self.client_writer.pending(),
            Side::Server => self.server_writer.pending(),
        }
    }

    /// Records that `side`'s socket accepted the first `n` queued bytes.
    pub fn written(&mut self, side: Side, n: usize)
        requires
            n <= old(self).output(side).len(),
        ensures
            final(self).output(side) == old(self).output(side).skip(n as int),
            forall|s: Side| s != side ==> #[trigger] final(self).output(s) == old(self).output(s),
            forall|s: Side| #[trigger] final(self).input(s) == old(self).input(s),
            forall|s: Side| #[trigger] final(self).peer_closed(s) == old(self).peer_closed(s),
            forall|s: Side| #[trigger] final(self).write_shut(s) == old(self).write_shut(s),
    {
        match side {
            Side::Client => self.client_writer.advance(n),
            Side::Server => self.server_writer.advance(n),
        }
    }

    /// Whether the write half towards `side` is to be shut down now: the
    /// other peer has closed, nothing is left queued for `side`, and it has
    /// not been shut down before. Answers `true` at most once per side.
    pub fn take_shutdown(&mut self, side: Side) -> (r: bool)
        ensures
            r == (old(self).peer_closed(other(side)) && old(self).output(side).len() == 0
                && !old(self).write_shut(side)),
            final(self).write_shut(side) == (old(self).write_shut(side) || r),
            forall|s: Side| s != side ==> #[trigger] final(self).write_shut(s) == old(self).write_shut(s),
            forall|s: Side| #[trigger] final(self).input(s) == old(self).input(s),
            forall|s: Side| #[trigger] final(self).output(s) == old(self).output(s),
            forall|s: Side| #[trigger] final(self).peer_closed(s) == old(self).peer_closed(s),
    {
        match side {
            Side::Client => {
                let r = self.server_reader.closed() && self.client_writer.is_empty()
                    && !self.client_shut;
                if r {
                    self.client_shut = true;
                }
                r
            },
            Side::Server => {
                let r = self.client_reader.closed() && self.server_writer.is_empty()
                    && !self.server_shut;
                if r {
                    self.server_shut = true;
                }
                r
            },
        }
    }

    /// Decides how a poll round ends, from the four operations' statuses
    /// and whether the round made progress.
    pub fn decide(
        &self,
        client_read: IoStatus,
        server_read: IoStatus,
        client_write: IoStatus,
        server_write: IoStatus,
        progress: bool,
    ) -> (r: PollOutcome)
        ensures
            r == poll_decision(
                client_read,
                server_read,
                client_write,
                server_write,
                !has_packet(self.input(Side::Client)) && !has_packet(self.input(Side::Server)),
                progress,
            ),
    {
        if client_read == IoStatus::Failed || server_read == IoStatus::Failed
            || client_write == IoStatus::Failed || server_write == IoStatus::Failed {
            return PollOutcome::Failed;
        }
        let framed_all = next_packet_len(self.client_reader.buffered()).is_none()
            && next_packet_len(self.server_reader.buffered()).is_none();
        if client_read == IoStatus::Ready && server_read == IoStatus::Ready
            && client_write == IoStatus::Ready && server_write == IoStatus::Ready && framed_all {
            PollOutcome::Complete
        } else if progress {
            PollOutcome::Again
        } else {
            PollOutcome::NotReady
        }
    }
}

/// The opposite end.
pub open spec fn other(side: Side) -> Side {
    match side {
        Side::Client => Side::Server,
        Side::Server => Side::Client,
    }
}

} // verus!
