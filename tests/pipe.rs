use mysql_proxy::{Action, IoStatus, Packet, PacketHandler, PacketType, Pipe, PipeError, PollOutcome, Side};

struct Passthrough;

impl PacketHandler for Passthrough {
    fn handle_request(&mut self, _: &Packet) -> Action {
        Action::Forward
    }

    fn handle_response(&mut self, _: &Packet) -> Action {
        Action::Forward
    }
}

/// Counts the packets it sees and forwards them.
struct Counting {
    requests: usize,
    responses: usize,
}

impl PacketHandler for Counting {
    fn handle_request(&mut self, _: &Packet) -> Action {
        self.requests += 1;
        Action::Forward
    }

    fn handle_response(&mut self, _: &Packet) -> Action {
        self.responses += 1;
        Action::Forward
    }
}

struct Avocado;

impl PacketHandler for Avocado {
    fn handle_request(&mut self, p: &Packet) -> Action {
        if let Ok(PacketType::ComQuery) = p.packet_type() {
            let body = &p.bytes[5..];
            if body.windows(7).any(|w| w == b"avocado") {
                return Action::Error {
                    code: 1064,
                    state: *b"12345",
                    msg: "Proxy rejecting any avocado-related queries".to_string(),
                };
            }
        }
        Action::Forward
    }

    fn handle_response(&mut self, _: &Packet) -> Action {
        Action::Forward
    }
}

/// Drops responses whose sequence id is 2.
struct DropSeq2;

impl PacketHandler for DropSeq2 {
    fn handle_request(&mut self, _: &Packet) -> Action {
        Action::Forward
    }

    fn handle_response(&mut self, p: &Packet) -> Action {
        if p.sequence_id() == 2 {
            Action::Drop
        } else {
            Action::Forward
        }
    }
}

/// Answers pings itself, and on responses injects a packet towards the server.
struct Responder;

fn ok_packet() -> Packet {
    Packet { bytes: vec![7, 0, 0, 1, 0, 0, 0, 2, 0, 0, 0] }
}

impl PacketHandler for Responder {
    fn handle_request(&mut self, p: &Packet) -> Action {
        match p.packet_type() {
            Ok(PacketType::ComPing) => Action::Respond(vec![ok_packet()]),
            _ => Action::Forward,
        }
    }

    fn handle_response(&mut self, _: &Packet) -> Action {
        Action::Respond(vec![Packet { bytes: vec![1, 0, 0, 0, 0x0e] }])
    }
}

/// Replaces every request with a quit, and answers every response with an error.
struct Rewriter {
    long_msg: bool,
}

impl PacketHandler for Rewriter {
    fn handle_request(&mut self, _: &Packet) -> Action {
        Action::Mutate(Packet { bytes: vec![1, 0, 0, 0, 0x01] })
    }

    fn handle_response(&mut self, _: &Packet) -> Action {
        let msg = if self.long_msg { "x".repeat(0xff_ffff - 8) } else { "no".to_string() };
        Action::Error { code: 2, state: *b"HY000", msg }
    }
}

const PING: [u8; 5] = [1, 0, 0, 0, 0x0e];
const OK: [u8; 11] = [7, 0, 0, 1, 0, 0, 0, 2, 0, 0, 0];

fn drain<H: PacketHandler>(pipe: &mut Pipe<H>, side: Side) -> Vec<u8> {
    let out = pipe.pending(side).to_vec();
    pipe.written(side, out.len());
    out
}

#[test]
fn minimal_ping_round_trip() {
    let mut pipe = Pipe::new(Passthrough);
    assert!(pipe.read(Side::Client, &PING));
    assert_eq!(pipe.process_requests(), Ok(()));
    assert_eq!(drain(&mut pipe, Side::Server), PING.to_vec());
    assert!(pipe.read(Side::Server, &OK));
    assert_eq!(pipe.process_responses(), Ok(()));
    assert_eq!(drain(&mut pipe, Side::Client), OK.to_vec());
    assert!(pipe.pending(Side::Server).is_empty());
}

#[test]
fn split_read_framing() {
    let mut pipe = Pipe::new(Counting { requests: 0, responses: 0 });
    let mut sent = Vec::new();
    for b in PING.iter() {
        assert!(pipe.read(Side::Client, &[*b]));
        assert_eq!(pipe.process_requests(), Ok(()));
        sent.extend(drain(&mut pipe, Side::Server));
    }
    assert_eq!(sent, PING.to_vec());
    let h = pipe.handler();
    assert_eq!(h.requests, 1);
    assert_eq!(h.responses, 0);
}

#[test]
fn avocado_rejection() {
    let mut pipe = Pipe::new(Avocado);
    let mut req = vec![8, 0, 0, 0, 0x03];
    req.extend_from_slice(b"avocado");
    assert!(pipe.read(Side::Client, &req));
    assert_eq!(pipe.process_requests(), Ok(()));
    assert!(pipe.pending(Side::Server).is_empty());
    let msg = b"Proxy rejecting any avocado-related queries";
    let mut expected = vec![(9 + msg.len()) as u8, 0, 0, 1];
    expected.extend_from_slice(&[0xff, 0x28, 0x04, 0x23, b'1', b'2', b'3', b'4', b'5']);
    expected.extend_from_slice(msg);
    assert_eq!(expected[0], 0x34);
    assert_eq!(pipe.pending(Side::Client).to_vec(), expected);
    // a query without the word still goes through
    let mut ok_req = vec![4, 0, 0, 0, 0x03];
    ok_req.extend_from_slice(b"abc");
    assert!(pipe.read(Side::Client, &ok_req));
    assert_eq!(pipe.process_requests(), Ok(()));
    assert_eq!(pipe.pending(Side::Server).to_vec(), ok_req);
}

#[test]
fn drop_on_response() {
    let mut pipe = Pipe::new(DropSeq2);
    let r1 = vec![1, 0, 0, 1, 0xaa];
    let r2 = vec![1, 0, 0, 2, 0xbb];
    let r3 = vec![2, 0, 0, 3, 0xcc, 0xdd];
    let mut all = r1.clone();
    all.extend(&r2);
    all.extend(&r3);
    assert!(pipe.read(Side::Server, &all));
    assert_eq!(pipe.process_responses(), Ok(()));
    let mut expected = r1.clone();
    expected.extend(&r3);
    assert_eq!(pipe.pending(Side::Client).to_vec(), expected);
    assert!(pipe.pending(Side::Server).is_empty());
}

#[test]
fn half_close_propagation() {
    let mut pipe = Pipe::new(Passthrough);
    let mut two = PING.to_vec();
    two.extend_from_slice(&[1, 0, 0, 0, 0x01]);
    assert!(pipe.read(Side::Client, &two));
    assert!(!pipe.read(Side::Client, &[]));
    assert_eq!(pipe.process_requests(), Ok(()));
    // the server's write half waits for its queue to drain
    assert!(!pipe.take_shutdown(Side::Server));
    assert!(pipe.read(Side::Server, &OK));
    assert_eq!(pipe.process_responses(), Ok(()));
    assert_eq!(drain(&mut pipe, Side::Server), two);
    assert!(pipe.take_shutdown(Side::Server));
    assert!(!pipe.take_shutdown(Side::Server));
    // the server closes in turn; its pending bytes still reach the client
    assert!(!pipe.read(Side::Server, &[]));
    assert!(!pipe.take_shutdown(Side::Client));
    assert_eq!(
        pipe.decide(IoStatus::Ready, IoStatus::Ready, IoStatus::NotReady, IoStatus::Ready, true),
        PollOutcome::Again
    );
    assert_eq!(drain(&mut pipe, Side::Client), OK.to_vec());
    assert!(pipe.take_shutdown(Side::Client));
    assert_eq!(
        pipe.decide(IoStatus::Ready, IoStatus::Ready, IoStatus::Ready, IoStatus::Ready, false),
        PollOutcome::Complete
    );
}

#[test]
fn respond_injects_on_same_side() {
    let mut pipe = Pipe::new(Responder);
    assert!(pipe.read(Side::Client, &PING));
    assert_eq!(pipe.process_requests(), Ok(()));
    assert!(pipe.pending(Side::Server).is_empty());
    assert_eq!(drain(&mut pipe, Side::Client), OK.to_vec());
    let query = vec![2, 0, 0, 0, 0x03, b'x'];
    assert!(pipe.read(Side::Client, &query));
    assert_eq!(pipe.process_requests(), Ok(()));
    assert_eq!(drain(&mut pipe, Side::Server), query);
    assert!(pipe.pending(Side::Client).is_empty());
}

#[test]
fn respond_on_response_goes_to_server() {
    let mut pipe = Pipe::new(Responder);
    assert!(pipe.read(Side::Server, &OK));
    assert_eq!(pipe.process_responses(), Ok(()));
    assert!(pipe.pending(Side::Client).is_empty());
    assert_eq!(pipe.pending(Side::Server).to_vec(), PING.to_vec());
}

#[test]
fn mutate_and_error_routing() {
    let mut pipe = Pipe::new(Rewriter { long_msg: false });
    assert!(pipe.read(Side::Client, &PING));
    assert_eq!(pipe.process_requests(), Ok(()));
    assert_eq!(pipe.pending(Side::Server).to_vec(), vec![1, 0, 0, 0, 0x01]);
    assert!(pipe.read(Side::Server, &OK));
    assert_eq!(pipe.process_responses(), Ok(()));
    let e = Packet::error_packet(2, *b"HY000", "no".to_string());
    assert_eq!(pipe.pending(Side::Client).to_vec(), e.bytes);
    assert_eq!(pipe.pending(Side::Server).to_vec(), vec![1, 0, 0, 0, 0x01]);
}

#[test]
fn error_message_too_long_stops_handling() {
    let mut pipe = Pipe::new(Rewriter { long_msg: true });
    let mut two = OK.to_vec();
    two.extend_from_slice(&OK);
    assert!(pipe.read(Side::Server, &two));
    assert_eq!(pipe.process_responses(), Err(PipeError::MessageTooLong));
    assert!(pipe.pending(Side::Client).is_empty());
    assert!(pipe.pending(Side::Server).is_empty());
}

#[test]
fn forward_preserves_bytes_across_chunkings() {
    let mut stream = PING.to_vec();
    stream.extend_from_slice(&[0, 0, 0, 5]);
    stream.extend_from_slice(&[3, 0, 0, 6, 0x03, b'a', b'b']);
    stream.extend_from_slice(&[2, 0, 0]);
    for cut in [1usize, 2, 3, 7, 100] {
        let mut pipe = Pipe::new(Passthrough);
        let mut out = Vec::new();
        for chunk in stream.chunks(cut) {
            assert!(pipe.read(Side::Client, chunk));
            assert_eq!(pipe.process_requests(), Ok(()));
            out.extend(drain(&mut pipe, Side::Server));
        }
        // the trailing partial header is never forwarded
        assert_eq!(out, stream[..stream.len() - 3].to_vec());
    }
}

#[test]
fn decide_outcomes() {
    let mut pipe = Pipe::new(Passthrough);
    let r = IoStatus::Ready;
    let n = IoStatus::NotReady;
    let f = IoStatus::Failed;
    assert_eq!(pipe.decide(r, r, r, f, true), PollOutcome::Failed);
    assert_eq!(pipe.decide(f, n, n, n, false), PollOutcome::Failed);
    assert_eq!(pipe.decide(n, n, r, r, true), PollOutcome::Again);
    assert_eq!(pipe.decide(n, n, r, r, false), PollOutcome::NotReady);
    assert_eq!(pipe.decide(r, r, r, r, false), PollOutcome::Complete);
    // a whole packet still waiting to be framed keeps the pipe open
    assert!(pipe.read(Side::Client, &PING));
    assert_eq!(pipe.decide(r, r, r, r, false), PollOutcome::NotReady);
}

#[test]
fn drop_and_respond_are_local() {
    let mut pipe = Pipe::new(Passthrough);
    let p = Packet { bytes: PING.to_vec() };
    assert_eq!(pipe.apply_request(&p, Action::Drop), Ok(()));
    assert_eq!(pipe.apply_response(&p, Action::Drop), Ok(()));
    assert!(pipe.pending(Side::Client).is_empty());
    assert!(pipe.pending(Side::Server).is_empty());
    let v = vec![ok_packet(), Packet { bytes: vec![0, 0, 0, 2] }];
    assert_eq!(pipe.apply_request(&p, Action::Respond(v)), Ok(()));
    let mut expected = OK.to_vec();
    expected.extend_from_slice(&[0, 0, 0, 2]);
    assert_eq!(pipe.pending(Side::Client).to_vec(), expected);
    assert!(pipe.pending(Side::Server).is_empty());
    assert_eq!(pipe.apply_request(&p, Action::Respond(Vec::new())), Ok(()));
    assert_eq!(pipe.pending(Side::Client).to_vec(), expected);
}

#[test]
fn apply_rejects_oversized_error_message() {
    let mut pipe = Pipe::new(Passthrough);
    let p = Packet { bytes: PING.to_vec() };
    let fits = "y".repeat(0xff_ffff - 9);
    let a = Action::Error { code: 1, state: *b"00000", msg: fits };
    assert_eq!(pipe.apply_response(&p, a), Ok(()));
    assert_eq!(&pipe.pending(Side::Client)[..4], &[0xff, 0xff, 0xff, 1]);
    let n = pipe.pending(Side::Client).len();
    pipe.written(Side::Client, n);
    let too_long = "y".repeat(0xff_ffff - 8);
    let b = Action::Error { code: 1, state: *b"00000", msg: too_long };
    assert_eq!(pipe.apply_request(&p, b), Err(PipeError::MessageTooLong));
    assert!(pipe.pending(Side::Client).is_empty());
}
