use vstd::prelude::*;
use vstd::utf8::encode_utf8;
use byteorder::{ByteOrder, LittleEndian};

verus! {

/// The largest payload length that fits the 3-byte length field.
pub const MAX_PAYLOAD_LEN: usize = 0xff_ffff;

/// The three little-endian bytes that encode a payload length `n < 2^24`.
pub open spec fn le24(n: nat) -> Seq<u8> {
    seq![(n % 256) as u8, ((n / 256) % 256) as u8, ((n / 65536) % 256) as u8]
}

/// The two little-endian bytes of a 16-bit integer.
pub open spec fn le16(n: u16) -> Seq<u8> {
    seq![(n % 256) as u8, (n / 256) as u8]
}

/// The payload of a MySQL error packet: marker, code, `#`, SQL state, message.
pub open spec fn error_payload(code: u16, state: Seq<u8>, msg: Seq<u8>) -> Seq<u8> {
    seq![0xffu8] + le16(code) + seq![0x23u8] + state + msg
}

/// The wire bytes of a MySQL error packet (sequence id 1).
pub open spec fn error_packet_bytes(code: u16, state: Seq<u8>, msg: Seq<u8>) -> Seq<u8> {
    let payload = error_payload(code, state, msg);
    le24(payload.len()) + seq![1u8] + payload
}

/// A framed MySQL packet: 4-byte header (3-byte length, sequence id) and payload.
#[derive(Debug, PartialEq)]
pub struct Packet {
    pub bytes: Vec<u8>,
}

/// The text-protocol command carried by the first payload byte of a request.
#[derive(Debug, Clone, Copy, PartialEq, Eq, Structural)]
pub enum PacketType {
    ComSleep,
    ComQuit,
    ComInitDb,
    ComQuery,
    ComFieldList,
    ComCreateDb,
    ComDropDb,
    ComRefresh,
    ComShutdown,
    ComStatistics,
    ComProcessInfo,
    ComConnect,
    ComProcessKill,
    ComDebug,
    ComPing,
    ComTime,
    ComDelayedInsert,
    ComChangeUser,
    ComBinlogDump,
    ComTableDump,
    ComConnectOut,
    ComRegisterSlave,
    ComStmtPrepare,
    ComStmtExecute,
    ComStmtSendLongData,
    ComStmtClose,
    ComStmtReset,
    ComDaemon,
    ComBinlogDumpGtid,
    ComResetConnection,
}

/// Why a packet could not be classified.
#[derive(Debug, Clone, Copy, PartialEq, Eq, Structural)]
pub enum PacketError {
    /// The packet has no payload byte to classify.
    MissingCommand,
    /// The command byte is not one of the known commands.
    UnknownCommand(u8),
}

/// What a handler decides for one packet.
#[derive(Debug, PartialEq)]
pub enum Action {
    /// Discard the packet.
    Drop,
    /// Send the packet unchanged to the opposite side.
    Forward,
    /// Send the given packet to the opposite side instead.
    Mutate(Packet),
    /// Send the given packets back to the originating side; do not forward.
    Respond(Vec<Packet>),
    /// Send an error packet back to the originating side; do not forward.
    Error { code: u16, state: [u8; 5], msg: String },
}

/// The command byte's meaning, where it has one.
pub open spec fn command_of(b: u8) -> Option<PacketType> {
    if b == 0x00 { Some(PacketType::ComSleep) }
    else if b == 0x01 { Some(PacketType::ComQuit) }
    else if b == 0x02 { Some(PacketType::ComInitDb) }
    else if b == 0x03 { Some(PacketType::ComQuery) }
    else if b == 0x04 { Some(PacketType::ComFieldList) }
    else if b == 0x05 { Some(PacketType::ComCreateDb) }
    else if b == 0x06 { Some(PacketType::ComDropDb) }
    else if b == 0x07 { Some(PacketType::ComRefresh) }
    else if b == 0x08 { Some(PacketType::ComShutdown) }
    else if b == 0x09 { Some(PacketType::ComStatistics) }
    else if b == 0x0a { Some(PacketType::ComProcessInfo) }
    else if b == 0x0b { Some(PacketType::ComConnect) }
    else if b == 0x0c { Some(PacketType::ComProcessKill) }
    else if b == 0x0d { Some(PacketType::ComDebug) }
    else if b == 0x0e { Some(PacketType::ComPing) }
    else if b == 0x0f { Some(PacketType::ComTime) }
    else if b == 0x10 { Some(PacketType::ComDelayedInsert) }
    else if b == 0x11 { Some(PacketType::ComChangeUser) }
    else if b == 0x12 { Some(PacketType::ComBinlogDump) }
    else if b == 0x13 { Some(PacketType::ComTableDump) }
    else if b == 0x14 { Some(PacketType::ComConnectOut) }
    else if b == 0x15 { Some(PacketType::ComRegisterSlave) }
    else if b == 0x16 { Some(PacketType::ComStmtPrepare) }
    else if b == 0x17 { Some(PacketType::ComStmtExecute) }
    else if b == 0x18 { Some(PacketType::ComStmtSendLongData) }
    else if b == 0x19 { Some(PacketType::ComStmtClose) }
    else if b == 0x1a { Some(PacketType::ComStmtReset) }
    else if b == 0x1d { Some(PacketType::ComDaemon) }
    else if b == 0x1e { Some(PacketType::ComBinlogDumpGtid) }
    else if b == 0x1f { Some(PacketType::ComResetConnection) }
    else { None }
}

/// Relies on byteorder's `LittleEndian::write_u16`: the low byte, then the high byte.
#[verifier::external_body]
fn u16_le_bytes(n: u16) -> (r: [u8; 2])
    ensures
        r@ == le16(n),
{
    let mut buf = [0u8; 2];
    LittleEndian::write_u16(&mut buf, n);
    buf
}

/// Relies on byteorder's `LittleEndian::write_u24`: the three low bytes of `n`,
/// least significant first (it panics on a value that needs more than three).
#[verifier::external_body]
fn u24_le_bytes(n: u32) -> (r: [u8; 3])
    requires
        n <= 0xff_ffff,
    ensures
        r@ == le24(n as nat),
{
    let mut buf = [0u8; 3];
    LittleEndian::write_u24(&mut buf, n);
    buf
}

/// Appends `src` to `dst`.
pub(crate) fn append_bytes(dst: &mut Vec<u8>, src: &[u8])
    ensures
        final(dst)@ == old(dst)@ + src@,
{
    let mut i: usize = 0;
    while i < src.len()
        invariant
            i <= src@.len(),
            dst@ == old(dst)@ + src@.subrange(0, i as int),
        decreases src@.len() - i,
    {
        dst.push(src[i]);
        i = i + 1;
        assert(src@.subrange(0, i as int) == src@.subrange(0, i - 1 as int).push(src@[i - 1]));
    }
    assert(src@.subrange(0, src@.len() as int) == src@);
}

impl Packet {
    /// The packet's wire bytes.
    pub open spec fn view(&self) -> Seq<u8> {
        self.bytes@
    }

    /// Builds the standard MySQL error packet: payload
    /// `0xff, code (LE), '#', state, msg` under a header with sequence id 1.
    pub fn error_packet(code: u16, state: [u8; 5], msg: String) -> (p: Packet)
        requires
            encode_utf8(msg@).len() + 9 <= MAX_PAYLOAD_LEN,
        ensures
            p@ == error_packet_bytes(code, state@, encode_utf8(msg@)),
    {
        let mut payload: Vec<u8> = Vec::new();
        payload.push(0xff);
        let c = u16_le_bytes(code);
        payload.push(c[0]);
        payload.push(c[1]);
        payload.push(0x23);
        append_bytes(&mut payload, &state);
        append_bytes(&mut payload, msg.as_str().as_bytes());
        let h = u24_le_bytes(payload.len() as u32);
        let mut bytes: Vec<u8> = Vec::new();
        bytes.push(h[0]);
        bytes.push(h[1]);
        bytes.push(h[2]);
        bytes.push(1);
        append_bytes(&mut bytes, payload.as_slice());
        Packet { bytes }
    }

    /// The sequence id, the fourth header byte.
    pub fn sequence_id(&self) -> (r: u8)
        requires
            self@.len() >= 4,
        ensures
            r == self@[3],
    {
        self.bytes[3]
    }

    /// Classifies a request by its command byte, the first payload byte.
    pub fn packet_type(&self) -> (r: Result<PacketType, PacketError>)
        ensures
            self@.len() <= 4 ==> r == Err::<PacketType, PacketError>(PacketError::MissingCommand),
            self@.len() > 4 ==> r == (match command_of(self@[4]) {
                Some(t) => Ok::<PacketType, PacketError>(t),
                None => Err(PacketError::UnknownCommand(self@[4])),
            }),
    {
        if self.bytes.len() <= 4 {
            return Err(PacketError::MissingCommand);
        }
        let b = self.bytes[4];
        match b {
            0x00 => Ok(PacketType::ComSleep),
            0x01 => Ok(PacketType::ComQuit),
            0x02 => Ok(PacketType::ComInitDb),
            0x03 => Ok(PacketType::ComQuery),
            0x04 => Ok(PacketType::ComFieldList),
            0x05 => Ok(PacketType::ComCreateDb),
            0x06 => Ok(PacketType::ComDropDb),
            0x07 => Ok(PacketType::ComRefresh),
            0x08 => Ok(PacketType::ComShutdown),
            0x09 => Ok(PacketType::ComStatistics),
            0x0a => Ok(PacketType::ComProcessInfo),
            0x0b => Ok(PacketType::ComConnect),
            0x0c => Ok(PacketType::ComProcessKill),
            0x0d => Ok(PacketType::ComDebug),
            0x0e => Ok(PacketType::ComPing),
            0x0f => Ok(PacketType::ComTime),
            0x10 => Ok(PacketType::ComDelayedInsert),
            0x11 => Ok(PacketType::ComChangeUser),
            0x12 => Ok(PacketType::ComBinlogDump),
            0x13 => Ok(PacketType::ComTableDump),
            0x14 => Ok(PacketType::ComConnectOut),
            0x15 => Ok(PacketType::ComRegisterSlave),
            0x16 => Ok(PacketType::ComStmtPrepare),
            0x17 => Ok(PacketType::ComStmtExecute),
            0x18 => Ok(PacketType::ComStmtSendLongData),
            0x19 => Ok(PacketType::ComStmtClose),
            0x1a => Ok(PacketType::ComStmtReset),
            0x1d => Ok(PacketType::ComDaemon),
            0x1e => Ok(PacketType::ComBinlogDumpGtid),
            0x1f => Ok(PacketType::ComResetConnection),
            _ => Err(PacketError::UnknownCommand(b)),
        }
    }
}

} // verus!
