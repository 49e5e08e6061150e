//! A programmable MySQL proxy core: packet framing, per-direction buffering,
//! and the routing decisions that a connection pipe takes for each packet.
//! Socket I/O lives outside this crate's verified part; everything here is
//! plain data in, plain data out.

pub mod framing;
pub mod packet;
pub mod pipe;
pub mod reader;
pub mod writer;

pub use packet::{Action, Packet, PacketError, PacketType};
pub use pipe::{IoStatus, PacketHandler, Pipe, PipeError, PollOutcome, Side};
pub use reader::ConnReader;
pub use writer::ConnWriter;
