//! Decoder for SBUS, the 25-byte serial frame format that carries sixteen
//! 11-bit channel values and four status flags from a radio receiver.
//!
//! - [`codec`] packs and unpacks single frames.
//! - [`streaming`] finds frames in a byte stream and recovers from noise.
//! - [`laws`] holds what is proved of the streaming synchronizer.
//! - [`buffered`] is the parser that queues bytes and parses on demand.
//! - [`deque`] states what is assumed of the queue that it uses.

pub mod buffered;
pub mod codec;
pub mod deque;
pub mod error;
pub mod laws;
pub mod streaming;

pub use buffered::{SBusPacket, SBusPacketParser};
pub use codec::{
    is_flag_set, pack_channels, pack_frame, unpack_channels, Flags, SbusPacket, CHANNEL_COUNT,
    CHANNEL_MAX, SBUS_FOOTER, SBUS_FRAME_LENGTH, SBUS_HEADER,
};
pub use deque::MAX_PACKET_SIZE;
pub use error::SbusError;
pub use streaming::{StreamingIterator, StreamingParser, StreamingStats};
