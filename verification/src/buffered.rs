//! The buffered parser: queues incoming bytes, up to 50 of them, and looks
//! for a frame at the front of the queue when asked.

use vstd::prelude::*;
use crate::codec::{
    flag_set,
    frame_valid,
    is_flag_set,
    reserved_bits_clear,
    unpack_channels,
    unpack_spec,
    unpacked_channels,
    Flags,
    SbusPacket,
    FLAG_BYTE_INDEX,
    FLAG_RESERVED_MASK,
    SBUS_FOOTER,
    SBUS_FRAME_LENGTH,
    SBUS_HEADER,
};
use crate::error::SbusError;
use crate::deque::{
    deque_bytes,
    deque_front,
    deque_iter,
    deque_len,
    deque_new,
    deque_pop_front,
    deque_push_back,
    MAX_PACKET_SIZE,
};

verus! {

/// A decoded frame as the buffered parser returns it.
#[derive(Debug, Ord, PartialOrd, Eq, PartialEq, Copy, Clone)]
pub struct SBusPacket {
    /// Channel values, each of eleven bits.
    pub channels: [u16; 16],
    /// Digital channel 1.
    pub d1: bool,
    /// Digital channel 2.
    pub d2: bool,
    /// The receiver is in failsafe mode.
    pub failsafe: bool,
    /// The receiver lost a frame.
    pub frame_lost: bool,
}

/// The queue after `byte` was offered to it: appended where there is room,
/// dropped where the queue is full.
pub open spec fn offer(queue: Seq<u8>, byte: u8) -> Seq<u8> {
    if queue.len() < MAX_PACKET_SIZE {
        queue.push(byte)
    } else {
        queue
    }
}

/// The queue after `bytes` were offered to it in order: as many of them as
/// there is room for are appended, the others are dropped.
pub open spec fn offer_all(queue: Seq<u8>, bytes: Seq<u8>) -> Seq<u8> {
    let room = if queue.len() < MAX_PACKET_SIZE {
        MAX_PACKET_SIZE - queue.len()
    } else {
        0
    };
    if bytes.len() <= room {
        queue + bytes
    } else {
        queue + bytes.take(room)
    }
}

/// How many bytes at the front of `queue` the parser drops before it looks
/// for a frame: the bytes before the first header byte, as long as more than
/// 25 bytes are left.
pub open spec fn leading_junk(queue: Seq<u8>) -> int
    decreases queue.len(),
{
    if queue.len() > SBUS_FRAME_LENGTH && queue[0] != SBUS_HEADER {
        1 + leading_junk(queue.skip(1))
    } else {
        0
    }
}

/// Whether `queue` starts with a frame: 25 bytes with the header first, the
/// footer last, and no reserved bit set in the flag byte.
pub open spec fn holds_frame(queue: Seq<u8>) -> bool {
    &&& queue.len() >= SBUS_FRAME_LENGTH
    &&& queue[0] == SBUS_HEADER
    &&& queue[SBUS_FRAME_LENGTH - 1] == SBUS_FOOTER
    &&& reserved_bits_clear(queue[FLAG_BYTE_INDEX as int])
}

/// The packet that the frame at the front of `queue` carries.
pub open spec fn packet_of(queue: Seq<u8>) -> SBusPacket {
    let flag_byte = queue[FLAG_BYTE_INDEX as int];
    SBusPacket {
        channels: unpacked_channels(queue.take(SBUS_FRAME_LENGTH as int)),
        d1: flag_set(flag_byte, 0),
        d2: flag_set(flag_byte, 1),
        frame_lost: flag_set(flag_byte, 2),
        failsafe: flag_set(flag_byte, 3),
    }
}

/// What one attempt to parse does to `queue`, and what it returns.
///
/// The junk at the front is dropped first. If a frame follows, its header,
/// payload and flag byte leave the queue and its packet is returned; its
/// footer stays behind as junk. If none follows, nothing more happens.
pub open spec fn parse_spec(queue: Seq<u8>) -> (Seq<u8>, Option<SBusPacket>) {
    let aligned = queue.skip(leading_junk(queue));
    if holds_frame(aligned) {
        (aligned.skip(SBUS_FRAME_LENGTH - 1), Some(packet_of(aligned)))
    } else {
        (aligned, None)
    }
}

/// A parser that queues bytes and parses on demand.
#[derive(Debug, Default)]
pub struct SBusPacketParser {
    buffer: heapless::Deque<u8, MAX_PACKET_SIZE>,
}

impl View for SBusPacketParser {
    type V = Seq<u8>;

    /// The bytes queued, oldest first.
    closed spec fn view(&self) -> Seq<u8> {
        deque_bytes(self.buffer)
    }
}

impl SBusPacketParser {
    /// Creates a parser with nothing queued.
    pub fn new() -> (parser: SBusPacketParser)
        ensures
            parser@ == Seq::<u8>::empty(),
    {
        SBusPacketParser { buffer: deque_new() }
    }

    /// Queues one byte. The byte is dropped if 50 bytes are queued already.
    pub fn push_byte(&mut self, byte: u8)
        ensures
            final(self)@ == offer(old(self)@, byte),
    {
        let _ = deque_push_back(&mut self.buffer, byte);
    }

    /// Queues bytes in order. Those for which there is no room are dropped.
    pub fn push_bytes(&mut self, bytes: &[u8])
        ensures
            final(self)@ == offer_all(old(self)@, bytes@),
    {
        let mut i: usize = 0;
        while i < bytes.len()
            invariant
                i <= bytes.len(),
                self@ == offer_all(old(self)@, bytes@.take(i as int)),
            decreases bytes.len() - i,
        {
            self.push_byte(bytes[i]);
            proof {
                let fed = bytes@.take(i as int);
                let more = bytes@.take(i + 1);
                assert(more =~= fed.push(bytes@[i as int]));
                let start = old(self)@;
                let room = if start.len() < MAX_PACKET_SIZE {
                    MAX_PACKET_SIZE - start.len()
                } else {
                    0
                };
                if more.len() <= room {
                    assert(start + more =~= (start + fed).push(bytes@[i as int]));
                } else if fed.len() <= room {
                    assert(fed =~= more.take(room));
                } else {
                    assert(fed.take(room) =~= more.take(room));
                }
            }
            i += 1;
        }
        assert(bytes@.take(bytes.len() as int) =~= bytes@);
    }

    /// Looks for a frame at the front of the queue and decodes it.
    ///
    /// Bytes before the first header byte are dropped, as long as more than
    /// 25 bytes are queued. If the queue then starts with a frame, the frame
    /// but for its footer is taken out and its packet is returned.
    pub fn try_parse(&mut self) -> (packet: Option<SBusPacket>)
        ensures
            (final(self)@, packet) == parse_spec(old(self)@),
    {
        // Drop bytes until a header byte is first.
        let ghost mut dropped: int = 0;
        loop
            invariant
                0 <= dropped <= old(self)@.len(),
                self@ == old(self)@.skip(dropped),
                leading_junk(old(self)@) == dropped + leading_junk(self@),
            ensures
                self@ == old(self)@.skip(leading_junk(old(self)@)),
            decreases self@.len(),
        {
            let front: u8 = match deque_front(&self.buffer) {
                Some(byte) => byte,
                None => {
                    return None;
                },
            };
            if front != SBUS_HEADER && deque_len(&self.buffer) > SBUS_FRAME_LENGTH {
                let _ = deque_pop_front(&mut self.buffer);
                proof {
                    assert(self@ =~= old(self)@.skip(dropped + 1));
                    dropped = dropped + 1;
                }
            } else {
                break ;
            }
        }

        if !self._valid_frame() {
            return None;
        }
        let ghost aligned = self@;

        // Take the frame out, but for its footer.
        let mut frame: [u8; SBUS_FRAME_LENGTH] = [SBUS_FOOTER; SBUS_FRAME_LENGTH];
        let mut k: usize = 0;
        while k < SBUS_FRAME_LENGTH - 1
            invariant
                k <= SBUS_FRAME_LENGTH - 1,
                aligned.len() >= SBUS_FRAME_LENGTH,
                self@ == aligned.skip(k as int),
                forall|j: int| 0 <= j < k ==> frame@[j] == aligned[j],
                frame@[SBUS_FRAME_LENGTH - 1] == SBUS_FOOTER,
            decreases SBUS_FRAME_LENGTH - 1 - k,
        {
            match deque_pop_front(&mut self.buffer) {
                Some(byte) => {
                    frame[k] = byte;
                },
                None => {
                    return None;
                },
            }
            assert(self@ =~= aligned.skip(k + 1));
            k += 1;
        }
        assert(frame@ =~= aligned.take(SBUS_FRAME_LENGTH as int));

        let channels: [u16; 16] = unpack_channels(&frame);
        let flag_byte: u8 = frame[FLAG_BYTE_INDEX];
        Some(
            SBusPacket {
                channels,
                d1: is_flag_set(flag_byte, 0),
                d2: is_flag_set(flag_byte, 1),
                frame_lost: is_flag_set(flag_byte, 2),
                failsafe: is_flag_set(flag_byte, 3),
            },
        )
    }

    /// Tells whether the queue starts with a frame.
    fn _valid_frame(&self) -> (valid: bool)
        ensures
            valid == holds_frame(self@),
    {
        let queued: Vec<u8> = deque_iter(&self.buffer);
        match (
            deque_front(&self.buffer),
            nth(&queued, SBUS_FRAME_LENGTH - 1),
            nth(&queued, FLAG_BYTE_INDEX),
        ) {
            (Some(head), Some(foot), Some(flag)) => {
                assert((flag & FLAG_RESERVED_MASK == 0) == (flag < 16)) by (bit_vector);
                head == SBUS_HEADER && foot == SBUS_FOOTER && flag & FLAG_RESERVED_MASK == 0
            },
            _ => false,
        }
    }
}

/// The byte at `index` of `bytes`, if there are so many.
fn nth(bytes: &Vec<u8>, index: usize) -> (byte: Option<u8>)
    ensures
        byte == (if index < bytes@.len() {
            Some(bytes@[index as int])
        } else {
            None
        }),
{
    if index < bytes.len() {
        Some(bytes[index])
    } else {
        None
    }
}

/// The buffered parser and the codec agree: the queue starts with a frame
/// exactly when its first 25 bytes are a valid frame, and the packet then is
/// the one that the codec decodes from them.
pub proof fn lemma_buffered_agrees_with_codec(queue: Seq<u8>)
    requires
        queue.len() >= SBUS_FRAME_LENGTH,
    ensures
        holds_frame(queue) <==> frame_valid(queue.take(SBUS_FRAME_LENGTH as int)),
        holds_frame(queue) ==> unpack_spec(queue.take(SBUS_FRAME_LENGTH as int)) == Ok::<
            SbusPacket,
            SbusError,
        >(
            SbusPacket {
                channels: packet_of(queue).channels,
                flags: Flags {
                    d1: packet_of(queue).d1,
                    d2: packet_of(queue).d2,
                    failsafe: packet_of(queue).failsafe,
                    frame_lost: packet_of(queue).frame_lost,
                },
            },
        ),
{
}

} // verus!
