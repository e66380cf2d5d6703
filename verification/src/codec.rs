//! The frame codec: packing sixteen 11-bit channels and a flag byte into a
//! 25-byte frame, and unpacking such a frame again.
//!
//! The 22 payload bytes that follow the header are read as one little-endian
//! stream of 176 bits. Channel `i` occupies bits `11 * i` to `11 * i + 10` of it.

use vstd::prelude::*;
use crate::error::SbusError;

verus! {

/// First byte of every frame.
pub const SBUS_HEADER: u8 = 0x0F;

/// Last byte of every frame.
pub const SBUS_FOOTER: u8 = 0x00;

/// Length of a frame in bytes.
pub const SBUS_FRAME_LENGTH: usize = 25;

/// Number of channels carried by one frame.
pub const CHANNEL_COUNT: usize = 16;

/// Largest value that a channel can carry: eleven bits, all set.
pub const CHANNEL_MAX: u16 = 2047;

/// Index of the flag byte in a frame.
pub const FLAG_BYTE_INDEX: usize = 23;

/// Bits of the flag byte that carry no flag and have to be zero.
pub const FLAG_RESERVED_MASK: u8 = 0xF0;

/// The four status flags of a frame.
#[derive(Debug, Clone, Copy, PartialEq, Eq)]
pub struct Flags {
    /// Digital channel 1 (bit 0 of the flag byte).
    pub d1: bool,
    /// Digital channel 2 (bit 1 of the flag byte).
    pub d2: bool,
    /// The receiver is in failsafe mode (bit 3 of the flag byte).
    pub failsafe: bool,
    /// The receiver lost a frame (bit 2 of the flag byte).
    pub frame_lost: bool,
}

/// A decoded frame: sixteen channel values and the status flags.
#[derive(Debug, Clone, Copy, PartialEq, Eq)]
pub struct SbusPacket {
    /// Channel values, each at most [`CHANNEL_MAX`].
    pub channels: [u16; CHANNEL_COUNT],
    /// Status flags.
    pub flags: Flags,
}

/// `x` without its `t` lowest bits, that is `x` divided by two to the power
/// `t`, for the bit positions that occur inside a frame (0 to 10).
pub open spec fn shift_down(x: int, t: int) -> int {
    if t <= 0 {
        x
    } else if t == 1 {
        x / 2
    } else if t == 2 {
        x / 4
    } else if t == 3 {
        x / 8
    } else if t == 4 {
        x / 16
    } else if t == 5 {
        x / 32
    } else if t == 6 {
        x / 64
    } else if t == 7 {
        x / 128
    } else if t == 8 {
        x / 256
    } else if t == 9 {
        x / 512
    } else {
        x / 1024
    }
}

/// Whether bit `t` (0 to 10) of `x` is set.
pub open spec fn bit_of(x: int, t: int) -> bool {
    shift_down(x, t) % 2 == 1
}

/// Whether bit `shift_by` of `flag_byte` is set.
pub open spec fn flag_set(flag_byte: u8, shift_by: u8) -> bool {
    bit_of(flag_byte as int, shift_by as int)
}

/// Whether the four reserved bits of a flag byte, its high bits, are zero.
pub open spec fn reserved_bits_clear(flag_byte: u8) -> bool {
    flag_byte < 16
}

/// The flags that a flag byte spells out.
pub open spec fn flags_of(flag_byte: u8) -> Flags {
    Flags {
        d1: flag_set(flag_byte, 0),
        d2: flag_set(flag_byte, 1),
        frame_lost: flag_set(flag_byte, 2),
        failsafe: flag_set(flag_byte, 3),
    }
}

/// The flag byte that spells out `flags`, with the reserved bits zero.
pub open spec fn flag_byte_of(flags: Flags) -> u8 {
    ((if flags.d1 { 1int } else { 0int }) + (if flags.d2 { 2int } else { 0int }) + (if flags.frame_lost {
        4int
    } else {
        0int
    }) + (if flags.failsafe { 8int } else { 0int })) as u8
}

/// Payload byte `k` (of 22) of the bit stream that `channels` spell out, each
/// channel cut down to its low eleven bits.
///
/// The byte starts at bit `8 * k` of the stream, which is bit `8 * k % 11` of
/// channel `8 * k / 11`, and may reach into the channel after it.
pub open spec fn packed_byte(channels: Seq<u16>, k: int) -> u8 {
    let i = (8 * k) / 11;
    let off = (8 * k) % 11;
    let lo = channels[i] % 2048;
    let hi = if i + 1 < CHANNEL_COUNT { channels[i + 1] % 2048 } else { 0 };
    (shift_down(lo + 2048 * hi, off) % 256) as u8
}

/// The frame that carries `channels` and the flag byte `flags`.
pub open spec fn pack_spec(channels: Seq<u16>, flags: u8) -> Seq<u8> {
    Seq::new(
        SBUS_FRAME_LENGTH as nat,
        |k: int|
            if k == 0 {
                SBUS_HEADER
            } else if k == SBUS_FRAME_LENGTH - 1 {
                SBUS_FOOTER
            } else if k == FLAG_BYTE_INDEX {
                flags
            } else {
                packed_byte(channels, k - 1)
            },
    )
}

/// Channel `i` (of 16) as a frame carries it: the eleven bits of the payload
/// that start at bit `11 * i`, which is bit `11 * i % 8` of byte
/// `1 + 11 * i / 8`, read from the three bytes that can hold them.
///
/// Opaque, to keep the arithmetic out of proofs that do not need it: a proof
/// that needs the value of a channel reveals `unpacked_channel`.
#[verifier::opaque]
pub open spec fn unpacked_channel(frame: Seq<u8>, i: int) -> u16 {
    let byte = 1 + (11 * i) / 8;
    let shift = (11 * i) % 8;
    let window = frame[byte] + 256 * frame[byte + 1] + 65536 * frame[byte + 2];
    (shift_down(window, shift) % 2048) as u16
}

/// Whether `frame` has the length and the markers of a frame: header, footer,
/// and no reserved flag bit set.
pub open spec fn frame_valid(frame: Seq<u8>) -> bool {
    &&& frame.len() == SBUS_FRAME_LENGTH
    &&& frame[0] == SBUS_HEADER
    &&& frame[SBUS_FRAME_LENGTH - 1] == SBUS_FOOTER
    &&& reserved_bits_clear(frame[FLAG_BYTE_INDEX as int])
}

/// The sixteen channels that a frame carries.
pub open spec fn unpacked_channels(frame: Seq<u8>) -> [u16; 16] {
    [
        unpacked_channel(frame, 0),
        unpacked_channel(frame, 1),
        unpacked_channel(frame, 2),
        unpacked_channel(frame, 3),
        unpacked_channel(frame, 4),
        unpacked_channel(frame, 5),
        unpacked_channel(frame, 6),
        unpacked_channel(frame, 7),
        unpacked_channel(frame, 8),
        unpacked_channel(frame, 9),
        unpacked_channel(frame, 10),
        unpacked_channel(frame, 11),
        unpacked_channel(frame, 12),
        unpacked_channel(frame, 13),
        unpacked_channel(frame, 14),
        unpacked_channel(frame, 15),
    ]
}

/// What decoding 25 bytes gives: the packet, or the first marker that is wrong.
///
/// The header is looked at first, then the footer, then the reserved bits of
/// the flag byte; a reserved bit that is set is reported as a footer error
/// that carries the flag byte.
pub open spec fn unpack_spec(frame: Seq<u8>) -> Result<SbusPacket, SbusError> {
    if frame[0] != SBUS_HEADER {
        Err(SbusError::InvalidHeader(frame[0]))
    } else if frame[SBUS_FRAME_LENGTH - 1] != SBUS_FOOTER {
        Err(SbusError::InvalidFooter(frame[SBUS_FRAME_LENGTH - 1]))
    } else if !reserved_bits_clear(frame[FLAG_BYTE_INDEX as int]) {
        Err(SbusError::InvalidFooter(frame[FLAG_BYTE_INDEX as int]))
    } else {
        Ok(
            SbusPacket {
                channels: unpacked_channels(frame),
                flags: flags_of(frame[FLAG_BYTE_INDEX as int]),
            },
        )
    }
}

/// Tells whether bit `shift_by` of `flag_byte` is set.
pub fn is_flag_set(flag_byte: u8, shift_by: u8) -> (set: bool)
    requires
        shift_by < 8,
    ensures
        set == flag_set(flag_byte, shift_by),
{
    assert(((flag_byte >> shift_by) & 1 == 1) == (shift_down(flag_byte as int, shift_by as int) % 2
        == 1)) by (bit_vector)
        requires
            shift_by < 8,
    ;
    (flag_byte >> shift_by) & 1 == 1
}

impl Flags {
    /// Decodes the four flags from the low bits of a flag byte.
    pub fn from_byte(flag_byte: u8) -> (flags: Flags)
        ensures
            flags == flags_of(flag_byte),
    {
        Flags {
            d1: is_flag_set(flag_byte, 0),
            d2: is_flag_set(flag_byte, 1),
            frame_lost: is_flag_set(flag_byte, 2),
            failsafe: is_flag_set(flag_byte, 3),
        }
    }
}

/// Writes the 22 payload bytes that carry `channels` into `buffer`, at
/// indices 1 to 22. Each channel is cut down to its low eleven bits. The
/// header, the flag byte and the footer of `buffer` are left as they are.
pub fn pack_channels(buffer: &mut [u8; SBUS_FRAME_LENGTH], channels: &[u16; CHANNEL_COUNT])
    ensures
        forall|k: int| 0 <= k < 22 ==> final(buffer)@[1 + k] == packed_byte(channels@, k),
        final(buffer)@[0] == old(buffer)@[0],
        final(buffer)@[23] == old(buffer)@[23],
        final(buffer)@[24] == old(buffer)@[24],
{
    let mut k: usize = 0;
    while k < 22
        invariant
            k <= 22,
            forall|j: int| 0 <= j < k ==> buffer@[1 + j] == packed_byte(channels@, j),
            buffer@[0] == old(buffer)@[0],
            buffer@[23] == old(buffer)@[23],
            buffer@[24] == old(buffer)@[24],
        decreases 22 - k,
    {
        let bit: usize = 8 * k;
        let i: usize = bit / 11;
        let off: u32 = (bit % 11) as u32;
        let lo: u32 = (channels[i] & 0x07FF) as u32;
        let hi: u32 = if i + 1 < CHANNEL_COUNT {
            (channels[i + 1] & 0x07FF) as u32
        } else {
            0u32
        };
        let value: u32 = ((lo | (hi << 11)) >> off) & 0xFF;
        assert(value == packed_byte(channels@, k as int)) by {
            let c0: u16 = channels[i as int];
            let c1: u16 = if i + 1 < CHANNEL_COUNT { channels[i + 1] } else { 0u16 };
            assert(0u16 & 0x07FF == 0) by (bit_vector);
            assert(lo == c0 % 2048 && hi == c1 % 2048 && value == shift_down(
                lo + 2048 * hi,
                off as int,
            ) % 256) by (bit_vector)
                requires
                    lo == (c0 & 0x07FF) as u32,
                    hi == (c1 & 0x07FF) as u32,
                    off < 11,
                    value == ((lo | (hi << 11)) >> off) & 0xFF,
            ;
        }
        buffer[1 + k] = value as u8;
        k += 1;
    }
}

/// Builds the frame that carries `channels` and the flag byte `flags`: the
/// header, the 22 payload bytes, `flags` as it is, and the footer. A channel
/// above [`CHANNEL_MAX`] is cut down to its low eleven bits.
pub fn pack_frame(channels: &[u16; CHANNEL_COUNT], flags: u8) -> (frame: [u8; SBUS_FRAME_LENGTH])
    ensures
        frame@ == pack_spec(channels@, flags),
{
    let mut frame: [u8; SBUS_FRAME_LENGTH] = [0u8; SBUS_FRAME_LENGTH];
    frame[0] = SBUS_HEADER;
    frame[SBUS_FRAME_LENGTH - 1] = SBUS_FOOTER;
    pack_channels(&mut frame, channels);
    frame[FLAG_BYTE_INDEX] = flags;
    assert(frame@ =~= pack_spec(channels@, flags));
    frame
}

/// Reads the sixteen channels out of the payload of `buf`. Header, flag byte
/// and footer are not looked at.
///
/// The value of each channel is that of `unpacked_channel`, which a proof has
/// to reveal before it can compute with it.
pub fn unpack_channels(buf: &[u8; SBUS_FRAME_LENGTH]) -> (channels: [u16; CHANNEL_COUNT])
    ensures
        channels == unpacked_channels(buf@),
{
    let mut channels: [u16; CHANNEL_COUNT] = [0u16; CHANNEL_COUNT];
    let mut i: usize = 0;
    while i < CHANNEL_COUNT
        invariant
            i <= CHANNEL_COUNT,
            forall|j: int| 0 <= j < i ==> channels@[j] == unpacked_channel(buf@, j),
        decreases CHANNEL_COUNT - i,
    {
        let bit: usize = 11 * i;
        let byte: usize = 1 + bit / 8;
        let shift: u32 = (bit % 8) as u32;
        let window: u32 = (buf[byte] as u32) | ((buf[byte + 1] as u32) << 8) | ((buf[byte
            + 2] as u32) << 16);
        let value: u32 = (window >> shift) & 0x07FF;
        assert(value == unpacked_channel(buf@, i as int)) by {
            reveal(unpacked_channel);
            let b0: u8 = buf[byte as int];
            let b1: u8 = buf[byte + 1];
            let b2: u8 = buf[byte + 2];
            assert(value == shift_down(b0 + 256 * b1 + 65536 * b2, shift as int) % 2048)
                by (bit_vector)
                requires
                    window == (b0 as u32) | ((b1 as u32) << 8) | ((b2 as u32) << 16),
                    shift < 8,
                    value == (window >> shift) & 0x07FF,
            ;
        }
        channels[i] = value as u16;
        i += 1;
    }
    assert(channels =~= unpacked_channels(buf@));
    channels
}

impl SbusPacket {
    /// Decodes one frame.
    ///
    /// Fails with `InvalidHeader` if the first byte is not the header, else
    /// with `InvalidFooter` if the last byte is not the footer, else with
    /// `InvalidFooter` and the flag byte if a reserved flag bit is set. The
    /// channel values are not judged.
    ///
    /// The value of each channel is that of `unpacked_channel`, which a proof
    /// has to reveal before it can compute with it.
    pub fn from_array(buf: &[u8; SBUS_FRAME_LENGTH]) -> (r: Result<SbusPacket, SbusError>)
        ensures
            r == unpack_spec(buf@),
    {
        if buf[0] != SBUS_HEADER {
            return Err(SbusError::InvalidHeader(buf[0]));
        }
        if buf[SBUS_FRAME_LENGTH - 1] != SBUS_FOOTER {
            return Err(SbusError::InvalidFooter(buf[SBUS_FRAME_LENGTH - 1]));
        }
        let flag_byte: u8 = buf[FLAG_BYTE_INDEX];
        assert((flag_byte & FLAG_RESERVED_MASK != 0) == (flag_byte >= 16)) by (bit_vector);
        if flag_byte & FLAG_RESERVED_MASK != 0 {
            return Err(SbusError::InvalidFooter(flag_byte));
        }
        let channels: [u16; CHANNEL_COUNT] = unpack_channels(buf);
        Ok(SbusPacket { channels, flags: Flags::from_byte(flag_byte) })
    }
}

/// Bit `j` (of 176) of the payload of `frame`, read as a little-endian bit
/// stream that starts at byte 1.
pub open spec fn frame_bit(frame: Seq<u8>, j: int) -> bool {
    bit_of(frame[1 + j / 8] as int, j % 8)
}

/// Bit `j` (of 176) of the stream that `channels` spell out, eleven bits each.
pub open spec fn channel_bit(channels: Seq<u16>, j: int) -> bool {
    bit_of(channels[j / 11] as int, j % 11)
}

proof fn lemma_byte_bit(c0: u16, c1: u16, off: u32, t: u32)
    by (bit_vector)
    requires
        off < 11,
        t < 8,
    ensures
        bit_of(shift_down((c0 % 2048) + 2048 * (c1 % 2048), off as int) % 256, t as int) == (if off
            + t < 11 {
            bit_of(c0 as int, (off + t) as int)
        } else {
            bit_of(c1 as int, (off + t - 11) as int)
        }),
{
}

proof fn lemma_window_bit(b0: u8, b1: u8, b2: u8, shift: u32, t: u32)
    by (bit_vector)
    requires
        shift < 8,
        t < 11,
    ensures
        bit_of(shift_down(b0 + 256 * b1 + 65536 * b2, shift as int) % 2048, t as int) == (if shift
            + t < 8 {
            bit_of(b0 as int, (shift + t) as int)
        } else if shift + t < 16 {
            bit_of(b1 as int, (shift + t - 8) as int)
        } else {
            bit_of(b2 as int, (shift + t - 16) as int)
        }),
{
}

proof fn lemma_eleven_bits(x: u16, y: u16)
    by (bit_vector)
    requires
        x < 2048,
        y < 2048,
        bit_of(x as int, 0) == bit_of(y as int, 0),
        bit_of(x as int, 1) == bit_of(y as int, 1),
        bit_of(x as int, 2) == bit_of(y as int, 2),
        bit_of(x as int, 3) == bit_of(y as int, 3),
        bit_of(x as int, 4) == bit_of(y as int, 4),
        bit_of(x as int, 5) == bit_of(y as int, 5),
        bit_of(x as int, 6) == bit_of(y as int, 6),
        bit_of(x as int, 7) == bit_of(y as int, 7),
        bit_of(x as int, 8) == bit_of(y as int, 8),
        bit_of(x as int, 9) == bit_of(y as int, 9),
        bit_of(x as int, 10) == bit_of(y as int, 10),
    ensures
        x == y,
{
}

proof fn lemma_low_bit(c: u16, t: u32)
    by (bit_vector)
    requires
        t < 11,
    ensures
        bit_of((c % 2048) as int, t as int) == bit_of(c as int, t as int),
        c % 2048 < 2048,
{
}

/// Packing lays the channels out bit by bit: bit `j` of the payload of the
/// packed frame is bit `j % 11` of channel `j / 11`. Bits of a channel above
/// its low eleven are not looked at.
pub proof fn lemma_packed_bits(channels: Seq<u16>, flags: u8, j: int)
    requires
        channels.len() == CHANNEL_COUNT,
        0 <= j < 176,
    ensures
        frame_bit(pack_spec(channels, flags), j) == channel_bit(channels, j),
{
    let k = j / 8;
    let t = (j % 8) as u32;
    let i = (8 * k) / 11;
    let off = ((8 * k) % 11) as u32;
    let c0 = channels[i];
    let c1 = if i + 1 < CHANNEL_COUNT { channels[i + 1] } else { 0u16 };
    lemma_byte_bit(c0, c1, off, t);
    assert(pack_spec(channels, flags)[1 + k] == packed_byte(channels, k));
}

/// Unpacking reads the channels bit by bit: bit `t` (of 11) of channel `i` is
/// bit `11 * i + t` of the payload, and a channel has no bit above those.
pub proof fn lemma_unpacked_bits(frame: Seq<u8>, i: int, t: int)
    requires
        frame.len() == SBUS_FRAME_LENGTH,
        0 <= i < CHANNEL_COUNT,
        0 <= t < 11,
    ensures
        bit_of(unpacked_channel(frame, i) as int, t) == frame_bit(frame, 11 * i + t),
        unpacked_channel(frame, i) <= CHANNEL_MAX,
{
    let p = (11 * i) / 8;
    let shift = ((11 * i) % 8) as u32;
    reveal(unpacked_channel);
    lemma_window_bit(frame[1 + p], frame[2 + p], frame[3 + p], shift, t as u32);
}

proof fn lemma_round_trip_bit(channels: Seq<u16>, flags: u8, i: int, t: int)
    requires
        channels.len() == CHANNEL_COUNT,
        0 <= i < CHANNEL_COUNT,
        0 <= t < 11,
    ensures
        bit_of(unpacked_channel(pack_spec(channels, flags), i) as int, t) == bit_of(
            (channels[i] % 2048) as int,
            t,
        ),
{
    lemma_unpacked_bits(pack_spec(channels, flags), i, t);
    lemma_packed_bits(channels, flags, 11 * i + t);
    lemma_low_bit(channels[i], t as u32);
}

/// What is packed is what is unpacked: channel `i` of the packed frame is
/// channel `i` that went in, cut down to its low eleven bits.
pub proof fn lemma_unpack_packed_channel(channels: Seq<u16>, flags: u8, i: int)
    requires
        channels.len() == CHANNEL_COUNT,
        0 <= i < CHANNEL_COUNT,
    ensures
        unpacked_channel(pack_spec(channels, flags), i) == channels[i] % 2048,
{
    let x = unpacked_channel(pack_spec(channels, flags), i);
    let y = (channels[i] % 2048) as u16;
    lemma_round_trip_bit(channels, flags, i, 0);
    lemma_round_trip_bit(channels, flags, i, 1);
    lemma_round_trip_bit(channels, flags, i, 2);
    lemma_round_trip_bit(channels, flags, i, 3);
    lemma_round_trip_bit(channels, flags, i, 4);
    lemma_round_trip_bit(channels, flags, i, 5);
    lemma_round_trip_bit(channels, flags, i, 6);
    lemma_round_trip_bit(channels, flags, i, 7);
    lemma_round_trip_bit(channels, flags, i, 8);
    lemma_round_trip_bit(channels, flags, i, 9);
    lemma_round_trip_bit(channels, flags, i, 10);
    lemma_unpacked_bits(pack_spec(channels, flags), i, 0);
    lemma_low_bit(channels[i], 0);
    lemma_eleven_bits(x, y);
}

proof fn lemma_channels_array(frame: Seq<u8>, channels: [u16; 16])
    requires
        forall|i: int| 0 <= i < CHANNEL_COUNT ==> #[trigger] unpacked_channel(frame, i) == channels@[i],
    ensures
        unpacked_channels(frame) == channels,
{
    let got = unpacked_channels(frame);
    assert forall|i: int| 0 <= i < CHANNEL_COUNT implies got@[i] == channels@[i] by {
        assert(got@[i] == unpacked_channel(frame, i));
    }
    assert(got =~= channels);
}

proof fn lemma_unpack_packed(channels: Seq<u16>, flags: u8)
    requires
        channels.len() == CHANNEL_COUNT,
    ensures
        forall|i: int|
            0 <= i < CHANNEL_COUNT ==> #[trigger] unpacked_channel(pack_spec(channels, flags), i)
                == channels[i] % 2048,
{
    assert forall|i: int| 0 <= i < CHANNEL_COUNT implies #[trigger] unpacked_channel(
        pack_spec(channels, flags),
        i,
    ) == channels[i] % 2048 by {
        lemma_unpack_packed_channel(channels, flags, i);
    }
}

/// Round trip: a frame packed from channels that are all in range and from a
/// flag byte without reserved bits decodes to those channels and those flags.
pub proof fn lemma_round_trip(channels: [u16; 16], flags: u8)
    requires
        forall|i: int| 0 <= i < CHANNEL_COUNT ==> channels@[i] <= CHANNEL_MAX,
        reserved_bits_clear(flags),
    ensures
        frame_valid(pack_spec(channels@, flags)),
        unpack_spec(pack_spec(channels@, flags)) == Ok::<SbusPacket, SbusError>(
            SbusPacket { channels, flags: flags_of(flags) },
        ),
        flag_byte_of(flags_of(flags)) == flags,
{
    lemma_round_trip_channels(channels, flags);
    lemma_flag_byte_round_trip(flags);
}

proof fn lemma_round_trip_channels(channels: [u16; 16], flags: u8)
    requires
        forall|i: int| 0 <= i < CHANNEL_COUNT ==> channels@[i] <= CHANNEL_MAX,
    ensures
        unpacked_channels(pack_spec(channels@, flags)) == channels,
{
    let frame = pack_spec(channels@, flags);
    assert forall|i: int| 0 <= i < CHANNEL_COUNT implies #[trigger] unpacked_channel(frame, i)
        == channels@[i] by {
        lemma_unpack_packed_channel(channels@, flags, i);
    }
    lemma_channels_array(frame, channels);
}

/// The four flags hold all that a flag byte without reserved bits holds.
pub proof fn lemma_flag_byte_round_trip(flags: u8)
    requires
        reserved_bits_clear(flags),
    ensures
        flag_byte_of(flags_of(flags)) == flags,
{
    let d1 = (flags / 1) % 2 == 1;
    let d2 = (flags / 2) % 2 == 1;
    let frame_lost = (flags / 4) % 2 == 1;
    let failsafe = (flags / 8) % 2 == 1;
    assert((if d1 { 1u8 } else { 0u8 }) + (if d2 { 2u8 } else { 0u8 }) + (if frame_lost {
        4u8
    } else {
        0u8
    }) + (if failsafe { 8u8 } else { 0u8 }) == flags) by (bit_vector)
        requires
            flags < 16,
            d1 == ((flags / 1) % 2 == 1),
            d2 == ((flags / 2) % 2 == 1),
            frame_lost == ((flags / 4) % 2 == 1),
            failsafe == ((flags / 8) % 2 == 1),
    ;
}

/// Out-of-range channels are truncated: whatever the channel values and the
/// flag byte, the packed frame has header and footer in place, and decoding
/// its payload gives each channel modulo 2048, its low eleven bits.
pub proof fn lemma_pack_truncates(channels: [u16; 16], flags: u8)
    ensures
        pack_spec(channels@, flags).len() == SBUS_FRAME_LENGTH,
        pack_spec(channels@, flags)[0] == SBUS_HEADER,
        pack_spec(channels@, flags)[SBUS_FRAME_LENGTH - 1] == SBUS_FOOTER,
        forall|i: int|
            0 <= i < CHANNEL_COUNT ==> #[trigger] unpacked_channel(pack_spec(channels@, flags), i)
                == channels@[i] % 2048,
{
    lemma_unpack_packed(channels@, flags);
}

} // verus!
