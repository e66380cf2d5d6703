//! Laws of the streaming synchronizer, proved over its model: the functions
//! `step` and `run` that the contracts of `push_byte` and of the chunk reader
//! are stated with.

use vstd::prelude::*;
use crate::codec::{
    flags_of,
    frame_valid,
    lemma_round_trip,
    pack_spec,
    reserved_bits_clear,
    unpack_spec,
    SbusPacket,
    CHANNEL_COUNT,
    CHANNEL_MAX,
    SBUS_FOOTER,
    SBUS_FRAME_LENGTH,
    SBUS_HEADER,
};
use crate::error::SbusError;
use crate::streaming::{
    bump,
    next_header,
    resync_spec,
    run,
    step,
    yielded,
    StreamingStats,
    SyncState,
};

verus! {

/// Where the search for a header byte ends: at the first header byte at or
/// after `from`, with none before it, or at the end of `span`.
pub proof fn lemma_next_header(span: Seq<u8>, from: int)
    requires
        0 <= from <= span.len(),
    ensures
        from <= next_header(span, from) <= span.len(),
        next_header(span, from) < span.len() ==> span[next_header(span, from)] == SBUS_HEADER,
        forall|j: int| from <= j < next_header(span, from) ==> span[j] != SBUS_HEADER,
    decreases span.len() - from,
{
    if from < span.len() && span[from] != SBUS_HEADER {
        lemma_next_header(span, from + 1);
    }
}

/// Decoding succeeds on the valid frames and on no other 25 bytes.
pub proof fn lemma_unpack_ok_iff_valid(frame: Seq<u8>)
    requires
        frame.len() == SBUS_FRAME_LENGTH,
    ensures
        unpack_spec(frame) is Ok <==> frame_valid(frame),
{
}

/// The invariant of the synchronizer: after every byte, fewer than 25 bytes
/// are gathered, and the first of them is a header byte.
pub proof fn lemma_step_valid(s: SyncState, byte: u8)
    requires
        s.valid(),
    ensures
        step(s, byte).0.valid(),
{
    let span = s.pending.push(byte);
    if s.pending.len() > 0 && span.len() == SBUS_FRAME_LENGTH {
        lemma_next_header(span, 1);
    }
}

/// The invariant holds after every chunk too.
pub proof fn lemma_run_valid(s: SyncState, bytes: Seq<u8>)
    requires
        s.valid(),
    ensures
        run(s, bytes).0.valid(),
    decreases bytes.len(),
{
    if bytes.len() > 0 {
        lemma_step_valid(s, bytes[0]);
        lemma_run_valid(step(s, bytes[0]).0, bytes.skip(1));
    }
}

/// Whether no counter of `before` is above its value in `after`.
pub open spec fn counters_grow(before: StreamingStats, after: StreamingStats) -> bool {
    &&& before.frames_decoded <= after.frames_decoded
    &&& before.sync_losses <= after.sync_losses
    &&& before.bytes_discarded <= after.bytes_discarded
}

/// No byte makes a counter fall.
pub proof fn lemma_step_counters_grow(s: SyncState, byte: u8)
    requires
        s.valid(),
    ensures
        counters_grow(s.stats, step(s, byte).0.stats),
{
    let span = s.pending.push(byte);
    if s.pending.len() > 0 && span.len() == SBUS_FRAME_LENGTH {
        lemma_next_header(span, 1);
    }
}

/// No chunk makes a counter fall.
pub proof fn lemma_run_counters_grow(s: SyncState, bytes: Seq<u8>)
    requires
        s.valid(),
    ensures
        counters_grow(s.stats, run(s, bytes).0.stats),
    decreases bytes.len(),
{
    if bytes.len() > 0 {
        lemma_step_valid(s, bytes[0]);
        lemma_step_counters_grow(s, bytes[0]);
        lemma_run_counters_grow(step(s, bytes[0]).0, bytes.skip(1));
    }
}

/// A packet comes only from a frame: when a byte gives a packet, the bytes
/// gathered and that byte are a valid frame, and the packet is what the frame
/// decodes to. When a byte gives an error, they are 25 bytes that end with
/// the footer, and the error is what decoding them gives.
pub proof fn lemma_step_output(s: SyncState, byte: u8)
    requires
        s.valid(),
    ensures
        step(s, byte).1 matches Ok(Some(packet)) ==> frame_valid(s.pending.push(byte))
            && unpack_spec(s.pending.push(byte)) == Ok::<SbusPacket, SbusError>(packet),
        step(s, byte).1 matches Err(e) ==> s.pending.len() == SBUS_FRAME_LENGTH - 1 && byte
            == SBUS_FOOTER && unpack_spec(s.pending.push(byte)) == Err::<SbusPacket, SbusError>(e),
{
}

/// A chunk of one byte is that byte.
pub proof fn lemma_run_single(s: SyncState, byte: u8)
    ensures
        run(s, seq![byte]) == (step(s, byte).0, yielded(step(s, byte).1)),
{
    let bytes = seq![byte];
    assert(bytes.skip(1).len() == 0);
    let (s1, output) = step(s, byte);
    assert(run(s1, bytes.skip(1)) == (s1, Seq::<Result<SbusPacket, SbusError>>::empty()));
    assert(yielded(output) + Seq::<Result<SbusPacket, SbusError>>::empty() =~= yielded(output));
}

/// How a stream is cut into chunks does not matter: feeding `a` and then `b`
/// leaves the state, and gives the packets and errors in the order, that
/// feeding all of it at once does. So feeding bytes one at a time gives what
/// feeding them as one chunk gives.
pub proof fn lemma_run_concat(s: SyncState, a: Seq<u8>, b: Seq<u8>)
    ensures
        run(s, a + b) == (run(run(s, a).0, b).0, run(s, a).1 + run(run(s, a).0, b).1),
    decreases a.len(),
{
    if a.len() == 0 {
        assert(a + b =~= b);
        assert(Seq::<Result<SbusPacket, SbusError>>::empty() + run(s, b).1 =~= run(s, b).1);
    } else {
        let (s1, output) = step(s, a[0]);
        assert((a + b)[0] == a[0]);
        assert((a + b).skip(1) =~= a.skip(1) + b);
        lemma_run_concat(s1, a.skip(1), b);
        let mid = run(s1, a.skip(1));
        let end = run(mid.0, b);
        assert(yielded(output) + (mid.1 + end.1) =~= (yielded(output) + mid.1) + end.1);
    }
}

/// A chunk may be cut anywhere: feeding the first `n` bytes of `bytes` and
/// then the others gives what feeding `bytes` at once gives.
pub proof fn lemma_run_split(s: SyncState, bytes: Seq<u8>, n: int)
    requires
        0 <= n <= bytes.len(),
    ensures
        run(s, bytes) == (
            run(run(s, bytes.take(n)).0, bytes.skip(n)).0,
            run(s, bytes.take(n)).1 + run(run(s, bytes.take(n)).0, bytes.skip(n)).1,
        ),
{
    assert(bytes.take(n) + bytes.skip(n) =~= bytes);
    lemma_run_concat(s, bytes.take(n), bytes.skip(n));
}

/// A chunk gives at most one packet or error per byte.
pub proof fn lemma_run_bounded(s: SyncState, bytes: Seq<u8>)
    ensures
        run(s, bytes).1.len() <= bytes.len(),
    decreases bytes.len(),
{
    if bytes.len() > 0 {
        lemma_run_bounded(step(s, bytes[0]).0, bytes.skip(1));
    }
}

/// Header gating: while nothing is gathered, bytes that are no header bytes
/// give nothing, leave nothing gathered, and are counted as discarded, one
/// by one.
pub proof fn lemma_header_gating(s: SyncState, bytes: Seq<u8>)
    requires
        s.pending.len() == 0,
        forall|i: int| 0 <= i < bytes.len() ==> bytes[i] != SBUS_HEADER,
    ensures
        run(s, bytes).1.len() == 0,
        run(s, bytes).0.pending == s.pending,
        run(s, bytes).0.stats == (StreamingStats {
            frames_decoded: s.stats.frames_decoded,
            sync_losses: s.stats.sync_losses,
            bytes_discarded: bump(s.stats.bytes_discarded, bytes.len() as int),
        }),
    decreases bytes.len(),
{
    if bytes.len() > 0 {
        let (s1, output) = step(s, bytes[0]);
        lemma_header_gating(s1, bytes.skip(1));
    }
}

/// Fewer bytes than a frame has give nothing: as long as the bytes gathered
/// and the bytes fed are fewer than 25 together, no packet and no error comes.
pub proof fn lemma_short_input_silent(s: SyncState, bytes: Seq<u8>)
    requires
        s.valid(),
        s.pending.len() + bytes.len() < SBUS_FRAME_LENGTH,
    ensures
        run(s, bytes).1.len() == 0,
        run(s, bytes).0.pending.len() <= s.pending.len() + bytes.len(),
        run(s, bytes).0.stats.frames_decoded == s.stats.frames_decoded,
        run(s, bytes).0.stats.sync_losses == s.stats.sync_losses,
    decreases bytes.len(),
{
    if bytes.len() > 0 {
        lemma_step_valid(s, bytes[0]);
        lemma_short_input_silent(step(s, bytes[0]).0, bytes.skip(1));
    }
}

/// Mid-stream start: a synchronizer that has nothing gathered and is fed the
/// rest of a frame, from its byte `from` (at least 1) on, gives nothing and
/// decodes nothing.
pub proof fn lemma_mid_stream_start(s: SyncState, frame: Seq<u8>, from: int)
    requires
        s.pending.len() == 0,
        frame.len() == SBUS_FRAME_LENGTH,
        1 <= from <= frame.len(),
    ensures
        run(s, frame.skip(from)).1.len() == 0,
        run(s, frame.skip(from)).0.stats.frames_decoded == s.stats.frames_decoded,
{
    lemma_short_input_silent(s, frame.skip(from));
}

/// While a frame is being gathered and is not complete, each byte is kept
/// and nothing else happens.
pub proof fn lemma_gather(s: SyncState, bytes: Seq<u8>)
    requires
        s.valid(),
        s.pending.len() > 0,
        s.pending.len() + bytes.len() < SBUS_FRAME_LENGTH,
    ensures
        run(s, bytes) == (
            SyncState { pending: s.pending + bytes, stats: s.stats },
            Seq::<Result<SbusPacket, SbusError>>::empty(),
        ),
    decreases bytes.len(),
{
    if bytes.len() == 0 {
        assert(s.pending + bytes =~= s.pending);
    } else {
        let s1 = step(s, bytes[0]).0;
        lemma_gather(s1, bytes.skip(1));
        assert(s.pending.push(bytes[0]) + bytes.skip(1) =~= s.pending + bytes);
    }
}

/// The byte that completes a valid frame gives the packet of that frame
/// and leaves nothing gathered.
pub proof fn lemma_step_completes(s: SyncState, byte: u8)
    requires
        s.valid(),
        frame_valid(s.pending.push(byte)),
    ensures
        unpack_spec(s.pending.push(byte)) is Ok,
        step(s, byte) == (
            SyncState {
                pending: Seq::<u8>::empty(),
                stats: StreamingStats {
                    frames_decoded: bump(s.stats.frames_decoded, 1),
                    sync_losses: s.stats.sync_losses,
                    bytes_discarded: s.stats.bytes_discarded,
                },
            },
            Ok::<Option<SbusPacket>, SbusError>(Some(unpack_spec(s.pending.push(byte))->Ok_0)),
        ),
{
}

proof fn lemma_gather_frame(s: SyncState, rest: Seq<u8>)
    requires
        s.valid(),
        (s.pending + rest).len() == SBUS_FRAME_LENGTH,
        (s.pending + rest)[0] == SBUS_HEADER,
    ensures
        rest.len() > 0,
        run(s, rest.drop_last()) == (
            SyncState { pending: (s.pending + rest).drop_last(), stats: s.stats },
            Seq::<Result<SbusPacket, SbusError>>::empty(),
        ),
{
    let frame = s.pending + rest;
    let body = rest.drop_last();
    if s.pending.len() > 0 {
        lemma_gather(s, body);
        assert(s.pending + body =~= frame.drop_last());
    } else {
        assert(rest =~= frame);
        assert(body[0] == SBUS_HEADER);
        let s1 = step(s, body[0]).0;
        assert(s1.pending =~= seq![body[0]]);
        lemma_gather(s1, body.skip(1));
        assert(s1.pending + body.skip(1) =~= frame.drop_last());
    }
}

/// A frame that the synchronizer is aligned with is decoded: if the bytes
/// gathered, followed by `rest`, are a valid frame, then feeding `rest` gives
/// the packet of that frame and nothing else, on the last byte of `rest`, and
/// leaves nothing gathered.
pub proof fn lemma_frame_completes(s: SyncState, rest: Seq<u8>)
    requires
        s.valid(),
        frame_valid(s.pending + rest),
    ensures
        run(s, rest) == (
            SyncState {
                pending: Seq::<u8>::empty(),
                stats: StreamingStats {
                    frames_decoded: bump(s.stats.frames_decoded, 1),
                    sync_losses: s.stats.sync_losses,
                    bytes_discarded: s.stats.bytes_discarded,
                },
            },
            seq![unpack_spec(s.pending + rest)],
        ),
        unpack_spec(s.pending + rest) is Ok,
        run(s, rest.drop_last()).1.len() == 0,
{
    let frame = s.pending + rest;
    lemma_gather_frame(s, rest);
    let body = rest.drop_last();
    let last = rest.last();
    let gathered = run(s, body).0;
    assert(rest =~= body + seq![last]);
    assert(gathered.pending.push(last) =~= frame);
    lemma_run_concat(s, body, seq![last]);
    lemma_run_single(gathered, last);
    lemma_step_completes(gathered, last);
    let output = step(gathered, last).1;
    assert(Seq::<Result<SbusPacket, SbusError>>::empty() + yielded(output) =~= yielded(output));
    assert(yielded(output) =~= seq![unpack_spec(frame)]);
}

/// A frame as it is packed is decoded as it went in: a synchronizer that
/// has nothing gathered and is fed the frame packed from channels in range
/// and from a flag byte without reserved bits gives those channels and those
/// flags, once, on the last byte of the frame.
pub proof fn lemma_packed_frame_decodes(s: SyncState, channels: [u16; 16], flags: u8)
    requires
        s.pending.len() == 0,
        forall|i: int| 0 <= i < CHANNEL_COUNT ==> channels@[i] <= CHANNEL_MAX,
        reserved_bits_clear(flags),
    ensures
        run(s, pack_spec(channels@, flags)) == (
            SyncState {
                pending: Seq::<u8>::empty(),
                stats: StreamingStats {
                    frames_decoded: bump(s.stats.frames_decoded, 1),
                    sync_losses: s.stats.sync_losses,
                    bytes_discarded: s.stats.bytes_discarded,
                },
            },
            seq![Ok::<SbusPacket, SbusError>(SbusPacket { channels, flags: flags_of(flags) })],
        ),
        run(s, pack_spec(channels@, flags).drop_last()).1.len() == 0,
{
    let frame = pack_spec(channels@, flags);
    lemma_round_trip(channels, flags);
    assert(s.pending + frame =~= frame);
    lemma_frame_completes(s, frame);
}

/// Resync retention: when 25 gathered bytes are no frame, the bytes from the
/// next header byte among them on are kept. If a valid frame starts there,
/// feeding the rest of that frame gives its packet: the header does not have
/// to come again.
///
/// `s` is the state before the byte that completes the 25 bytes; `k` is the
/// index of the first header byte among them behind their first byte; `rest`
/// holds the `k` bytes of the frame that were not gathered yet.
pub proof fn lemma_resync_retention(s: SyncState, byte: u8, rest: Seq<u8>)
    requires
        s.valid(),
        s.pending.len() == SBUS_FRAME_LENGTH - 1,
        !frame_valid(s.pending.push(byte)),
        next_header(s.pending.push(byte), 1) < SBUS_FRAME_LENGTH,
        frame_valid(s.pending.push(byte).skip(next_header(s.pending.push(byte), 1)) + rest),
    ensures
        ({
            let span = s.pending.push(byte);
            let k = next_header(span, 1);
            let frame = span.skip(k) + rest;
            &&& step(s, byte).0 == resync_spec(span, s.stats)
            &&& step(s, byte).0.pending == span.skip(k)
            &&& unpack_spec(frame) is Ok
            &&& run(step(s, byte).0, rest) == (
                SyncState {
                    pending: Seq::<u8>::empty(),
                    stats: StreamingStats {
                        frames_decoded: bump(s.stats.frames_decoded, 1),
                        sync_losses: bump(s.stats.sync_losses, 1),
                        bytes_discarded: bump(s.stats.bytes_discarded, k),
                    },
                },
                seq![unpack_spec(frame)],
            )
        }),
{
    let span = s.pending.push(byte);
    lemma_step_valid(s, byte);
    lemma_frame_completes(step(s, byte).0, rest);
}

/// The bytes gathered are the bytes fed last: after a chunk, what is
/// gathered is the end of what was gathered before followed by the chunk.
pub proof fn lemma_pending_is_suffix(s: SyncState, bytes: Seq<u8>)
    requires
        s.valid(),
    ensures
        ({
            let fed = s.pending + bytes;
            let gathered = run(s, bytes).0.pending;
            &&& gathered.len() <= fed.len()
            &&& gathered == fed.skip(fed.len() - gathered.len())
        }),
    decreases bytes.len(),
{
    let fed = s.pending + bytes;
    if bytes.len() == 0 {
        assert(fed.skip(0) =~= s.pending);
    } else {
        let s1 = step(s, bytes[0]).0;
        let span = s.pending.push(bytes[0]);
        lemma_step_valid(s, bytes[0]);
        lemma_pending_is_suffix(s1, bytes.skip(1));
        let fed1 = s1.pending + bytes.skip(1);
        let gathered = run(s1, bytes.skip(1)).0.pending;
        assert(span + bytes.skip(1) =~= fed);
        if s.pending.len() > 0 && span.len() == SBUS_FRAME_LENGTH {
            lemma_next_header(span, 1);
        }
        // The bytes gathered after the first byte are the end of `span`.
        let cut = span.len() - s1.pending.len();
        assert(0 <= cut <= span.len());
        assert(s1.pending =~= span.skip(cut));
        assert(fed1 =~= fed.skip(cut));
        assert(fed1.skip(fed1.len() - gathered.len()) =~= fed.skip(fed.len() - gathered.len()));
    }
}

/// No packet without a frame: whenever a byte gives a packet, the 25 bytes
/// fed last, that byte included, are a valid frame, and the packet is what
/// that frame decodes to. Bytes that were gathered before count as fed.
pub proof fn lemma_packet_is_last_span(s: SyncState, bytes: Seq<u8>, byte: u8)
    requires
        s.valid(),
        step(run(s, bytes).0, byte).1 is Ok,
        step(run(s, bytes).0, byte).1->Ok_0 is Some,
    ensures
        ({
            let fed = (s.pending + bytes).push(byte);
            let packet = step(run(s, bytes).0, byte).1->Ok_0->Some_0;
            &&& fed.len() >= SBUS_FRAME_LENGTH
            &&& frame_valid(fed.skip(fed.len() - SBUS_FRAME_LENGTH))
            &&& unpack_spec(fed.skip(fed.len() - SBUS_FRAME_LENGTH)) == Ok::<SbusPacket, SbusError>(
                packet,
            )
        }),
{
    let before = run(s, bytes).0;
    let fed = (s.pending + bytes).push(byte);
    lemma_run_valid(s, bytes);
    lemma_pending_is_suffix(s, bytes);
    lemma_step_output(before, byte);
    assert(before.pending.push(byte) =~= fed.skip(fed.len() - SBUS_FRAME_LENGTH));
}

} // verus!
