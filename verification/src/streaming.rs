//! The streaming synchronizer: finds frames in an unframed byte stream.
//!
//! Bytes go in one at a time or in chunks. The synchronizer waits for a
//! header byte, gathers 25 bytes, and decodes them. When the 25 bytes are no
//! frame it looks for the next header byte among them and goes on from there,
//! so that bytes of the frame that follows are not thrown away.

use vstd::prelude::*;
use crate::codec::{unpack_spec, SbusPacket, SBUS_FOOTER, SBUS_FRAME_LENGTH, SBUS_HEADER};
use crate::error::SbusError;

verus! {

/// Counters that a synchronizer keeps. Each one stops at `u32::MAX`.
#[derive(Debug, Clone, Copy, Default)]
pub struct StreamingStats {
    /// Frames decoded.
    pub frames_decoded: u32,
    /// Times that 25 gathered bytes were no frame.
    pub sync_losses: u32,
    /// Bytes thrown away while looking for a header.
    pub bytes_discarded: u32,
}

/// What one byte, or one step of a chunk, gives: a packet, nothing yet, or an
/// error.
pub type StepOutput = Result<Option<SbusPacket>, SbusError>;

/// The state of a synchronizer as the contracts see it.
pub struct SyncState {
    /// The bytes gathered so far for the frame in progress, oldest first.
    pub pending: Seq<u8>,
    /// The counters.
    pub stats: StreamingStats,
}

impl SyncState {
    /// What holds of the state between any two bytes: the bytes gathered are
    /// fewer than a frame, and the first of them is a header byte.
    pub open spec fn valid(self) -> bool {
        &&& self.pending.len() < SBUS_FRAME_LENGTH
        &&& self.pending.len() > 0 ==> self.pending[0] == SBUS_HEADER
    }

    /// The state of a synchronizer that has seen nothing.
    pub open spec fn initial() -> SyncState {
        SyncState {
            pending: Seq::empty(),
            stats: StreamingStats { frames_decoded: 0, sync_losses: 0, bytes_discarded: 0 },
        }
    }
}

/// `count` raised by `by`, stopping at `u32::MAX`.
pub open spec fn bump(count: u32, by: int) -> u32 {
    if count + by > u32::MAX {
        u32::MAX
    } else {
        (count + by) as u32
    }
}

/// Index of the first header byte of `span` at or after `from`; the length of
/// `span` if there is none.
pub open spec fn next_header(span: Seq<u8>, from: int) -> int
    decreases span.len() - from,
{
    if from >= span.len() {
        span.len() as int
    } else if span[from] == SBUS_HEADER {
        from
    } else {
        next_header(span, from + 1)
    }
}

/// The state after `span`, gathered in full, turned out to be no frame.
///
/// The bytes before the next header byte behind the first are thrown away
/// and counted; the bytes from that header on are kept for the frame that
/// follows. Without such a header byte all of `span` is thrown away.
pub open spec fn resync_spec(span: Seq<u8>, stats: StreamingStats) -> SyncState {
    let k = next_header(span, 1);
    SyncState {
        pending: span.skip(k),
        stats: StreamingStats {
            frames_decoded: stats.frames_decoded,
            sync_losses: bump(stats.sync_losses, 1),
            bytes_discarded: bump(stats.bytes_discarded, k),
        },
    }
}

/// One step of the synchronizer: the state after `byte`, and what it gives.
pub open spec fn step(s: SyncState, byte: u8) -> (SyncState, StepOutput) {
    if s.pending.len() == 0 {
        if byte == SBUS_HEADER {
            (SyncState { pending: seq![byte], stats: s.stats }, Ok(None))
        } else {
            (
                SyncState {
                    pending: s.pending,
                    stats: StreamingStats {
                        frames_decoded: s.stats.frames_decoded,
                        sync_losses: s.stats.sync_losses,
                        bytes_discarded: bump(s.stats.bytes_discarded, 1),
                    },
                },
                Ok(None),
            )
        }
    } else {
        let span = s.pending.push(byte);
        if span.len() != SBUS_FRAME_LENGTH {
            (SyncState { pending: span, stats: s.stats }, Ok(None))
        } else if byte != SBUS_FOOTER {
            (resync_spec(span, s.stats), Ok(None))
        } else {
            match unpack_spec(span) {
                Ok(packet) => (
                    SyncState {
                        pending: Seq::empty(),
                        stats: StreamingStats {
                            frames_decoded: bump(s.stats.frames_decoded, 1),
                            sync_losses: s.stats.sync_losses,
                            bytes_discarded: s.stats.bytes_discarded,
                        },
                    },
                    Ok(Some(packet)),
                ),
                Err(e) => (resync_spec(span, s.stats), Err(e)),
            }
        }
    }
}

/// What a step hands to the reader of a chunk: nothing, a packet or an error.
pub open spec fn yielded(output: StepOutput) -> Seq<Result<SbusPacket, SbusError>> {
    match output {
        Ok(None) => Seq::empty(),
        Ok(Some(packet)) => seq![Ok(packet)],
        Err(e) => seq![Err(e)],
    }
}

/// Feeding `bytes` in order: the state after the last of them, and all that
/// the steps gave, in the order in which it came.
pub open spec fn run(s: SyncState, bytes: Seq<u8>) -> (SyncState, Seq<Result<SbusPacket, SbusError>>)
    decreases bytes.len(),
{
    if bytes.len() == 0 {
        (s, Seq::empty())
    } else {
        let (s1, output) = step(s, bytes[0]);
        let (s2, rest) = run(s1, bytes.skip(1));
        (s2, yielded(output) + rest)
    }
}

/// Feeding `data` from `index` on until a step gives something or `data`
/// ends: the state then, the index of the next byte, and what was given.
pub open spec fn advance(s: SyncState, data: Seq<u8>, index: int) -> (
    SyncState,
    int,
    Option<Result<SbusPacket, SbusError>>,
)
    decreases data.len() - index,
{
    if index < 0 || index >= data.len() {
        (s, index, None)
    } else {
        let (s1, output) = step(s, data[index]);
        match output {
            Ok(None) => advance(s1, data, index + 1),
            Ok(Some(packet)) => (s1, index + 1, Some(Ok(packet))),
            Err(e) => (s1, index + 1, Some(Err(e))),
        }
    }
}

/// A synchronizer: gathers the bytes of a serial stream until 25 of them are
/// a frame, and decodes it.
#[derive(Debug)]
pub struct StreamingParser {
    /// The bytes gathered for the frame in progress.
    buffer: [u8; SBUS_FRAME_LENGTH],
    /// How many bytes of `buffer` are gathered.
    pos: usize,
    /// The counters.
    stats: StreamingStats,
}

impl View for StreamingParser {
    type V = SyncState;

    closed spec fn view(&self) -> SyncState {
        SyncState { pending: self.buffer@.take(self.pos as int), stats: self.stats }
    }
}

impl StreamingParser {
    /// What holds of every synchronizer: fewer bytes are gathered than a
    /// frame has, and the first of them is a header byte.
    #[verifier::type_invariant]
    spec fn inv(self) -> bool {
        &&& self.pos < SBUS_FRAME_LENGTH
        &&& self.pos > 0 ==> self.buffer@[0] == SBUS_HEADER
    }

    /// Creates a synchronizer that has seen nothing.
    pub fn new() -> (parser: StreamingParser)
        ensures
            parser@ == SyncState::initial(),
    {
        let parser = StreamingParser {
            buffer: [0u8; SBUS_FRAME_LENGTH],
            pos: 0,
            stats: StreamingStats { frames_decoded: 0, sync_losses: 0, bytes_discarded: 0 },
        };
        assert(parser@.pending =~= Seq::<u8>::empty());
        parser
    }

    /// The counters.
    pub fn stats(&self) -> (stats: &StreamingStats)
        ensures
            *stats == self@.stats,
            self@.valid(),
    {
        proof {
            use_type_invariant(self);
        }
        &self.stats
    }

    /// The number of bytes gathered for the frame in progress.
    pub fn pos(&self) -> (pos: usize)
        ensures
            pos == self@.pending.len(),
            self@.valid(),
    {
        proof {
            use_type_invariant(self);
        }
        self.pos
    }

    /// Forgets the bytes gathered for the frame in progress. The counters stay.
    pub fn reset(&mut self)
        ensures
            final(self)@ == (SyncState { pending: Seq::empty(), stats: old(self)@.stats }),
    {
        self.pos = 0;
        assert(self@.pending =~= Seq::<u8>::empty());
    }

    /// Takes one byte. Gives a packet when the byte completes a frame, an
    /// error when it completes 25 bytes that end like a frame and are none,
    /// and nothing otherwise.
    pub fn push_byte(&mut self, byte: u8) -> (output: StepOutput)
        ensures
            (final(self)@, output) == step(old(self)@, byte),
            old(self)@.valid(),
            final(self)@.valid(),
    {
        proof {
            use_type_invariant(&*self);
        }
        // Nothing gathered: only a header byte starts a frame.
        if self.pos == 0 {
            if byte == SBUS_HEADER {
                self.buffer[0] = byte;
                self.pos = 1;
                assert(self@.pending =~= seq![byte]);
            } else {
                self.stats.bytes_discarded = self.stats.bytes_discarded.saturating_add(1);
                assert(self@.pending =~= old(self)@.pending);
            }
            return Ok(None);
        }
        self.buffer[self.pos] = byte;
        let ghost span = old(self)@.pending.push(byte);
        assert(self.buffer@.take(self.pos + 1) =~= span);

        // The frame is complete when the byte fills the buffer.
        if self.pos + 1 == SBUS_FRAME_LENGTH {
            assert(self.buffer@ =~= span);
            if self.buffer[SBUS_FRAME_LENGTH - 1] == SBUS_FOOTER {
                match SbusPacket::from_array(&self.buffer) {
                    Ok(packet) => {
                        self.stats.frames_decoded = self.stats.frames_decoded.saturating_add(1);
                        self.pos = 0;
                        assert(self@.pending =~= Seq::<u8>::empty());
                        Ok(Some(packet))
                    },
                    Err(e) => {
                        self.resync();
                        Err(e)
                    },
                }
            } else {
                self.resync();
                Ok(None)
            }
        } else {
            self.pos += 1;
            Ok(None)
        }
    }

    /// Takes a chunk of bytes. The bytes are fed as the iterator that is
    /// returned is asked for what they give, not before.
    pub fn push_bytes<'a>(&'a mut self, data: &'a [u8]) -> (iter: StreamingIterator<'a>)
        ensures
            iter.data@ == data@,
            iter.index == 0,
            *iter.parser == *old(self),
            *final(iter.parser) == *final(self),
    {
        StreamingIterator { parser: self, data, index: 0 }
    }

    /// Called when the buffer is full and holds no frame: looks for the next
    /// header byte in it, behind the first byte, and moves the bytes from
    /// there on to the front.
    fn resync(&mut self)
        requires
            old(self).pos == SBUS_FRAME_LENGTH - 1,
        ensures
            final(self)@ == resync_spec(old(self).buffer@, old(self).stats),
            final(self)@.valid(),
    {
        proof {
            use_type_invariant(&*self);
        }
        self.stats.sync_losses = self.stats.sync_losses.saturating_add(1);
        let ghost span = old(self).buffer@;

        let mut found = false;
        let mut i: usize = 1;
        while i < SBUS_FRAME_LENGTH
            invariant_except_break
                !found,
                self.pos == old(self).pos,
                self.buffer == old(self).buffer,
                self.stats.bytes_discarded == old(self).stats.bytes_discarded,
            invariant
                1 <= i,
                span == old(self).buffer@,
                old(self).pos == SBUS_FRAME_LENGTH - 1,
                old(self).buffer@[0] == SBUS_HEADER,
                self.stats.frames_decoded == old(self).stats.frames_decoded,
                self.stats.sync_losses == bump(old(self).stats.sync_losses, 1),
                next_header(span, 1) == next_header(span, i as int),
            ensures
                found ==> self@ == resync_spec(span, old(self).stats) && self@.valid(),
                !found ==> self.pos == old(self).pos && i >= SBUS_FRAME_LENGTH
                    && self.buffer == old(self).buffer && self.stats.bytes_discarded == old(
                    self,
                ).stats.bytes_discarded,
            decreases SBUS_FRAME_LENGTH - i,
        {
            if self.buffer[i] == SBUS_HEADER {
                let remaining: usize = SBUS_FRAME_LENGTH - i;
                self.stats.bytes_discarded = self.stats.bytes_discarded.saturating_add(i as u32);

                let ghost stats = self.stats;
                let mut j: usize = 0;
                while j < remaining
                    invariant
                        j <= remaining,
                        self.stats == stats,
                        self.pos == old(self).pos,
                        old(self).pos == SBUS_FRAME_LENGTH - 1,
                        1 <= i,
                        i + remaining == SBUS_FRAME_LENGTH,
                        old(self).buffer@[i as int] == SBUS_HEADER,
                        forall|m: int| 0 <= m < j ==> self.buffer@[m] == old(self).buffer@[i + m],
                        forall|m: int|
                            j <= m < SBUS_FRAME_LENGTH ==> self.buffer@[m] == old(self).buffer@[m],
                    decreases remaining - j,
                {
                    self.buffer[j] = self.buffer[i + j];
                    j += 1;
                }
                self.pos = remaining;
                found = true;
                assert(next_header(span, i as int) == i);
                assert(self@.pending =~= span.skip(i as int));
                break;
            }
            i += 1;
        }

        if !found {
            self.stats.bytes_discarded = self.stats.bytes_discarded.saturating_add(
                SBUS_FRAME_LENGTH as u32,
            );
            self.pos = 0;
            assert(self@.pending =~= span.skip(span.len() as int));
        }
    }
}

impl Clone for StreamingParser {
    fn clone(&self) -> (copy: StreamingParser)
        ensures
            copy@ == self@,
    {
        proof {
            use_type_invariant(self);
        }
        StreamingParser { buffer: self.buffer, pos: self.pos, stats: self.stats }
    }
}

impl Default for StreamingParser {
    fn default() -> (parser: StreamingParser)
        ensures
            parser@ == SyncState::initial(),
    {
        StreamingParser::new()
    }
}

/// The reader of a chunk that a synchronizer was given: each call of `next`
/// feeds bytes of the chunk up to the next packet or error.
pub struct StreamingIterator<'a> {
    /// The synchronizer that takes the bytes.
    pub parser: &'a mut StreamingParser,
    /// The chunk.
    pub data: &'a [u8],
    /// Index in `data` of the next byte to feed.
    pub index: usize,
}

impl<'a> StreamingIterator<'a> {
    /// The bytes of the chunk that are not fed yet.
    pub open spec fn remaining(&self) -> Seq<u8> {
        if self.index <= self.data@.len() {
            self.data@.skip(self.index as int)
        } else {
            Seq::empty()
        }
    }

    /// Feeds bytes of the chunk until one of them gives a packet or an error,
    /// and returns that; `None` when the chunk is used up before.
    pub fn next(&mut self) -> (item: Option<Result<SbusPacket, SbusError>>)
        ensures
            final(self).data == old(self).data,
            *final(final(self).parser) == *final(old(self).parser),
            (final(self).parser@, final(self).index as int, item) == advance(
                old(self).parser@,
                old(self).data@,
                old(self).index as int,
            ),
            item is Some ==> old(self).index < final(self).index <= old(self).data@.len(),
            item is None ==> final(self).index == (if old(self).index <= old(self).data@.len() {
                old(self).data@.len()
            } else {
                old(self).index as nat
            }),
    {
        while self.index < self.data.len()
            invariant
                self.data == old(self).data,
                *final(self.parser) == *final(old(self).parser),
                old(self).index <= self.index,
                self.index <= self.data@.len() || self.index == old(self).index,
                advance(self.parser@, self.data@, self.index as int) == advance(
                    old(self).parser@,
                    old(self).data@,
                    old(self).index as int,
                ),
            decreases self.data@.len() - self.index,
        {
            let byte: u8 = self.data[self.index];
            self.index += 1;

            match self.parser.push_byte(byte) {
                Ok(Some(packet)) => return Some(Ok(packet)),
                Err(e) => return Some(Err(e)),
                Ok(None) => {},
            }
        }
        None
    }

    /// Feeds what is left of the chunk and returns all that it gives, in the
    /// order in which it came. An error does not end the reading.
    pub fn collect(self) -> (items: Vec<Result<SbusPacket, SbusError>>)
        ensures
            (final(self.parser)@, items@) == run(old(self.parser)@, self.remaining()),
    {
        let mut items: Vec<Result<SbusPacket, SbusError>> = Vec::new();
        let mut iter = self;
        loop
            invariant
                iter.data == self.data,
                *final(iter.parser) == *final(self.parser),
                run(self.parser@, self.remaining()) == (
                    run(iter.parser@, iter.remaining()).0,
                    items@ + run(iter.parser@, iter.remaining()).1,
                ),
            ensures
                *final(iter.parser) == *final(self.parser),
                (iter.parser@, items@) == run(self.parser@, self.remaining()),
            decreases iter.data@.len() - iter.index,
        {
            let ghost before = iter;
            let item = iter.next();
            proof {
                if before.index <= before.data@.len() {
                    lemma_advance_run(before.parser@, before.data@, before.index as int);
                }
            }
            match item {
                Some(item) => {
                    items.push(item);
                },
                None => {
                    break ;
                },
            }
        }
        items
    }
}

/// Feeding the rest of a chunk at once gives what `advance` gives first,
/// followed by what feeding the bytes behind that gives.
pub proof fn lemma_advance_run(s: SyncState, data: Seq<u8>, index: int)
    requires
        0 <= index <= data.len(),
    ensures
        ({
            let (s1, next, item) = advance(s, data, index);
            &&& index <= next <= data.len()
            &&& match item {
                Some(r) => run(s, data.skip(index)) == (
                    run(s1, data.skip(next)).0,
                    seq![r] + run(s1, data.skip(next)).1,
                ),
                None => next == data.len() && run(s, data.skip(index)) == (
                    s1,
                    Seq::<Result<SbusPacket, SbusError>>::empty(),
                ),
            }
        }),
    decreases data.len() - index,
{
    if index < data.len() {
        let rest = data.skip(index);
        assert(rest[0] == data[index]);
        assert(rest.skip(1) =~= data.skip(index + 1));
        let (s1, output) = step(s, data[index]);
        match output {
            Ok(None) => {
                lemma_advance_run(s1, data, index + 1);
                assert(yielded(output) + run(s1, data.skip(index + 1)).1 =~= run(
                    s1,
                    data.skip(index + 1),
                ).1);
            },
            _ => {},
        }
    }
}

} // verus!
