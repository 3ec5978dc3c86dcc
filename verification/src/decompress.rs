//! Reading archives which come in chunks, possibly compressed.
//!
//! The readers here are fed by their callers, who receive the chunks: a reader says whether it
//! wants more input, takes what there is, and gives what it can.

use vstd::prelude::*;

use crate::outside;
pub use crate::outside::XzError;
use crate::outside::{XzAction, XzStatus};

verus! {

// ---------------------------------------------------------------------------------------------
// ChunkBuffer

/// What is left of the last chunk that was received.
pub struct ChunkBuffer {
    pub leftover: bytes::Bytes,
}

/// The lesser of two numbers.
pub open spec fn lesser(a: nat, b: nat) -> nat {
    if a < b {
        a
    } else {
        b
    }
}

impl View for ChunkBuffer {
    type V = Seq<u8>;

    open spec fn view(&self) -> Seq<u8> {
        outside::held(self.leftover)
    }
}

impl ChunkBuffer {
    /// A buffer which has received nothing.
    pub fn new() -> (buffer: ChunkBuffer)
        ensures
            buffer@ == Seq::<u8>::empty(),
    {
        ChunkBuffer { leftover: outside::new_bytes() }
    }

    /// Whether a chunk has to be received before [`Self::fill`] gives anything.
    pub fn is_empty(&self) -> (empty: bool)
        ensures
            empty == (self@.len() == 0),
    {
        outside::bytes_in(&self.leftover).len() == 0
    }

    /// Takes a chunk, in place of what is left of the last one.
    pub fn receive(&mut self, chunk: bytes::Bytes)
        ensures
            final(self)@ == outside::held(chunk),
    {
        self.leftover = chunk;
    }

    /// Fills `buf` with as many leftover bytes as fit, returning their number.
    pub fn fill(&mut self, buf: &mut [u8]) -> (count: usize)
        ensures
            count == lesser(old(self)@.len(), old(buf)@.len()),
            final(buf)@ == old(self)@.take(count as int) + old(buf)@.skip(count as int),
            final(self)@ == old(self)@.skip(count as int),
            final(buf)@.take(count as int) + final(self)@ == old(self)@,
    {
        let ghost before = buf@;
        let data: &[u8] = outside::bytes_in(&self.leftover);
        let count: usize = if data.len() < buf.len() { data.len() } else { buf.len() };
        let mut i: usize = 0;
        assert(buf@ == data@.take(0) + before.skip(0));
        while i < count
            invariant
                i <= count <= data@.len(),
                count <= before.len(),
                buf@ == data@.take(i as int) + before.skip(i as int),
            decreases count - i,
        {
            buf[i] = data[i];
            i += 1;
            assert(buf@ == data@.take(i as int) + before.skip(i as int));
        }
        outside::advance_bytes(&mut self.leftover, count);
        assert(buf@.take(count as int) == old(self)@.take(count as int));
        assert(old(self)@.take(count as int) + old(self)@.skip(count as int) == old(self)@);
        count
    }
}

// ---------------------------------------------------------------------------------------------
// XzTarReader

/// What a reader did.
#[derive(Debug, Clone, Copy, PartialEq, Eq, Structural)]
pub struct Progress {
    /// How many bytes it has written.
    pub produced: usize,
    /// Whether its caller may return. Otherwise the reader needs more input.
    pub ready: bool,
}

impl Progress {
    /// What a reader of xz did, which had room for `room` bytes.
    ///
    /// If no output was produced, the stream isn't done, and there is still room, we must need more
    /// input.
    pub fn of_xz(produced: usize, ended: bool, room: usize) -> (progress: Progress)
        ensures
            progress.produced == produced,
            progress.ready == (produced > 0 || ended || produced == room),
    {
        Progress { produced, ready: produced > 0 || ended || produced == room }
    }

    /// What a reader of zstd did, which had room for `room` bytes, has consumed `read` bytes, and
    /// knows whether there is no more input.
    ///
    /// If no full block/header is available and the source is exhausted, there is nothing more to
    /// decode. Otherwise, not having read anything means that the input didn't contain a full block
    /// yet.
    pub fn of_zstd(read: usize, produced: usize, room: usize, input_eof: bool) -> (progress:
        Progress)
        ensures
            progress.produced == produced,
            progress.ready == (produced > 0 || produced == room || (read == 0 && input_eof)),
    {
        let exhausted: bool = read == 0 && input_eof;
        Progress { produced, ready: produced > 0 || produced == room || exhausted }
    }
}

/// Decompresses xz.
pub struct XzTarReader {
    pub stream: xz::stream::Stream,
    /// Compressed bytes not yet consumed by `stream`.
    pub input: bytes::Bytes,
    /// Set once there is no more input, so we know to finish `stream`.
    pub input_eof: bool,
}

impl XzTarReader {
    /// The bytes which were not yet consumed.
    pub open spec fn pending(self) -> Seq<u8> {
        outside::held(self.input)
    }

    /// The calls that the decoder would have had after one more with room for `room` bytes.
    pub open spec fn next_calls(self, room: nat) -> Seq<(Seq<u8>, nat, bool)> {
        outside::xz_calls(self.stream).push((self.pending(), room, self.input_eof))
    }

    /// What that call would do, if it does not fail.
    pub open spec fn next_outcome(self, room: nat) -> (nat, Seq<u8>, bool) {
        outside::xz_outcome(outside::xz_settings(self.stream), self.next_calls(room))
    }

    /// A reader which was given nothing. It uses as much memory as it needs, and there is one unless
    /// memory couldn't be allocated.
    pub fn new() -> (reader: Result<XzTarReader, XzError>)
        ensures
            match reader {
                Ok(reader) => {
                    &&& outside::xz_settings(reader.stream) == (u64::MAX, 0u32)
                    &&& outside::xz_calls(reader.stream) == Seq::<(Seq<u8>, nat, bool)>::empty()
                    &&& reader.pending() == Seq::<u8>::empty()
                    &&& !reader.input_eof
                },
                Err(error) => error == XzError::Mem,
            },
    {
        match outside::new_xz(u64::MAX, 0) {
            Ok(stream) => Ok(
                XzTarReader { stream, input: outside::new_bytes(), input_eof: false },
            ),
            Err(error) => Err(error),
        }
    }

    /// Whether everything was consumed and the source isn't done.
    pub fn wants_input(&self) -> (wants: bool)
        ensures
            wants == (self.pending().len() == 0 && !self.input_eof),
    {
        outside::bytes_in(&self.input).len() == 0 && !self.input_eof
    }

    /// Takes what was received from the source; nothing means that it is done.
    pub fn feed(&mut self, received: &[u8])
        ensures
            final(self).stream == old(self).stream,
            if received@.len() == 0 {
                final(self).input_eof && final(self).input == old(self).input
            } else {
                final(self).input_eof == old(self).input_eof && final(self).pending() == received@
            },
    {
        if received.len() == 0 {
            self.input_eof = true;
        } else {
            self.input = outside::copy_bytes(received);
        }
    }

    /// Decompresses into `out`: hands what was not yet consumed to the decoder, and says what it did.
    /// If the decoder fails, what was not yet consumed stays.
    pub fn step(&mut self, out: &mut [u8]) -> (progress: Result<Progress, xz::stream::Error>)
        ensures
            final(out)@.len() == old(out)@.len(),
            outside::xz_calls(final(self).stream) == old(self).next_calls(old(out)@.len()),
            final(self).input_eof == old(self).input_eof,
            match progress {
                Ok(progress) => {
                    let outcome = old(self).next_outcome(old(out)@.len());
                    &&& progress.produced == outcome.1.len()
                    &&& progress.produced <= old(out)@.len()
                    &&& final(out)@.take(progress.produced as int) == outcome.1
                    &&& progress.ready == (progress.produced > 0 || outcome.2
                        || progress.produced == old(out)@.len())
                    &&& outcome.0 <= old(self).pending().len()
                    &&& final(self).pending() == old(self).pending().skip(outcome.0 as int)
                    &&& outside::xz_settings(final(self).stream) == outside::xz_settings(
                        old(self).stream,
                    )
                },
                Err(_) => final(self).input == old(self).input,
            },
    {
        let ghost settings = outside::xz_settings(self.stream);
        let ghost calls = outside::xz_calls(self.stream);
        let ghost next = self.next_calls(out@.len());
        let room: usize = out.len();
        let action: XzAction = if self.input_eof { XzAction::Finish } else { XzAction::Run };
        let before_in: u64 = outside::xz_total_in(&self.stream);
        let before_out: u64 = outside::xz_total_out(&self.stream);
        let input: &[u8] = outside::bytes_in(&self.input);
        assert(input@.len() == input.len());
        assert(out@.len() == room);
        let status: XzStatus = match outside::xz_process(&mut self.stream, input, out, action) {
            Ok(status) => status,
            Err(error) => {
                return Err(error);
            },
        };
        let after_in: u64 = outside::xz_total_in(&self.stream);
        let after_out: u64 = outside::xz_total_out(&self.stream);
        proof {
            assert(next.drop_last() == calls);
            assert(outside::xz_calls(self.stream) == next);
            let outcome = outside::xz_outcome(settings, next);
            lemma_difference(
                outside::xz_taken(settings, calls) as int,
                outcome.0 as int,
                before_in,
                after_in,
            );
            lemma_difference(
                outside::xz_given(settings, calls) as int,
                outcome.1.len() as int,
                before_out,
                after_out,
            );
        }
        let consumed: usize = after_in.wrapping_sub(before_in) as usize;
        let produced: usize = after_out.wrapping_sub(before_out) as usize;
        outside::advance_bytes(&mut self.input, consumed);
        let ended: bool = match status {
            XzStatus::StreamEnd => true,
            _ => false,
        };
        Ok(Progress::of_xz(produced, ended, room))
    }
}

/// The difference of two counts in 64 bits is how much was counted in between.
proof fn lemma_difference(before: int, more: int, low_before: u64, low_after: u64)
    requires
        0 <= before,
        0 <= more <= u64::MAX,
        low_before as int == before % 0x1_0000_0000_0000_0000,
        low_after as int == (before + more) % 0x1_0000_0000_0000_0000,
    ensures
        low_after.wrapping_sub(low_before) as int == more,
{
    let whole = 0x1_0000_0000_0000_0000int;
    assert(low_after as int == low_before + more || low_after as int == low_before + more - whole);
}

// ---------------------------------------------------------------------------------------------
// ZstdTarReader

/// Largest possible zstd frame header: 4-byte magic number + up to 14 bytes of frame header
/// descriptor/fields. `ruzstd` needs at least this many bytes buffered before it can start
/// decoding.
pub const ZSTD_MAX_FRAME_HEADER_SIZE: usize = 18;

/// Largest possible zstd block.
pub const ZSTD_MAX_BLOCK_SIZE: usize = 0x2_0000;

/// How many bytes the checksum after a zstd frame has.
pub const ZSTD_CHECKSUM_SIZE: usize = 4;

/// What to do where a reader wants input, but there is none yet.
#[derive(Clone, Copy, PartialEq, Eq, Debug, Structural)]
pub enum Next {
    /// Wait for input.
    Wait,
    /// Decompress what there is.
    Decode,
}

/// Decompresses zstd.
pub struct ZstdTarReader {
    decoder: ruzstd::decoding::FrameDecoder,
    /// Set once `decoder` was called.
    started: bool,
    /// Compressed bytes not yet consumed by `decoder`.
    input: Vec<u8>,
    /// Set once there is no more input.
    input_eof: bool,
    /// Set while `input` is known not to contain a full block.
    stalled: bool,
}

/// The state of a [`ZstdTarReader`].
pub struct ZstdView {
    /// The calls that the decoder has had: the input, and the room for output.
    pub calls: Seq<(Seq<u8>, nat)>,
    /// The bytes which were not yet consumed.
    pub pending: Seq<u8>,
    /// Whether there is no more input.
    pub input_eof: bool,
    /// Whether the last call consumed and produced nothing, and nothing was received since.
    pub stalled: bool,
}

impl ZstdView {
    /// The calls that the decoder would have had after one more with room for `room` bytes.
    pub open spec fn next_calls(self, room: nat) -> Seq<(Seq<u8>, nat)> {
        self.calls.push((self.pending, room))
    }

    /// Whether more input should be pulled before decoding.
    pub open spec fn wants_input(self) -> bool {
        !self.input_eof && (self.pending.len() < 18 || self.pending.len() < 128 * 1024
            || self.stalled)
    }

    /// What to do where there is no input yet.
    pub open spec fn after_pending(self) -> Next {
        let least: nat = if self.calls.len() == 0 {
            18
        } else {
            4
        };
        if self.pending.len() < least || self.stalled {
            Next::Wait
        } else {
            Next::Decode
        }
    }
}

impl View for ZstdTarReader {
    type V = ZstdView;

    closed spec fn view(&self) -> ZstdView {
        ZstdView {
            calls: outside::zstd_calls(self.decoder),
            pending: self.input@,
            input_eof: self.input_eof,
            stalled: self.stalled,
        }
    }
}

impl ZstdTarReader {
    /// No call of the decoder has failed.
    #[verifier::type_invariant]
    spec fn wf(self) -> bool {
        &&& outside::zstd_succeeded(outside::zstd_calls(self.decoder))
        &&& self.started == (outside::zstd_calls(self.decoder).len() > 0)
    }

    /// A reader which was given nothing.
    pub fn new() -> (reader: ZstdTarReader)
        ensures
            reader@ == (ZstdView { calls: seq![], pending: seq![], input_eof: false, stalled: false }),
    {
        ZstdTarReader {
            decoder: outside::new_zstd(),
            started: false,
            input: Vec::new(),
            input_eof: false,
            stalled: false,
        }
    }

    /// Whether more input should be pulled before decoding. The decoder needs at least a full frame
    /// header, and (once started) at least one full block, to make progress; keep pulling more
    /// input until either happens or the source is exhausted. A block and its header may be a
    /// little larger than [`ZSTD_MAX_BLOCK_SIZE`], so that more may be needed than that.
    pub fn wants_input(&self) -> (wants: bool)
        ensures
            wants == self@.wants_input(),
    {
        !self.input_eof && (self.input.len() < ZSTD_MAX_FRAME_HEADER_SIZE || self.input.len()
            < ZSTD_MAX_BLOCK_SIZE || self.stalled)
    }

    /// What to do where more input should be pulled, but there is none yet. We may already have
    /// enough buffered to make progress (e.g. a small final block); only wait if we have nothing to
    /// try yet.
    ///
    /// There is nothing to try where the decoder would make nothing of what is buffered, as it did
    /// before, and where that is too little to be given to it: it fails on a part of a frame header,
    /// and consumes a part of a checksum as if that were all of it.
    pub fn after_pending(&self) -> (next: Next)
        ensures
            next == self@.after_pending(),
    {
        proof {
            use_type_invariant(self);
        }
        let least: usize = if self.started {
            ZSTD_CHECKSUM_SIZE
        } else {
            ZSTD_MAX_FRAME_HEADER_SIZE
        };
        if self.input.len() < least || self.stalled {
            Next::Wait
        } else {
            Next::Decode
        }
    }

    /// Takes what was received from the source; nothing means that it is done.
    pub fn feed(self, received: &[u8]) -> (reader: ZstdTarReader)
        ensures
            reader@ == (ZstdView {
                calls: self@.calls,
                pending: self@.pending + received@,
                input_eof: self@.input_eof || received@.len() == 0,
                stalled: false,
            }),
    {
        proof {
            use_type_invariant(&self);
        }
        let ZstdTarReader { decoder, started, mut input, input_eof, stalled: _ } = self;
        let ghost before = input@;
        input.extend_from_slice(received);
        assert(input@ == before + received@);
        let input_eof: bool = input_eof || received.len() == 0;
        ZstdTarReader { decoder, started, input, input_eof, stalled: false }
    }

    /// Decompresses into `out`. The reader is handed back unless the decoder failed: it can't be
    /// used any more then.
    ///
    /// There is no [`Progress`] if the decoder says that it consumed more than there is, which is
    /// the case where only a part of the final checksum was received.
    pub fn step(self, out: &mut [u8]) -> (result: Result<
        (ZstdTarReader, Option<Progress>),
        ruzstd::decoding::errors::FrameDecoderError,
    >)
        ensures
            final(out)@.len() == old(out)@.len(),
            match (result, outside::zstd_outcome(self@.next_calls(old(out)@.len()))) {
                (Ok((reader, Some(progress))), Some((read, written))) => {
                    &&& read <= self@.pending.len()
                    &&& progress.produced == written.len()
                    &&& progress.produced <= old(out)@.len()
                    &&& final(out)@.take(progress.produced as int) == written
                    &&& progress.ready == (progress.produced > 0 || progress.produced == old(
                        out,
                    )@.len() || (read == 0 && self@.input_eof))
                    &&& reader@ == (ZstdView {
                        calls: self@.next_calls(old(out)@.len()),
                        pending: self@.pending.skip(read as int),
                        input_eof: self@.input_eof,
                        stalled: read == 0 && !progress.ready,
                    })
                },
                (Ok((reader, None)), Some((read, written))) => {
                    &&& read > self@.pending.len()
                    &&& reader@ == (ZstdView {
                        calls: self@.next_calls(old(out)@.len()),
                        ..self@
                    })
                },
                (Err(_), None) => true,
                _ => false,
            },
    {
        proof {
            use_type_invariant(&self);
        }
        let room: usize = out.len();
        let ghost calls = self@.calls;
        let ZstdTarReader { mut decoder, started: _, mut input, input_eof, stalled } = self;
        let ghost pending = input@;
        let (read, written) = match outside::zstd_decode(&mut decoder, input.as_slice(), out) {
            Ok(counts) => counts,
            Err(error) => {
                return Err(error);
            },
        };
        proof {
            let made = outside::zstd_calls(decoder);
            assert forall|n: int| 0 < n <= made.len() implies outside::zstd_outcome(
                #[trigger] made.take(n),
            ) is Some by {
                if n < made.len() {
                    assert(made.take(n) == calls.take(n));
                } else {
                    assert(made.take(n) == made);
                }
            }
        }
        if read > input.len() {
            return Ok((ZstdTarReader { decoder, started: true, input, input_eof, stalled }, None));
        }
        let input: Vec<u8> = input.split_off(read);
        assert(input@ == pending.skip(read as int));
        let progress: Progress = Progress::of_zstd(read, written, room, input_eof);
        let stalled: bool = read == 0 && !progress.ready;
        Ok((ZstdTarReader { decoder, started: true, input, input_eof, stalled }, Some(progress)))
    }
}

// ---------------------------------------------------------------------------------------------
// Laws

/// A reader which made nothing of what it was given wants more, and waits where there is none yet.
pub proof fn stalled_reader_waits(reader: ZstdView)
    requires
        reader.stalled,
        !reader.input_eof,
    ensures
        reader.wants_input(),
        reader.after_pending() == Next::Wait,
{
}

/// A reader wants more until it has a whole block, or until the source is done.
pub proof fn readers_want_a_block(reader: ZstdView)
    ensures
        reader.input_eof ==> !reader.wants_input(),
        !reader.input_eof && reader.pending.len() < 128 * 1024 ==> reader.wants_input(),
        !reader.stalled && reader.pending.len() >= 128 * 1024 ==> !reader.wants_input(),
{
}

/// A reader which has something to try tries it, whether or not there is more: a frame header if
/// nothing was tried yet, and else a block and a checksum.
pub proof fn readers_try_what_there_is(reader: ZstdView)
    requires
        !reader.stalled,
    ensures
        reader.pending.len() >= 18 ==> reader.after_pending() == Next::Decode,
        reader.calls.len() > 0 && reader.pending.len() >= 4 ==> reader.after_pending()
            == Next::Decode,
        reader.pending.len() == 0 ==> reader.after_pending() == Next::Wait,
        reader.calls.len() == 0 && reader.pending.len() < 18 ==> reader.after_pending()
            == Next::Wait,
        reader.pending.len() < 4 ==> reader.after_pending() == Next::Wait,
{
}

/// What is read at once is as much as there is, and as there is room for.
pub proof fn lesser_is_the_least(a: nat, b: nat)
    ensures
        lesser(a, b) <= a,
        lesser(a, b) <= b,
        lesser(a, b) == a || lesser(a, b) == b,
{
}

/// A decoder of xz is given all that was received and not consumed, and is told that nothing follows
/// exactly if the source is done.
pub proof fn xz_is_finished_with_its_source(reader: XzTarReader, room: nat)
    ensures
        reader.next_calls(room).len() == outside::xz_calls(reader.stream).len() + 1,
        reader.next_calls(room).drop_last() == outside::xz_calls(reader.stream),
        reader.next_calls(room).last() == (reader.pending(), room, reader.input_eof),
{
}

/// A decoder of zstd is given all that was received and not consumed.
pub proof fn zstd_is_given_what_is_pending(reader: ZstdView, room: nat)
    ensures
        reader.next_calls(room).drop_last() == reader.calls,
        reader.next_calls(room).last() == (reader.pending, room),
{
}

} // verus!
