//! The chunked adapter: each color goes out in a transmission of its own.
use vstd::prelude::*;

use crate::frame::{
    async_capacity, async_frame, chunk_unit, chunk_words, lemma_chunk_unit_len,
    lemma_encode_each_len, lemma_encode_each_prefix, RMT_RAM_ONE_LED,
};
use crate::pulse::{
    clock_in_range, color_words, convert_rgb_to_pulses, fill, lemma_fill_concat,
    lemma_fill_past_end, led_pulses_for_clock, one_pulse, zero_pulse, Color,
};
use crate::error::LedAdapterError;

verus! {

/// Drives an LED string through one RMT channel, sending each color of a
/// sequence as a transmission of its own: its 24 pulse codes and an end marker.
pub struct SmartLedsAdapterAsync<Tx, const BUFFER_SIZE: usize> {
    channel: Tx,
    rmt_buffer: [u32; BUFFER_SIZE],
    pulses: (u32, u32),
}

impl<Tx, const BUFFER_SIZE: usize> SmartLedsAdapterAsync<Tx, BUFFER_SIZE> {
    /// The channel.
    pub closed spec fn channel(&self) -> Tx {
        self.channel
    }

    /// The contents of the encode buffer.
    pub closed spec fn buffer(&self) -> Seq<u32> {
        self.rmt_buffer@
    }

    /// The pulse codes of a logical 0 and of a logical 1.
    pub closed spec fn pulses(&self) -> (u32, u32) {
        self.pulses
    }

    /// An adapter over a configured `channel`, whose RMT unit counts at
    /// `src_clock` MHz.
    pub fn new(channel: Tx, rmt_buffer: [u32; BUFFER_SIZE], src_clock: u32) -> (r: Self)
        requires
            clock_in_range(src_clock),
        ensures
            r.channel() == channel,
            r.buffer() == rmt_buffer@,
            r.pulses() == (zero_pulse(src_clock), one_pulse(src_clock)),
    {
        SmartLedsAdapterAsync { channel, rmt_buffer, pulses: led_pulses_for_clock(src_clock) }
    }

    /// Writes the chunk of `value` (its 24 codes, then an end marker) into `buf`
    /// from `*pos` on and advances `*pos` past it. Where `buf` ends first, the
    /// words that fit are written and `BufferSizeExceeded` is returned.
    fn convert_rgb_to_pulse(
        value: Color,
        buf: &mut [u32],
        pos: &mut usize,
        pulses: (u32, u32),
    ) -> (r: Result<(), LedAdapterError>)
        requires
            *old(pos) <= old(buf)@.len(),
        ensures
            final(buf)@ == fill(old(buf)@, *old(pos) as int, chunk_words(value, pulses)),
            r is Ok <==> *old(pos) + 25 <= old(buf)@.len(),
            r is Ok ==> *final(pos) == *old(pos) + 25,
            r is Err ==> r == Err::<(), LedAdapterError>(LedAdapterError::BufferSizeExceeded),
    {
        let ghost start = *pos as int;
        let ghost orig = buf@;
        let ghost words = color_words(value, pulses);
        proof {
            assert(chunk_words(value, pulses) =~= words + seq![0u32]);
        }
        let res = convert_rgb_to_pulses(value, buf, pos, pulses);
        if res.is_err() {
            proof {
                lemma_fill_past_end(orig, start, words, seq![0u32]);
            }
            return res;
        }
        if *pos >= buf.len() {
            proof {
                lemma_fill_past_end(orig, start, words, seq![0u32]);
            }
            return Err(LedAdapterError::BufferSizeExceeded);
        }
        // the end marker of this chunk
        buf[*pos] = 0;
        proof {
            lemma_fill_concat(orig, start, words, seq![0u32]);
            assert(buf@ =~= fill(fill(orig, start, words), start + 24, seq![0u32]));
        }
        *pos = *pos + 1;
        Ok(())
    }

    /// Encodes `colors` from the start of the buffer, each color as its chunk.
    /// Returns the number of chunks to send, or `BufferSizeExceeded` when the
    /// buffer is too small; then the words that fit have been written.
    pub fn prepare_rmt_buffer(&mut self, colors: &[Color]) -> (r: Result<usize, LedAdapterError>)
        ensures
            final(self).buffer() == fill(old(self).buffer(), 0, async_frame(colors@, old(self).pulses())),
            final(self).channel() == old(self).channel(),
            final(self).pulses() == old(self).pulses(),
            r is Ok <==> async_capacity(colors@.len() as int) <= BUFFER_SIZE,
            r is Ok ==> r == Ok::<usize, LedAdapterError>(colors.len()),
            r is Err ==> r == Err::<usize, LedAdapterError>(LedAdapterError::BufferSizeExceeded),
    {
        let pulses = self.pulses;
        let ghost orig = self.rmt_buffer@;
        let ghost all = async_frame(colors@, pulses);
        proof {
            lemma_chunk_unit_len(pulses);
            lemma_encode_each_len(colors@, chunk_unit(pulses), 25);
        }
        let buf: &mut [u32] = &mut self.rmt_buffer;
        let mut pos: usize = 0;
        let mut i: usize = 0;
        while i < colors.len()
            invariant
                0 <= i <= colors@.len(),
                pos == 25 * i,
                pos <= buf@.len(),
                buf@.len() == BUFFER_SIZE,
                orig.len() == BUFFER_SIZE,
                pulses == old(self).pulses,
                self.pulses == old(self).pulses,
                self.channel == old(self).channel,
                after_borrow(self.rmt_buffer)@ == final(buf)@,
                orig == old(self).rmt_buffer@,
                all == async_frame(colors@, pulses),
                all.len() == 25 * colors@.len(),
                forall|c: Color| #[trigger] chunk_unit(pulses)(c).len() == 25,
                buf@ == fill(orig, 0, async_frame(colors@.take(i as int), pulses)),
            decreases colors@.len() - i,
        {
            let ghost head = async_frame(colors@.take(i as int), pulses);
            let c = colors[i];
            let res = Self::convert_rgb_to_pulse(c, buf, &mut pos, pulses);
            proof {
                lemma_encode_each_len(colors@.take(i as int), chunk_unit(pulses), 25);
                lemma_fill_concat(orig, 0, head, chunk_words(c, pulses));
                assert(colors@.take(i + 1).drop_last() =~= colors@.take(i as int));
                assert(async_frame(colors@.take(i + 1), pulses) == head + chunk_words(c, pulses));
            }
            if res.is_err() {
                proof {
                    let next = async_frame(colors@.take(i + 1), pulses);
                    lemma_encode_each_prefix(colors@, chunk_unit(pulses), 25, i + 1);
                    assert(25 * (i + 1) <= all.len()) by (nonlinear_arith)
                        requires
                            i + 1 <= colors@.len(),
                            all.len() == 25 * colors@.len(),
                    ;
                    assert(next == all.take(25 * (i + 1)));
                    assert(all =~= next + all.skip(25 * (i + 1)));
                    lemma_fill_past_end(orig, 0, next, all.skip(25 * (i + 1)));
                    assert(async_capacity(colors@.len() as int) > BUFFER_SIZE) by (nonlinear_arith)
                        requires
                            25 * i + 25 > BUFFER_SIZE,
                            i + 1 <= colors@.len(),
                    ;
                }
                return Err(LedAdapterError::BufferSizeExceeded);
            }
            i = i + 1;
        }
        proof {
            assert(colors@.take(i as int) =~= colors@);
        }
        Ok(i)
    }

    /// The `i`-th chunk of the buffer: the words of one transmission.
    pub fn chunk(&self, i: usize) -> (r: &[u32])
        requires
            async_capacity(i + 1) <= BUFFER_SIZE,
        ensures
            r@ == self.buffer().subrange(25 * i, 25 * i + 25),
    {
        let all: &[u32] = self.rmt_buffer.as_slice();
        assert(i * 25 + 25 <= BUFFER_SIZE) by (nonlinear_arith)
            requires
                async_capacity(i + 1) <= BUFFER_SIZE,
        ;
        let start = i * (RMT_RAM_ONE_LED + 1);
        vstd::slice::slice_subrange(all, start, start + RMT_RAM_ONE_LED + 1)
    }

    /// The channel, to transmit through.
    pub fn channel_mut(&mut self) -> (r: &mut Tx)
        ensures
            *r == old(self).channel(),
            final(self).channel() == *final(r),
            final(self).buffer() == old(self).buffer(),
            final(self).pulses() == old(self).pulses(),
    {
        &mut self.channel
    }
}

} // verus!
