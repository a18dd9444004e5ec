//! The blocking adapter: the whole color sequence goes out in one transmission.
use vstd::prelude::*;

use crate::frame::{
    color_unit, encode_colors, lemma_color_unit_len, lemma_encode_each_len,
    lemma_encode_each_prefix, sync_capacity, sync_frame,
};
use crate::pulse::{
    clock_in_range, color_words, convert_rgb_to_pulses, fill, lemma_fill_concat,
    lemma_fill_past_end, led_pulses_for_clock, one_pulse, zero_pulse, Color,
};
use crate::error::{LedAdapterError, RmtError};

verus! {

/// Drives an LED string through one RMT channel, sending each color sequence as
/// a single transmission.
///
/// The adapter is idle while it holds its channel. `start_transmission` hands
/// the channel out for one send and `finish_transmission` takes it back, with
/// the outcome of that send.
pub struct SmartLedsAdapter<TX, const BUFFER_SIZE: usize> {
    channel: Option<TX>,
    rmt_buffer: [u32; BUFFER_SIZE],
    pulses: (u32, u32),
}

impl<TX, const BUFFER_SIZE: usize> SmartLedsAdapter<TX, BUFFER_SIZE> {
    /// The channel, while the adapter holds it.
    pub closed spec fn channel(&self) -> Option<TX> {
        self.channel
    }

    /// The contents of the encode buffer.
    pub closed spec fn buffer(&self) -> Seq<u32> {
        self.rmt_buffer@
    }

    /// The pulse codes of a logical 0 and of a logical 1.
    pub closed spec fn pulses(&self) -> (u32, u32) {
        self.pulses
    }

    /// Whether the adapter holds its channel (no transmission under way).
    pub open spec fn is_idle(&self) -> bool {
        self.channel() is Some
    }

    /// An idle adapter over a configured `channel`, whose RMT unit counts at
    /// `src_clock` MHz.
    pub fn new(channel: TX, rmt_buffer: [u32; BUFFER_SIZE], src_clock: u32) -> (r: Self)
        requires
            clock_in_range(src_clock),
        ensures
            r.channel() == Some(channel),
            r.buffer() == rmt_buffer@,
            r.pulses() == (zero_pulse(src_clock), one_pulse(src_clock)),
    {
        SmartLedsAdapter {
            channel: Some(channel),
            rmt_buffer,
            pulses: led_pulses_for_clock(src_clock),
        }
    }

    /// Encodes `colors` from the start of the buffer and appends one end marker.
    /// Returns the number of words to send, or `BufferSizeExceeded` when the
    /// buffer is too small; then the words that fit have been written.
    pub fn prepare_rmt_buffer(&mut self, colors: &[Color]) -> (r: Result<usize, LedAdapterError>)
        ensures
            final(self).buffer() == fill(old(self).buffer(), 0, sync_frame(colors@, old(self).pulses())),
            final(self).channel() == old(self).channel(),
            final(self).pulses() == old(self).pulses(),
            r is Ok <==> sync_capacity(colors@.len() as int) <= BUFFER_SIZE,
            r is Ok ==> r == Ok::<usize, LedAdapterError>(
                sync_capacity(colors@.len() as int) as usize,
            ),
            r is Err ==> r == Err::<usize, LedAdapterError>(LedAdapterError::BufferSizeExceeded),
    {
        let pulses = self.pulses;
        let ghost orig = self.rmt_buffer@;
        let ghost frame = sync_frame(colors@, pulses);
        let ghost all = encode_colors(colors@, pulses);
        proof {
            lemma_color_unit_len(pulses);
            lemma_encode_each_len(colors@, color_unit(pulses), 24);
        }
        let buf: &mut [u32] = &mut self.rmt_buffer;
        let mut pos: usize = 0;
        let mut i: usize = 0;
        while i < colors.len()
            invariant
                0 <= i <= colors@.len(),
                pos == 24 * i,
                pos <= buf@.len(),
                buf@.len() == BUFFER_SIZE,
                orig.len() == BUFFER_SIZE,
                pulses == old(self).pulses,
                self.pulses == old(self).pulses,
                self.channel == old(self).channel,
                after_borrow(self.rmt_buffer)@ == final(buf)@,
                orig == old(self).rmt_buffer@,
                all == encode_colors(colors@, pulses),
                frame == all.push(0u32),
                all.len() == 24 * colors@.len(),
                forall|c: Color| #[trigger] color_unit(pulses)(c).len() == 24,
                buf@ == fill(orig, 0, encode_colors(colors@.take(i as int), pulses)),
            decreases colors@.len() - i,
        {
            let ghost before = buf@;
            let ghost head = encode_colors(colors@.take(i as int), pulses);
            let c = colors[i];
            let res = convert_rgb_to_pulses(c, buf, &mut pos, pulses);
            proof {
                lemma_encode_each_len(colors@.take(i as int), color_unit(pulses), 24);
                lemma_fill_concat(orig, 0, head, color_words(c, pulses));
                assert(colors@.take(i + 1).drop_last() =~= colors@.take(i as int));
                assert(encode_colors(colors@.take(i + 1), pulses) == head + color_words(c, pulses));
            }
            if res.is_err() {
                proof {
                    let next = encode_colors(colors@.take(i + 1), pulses);
                    lemma_encode_each_prefix(colors@, color_unit(pulses), 24, i + 1);
                    assert(24 * (i + 1) <= all.len()) by (nonlinear_arith)
                        requires
                            i + 1 <= colors@.len(),
                            all.len() == 24 * colors@.len(),
                    ;
                    assert(next == all.take(24 * (i + 1)));
                    assert(frame =~= next + frame.skip(24 * (i + 1)));
                    lemma_fill_past_end(orig, 0, next, frame.skip(24 * (i + 1)));
                    assert(sync_capacity(colors@.len() as int) > BUFFER_SIZE) by (nonlinear_arith)
                        requires
                            24 * i + 24 > BUFFER_SIZE,
                            i + 1 <= colors@.len(),
                    ;
                }
                return Err(LedAdapterError::BufferSizeExceeded);
            }
            i = i + 1;
        }
        proof {
            assert(colors@.take(i as int) =~= colors@);
        }
        if pos >= buf.len() {
            proof {
                assert(frame =~= all + seq![0u32]);
                lemma_fill_past_end(orig, 0, all, seq![0u32]);
            }
            return Err(LedAdapterError::BufferSizeExceeded);
        }
        // the end marker
        buf[pos] = 0;
        proof {
            assert(buf@ =~= fill(orig, 0, frame));
        }
        Ok(pos + 1)
    }

    /// The first `len` words of the buffer: what a transmission sends.
    pub fn frame(&self, len: usize) -> (r: &[u32])
        requires
            len <= BUFFER_SIZE,
        ensures
            r@ == self.buffer().take(len as int),
    {
        let all: &[u32] = self.rmt_buffer.as_slice();
        let r = vstd::slice::slice_subrange(all, 0, len);
        proof {
            assert(r@ =~= self.buffer().take(len as int));
        }
        r
    }

    /// Hands the channel out for one transmission; the adapter is then busy.
    pub fn start_transmission(&mut self) -> (r: TX)
        requires
            old(self).is_idle(),
        ensures
            Some(r) == old(self).channel(),
            final(self).channel() is None,
            final(self).buffer() == old(self).buffer(),
            final(self).pulses() == old(self).pulses(),
    {
        let channel = self.channel.take();
        channel.unwrap()
    }

    /// Takes the channel back after a transmission, and reports its outcome.
    pub fn finish_transmission(&mut self, channel: TX, outcome: Result<(), RmtError>) -> (r: Result<
        (),
        LedAdapterError,
    >)
        requires
            !old(self).is_idle(),
        ensures
            final(self).channel() == Some(channel),
            final(self).buffer() == old(self).buffer(),
            final(self).pulses() == old(self).pulses(),
            r == match outcome {
                Ok(()) => Ok::<(), LedAdapterError>(()),
                Err(e) => Err(LedAdapterError::TransmissionError(e)),
            },
    {
        self.channel = Some(channel);
        match outcome {
            Ok(()) => Ok(()),
            Err(e) => Err(LedAdapterError::from(e)),
        }
    }
}

} // verus!
