//! Pulse codes and the encoding of colors into them.
use vstd::prelude::*;

use crate::error::LedAdapterError;

verus! {

/// Period of one bit of the LED protocol, in nanoseconds (800 kHz).
pub const SK68XX_CODE_PERIOD: u32 = 1250;

/// High time of a logical 0, in nanoseconds.
pub const SK68XX_T0H_NS: u32 = 400;

/// Low time of a logical 0, in nanoseconds.
pub const SK68XX_T0L_NS: u32 = SK68XX_CODE_PERIOD - SK68XX_T0H_NS;

/// High time of a logical 1, in nanoseconds.
pub const SK68XX_T1H_NS: u32 = 850;

/// Low time of a logical 1, in nanoseconds.
pub const SK68XX_T1L_NS: u32 = SK68XX_CODE_PERIOD - SK68XX_T1H_NS;

/// Largest length that a pulse code can hold in either of its halves.
pub const PULSE_MAX_LEN: u16 = 0x7FFF;

/// An RGB color with 8 bits per channel.
#[derive(Clone, Copy, Debug, PartialEq, Eq, Structural)]
pub struct Color {
    pub r: u8,
    pub g: u8,
    pub b: u8,
}

/// The 32-bit RMT word for a signal at `level1` for `length1` ticks followed by
/// `level2` for `length2` ticks: bits 0-14 hold `length1`, bit 15 `level1`,
/// bits 16-30 `length2` and bit 31 `level2`.
pub open spec fn pulse_word(level1: bool, length1: u16, level2: bool, length2: u16) -> u32 {
    (if level1 { 1u32 } else { 0u32 }) << 15u32 | (if level2 { 1u32 } else { 0u32 }) << 31u32
        | length1 as u32 | (length2 as u32) << 16u32
}

/// Ticks of the first half of a pulse code.
pub open spec fn high_ticks(code: u32) -> u32 {
    code & 0x7FFFu32
}

/// Ticks of the second half of a pulse code.
pub open spec fn low_ticks(code: u32) -> u32 {
    (code >> 16u32) & 0x7FFFu32
}

/// Whole duration of a pulse code, in ticks.
pub open spec fn bit_period(code: u32) -> int {
    high_ticks(code) + low_ticks(code)
}

/// Ticks of a clock of `clock_mhz` MHz in `ns` nanoseconds, truncated.
pub open spec fn ticks(ns: u32, clock_mhz: u32) -> int {
    (ns as int) * (clock_mhz as int) / 1000
}

/// Clock rates (in MHz) for which every phase of the protocol fits a pulse code.
pub open spec fn clock_in_range(clock_mhz: u32) -> bool {
    ticks(SK68XX_T0L_NS, clock_mhz) <= PULSE_MAX_LEN as int
        && ticks(SK68XX_T1H_NS, clock_mhz) <= PULSE_MAX_LEN as int
}

/// The pulse code of a logical 0 at the given clock.
pub open spec fn zero_pulse(clock_mhz: u32) -> u32 {
    pulse_word(
        true,
        ticks(SK68XX_T0H_NS, clock_mhz) as u16,
        false,
        ticks(SK68XX_T0L_NS, clock_mhz) as u16,
    )
}

/// The pulse code of a logical 1 at the given clock.
pub open spec fn one_pulse(clock_mhz: u32) -> u32 {
    pulse_word(
        true,
        ticks(SK68XX_T1H_NS, clock_mhz) as u16,
        false,
        ticks(SK68XX_T1L_NS, clock_mhz) as u16,
    )
}

/// Builds a pulse code (high level when a level is `true`).
pub fn pulse_code(level1: bool, length1: u16, level2: bool, length2: u16) -> (r: u32)
    requires
        length1 <= PULSE_MAX_LEN,
        length2 <= PULSE_MAX_LEN,
    ensures
        r == pulse_word(level1, length1, level2, length2),
{
    (if level1 { 1u32 } else { 0u32 }) << 15u32 | (if level2 { 1u32 } else { 0u32 }) << 31u32
        | length1 as u32 | (length2 as u32) << 16u32
}

/// Reading the halves back out of a pulse code gives the lengths it was built from.
pub proof fn lemma_pulse_word_lengths(level1: bool, length1: u16, level2: bool, length2: u16)
    requires
        length1 <= PULSE_MAX_LEN,
        length2 <= PULSE_MAX_LEN,
    ensures
        high_ticks(pulse_word(level1, length1, level2, length2)) == length1,
        low_ticks(pulse_word(level1, length1, level2, length2)) == length2,
{
    let a: u32 = if level1 { 1u32 } else { 0u32 };
    let b: u32 = if level2 { 1u32 } else { 0u32 };
    let l1 = length1 as u32;
    let l2 = length2 as u32;
    assert((a << 15u32 | b << 31u32 | l1 | l2 << 16u32) & 0x7FFFu32 == l1) by (bit_vector)
        requires
            a <= 1,
            b <= 1,
            l1 <= 0x7FFF,
            l2 <= 0x7FFF,
    ;
    assert(((a << 15u32 | b << 31u32 | l1 | l2 << 16u32) >> 16u32) & 0x7FFFu32 == l2)
        by (bit_vector)
        requires
            a <= 1,
            b <= 1,
            l1 <= 0x7FFF,
            l2 <= 0x7FFF,
    ;
}

/// Both pulse codes last equally long. That length is the protocol's bit period
/// in ticks wherever truncating the two phases separately loses less than one
/// tick in all, that is where the remainders of the two divisions by 1000 do
/// not add up to 1000.
pub proof fn lemma_bit_period(clock_mhz: u32)
    requires
        clock_in_range(clock_mhz),
    ensures
        bit_period(zero_pulse(clock_mhz)) == bit_period(one_pulse(clock_mhz)),
        (SK68XX_T0H_NS as int * clock_mhz) % 1000 + (SK68XX_T1H_NS as int * clock_mhz) % 1000 < 1000
            ==> bit_period(zero_pulse(clock_mhz)) == ticks(SK68XX_CODE_PERIOD, clock_mhz),
{
    let f = clock_mhz as int;
    assert(0 <= ticks(SK68XX_T0H_NS, clock_mhz) <= ticks(SK68XX_T1H_NS, clock_mhz)) by (nonlinear_arith)
        requires
            f >= 0,
            ticks(SK68XX_T0H_NS, clock_mhz) == 400 * f / 1000,
            ticks(SK68XX_T1H_NS, clock_mhz) == 850 * f / 1000,
    ;
    lemma_pulse_word_lengths(
        true,
        ticks(SK68XX_T0H_NS, clock_mhz) as u16,
        false,
        ticks(SK68XX_T0L_NS, clock_mhz) as u16,
    );
    lemma_pulse_word_lengths(
        true,
        ticks(SK68XX_T1H_NS, clock_mhz) as u16,
        false,
        ticks(SK68XX_T1L_NS, clock_mhz) as u16,
    );
    let x = 400 * f;
    let y = 850 * f;
    if x % 1000 + y % 1000 < 1000 {
        vstd::arithmetic::div_mod::lemma_fundamental_div_mod(x, 1000);
        vstd::arithmetic::div_mod::lemma_fundamental_div_mod(y, 1000);
        vstd::arithmetic::div_mod::lemma_fundamental_div_mod_converse(
            x + y,
            1000,
            x / 1000 + y / 1000,
            x % 1000 + y % 1000,
        );
        assert(x + y == 1250 * f);
    }
}

/// The pair (logical 0, logical 1) of pulse codes for a source clock of
/// `src_clock` MHz.
pub fn led_pulses_for_clock(src_clock: u32) -> (r: (u32, u32))
    requires
        clock_in_range(src_clock),
    ensures
        r == (zero_pulse(src_clock), one_pulse(src_clock)),
{
    let t0h = (SK68XX_T0H_NS * src_clock) / 1000;
    let t0l = (SK68XX_T0L_NS * src_clock) / 1000;
    let t1h = (SK68XX_T1H_NS * src_clock) / 1000;
    let t1l = (SK68XX_T1L_NS * src_clock) / 1000;
    (
        pulse_code(true, t0h as u16, false, t0l as u16),
        pulse_code(true, t1h as u16, false, t1l as u16),
    )
}

/// Whether bit `k` (0 the least significant) of `v` is set.
pub open spec fn bit_set(v: u8, k: int) -> bool {
    (v >> (k as u8)) & 1u8 == 1u8
}

/// The pulse codes of one 8-bit channel, most significant bit first.
pub open spec fn channel_words(v: u8, pulses: (u32, u32)) -> Seq<u32> {
    Seq::new(8, |i: int| if bit_set(v, 7 - i) { pulses.1 } else { pulses.0 })
}

/// The 24 pulse codes of a color: green, red, then blue.
pub open spec fn color_words(c: Color, pulses: (u32, u32)) -> Seq<u32> {
    channel_words(c.g, pulses) + channel_words(c.r, pulses) + channel_words(c.b, pulses)
}

/// `s` with `w` written from `pos` on, as far as `s` reaches.
pub open spec fn fill(s: Seq<u32>, pos: int, w: Seq<u32>) -> Seq<u32> {
    Seq::new(s.len(), |j: int| if pos <= j < pos + w.len() { w[j - pos] } else { s[j] })
}

/// Writing `a` then, right after it, `b` is writing `a + b`.
pub proof fn lemma_fill_concat(s: Seq<u32>, pos: int, a: Seq<u32>, b: Seq<u32>)
    requires
        0 <= pos,
    ensures
        fill(fill(s, pos, a), pos + a.len(), b) == fill(s, pos, a + b),
{
    assert(fill(fill(s, pos, a), pos + a.len(), b) =~= fill(s, pos, a + b));
}

/// What follows a write that already reaches the end of `s` is lost.
pub proof fn lemma_fill_past_end(s: Seq<u32>, pos: int, a: Seq<u32>, b: Seq<u32>)
    requires
        s.len() <= pos + a.len(),
    ensures
        fill(s, pos, a) == fill(s, pos, a + b),
{
    assert(fill(s, pos, a) =~= fill(s, pos, a + b));
}

/// Writes the 8 pulse codes of `channel_value` into `buf` from `*pos` on, most
/// significant bit first, and advances `*pos` past them. Where `buf` ends
/// first, the codes that fit are written and `BufferSizeExceeded` is returned.
pub fn convert_rgb_channel_to_pulses(
    channel_value: u8,
    buf: &mut [u32],
    pos: &mut usize,
    pulses: (u32, u32),
) -> (r: Result<(), LedAdapterError>)
    requires
        *old(pos) <= old(buf)@.len(),
    ensures
        final(buf)@ == fill(old(buf)@, *old(pos) as int, channel_words(channel_value, pulses)),
        r is Ok <==> *old(pos) + 8 <= old(buf)@.len(),
        r is Ok ==> *final(pos) == *old(pos) + 8,
        r is Err ==> r == Err::<(), LedAdapterError>(LedAdapterError::BufferSizeExceeded),
        r is Err ==> *final(pos) == old(buf)@.len(),
{
    let ghost start = *pos as int;
    let ghost orig = buf@;
    let ghost words = channel_words(channel_value, pulses);
    let mut i: u8 = 0;
    while i < 8
        invariant
            0 <= i <= 8,
            start == *old(pos),
            orig == old(buf)@,
            *pos == start + i,
            start <= buf@.len(),
            *pos <= buf@.len(),
            buf@.len() == orig.len(),
            words == channel_words(channel_value, pulses),
            buf@ == fill(orig, start, words.take(i as int)),
        decreases 8 - i,
    {
        if *pos >= buf.len() {
            proof {
                lemma_fill_past_end(orig, start, words.take(i as int), words.skip(i as int));
                assert(words.take(i as int) + words.skip(i as int) =~= words);
            }
            return Err(LedAdapterError::BufferSizeExceeded);
        }
        let word = if (channel_value >> (7 - i)) & 1 == 1 {
            pulses.1
        } else {
            pulses.0
        };
        buf[*pos] = word;
        proof {
            assert(word == words[i as int]);
            assert(buf@ =~= fill(orig, start, words.take(i + 1)));
        }
        *pos = *pos + 1;
        i = i + 1;
    }
    proof {
        assert(words.take(8) =~= words);
    }
    Ok(())
}

/// Writes the 24 pulse codes of `value` (green, red, blue) into `buf` from
/// `*pos` on and advances `*pos` past them. Where `buf` ends first, the codes
/// that fit are written and `BufferSizeExceeded` is returned.
pub fn convert_rgb_to_pulses(
    value: Color,
    buf: &mut [u32],
    pos: &mut usize,
    pulses: (u32, u32),
) -> (r: Result<(), LedAdapterError>)
    requires
        *old(pos) <= old(buf)@.len(),
    ensures
        final(buf)@ == fill(old(buf)@, *old(pos) as int, color_words(value, pulses)),
        r is Ok <==> *old(pos) + 24 <= old(buf)@.len(),
        r is Ok ==> *final(pos) == *old(pos) + 24,
        r is Err ==> r == Err::<(), LedAdapterError>(LedAdapterError::BufferSizeExceeded),
        r is Err ==> *final(pos) == old(buf)@.len(),
{
    let ghost start = *pos as int;
    let ghost orig = buf@;
    let ghost g = channel_words(value.g, pulses);
    let ghost rw = channel_words(value.r, pulses);
    let ghost b = channel_words(value.b, pulses);
    proof {
        assert(color_words(value, pulses) == g + rw + b);
    }
    let r1 = convert_rgb_channel_to_pulses(value.g, buf, pos, pulses);
    if r1.is_err() {
        proof {
            lemma_fill_past_end(orig, start, g, rw + b);
            assert(g + (rw + b) =~= g + rw + b);
        }
        return r1;
    }
    let ghost mid1 = buf@;
    let r2 = convert_rgb_channel_to_pulses(value.r, buf, pos, pulses);
    proof {
        lemma_fill_concat(orig, start, g, rw);
    }
    if r2.is_err() {
        proof {
            lemma_fill_past_end(orig, start, g + rw, b);
        }
        return r2;
    }
    let r3 = convert_rgb_channel_to_pulses(value.b, buf, pos, pulses);
    proof {
        lemma_fill_concat(orig, start, g + rw, b);
    }
    r3
}

} // verus!
