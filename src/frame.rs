//! Buffer sizes, and the pulse-code frames that a color sequence becomes.
use vstd::prelude::*;

use crate::pulse::{color_words, fill, Color};

verus! {

/// Pulse codes that one LED takes: 3 channels of 8 bits.
pub const RMT_RAM_ONE_LED: usize = 24;

/// Words that `n` colors take in the blocking mode: their codes and one end marker.
pub open spec fn sync_capacity(n: int) -> int {
    n * 24 + 1
}

/// Words that `n` colors take in the chunked mode: each color's codes and its own
/// end marker.
pub open spec fn async_capacity(n: int) -> int {
    n * 25
}

/// The words of each color, one color after the other.
pub open spec fn encode_each(colors: Seq<Color>, unit: spec_fn(Color) -> Seq<u32>) -> Seq<u32>
    decreases colors.len(),
{
    if colors.len() == 0 {
        Seq::empty()
    } else {
        encode_each(colors.drop_last(), unit) + unit(colors.last())
    }
}

/// The 24 codes of a color, as a function of the color.
pub open spec fn color_unit(pulses: (u32, u32)) -> spec_fn(Color) -> Seq<u32> {
    |c: Color| color_words(c, pulses)
}

/// Each color takes 24 codes.
pub proof fn lemma_color_unit_len(pulses: (u32, u32))
    ensures
        forall|c: Color| #[trigger] color_unit(pulses)(c).len() == 24,
{
}

/// The chunk of one color in the chunked mode: its 24 codes and an end marker.
pub open spec fn chunk_words(c: Color, pulses: (u32, u32)) -> Seq<u32> {
    color_words(c, pulses).push(0u32)
}

/// Each chunk takes 25 words.
pub proof fn lemma_chunk_unit_len(pulses: (u32, u32))
    ensures
        forall|c: Color| #[trigger] chunk_unit(pulses)(c).len() == 25,
{
}

/// The chunk of a color, as a function of the color.
pub open spec fn chunk_unit(pulses: (u32, u32)) -> spec_fn(Color) -> Seq<u32> {
    |c: Color| chunk_words(c, pulses)
}

/// The codes of all colors in order, without end marker.
pub open spec fn encode_colors(colors: Seq<Color>, pulses: (u32, u32)) -> Seq<u32> {
    encode_each(colors, color_unit(pulses))
}

/// What the blocking mode sends: the codes of all colors and one end marker.
pub open spec fn sync_frame(colors: Seq<Color>, pulses: (u32, u32)) -> Seq<u32> {
    encode_colors(colors, pulses).push(0u32)
}

/// What the chunked mode writes: the chunk of each color, in order.
pub open spec fn async_frame(colors: Seq<Color>, pulses: (u32, u32)) -> Seq<u32> {
    encode_each(colors, chunk_unit(pulses))
}

/// Words per color times colors.
pub proof fn lemma_encode_each_len(colors: Seq<Color>, unit: spec_fn(Color) -> Seq<u32>, w: int)
    requires
        forall|c: Color| #[trigger] unit(c).len() == w,
    ensures
        encode_each(colors, unit).len() == w * colors.len(),
    decreases colors.len(),
{
    if colors.len() > 0 {
        lemma_encode_each_len(colors.drop_last(), unit, w);
        assert(w * (colors.len() - 1) + w == w * colors.len()) by (nonlinear_arith);
    }
}

/// The words of the first `i` colors begin the words of all of them.
pub proof fn lemma_encode_each_prefix(
    colors: Seq<Color>,
    unit: spec_fn(Color) -> Seq<u32>,
    w: int,
    i: int,
)
    requires
        0 <= w,
        0 <= i <= colors.len(),
        forall|c: Color| #[trigger] unit(c).len() == w,
    ensures
        encode_each(colors, unit).take(w * i) == encode_each(colors.take(i), unit),
    decreases colors.len(),
{
    lemma_encode_each_len(colors, unit, w);
    if i == colors.len() {
        assert(colors.take(i) =~= colors);
        assert(encode_each(colors, unit).take(w * i) =~= encode_each(colors, unit));
    } else {
        let prev = colors.drop_last();
        lemma_encode_each_prefix(prev, unit, w, i);
        lemma_encode_each_len(prev, unit, w);
        assert(prev.take(i) =~= colors.take(i));
        assert(w * i <= w * prev.len()) by (nonlinear_arith)
            requires
                0 <= w,
                i <= prev.len(),
        ;
        assert(encode_each(colors, unit).take(w * i) =~= encode_each(prev, unit).take(w * i));
    }
}

/// The words of color `i` stand at `w * i` in the words of all colors.
pub proof fn lemma_encode_each_at(
    colors: Seq<Color>,
    unit: spec_fn(Color) -> Seq<u32>,
    w: int,
    i: int,
)
    requires
        0 <= w,
        0 <= i < colors.len(),
        forall|c: Color| #[trigger] unit(c).len() == w,
    ensures
        encode_each(colors, unit).subrange(w * i, w * i + w) == unit(colors[i]),
{
    let upto = colors.take(i + 1);
    lemma_encode_each_prefix(colors, unit, w, i + 1);
    lemma_encode_each_len(upto.drop_last(), unit, w);
    lemma_encode_each_len(colors, unit, w);
    assert(upto.drop_last() =~= colors.take(i));
    assert(w * (i + 1) == w * i + w) by (nonlinear_arith);
    assert(w * (i + 1) <= w * colors.len()) by (nonlinear_arith)
        requires
            0 <= w,
            i + 1 <= colors.len(),
    ;
    let all = encode_each(colors, unit);
    let head = encode_each(colors.take(i), unit);
    assert(encode_each(upto, unit) == head + unit(colors[i]));
    assert(all.take(w * i + w) == head + unit(colors[i]));
    assert(head.len() == w * i);
    assert(all.subrange(w * i, w * i + w) =~= all.take(w * i + w).subrange(w * i, w * i + w));
    assert(all.subrange(w * i, w * i + w) =~= unit(colors[i]));
}

/// Sending no color in the blocking mode is sending one end marker: the
/// buffer then holds it at position 0 and the transmission covers that word.
pub proof fn lemma_sync_frame_empty(buffer: Seq<u32>, pulses: (u32, u32))
    requires
        1 <= buffer.len(),
    ensures
        sync_frame(Seq::empty(), pulses) == seq![0u32],
        sync_capacity(0) == 1,
        fill(buffer, 0, sync_frame(Seq::empty(), pulses)).take(1) == seq![0u32],
{
    assert(sync_frame(Seq::empty(), pulses) =~= seq![0u32]);
    assert(fill(buffer, 0, seq![0u32]).take(1) =~= seq![0u32]);
}

/// After the chunked mode has encoded `colors` into a buffer large enough for
/// them, the buffer holds one chunk per color, in order: chunk `i` (its 25
/// words from `25 * i` on) is the 24 codes of color `i` and an end marker.
pub proof fn lemma_async_chunks(buffer: Seq<u32>, colors: Seq<Color>, pulses: (u32, u32))
    requires
        async_capacity(colors.len() as int) <= buffer.len(),
    ensures
        async_frame(colors, pulses).len() == async_capacity(colors.len() as int),
        forall|i: int|
            0 <= i < colors.len() ==> #[trigger] fill(buffer, 0, async_frame(colors, pulses)).subrange(
                25 * i,
                25 * i + 25,
            ) == chunk_words(colors[i], pulses),
{
    lemma_chunk_unit_len(pulses);
    lemma_encode_each_len(colors, chunk_unit(pulses), 25);
    let frame = async_frame(colors, pulses);
    let filled = fill(buffer, 0, frame);
    assert forall|i: int| 0 <= i < colors.len() implies #[trigger] filled.subrange(
        25 * i,
        25 * i + 25,
    ) == chunk_words(colors[i], pulses) by {
        lemma_encode_each_at(colors, chunk_unit(pulses), 25, i);
        assert(25 * i + 25 <= 25 * colors.len()) by (nonlinear_arith)
            requires
                i < colors.len(),
        ;
        assert(filled.subrange(25 * i, 25 * i + 25) =~= frame.subrange(25 * i, 25 * i + 25));
    }
}

/// Minimum number of words for `num_leds` colors in the blocking mode.
pub fn buffer_size(num_leds: usize) -> (r: usize)
    requires
        sync_capacity(num_leds as int) <= usize::MAX,
    ensures
        r == sync_capacity(num_leds as int),
{
    // one more word for the end marker
    num_leds * RMT_RAM_ONE_LED + 1
}

/// Minimum number of words for `num_leds` colors in the chunked mode.
pub fn buffer_size_async(num_leds: usize) -> (r: usize)
    requires
        async_capacity(num_leds as int) <= usize::MAX,
    ensures
        r == async_capacity(num_leds as int),
{
    // one end marker for each chunk
    num_leds * (RMT_RAM_ONE_LED + 1)
}

} // verus!
