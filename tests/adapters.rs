use esp_hal_smartled::{
    buffer_size, buffer_size_async, led_pulses_for_clock, Color, LedAdapterError, RmtError,
    SmartLedsAdapter, SmartLedsAdapterAsync,
};

const RED: Color = Color { r: 0xFF, g: 0x00, b: 0x00 };
const TEAL: Color = Color { r: 0x00, g: 0x80, b: 0x80 };

fn words_of(c: Color, pulses: (u32, u32)) -> Vec<u32> {
    let mut out = Vec::new();
    for v in [c.g, c.r, c.b] {
        for k in (0..8).rev() {
            out.push(if (v >> k) & 1 == 1 { pulses.1 } else { pulses.0 });
        }
    }
    out
}

#[test]
fn sync_empty_sends_one_end_marker() {
    let mut led = SmartLedsAdapter::<u8, 3>::new(5, [7u32; 3], 80);
    assert_eq!(led.prepare_rmt_buffer(&[]), Ok(1));
    assert_eq!(led.frame(1), &[0u32][..]);
    let ch = led.start_transmission();
    assert_eq!(ch, 5);
    assert_eq!(led.finish_transmission(ch, Ok(())), Ok(()));
}

#[test]
fn sync_exact_buffer_succeeds() {
    let pulses = led_pulses_for_clock(80);
    assert_eq!(buffer_size(2), 49);
    let mut led = SmartLedsAdapter::<(), 49>::new((), [7u32; 49], 80);
    assert_eq!(led.prepare_rmt_buffer(&[RED, TEAL]), Ok(49));
    let mut expected = words_of(RED, pulses);
    expected.extend(words_of(TEAL, pulses));
    expected.push(0);
    assert_eq!(led.frame(49), &expected[..]);
}

#[test]
fn sync_one_word_short_fails() {
    let mut led = SmartLedsAdapter::<(), 48>::new((), [7u32; 48], 80);
    assert_eq!(
        led.prepare_rmt_buffer(&[RED, TEAL]),
        Err(LedAdapterError::BufferSizeExceeded)
    );
    let mut led = SmartLedsAdapter::<(), 24>::new((), [7u32; 24], 80);
    assert_eq!(led.prepare_rmt_buffer(&[RED]), Err(LedAdapterError::BufferSizeExceeded));
}

#[test]
fn sync_transmission_failure_keeps_channel() {
    let mut led = SmartLedsAdapter::<u8, 25>::new(3, [0u32; 25], 80);
    assert_eq!(led.prepare_rmt_buffer(&[TEAL]), Ok(25));
    let ch = led.start_transmission();
    assert_eq!(
        led.finish_transmission(ch, Err(RmtError::Overflow)),
        Err(LedAdapterError::TransmissionError(RmtError::Overflow))
    );
    // the adapter is idle again and can send once more
    assert_eq!(led.prepare_rmt_buffer(&[RED]), Ok(25));
    assert_eq!(led.start_transmission(), 3);
}

#[test]
fn async_chunks_follow_colors() {
    let pulses = led_pulses_for_clock(80);
    assert_eq!(buffer_size_async(2), 50);
    let mut led = SmartLedsAdapterAsync::<(), 50>::new((), [7u32; 50], 80);
    assert_eq!(led.prepare_rmt_buffer(&[RED, TEAL]), Ok(2));
    let mut first = words_of(RED, pulses);
    first.push(0);
    let mut second = words_of(TEAL, pulses);
    second.push(0);
    assert_eq!(led.chunk(0), &first[..]);
    assert_eq!(led.chunk(1), &second[..]);
}

#[test]
fn async_one_word_short_fails() {
    let mut led = SmartLedsAdapterAsync::<(), 49>::new((), [7u32; 49], 80);
    assert_eq!(
        led.prepare_rmt_buffer(&[RED, TEAL]),
        Err(LedAdapterError::BufferSizeExceeded)
    );
}

#[test]
fn async_empty_sends_nothing() {
    let mut led = SmartLedsAdapterAsync::<(), 0>::new((), [0u32; 0], 80);
    assert_eq!(led.prepare_rmt_buffer(&[]), Ok(0));
}

#[test]
fn async_channel_is_reachable() {
    let mut led = SmartLedsAdapterAsync::<u8, 25>::new(1, [0u32; 25], 80);
    *led.channel_mut() = 4;
    assert_eq!(*led.channel_mut(), 4);
}
