use esp_hal_smartled::{
    buffer_size, buffer_size_async, convert_rgb_channel_to_pulses, convert_rgb_to_pulses,
    led_pulses_for_clock, pulse_code, Color, LedAdapterError, RmtError,
};

fn high_ticks(code: u32) -> u32 {
    code & 0x7FFF
}

fn low_ticks(code: u32) -> u32 {
    (code >> 16) & 0x7FFF
}

#[test]
fn pulse_code_layout() {
    assert_eq!(pulse_code(true, 32, false, 68), (1 << 15) | 32 | (68 << 16));
    assert_eq!(pulse_code(false, 1, true, 2), 1 | (1 << 31) | (2 << 16));
    assert_eq!(pulse_code(false, 0, false, 0), 0);
    assert_eq!(pulse_code(true, 0x7FFF, true, 0x7FFF), 0xFFFF_FFFF);
}

#[test]
fn pulses_at_80_mhz() {
    let (zero, one) = led_pulses_for_clock(80);
    assert_eq!(zero, pulse_code(true, 32, false, 68));
    assert_eq!(one, pulse_code(true, 68, false, 32));
}

#[test]
fn both_pulses_span_the_bit_period() {
    for f in [1u32, 4, 5, 10, 20, 40, 80, 160, 1000, 38550] {
        let (zero, one) = led_pulses_for_clock(f);
        assert_eq!(high_ticks(zero) + low_ticks(zero), high_ticks(one) + low_ticks(one));
        if (400 * f) % 1000 + (850 * f) % 1000 < 1000 {
            assert_eq!(high_ticks(zero) + low_ticks(zero), 1250 * f / 1000);
        }
    }
    let (zero, _) = led_pulses_for_clock(80);
    assert_eq!(high_ticks(zero) + low_ticks(zero), 100);
    // truncation of both phases loses a tick here
    let (zero, _) = led_pulses_for_clock(4);
    assert_eq!(high_ticks(zero) + low_ticks(zero), 4);
}

#[test]
fn green_color_at_80_mhz() {
    let (zero, one) = led_pulses_for_clock(80);
    let mut buf = [7u32; 24];
    let mut pos: usize = 0;
    let color = Color { r: 0x00, g: 0xFF, b: 0x00 };
    assert_eq!(convert_rgb_to_pulses(color, &mut buf, &mut pos, (zero, one)), Ok(()));
    assert_eq!(pos, 24);
    for i in 0..8 {
        assert_eq!(buf[i], one);
    }
    for i in 8..24 {
        assert_eq!(buf[i], zero);
    }
}

#[test]
fn color_order_is_green_red_blue_msb_first() {
    let pulses = (10u32, 11u32);
    let mut buf = [0u32; 26];
    let mut pos: usize = 1;
    let color = Color { r: 0x01, g: 0x80, b: 0xA5 };
    assert_eq!(convert_rgb_to_pulses(color, &mut buf, &mut pos, pulses), Ok(()));
    assert_eq!(pos, 25);
    let expected: [u32; 24] = [
        11, 10, 10, 10, 10, 10, 10, 10, // green 0x80
        10, 10, 10, 10, 10, 10, 10, 11, // red 0x01
        11, 10, 11, 10, 10, 11, 10, 11, // blue 0xA5
    ];
    assert_eq!(buf[0], 0);
    assert_eq!(&buf[1..25], &expected[..]);
    assert_eq!(buf[25], 0);
}

#[test]
fn channel_msb_first() {
    let mut buf = [0u32; 8];
    let mut pos: usize = 0;
    assert_eq!(convert_rgb_channel_to_pulses(0b1100_0001, &mut buf, &mut pos, (1, 2)), Ok(()));
    assert_eq!(buf, [2, 2, 1, 1, 1, 1, 1, 2]);
    assert_eq!(pos, 8);
}

#[test]
fn channel_buffer_exhausted_writes_what_fits() {
    let mut buf = [9u32; 5];
    let mut pos: usize = 2;
    let r = convert_rgb_channel_to_pulses(0xFF, &mut buf, &mut pos, (1, 2));
    assert_eq!(r, Err(LedAdapterError::BufferSizeExceeded));
    assert_eq!(buf, [9, 9, 2, 2, 2]);
    assert_eq!(pos, 5);
}

#[test]
fn color_buffer_exhausted() {
    let mut buf = [9u32; 23];
    let mut pos: usize = 0;
    let r = convert_rgb_to_pulses(Color { r: 0, g: 0, b: 0 }, &mut buf, &mut pos, (1, 2));
    assert_eq!(r, Err(LedAdapterError::BufferSizeExceeded));
    assert_eq!(buf, [1u32; 23]);
    assert_eq!(pos, 23);
}

#[test]
fn buffer_sizes() {
    assert_eq!(buffer_size(0), 1);
    assert_eq!(buffer_size(1), 25);
    assert_eq!(buffer_size(10), 241);
    assert_eq!(buffer_size_async(0), 0);
    assert_eq!(buffer_size_async(1), 25);
    assert_eq!(buffer_size_async(10), 250);
}

#[test]
fn transmission_error_from_rmt_error() {
    assert_eq!(
        LedAdapterError::from(RmtError::EndMarkerMissing),
        LedAdapterError::TransmissionError(RmtError::EndMarkerMissing)
    );
}
