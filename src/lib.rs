//! Encoding of RGB colors into RMT pulse trains for SK68xx / WS2812 LED strings,
//! with the buffer sizing and the transmission bookkeeping of a blocking and of a
//! chunked (asynchronous) adapter.
pub mod adapter;
pub mod adapter_async;
pub mod error;
pub mod frame;
pub mod pulse;

pub use adapter::SmartLedsAdapter;
pub use adapter_async::SmartLedsAdapterAsync;
pub use error::{LedAdapterError, RmtError};
pub use frame::{buffer_size, buffer_size_async};
pub use pulse::{
    convert_rgb_channel_to_pulses, convert_rgb_to_pulses, led_pulses_for_clock, pulse_code,
    Color,
};
