//! Input and feedback core of a macro pad: a debounced key matrix with a
//! change drain, a rotary encoder adapter, a decaying vibration pulse, and
//! the text helpers of its serial console.

pub mod encoder;
pub mod matrix;
pub mod text;
pub mod vibrator;
