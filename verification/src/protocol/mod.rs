//! What the two ends of a connection say to each other.

pub mod clock;
pub mod frame;
pub mod identity;
pub mod message;
pub mod stream;

pub use clock::timestamp_ms;
pub use frame::{decode_audio_frame, encode_audio_frame, AudioFrame};
pub use message::{Message, StreamDirection, StreamMode, CHANNELS, SAMPLE_RATE};
pub use stream::FrameStream;
