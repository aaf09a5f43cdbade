//! Audio on its way from a device to the network and back.

pub mod capture;
pub mod pcm;
pub mod playback;
pub mod resampler;
