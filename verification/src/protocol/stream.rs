//! Numbering the frames of one audio stream.

use vstd::prelude::*;

use crate::protocol::clock;
use crate::protocol::frame::{self, AudioFrame, AudioFrameView};

verus! {

/// The sending end of an audio stream.
#[derive(Debug)]
pub struct FrameStream {
    next: u64,
}

impl View for FrameStream {
    type V = u64;

    /// The sequence number of the frame that comes next.
    closed spec fn view(&self) -> u64 {
        self.next
    }
}

impl FrameStream {
    /// A stream on which nothing was sent yet.
    pub fn new() -> (stream: Self)
        ensures
            stream@ == 0,
    {
        FrameStream { next: 0 }
    }

    /// Whether there is a sequence number for one more frame.
    pub fn has_next(&self) -> (more: bool)
        ensures
            more == (self@ < u64::MAX),
    {
        self.next < u64::MAX
    }

    /// The bytes of the next frame, sent at `now`.
    pub fn next_frame_at(&mut self, sample_rate: u32, data: Vec<u8>, now: u64) -> (bytes: Vec<u8>)
        requires
            old(self)@ < u64::MAX,
        ensures
            final(self)@ == old(self)@ + 1,
            bytes@ == frame::frame_bytes(
                AudioFrameView { sequence: old(self)@, timestamp: now, sample_rate, data: data@ },
            ),
    {
        let next: AudioFrame = AudioFrame { sequence: self.next, timestamp: now, sample_rate, data };
        self.next = self.next + 1;
        frame::encode_audio_frame(&next)
    }

    /// The bytes of the next frame, sent now.
    pub fn next_frame(&mut self, sample_rate: u32, data: Vec<u8>) -> (bytes: Vec<u8>)
        requires
            old(self)@ < u64::MAX,
        ensures
            final(self)@ == old(self)@ + 1,
            exists|now: u64| #[trigger]
                clock::was_read(now) && bytes@ == frame::frame_bytes(
                    AudioFrameView {
                        sequence: old(self)@,
                        timestamp: now,
                        sample_rate,
                        data: data@,
                    },
                ),
    {
        let now: u64 = clock::timestamp_ms();
        self.next_frame_at(sample_rate, data, now)
    }
}

/// A stream numbers its frames from 0 on, without a gap, and writes number, time, rate and data.
pub proof fn law_numbering(
    stream: &mut FrameStream,
    sample_rate: u32,
    data: Vec<u8>,
    now: u64,
    bytes: Vec<u8>,
    new_stream: FrameStream,
)
    requires
        old(stream)@ < u64::MAX,
        call_ensures(FrameStream::next_frame_at, (stream, sample_rate, data, now), bytes),
        call_ensures(FrameStream::new, (), new_stream),
    ensures
        new_stream@ == 0,
        final(stream)@ - old(stream)@ == 1,
        bytes@.len() == 20 + data@.len(),
        bytes@.subrange(0, 8) == crate::endian::le_bytes(old(stream)@ as nat, 8),
        bytes@.subrange(8, 16) == crate::endian::le_bytes(now as nat, 8),
        bytes@.subrange(16, 20) == crate::endian::le_bytes(sample_rate as nat, 4),
        bytes@.skip(20) == data@,
{
    let sent = AudioFrameView { sequence: old(stream)@, timestamp: now, sample_rate, data: data@ };
    frame::law_frame_layout(sent);
    frame::law_frame_length(sent);
}

} // verus!
