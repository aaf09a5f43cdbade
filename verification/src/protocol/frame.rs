//! Binary audio frames: a header of fixed size, then the PCM bytes.
//!
//! | bytes  | content                          |
//! |--------|----------------------------------|
//! | 0..8   | sequence number, little endian   |
//! | 8..16  | send time in ms, little endian   |
//! | 16..20 | sample rate, little endian       |
//! | 20..   | PCM data                         |

use vstd::prelude::*;

use crate::endian;

verus! {

/// Bytes that stand before the PCM data of a frame.
pub const HEADER_LEN: usize = 20;

/// One piece of audio on its way.
#[derive(Debug, Clone, PartialEq, Eq)]
pub struct AudioFrame {
    /// Place of the frame in its stream, from 0 on.
    pub sequence: u64,
    /// When the frame was sent, in milliseconds since the Unix epoch.
    pub timestamp: u64,
    /// Sample rate of the data, in Hz.
    pub sample_rate: u32,
    /// 16-bit little-endian PCM.
    pub data: Vec<u8>,
}

/// An `AudioFrame` as a mathematical value.
pub struct AudioFrameView {
    pub sequence: u64,
    pub timestamp: u64,
    pub sample_rate: u32,
    pub data: Seq<u8>,
}

impl View for AudioFrame {
    type V = AudioFrameView;

    open spec fn view(&self) -> AudioFrameView {
        AudioFrameView {
            sequence: self.sequence,
            timestamp: self.timestamp,
            sample_rate: self.sample_rate,
            data: self.data@,
        }
    }
}

/// The bytes of a frame on the wire.
pub open spec fn frame_bytes(frame: AudioFrameView) -> Seq<u8> {
    endian::le_bytes(frame.sequence as nat, 8) + endian::le_bytes(
        frame.timestamp as nat,
        8,
    ) + endian::le_bytes(frame.sample_rate as nat, 4) + frame.data
}

/// The frame that a byte sequence stands for, if it is long enough to hold a header.
pub open spec fn frame_of(bytes: Seq<u8>) -> Option<AudioFrameView> {
    if bytes.len() < HEADER_LEN {
        None
    } else {
        Some(
            AudioFrameView {
                sequence: endian::le_value(bytes.subrange(0, 8)) as u64,
                timestamp: endian::le_value(bytes.subrange(8, 16)) as u64,
                sample_rate: endian::le_value(bytes.subrange(16, 20)) as u32,
                data: bytes.skip(20),
            },
        )
    }
}

/// Lays a frame out as bytes.
pub fn encode_audio_frame(frame: &AudioFrame) -> (bytes: Vec<u8>)
    ensures
        bytes@ == frame_bytes(frame@),
{
    let mut bytes: Vec<u8> = Vec::new();
    endian::push_le(&mut bytes, frame.sequence, 8);
    endian::push_le(&mut bytes, frame.timestamp, 8);
    endian::push_le(&mut bytes, frame.sample_rate as u64, 4);
    bytes.extend_from_slice(frame.data.as_slice());
    assert(bytes@ =~= frame_bytes(frame@));
    bytes
}

/// Reads a frame; `None` if and only if the bytes are too few for a header.
pub fn decode_audio_frame(bytes: &[u8]) -> (frame: Option<AudioFrame>)
    ensures
        frame is Some <==> bytes@.len() >= HEADER_LEN,
        frame matches Some(f) ==> frame_of(bytes@) == Some(f@),
{
    if bytes.len() < HEADER_LEN {
        return None;
    }
    proof {
        endian::lemma_le_limits();
    }
    let sequence: u64 = endian::read_le(bytes, 0, 8);
    let timestamp: u64 = endian::read_le(bytes, 8, 8);
    let sample_rate: u32 = endian::read_le(bytes, 16, 4) as u32;
    let body: &[u8] = vstd::slice::slice_subrange(bytes, HEADER_LEN, bytes.len());
    let mut data: Vec<u8> = Vec::new();
    data.extend_from_slice(body);
    assert(data@ =~= bytes@.skip(20));
    Some(AudioFrame { sequence, timestamp, sample_rate, data })
}

/// A frame takes its data and 20 bytes more.
pub proof fn law_frame_length(frame: AudioFrameView)
    ensures
        frame_bytes(frame).len() == HEADER_LEN + frame.data.len(),
{
    endian::lemma_le_bytes_len(frame.sequence as nat, 8);
    endian::lemma_le_bytes_len(frame.timestamp as nat, 8);
    endian::lemma_le_bytes_len(frame.sample_rate as nat, 4);
}

/// Whatever frame is sent, the receiver reads that frame.
pub proof fn law_decode_after_encode(frame: AudioFrameView)
    ensures
        frame_of(frame_bytes(frame)) == Some(frame),
{
    let a = endian::le_bytes(frame.sequence as nat, 8);
    let b = endian::le_bytes(frame.timestamp as nat, 8);
    let c = endian::le_bytes(frame.sample_rate as nat, 4);
    let bytes = frame_bytes(frame);
    law_frame_length(frame);
    endian::lemma_le_bytes_len(frame.sequence as nat, 8);
    endian::lemma_le_bytes_len(frame.timestamp as nat, 8);
    endian::lemma_le_bytes_len(frame.sample_rate as nat, 4);
    assert(bytes.subrange(0, 8) =~= a);
    assert(bytes.subrange(8, 16) =~= b);
    assert(bytes.subrange(16, 20) =~= c);
    assert(bytes.skip(20) =~= frame.data);
    endian::lemma_le_limits();
    endian::law_read_after_write(frame.sequence as nat, 8);
    endian::law_read_after_write(frame.timestamp as nat, 8);
    endian::law_read_after_write(frame.sample_rate as nat, 4);
}

/// Whatever bytes were read as a frame, sending that frame gives the same bytes.
pub proof fn law_encode_after_decode(bytes: Seq<u8>)
    requires
        bytes.len() >= HEADER_LEN,
    ensures
        frame_of(bytes) is Some,
        frame_bytes(frame_of(bytes)->0) == bytes,
{
    let a = bytes.subrange(0, 8);
    let b = bytes.subrange(8, 16);
    let c = bytes.subrange(16, 20);
    endian::lemma_le_limits();
    endian::lemma_le_value_bound(a);
    endian::lemma_le_value_bound(b);
    endian::lemma_le_value_bound(c);
    endian::law_write_after_read(a);
    endian::law_write_after_read(b);
    endian::law_write_after_read(c);
    assert(a + b + c + bytes.skip(20) =~= bytes);
}

/// Two frames with the same bytes are the same frame.
pub proof fn law_encoding_is_injective(left: AudioFrameView, right: AudioFrameView)
    requires
        frame_bytes(left) == frame_bytes(right),
    ensures
        left == right,
{
    law_decode_after_encode(left);
    law_decode_after_encode(right);
}

/// Where everything stands in the bytes of a frame.
pub proof fn law_frame_layout(frame: AudioFrameView)
    ensures
        frame_bytes(frame).subrange(0, 8) == endian::le_bytes(frame.sequence as nat, 8),
        frame_bytes(frame).subrange(8, 16) == endian::le_bytes(frame.timestamp as nat, 8),
        frame_bytes(frame).subrange(16, 20) == endian::le_bytes(frame.sample_rate as nat, 4),
        frame_bytes(frame).skip(20) == frame.data,
{
    let bytes = frame_bytes(frame);
    endian::lemma_le_bytes_len(frame.sequence as nat, 8);
    endian::lemma_le_bytes_len(frame.timestamp as nat, 8);
    endian::lemma_le_bytes_len(frame.sample_rate as nat, 4);
    assert(bytes.subrange(0, 8) =~= endian::le_bytes(frame.sequence as nat, 8));
    assert(bytes.subrange(8, 16) =~= endian::le_bytes(frame.timestamp as nat, 8));
    assert(bytes.subrange(16, 20) =~= endian::le_bytes(frame.sample_rate as nat, 4));
    assert(bytes.skip(20) =~= frame.data);
}

/// Fewer than 20 bytes are no frame, and 20 or more always are one; its data is what follows the
/// header, and writing its numbers little-endian gives the header.
pub proof fn law_frames_start_with_a_header(bytes: Seq<u8>)
    ensures
        bytes.len() < 20 ==> frame_of(bytes) is None,
        bytes.len() >= 20 ==> {
            &&& frame_of(bytes) matches Some(frame)
            &&& endian::le_bytes(frame.sequence as nat, 8) == bytes.subrange(0, 8)
            &&& endian::le_bytes(frame.timestamp as nat, 8) == bytes.subrange(8, 16)
            &&& endian::le_bytes(frame.sample_rate as nat, 4) == bytes.subrange(16, 20)
            &&& frame.data == bytes.subrange(20, bytes.len() as int)
        },
{
    if bytes.len() >= 20 {
        law_encode_after_decode(bytes);
        law_frame_layout(frame_of(bytes)->0);
        assert(bytes.skip(20) =~= bytes.subrange(20, bytes.len() as int));
    }
}

/// Nothing of a frame is left out of its mathematical value.
pub proof fn law_frame_view(frame: AudioFrame)
    ensures
        frame@.sequence == frame.sequence,
        frame@.timestamp == frame.timestamp,
        frame@.sample_rate == frame.sample_rate,
        frame@.data == frame.data@,
{
}

/// The bytes of a frame: number, time and rate, little-endian in 8, 8 and 4 bytes, then the data.
pub proof fn law_encoding(frame: &AudioFrame, bytes: Vec<u8>)
    requires
        call_ensures(encode_audio_frame, (frame,), bytes),
    ensures
        bytes@.len() == 20 + frame.data@.len(),
        bytes@.subrange(0, 8) == endian::le_bytes(frame.sequence as nat, 8),
        bytes@.subrange(8, 16) == endian::le_bytes(frame.timestamp as nat, 8),
        bytes@.subrange(16, 20) == endian::le_bytes(frame.sample_rate as nat, 4),
        bytes@.skip(20) == frame.data@,
{
    law_frame_layout(frame@);
    law_frame_length(frame@);
}

/// Whatever is encoded is decoded as it was, and nothing shorter than a header is decoded.
pub proof fn law_decoding(
    frame: &AudioFrame,
    bytes: Vec<u8>,
    received: &[u8],
    decoded: Option<AudioFrame>,
)
    requires
        call_ensures(encode_audio_frame, (frame,), bytes),
        call_ensures(decode_audio_frame, (received,), decoded),
    ensures
        decoded is Some <==> received@.len() >= 20,
        received@ == bytes@ ==> (decoded matches Some(f) && f.sequence == frame.sequence
            && f.timestamp == frame.timestamp && f.sample_rate == frame.sample_rate && f.data@
            == frame.data@),
{
    law_frame_length(frame@);
    law_decode_after_encode(frame@);
}

} // verus!
