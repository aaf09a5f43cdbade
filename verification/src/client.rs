//! What the PC client decides.

use vstd::prelude::*;

use crate::protocol::clock;
use crate::protocol::frame;
use crate::protocol::message::{StreamMode, SAMPLE_RATE};
use crate::protocol::stream::FrameStream;
use crate::server::feed::{self, FeedEventView, FeedMoment, FeedStep};
use crate::server::session::{self, ActionView, Incoming, IncomingView, SessionView};

verus! {

/// Seconds between two heartbeats of a client.
pub const PING_SECS: u64 = 5;

/// What a speaker does about something that came in.
#[derive(Debug, PartialEq, Eq)]
pub enum Playing {
    /// Play these PCM bytes.
    Play { data: Vec<u8> },
    /// Do nothing.
    Ignore,
    /// The connection is over.
    Stop,
}

/// A client that plays what the server sends.
#[derive(Debug)]
pub struct SpeakerClient {
    /// The rate of the audio that came last, in Hz.
    pub sample_rate: u32,
}

/// `playing` is what a speaker does about `event`.
pub open spec fn is_playing(playing: Playing, event: IncomingView) -> bool {
    match event {
        IncomingView::Binary { data } => match frame::frame_of(data) {
            Some(f) => playing matches Playing::Play { data: played } && played@ == f.data,
            None => playing is Ignore,
        },
        IncomingView::Close => playing is Stop,
        IncomingView::Failed => playing is Stop,
        _ => playing is Ignore,
    }
}

/// The rate of the audio that came last, after `event`.
pub open spec fn playing_rate(sample_rate: u32, event: IncomingView) -> u32 {
    match event {
        IncomingView::Binary { data } => match frame::frame_of(data) {
            Some(f) => f.sample_rate,
            None => sample_rate,
        },
        _ => sample_rate,
    }
}

impl SpeakerClient {
    /// A speaker that has played nothing yet.
    pub fn new() -> (speaker: Self)
        ensures
            speaker.sample_rate == SAMPLE_RATE,
    {
        SpeakerClient { sample_rate: SAMPLE_RATE }
    }

    /// Decides what to do about something that came in.
    pub fn on_event(&mut self, event: Incoming) -> (playing: Playing)
        ensures
            is_playing(playing, event@),
            playing is Stop <==> event is Close || event is Failed,
            playing is Play ==> event is Binary,
            final(self).sample_rate == playing_rate(old(self).sample_rate, event@),
    {
        match event {
            Incoming::Binary { data } => match frame::decode_audio_frame(data.as_slice()) {
                Some(audio) => {
                    self.sample_rate = audio.sample_rate;
                    Playing::Play { data: audio.data }
                },
                None => Playing::Ignore,
            },
            Incoming::Close => Playing::Stop,
            Incoming::Failed => Playing::Stop,
            Incoming::Text { .. } => Playing::Ignore,
            Incoming::Other => Playing::Ignore,
        }
    }
}

/// The frame number `sequence` of a microphone, sent at `now`. It says the usual rate, at which a
/// client captures.
pub open spec fn recorded_frame(
    sequence: u64,
    now: u64,
    data: Seq<u8>,
) -> frame::AudioFrameView {
    frame::AudioFrameView { sequence, timestamp: now, sample_rate: SAMPLE_RATE, data }
}

/// The bytes that a microphone sends for a piece of audio.
pub fn microphone_frame(stream: &mut FrameStream, data: Vec<u8>) -> (bytes: Vec<u8>)
    requires
        old(stream)@ < u64::MAX,
    ensures
        final(stream)@ == old(stream)@ + 1,
        exists|now: u64| #[trigger]
            clock::was_read(now) && bytes@ == frame::frame_bytes(
                recorded_frame(old(stream)@, now, data@),
            ),
{
    stream.next_frame(SAMPLE_RATE, data)
}

/// A microphone sends one frame for each piece that it records, in order: piece `k` goes out under
/// number `k`, counted from 0, at the usual rate and with every byte of its data.
///
/// `numbers` are the stream's next numbers before each frame, `times` the times of sending.
pub proof fn law_every_recorded_piece_is_sent(
    pieces: Seq<Seq<u8>>,
    numbers: Seq<u64>,
    times: Seq<u64>,
    sent: Seq<Seq<u8>>,
    k: int,
)
    requires
        pieces.len() == numbers.len() == times.len() == sent.len(),
        0 <= k < pieces.len(),
        numbers[0] == 0,
        forall|i: int| 1 <= i < numbers.len() ==> #[trigger] numbers[i] == numbers[i - 1] + 1,
        forall|i: int|
            0 <= i < sent.len() ==> #[trigger] sent[i] == frame::frame_bytes(
                recorded_frame(numbers[i], times[i], pieces[i]),
            ),
    ensures
        numbers[k] == k,
        frame::frame_of(sent[k]) == Some(recorded_frame(k as u64, times[k], pieces[k])),
        sent[k].len() == frame::HEADER_LEN + pieces[k].len(),
    decreases k,
{
    if k > 0 {
        law_every_recorded_piece_is_sent(pieces, numbers, times, sent, k - 1);
    }
    assert(sent[k] == frame::frame_bytes(recorded_frame(numbers[k], times[k], pieces[k])));
    frame::law_decode_after_encode(recorded_frame(numbers[k], times[k], pieces[k]));
    frame::law_frame_length(recorded_frame(numbers[k], times[k], pieces[k]));
}

/// What the server captures is what a speaker plays: every byte of it, and at the rate that the
/// server names.
pub proof fn law_speaker_plays_what_is_captured(
    step: FeedStep,
    sample_rate: u32,
    data: Seq<u8>,
    sequence: u64,
    now: u64,
    playing: Playing,
    previous_rate: u32,
)
    requires
        feed::is_feed_step(step, FeedEventView::Audio { sample_rate, data }, sequence, now),
        is_playing(playing, IncomingView::Binary { data: step->bytes@ }),
    ensures
        playing matches Playing::Play { data: played } && played@ == data,
        playing_rate(previous_rate, IncomingView::Binary { data: step->bytes@ }) == sample_rate,
{
    frame::law_decode_after_encode(
        frame::AudioFrameView { sequence, timestamp: now, sample_rate, data },
    );
}

/// All speakers are sent the same audio: only the number and the time of a frame are their own.
pub proof fn law_all_speakers_hear_the_same(
    one: FeedStep,
    other: FeedStep,
    sample_rate: u32,
    data: Seq<u8>,
    one_sequence: u64,
    other_sequence: u64,
    one_time: u64,
    other_time: u64,
)
    requires
        feed::is_feed_step(one, FeedEventView::Audio { sample_rate, data }, one_sequence, one_time),
        feed::is_feed_step(
            other,
            FeedEventView::Audio { sample_rate, data },
            other_sequence,
            other_time,
        ),
    ensures
        frame::frame_of(one->bytes@) matches Some(f) && frame::frame_of(other->bytes@) matches Some(
            g,
        ) && f.data == g.data && f.sample_rate == g.sample_rate,
{
    frame::law_decode_after_encode(
        frame::AudioFrameView { sequence: one_sequence, timestamp: one_time, sample_rate, data },
    );
    frame::law_decode_after_encode(
        frame::AudioFrameView {
            sequence: other_sequence,
            timestamp: other_time,
            sample_rate,
            data,
        },
    );
}

/// Over a run of audio, two speakers that do not lag are sent the same pieces at the same rates, in
/// the same order, and each counts its own frames from 0: neither takes anything from the other.
pub proof fn law_all_speakers_hear_the_same_run(
    one: Seq<FeedStep>,
    other: Seq<FeedStep>,
    one_moments: Seq<FeedMoment>,
    other_moments: Seq<FeedMoment>,
    k: int,
)
    requires
        feed::is_feed_run(one, one_moments, 0),
        feed::is_feed_run(other, other_moments, 0),
        feed::all_audio(one_moments),
        one_moments.len() == other_moments.len() <= u64::MAX,
        forall|i: int|
            0 <= i < one_moments.len() ==> (#[trigger] one_moments[i]).event
                == other_moments[i].event,
        0 <= k < one_moments.len(),
    ensures
        frame::frame_of(one[k]->bytes@) matches Some(f) && frame::frame_of(
            other[k]->bytes@,
        ) matches Some(g) && f.sequence == k && g.sequence == k && f.sample_rate
            == one_moments[k].event->sample_rate && g.sample_rate == f.sample_rate && f.data
            == one_moments[k].event->data && g.data == f.data,
{
    assert forall|i: int| 0 <= i < other_moments.len() implies (
    #[trigger] other_moments[i]).event is Audio by {
        assert(one_moments[i].event is Audio);
    }
    assert(one_moments[k].event == other_moments[k].event);
    feed::law_every_piece_is_sent(one, one_moments, k);
    feed::law_every_piece_is_sent(other, other_moments, k);
    let event = one_moments[k].event;
    frame::law_decode_after_encode(
        frame::AudioFrameView {
            sequence: k as u64,
            timestamp: one_moments[k].now,
            sample_rate: event->sample_rate,
            data: event->data,
        },
    );
    frame::law_decode_after_encode(
        frame::AudioFrameView {
            sequence: k as u64,
            timestamp: other_moments[k].now,
            sample_rate: event->sample_rate,
            data: event->data,
        },
    );
}

/// What a microphone records is what a speaker plays: the server passes the frame's audio on, and
/// the speaker that is fed with it plays every byte, at the rate that the microphone named.
pub proof fn law_microphone_reaches_speakers(
    microphone: SessionView,
    recorded: frame::AudioFrameView,
    actual_rate: u32,
    now: u64,
    session_id: Seq<char>,
    step: FeedStep,
    sequence: u64,
    sent_at: u64,
    playing: Playing,
    previous_rate: u32,
)
    requires
        microphone.mode == Some(StreamMode::Microphone),
        feed::is_feed_step(
            step,
            FeedEventView::Audio { sample_rate: recorded.sample_rate, data: recorded.data },
            sequence,
            sent_at,
        ),
        is_playing(playing, IncomingView::Binary { data: step->bytes@ }),
    ensures
        session::actions_for(
            microphone,
            IncomingView::Binary { data: frame::frame_bytes(recorded) },
            actual_rate,
            now,
            session_id,
        ).contains(
            ActionView::Broadcast { sample_rate: recorded.sample_rate, data: recorded.data },
        ),
        playing matches Playing::Play { data: played } && played@ == recorded.data,
        playing_rate(previous_rate, IncomingView::Binary { data: step->bytes@ })
            == recorded.sample_rate,
{
    session::law_microphone_frames_are_passed_on(
        microphone,
        recorded,
        actual_rate,
        now,
        session_id,
    );
    let counted = session::count_up(microphone, frame::frame_bytes(recorded).len());
    let last = ActionView::Broadcast { sample_rate: recorded.sample_rate, data: recorded.data };
    assert(counted.push(last)[counted.len() as int] == last);
    law_speaker_plays_what_is_captured(
        step,
        recorded.sample_rate,
        recorded.data,
        sequence,
        sent_at,
        playing,
        previous_rate,
    );
}

/// A speaker stops only when the connection is closed or receiving fails. A text never stops it,
/// whatever message it carries or none, and neither does anything that the protocol has no use for:
/// it plays nothing then and keeps its rate.
pub proof fn law_only_the_end_stops_a_speaker(
    playing: Playing,
    event: IncomingView,
    sample_rate: u32,
)
    requires
        is_playing(playing, event),
    ensures
        playing is Stop <==> event is Close || event is Failed,
        event is Text || event is Other ==> playing is Ignore,
        !(event is Binary) ==> playing_rate(sample_rate, event) == sample_rate,
{
}

/// Of binary data a speaker plays all but the first 20 bytes, and takes over the rate that stands
/// little-endian in bytes 16 to 19; data that is shorter than 20 bytes it ignores, and keeps its rate.
pub proof fn law_speaker_plays_behind_the_header(
    playing: Playing,
    data: Seq<u8>,
    sample_rate: u32,
)
    requires
        is_playing(playing, IncomingView::Binary { data }),
    ensures
        data.len() < 20 ==> playing is Ignore && playing_rate(
            sample_rate,
            IncomingView::Binary { data },
        ) == sample_rate,
        data.len() >= 20 ==> {
            &&& playing matches Playing::Play { data: played }
            &&& played@ == data.subrange(20, data.len() as int)
            &&& crate::endian::le_bytes(
                playing_rate(sample_rate, IncomingView::Binary { data }) as nat,
                4,
            ) == data.subrange(16, 20)
        },
{
    frame::law_frames_start_with_a_header(data);
}

/// A microphone's frame is 20 bytes longer than its audio: its number, the time and 44100 Hz,
/// little-endian, and then every byte of the audio.
pub proof fn law_microphone_frame_byte_by_byte(sequence: u64, now: u64, data: Seq<u8>)
    ensures
        ({
            let bytes = frame::frame_bytes(recorded_frame(sequence, now, data));
            &&& bytes.len() == 20 + data.len()
            &&& bytes.subrange(0, 8) == crate::endian::le_bytes(sequence as nat, 8)
            &&& bytes.subrange(8, 16) == crate::endian::le_bytes(now as nat, 8)
            &&& bytes.subrange(16, 20) == crate::endian::le_bytes(44100, 4)
            &&& bytes.skip(20) == data
        }),
{
    let sent = recorded_frame(sequence, now, data);
    frame::law_frame_layout(sent);
    frame::law_frame_length(sent);
}

/// What a speaker does about what comes in: it plays all of a binary message but its first 20 bytes,
/// stops at a close or a failure, and does nothing about anything else, in particular about any text.
pub proof fn law_speaking(speaker: &mut SpeakerClient, event: Incoming, playing: Playing)
    requires
        call_ensures(SpeakerClient::on_event, (speaker, event), playing),
    ensures
        playing is Stop <==> event is Close || event is Failed,
        event is Text || event is Other ==> playing is Ignore,
        !(event is Binary) ==> final(speaker).sample_rate == old(speaker).sample_rate,
        event matches Incoming::Binary { data } ==> if data@.len() >= 20 {
            &&& playing matches Playing::Play { data: played }
            &&& played@ == data@.subrange(20, data@.len() as int)
            &&& crate::endian::le_bytes(final(speaker).sample_rate as nat, 4) == data@.subrange(
                16,
                20,
            )
        } else {
            playing is Ignore && final(speaker).sample_rate == old(speaker).sample_rate
        },
{
    session::law_incoming_view(event);
    law_only_the_end_stops_a_speaker(playing, event@, old(speaker).sample_rate);
    if let Incoming::Binary { data } = event {
        law_speaker_plays_behind_the_header(playing, data@, old(speaker).sample_rate);
    }
}

/// A microphone's frames are numbered without a gap, name 44100 Hz, and hold every byte recorded.
pub proof fn law_recording(stream: &mut FrameStream, data: Vec<u8>, bytes: Vec<u8>)
    requires
        old(stream)@ < u64::MAX,
        call_ensures(microphone_frame, (stream, data), bytes),
    ensures
        final(stream)@ - old(stream)@ == 1,
        bytes@.len() == 20 + data@.len(),
        bytes@.subrange(0, 8) == crate::endian::le_bytes(old(stream)@ as nat, 8),
        bytes@.subrange(16, 20) == crate::endian::le_bytes(44100, 4),
        bytes@.skip(20) == data@,
{
    let now = choose|now: u64| #[trigger]
        clock::was_read(now) && bytes@ == frame::frame_bytes(
            recorded_frame(old(stream)@, now, data@),
        );
    law_microphone_frame_byte_by_byte(old(stream)@, now, data@);
}

} // verus!
