//! Sending the server's audio to one speaker.

use vstd::prelude::*;

use crate::protocol::clock;
use crate::protocol::frame::{self, AudioFrameView};
use crate::protocol::stream::FrameStream;
use crate::server::registry::{RegistryUpdate, RegistryUpdateView};

verus! {

/// What waiting for audio led to.
#[derive(Debug)]
pub enum FeedEvent {
    /// Audio to send.
    Audio { sample_rate: u32, data: Vec<u8> },
    /// Some audio was lost because this speaker is too slow.
    Lagged,
    /// There will be no more audio.
    Closed,
}

/// A `FeedEvent` as a mathematical value.
pub enum FeedEventView {
    Audio { sample_rate: u32, data: Seq<u8> },
    Lagged,
    Closed,
}

impl View for FeedEvent {
    type V = FeedEventView;

    open spec fn view(&self) -> FeedEventView {
        match *self {
            FeedEvent::Audio { sample_rate, data } => FeedEventView::Audio {
                sample_rate,
                data: data@,
            },
            FeedEvent::Lagged => FeedEventView::Lagged,
            FeedEvent::Closed => FeedEventView::Closed,
        }
    }
}

/// What to do next for a speaker.
#[derive(Debug, PartialEq, Eq)]
pub enum FeedStep {
    /// Send these bytes as a binary message.
    Send { bytes: Vec<u8> },
    /// Wait for more.
    Wait,
    /// The feed is over.
    Stop,
}

/// How sending went.
#[derive(Debug, Clone, Copy, PartialEq, Eq, Structural)]
pub enum SendOutcome {
    Sent,
    /// The sending half of the connection is gone already.
    NoSender,
    Failed,
}

/// The audio feed of one speaker.
#[derive(Debug)]
pub struct SpeakerFeed {
    pub client_id: String,
    pub stream: FrameStream,
}

/// `step` is what `event` leads to at time `now`, when the next frame has number `sequence`.
pub open spec fn is_feed_step(
    step: FeedStep,
    event: FeedEventView,
    sequence: u64,
    now: u64,
) -> bool {
    match event {
        FeedEventView::Audio { sample_rate, data } => step matches FeedStep::Send { bytes }
            && bytes@ == frame::frame_bytes(
            AudioFrameView { sequence, timestamp: now, sample_rate, data },
        ),
        FeedEventView::Lagged => step is Wait,
        FeedEventView::Closed => step is Stop,
    }
}

/// The number of the next frame after `event`: only audio takes a number.
pub open spec fn sequence_after(event: FeedEventView, sequence: u64) -> u64 {
    if event is Audio {
        (sequence + 1) as u64
    } else {
        sequence
    }
}

impl SpeakerFeed {
    /// A feed on which nothing was sent yet.
    pub fn new(client_id: String) -> (feed: Self)
        ensures
            feed.client_id == client_id,
            feed.stream@ == 0,
    {
        SpeakerFeed { client_id, stream: FrameStream::new() }
    }

    /// Decides what to do about an event now.
    pub fn on_event(&mut self, event: FeedEvent) -> (step: FeedStep)
        requires
            event is Audio ==> old(self).stream@ < u64::MAX,
        ensures
            final(self).client_id == old(self).client_id,
            final(self).stream@ == sequence_after(event@, old(self).stream@),
            exists|now: u64| #[trigger]
                clock::was_read(now) && is_feed_step(step, event@, old(self).stream@, now),
    {
        let now: u64 = clock::timestamp_ms();
        self.on_event_at(event, now)
    }

    /// Decides what to do about an event at `now`.
    pub fn on_event_at(&mut self, event: FeedEvent, now: u64) -> (step: FeedStep)
        requires
            event is Audio ==> old(self).stream@ < u64::MAX,
        ensures
            final(self).client_id == old(self).client_id,
            final(self).stream@ == sequence_after(event@, old(self).stream@),
            is_feed_step(step, event@, old(self).stream@, now),
    {
        match event {
            FeedEvent::Audio { sample_rate, data } => FeedStep::Send {
                bytes: self.stream.next_frame_at(sample_rate, data, now),
            },
            FeedEvent::Lagged => FeedStep::Wait,
            FeedEvent::Closed => FeedStep::Stop,
        }
    }

    /// What to count after sending `len` bytes; `None` if the speaker is gone and the feed is over.
    pub fn after_send(&self, outcome: SendOutcome, len: u64) -> (count: Option<RegistryUpdate>)
        ensures
            match outcome {
                SendOutcome::Failed => count is None,
                _ => count matches Some(update) && update@ == (RegistryUpdateView::CountDown {
                    client_id: self.client_id@,
                    bytes: len,
                }),
            },
    {
        match outcome {
            SendOutcome::Failed => None,
            SendOutcome::Sent => Some(
                RegistryUpdate::CountDown { client_id: self.client_id.clone(), bytes: len },
            ),
            SendOutcome::NoSender => Some(
                RegistryUpdate::CountDown { client_id: self.client_id.clone(), bytes: len },
            ),
        }
    }
}

/// An event and the time at which it was handled.
pub struct FeedMoment {
    pub event: FeedEventView,
    pub now: u64,
}

/// The frames that a series of events leads to, from number `start` on.
pub open spec fn frames_sent(start: nat, moments: Seq<FeedMoment>) -> Seq<AudioFrameView>
    decreases moments.len(),
{
    if moments.len() == 0 {
        Seq::empty()
    } else {
        let earlier = frames_sent(start, moments.drop_last());
        match moments.last().event {
            FeedEventView::Audio { sample_rate, data } => earlier.push(
                AudioFrameView {
                    sequence: (start + earlier.len()) as u64,
                    timestamp: moments.last().now,
                    sample_rate,
                    data,
                },
            ),
            _ => earlier,
        }
    }
}

/// The number of the next frame after a series of events.
pub open spec fn sequence_run(start: u64, moments: Seq<FeedMoment>) -> u64
    decreases moments.len(),
{
    if moments.len() == 0 {
        start
    } else {
        sequence_after(moments.last().event, sequence_run(start, moments.drop_last()))
    }
}

/// The frames that a speaker is sent carry consecutive numbers, whatever was lost in between; so a
/// gap in the numbers shows that a frame got lost on the way.
pub proof fn law_sequence_numbers_are_consecutive(start: u64, moments: Seq<FeedMoment>)
    requires
        start + moments.len() <= u64::MAX,
    ensures
        sequence_run(start, moments) == start + frames_sent(start as nat, moments).len(),
        frames_sent(start as nat, moments).len() <= moments.len(),
        forall|k: int|
            0 <= k < frames_sent(start as nat, moments).len() ==> (#[trigger] frames_sent(
                start as nat,
                moments,
            )[k]).sequence == start + k,
    decreases moments.len(),
{
    if moments.len() > 0 {
        law_sequence_numbers_are_consecutive(start, moments.drop_last());
    }
}

/// `steps` is what a feed does about a series of events, one step for each, from number `start` on.
pub open spec fn is_feed_run(
    steps: Seq<FeedStep>,
    moments: Seq<FeedMoment>,
    start: u64,
) -> bool {
    &&& steps.len() == moments.len()
    &&& forall|k: int|
        0 <= k < steps.len() ==> is_feed_step(
            #[trigger] steps[k],
            moments[k].event,
            sequence_run(start, moments.take(k)),
            moments[k].now,
        )
}

/// Every event in the series is audio.
pub open spec fn all_audio(moments: Seq<FeedMoment>) -> bool {
    forall|k: int| 0 <= k < moments.len() ==> (#[trigger] moments[k]).event is Audio
}

proof fn lemma_numbers_count_audio(moments: Seq<FeedMoment>, k: int)
    requires
        all_audio(moments),
        0 <= k <= moments.len() <= u64::MAX,
    ensures
        sequence_run(0, moments.take(k)) == k,
    decreases k,
{
    if k > 0 {
        lemma_numbers_count_audio(moments, k - 1);
        assert(moments.take(k).drop_last() =~= moments.take(k - 1));
        assert(moments.take(k).last() == moments[k - 1]);
    }
}

/// A speaker that does not lag is sent one frame for each piece of audio, in order: piece `k` goes
/// out under number `k`, counted from 0, with its own rate and with every byte of its data.
pub proof fn law_every_piece_is_sent(steps: Seq<FeedStep>, moments: Seq<FeedMoment>, k: int)
    requires
        is_feed_run(steps, moments, 0),
        all_audio(moments),
        moments.len() <= u64::MAX,
        0 <= k < moments.len(),
    ensures
        steps[k] matches FeedStep::Send { bytes } && bytes@ == frame::frame_bytes(
            AudioFrameView {
                sequence: k as u64,
                timestamp: moments[k].now,
                sample_rate: moments[k].event->sample_rate,
                data: moments[k].event->data,
            },
        ) && bytes@.len() == frame::HEADER_LEN + moments[k].event->data.len(),
{
    lemma_numbers_count_audio(moments, k);
    assert(moments[k].event is Audio);
    assert(is_feed_step(
        steps[k],
        moments[k].event,
        sequence_run(0, moments.take(k)),
        moments[k].now,
    ));
    frame::law_frame_length(
        AudioFrameView {
            sequence: k as u64,
            timestamp: moments[k].now,
            sample_rate: moments[k].event->sample_rate,
            data: moments[k].event->data,
        },
    );
}

/// Where audio was lost the feed waits, where there will be no more it stops, and it stops for nothing
/// else; neither takes a number.
pub proof fn law_feed_goes_on_until_closed(
    step: FeedStep,
    event: FeedEventView,
    sequence: u64,
    now: u64,
)
    requires
        is_feed_step(step, event, sequence, now),
    ensures
        event is Closed <==> step is Stop,
        event is Lagged <==> step is Wait,
        event is Audio <==> step is Send,
        !(event is Audio) ==> sequence_after(event, sequence) == sequence,
        event is Audio && sequence < u64::MAX ==> sequence_after(event, sequence) == sequence + 1,
{
}

/// A frame for a speaker is 20 bytes longer than its audio: number, time and rate, little-endian, and
/// then every byte of the audio.
pub proof fn law_feed_frame_byte_by_byte(
    step: FeedStep,
    sample_rate: u32,
    data: Seq<u8>,
    sequence: u64,
    now: u64,
)
    requires
        is_feed_step(step, FeedEventView::Audio { sample_rate, data }, sequence, now),
    ensures
        step matches FeedStep::Send { bytes } && {
            &&& bytes@.len() == 20 + data.len()
            &&& bytes@.subrange(0, 8) == crate::endian::le_bytes(sequence as nat, 8)
            &&& bytes@.subrange(8, 16) == crate::endian::le_bytes(now as nat, 8)
            &&& bytes@.subrange(16, 20) == crate::endian::le_bytes(sample_rate as nat, 4)
            &&& bytes@.skip(20) == data
        },
{
    let sent = AudioFrameView { sequence, timestamp: now, sample_rate, data };
    frame::law_frame_layout(sent);
    frame::law_frame_length(sent);
}

/// Nothing of an event is left out of its mathematical value.
pub proof fn law_feed_event_view(event: FeedEvent)
    ensures
        event matches FeedEvent::Audio { sample_rate, data } ==> event@ == (FeedEventView::Audio {
            sample_rate,
            data: data@,
        }),
        event is Lagged <==> event@ is Lagged,
        event is Closed <==> event@ is Closed,
{
}

/// What was sent is counted for this speaker, all of it, unless sending failed; then the feed is over.
pub proof fn law_sent_bytes_are_counted(
    speaker: &SpeakerFeed,
    outcome: SendOutcome,
    len: u64,
    count: Option<RegistryUpdate>,
)
    requires
        call_ensures(SpeakerFeed::after_send, (speaker, outcome, len), count),
    ensures
        count is None <==> outcome == SendOutcome::Failed,
        count matches Some(update) ==> (update matches RegistryUpdate::CountDown {
            client_id,
            bytes,
        } && client_id@ == speaker.client_id@ && bytes == len),
{
    if let Some(update) = count {
        crate::server::registry::law_update_view(update);
    }
}

/// What a feed does about an event: audio is sent behind its header and takes a number, lost audio
/// takes none, and only the end of all audio stops the feed.
pub proof fn law_feeding(speaker: &mut SpeakerFeed, event: FeedEvent, now: u64, step: FeedStep)
    requires
        old(speaker).stream@ < u64::MAX,
        call_ensures(SpeakerFeed::on_event_at, (speaker, event, now), step),
    ensures
        final(speaker).client_id == old(speaker).client_id,
        event is Closed <==> step is Stop,
        event is Lagged <==> step is Wait,
        event is Audio ==> final(speaker).stream@ == old(speaker).stream@ + 1,
        !(event is Audio) ==> final(speaker).stream@ == old(speaker).stream@,
        event matches FeedEvent::Audio { sample_rate, data } ==> (step matches FeedStep::Send {
            bytes,
        } && bytes@.len() == 20 + data@.len() && bytes@.skip(20) == data@ && bytes@.subrange(0, 8)
            == crate::endian::le_bytes(old(speaker).stream@ as nat, 8) && bytes@.subrange(8, 16)
            == crate::endian::le_bytes(now as nat, 8) && bytes@.subrange(16, 20)
            == crate::endian::le_bytes(sample_rate as nat, 4)),
{
    law_feed_event_view(event);
    law_feed_goes_on_until_closed(step, event@, old(speaker).stream@, now);
    if let FeedEvent::Audio { sample_rate, data } = event {
        law_feed_frame_byte_by_byte(step, sample_rate, data@, old(speaker).stream@, now);
    }
}

} // verus!
