//! Control messages.

use vstd::prelude::*;

use crate::protocol::clock;
use crate::protocol::identity;

verus! {

/// The sample rate that clients announce, in Hz.
pub const SAMPLE_RATE: u32 = 44100;

/// The number of channels on the wire.
pub const CHANNELS: u16 = 1;

/// What a client is there for.
#[derive(Debug, Clone, Copy, PartialEq, Eq, Structural)]
pub enum StreamMode {
    /// It plays what the server captures.
    Speaker,
    /// It sends what it records itself.
    Microphone,
}

/// Which way audio flows.
#[derive(Debug, Clone, Copy, PartialEq, Eq, Structural)]
pub enum StreamDirection {
    PhoneToPc,
    PcToPhone,
}

/// What the two ends tell each other besides audio frames.
#[derive(Debug, Clone, PartialEq, Eq)]
pub enum Message {
    Hello { client_id: String, mode: StreamMode, sample_rate: u32, channels: u16 },
    HelloAck { session_id: String, sample_rate: u32, channels: u16 },
    AudioData { sequence: u64, timestamp: u64, sample_rate: u32, data: Vec<u8> },
    AudioDataAck { sequence: u64 },
    Ping { timestamp: u64 },
    Pong { timestamp: u64 },
    /// The latency in milliseconds, as the bits of a 64-bit floating-point number.
    LatencyReport { latency_bits: u64 },
    StreamStart { direction: StreamDirection },
    StreamStop,
    Error { code: u16, message: String },
}

/// A `Message` as a mathematical value.
pub enum MessageView {
    Hello { client_id: Seq<char>, mode: StreamMode, sample_rate: u32, channels: u16 },
    HelloAck { session_id: Seq<char>, sample_rate: u32, channels: u16 },
    AudioData { sequence: u64, timestamp: u64, sample_rate: u32, data: Seq<u8> },
    AudioDataAck { sequence: u64 },
    Ping { timestamp: u64 },
    Pong { timestamp: u64 },
    LatencyReport { latency_bits: u64 },
    StreamStart { direction: StreamDirection },
    StreamStop,
    Error { code: u16, message: Seq<char> },
}

impl View for Message {
    type V = MessageView;

    open spec fn view(&self) -> MessageView {
        match *self {
            Message::Hello { client_id, mode, sample_rate, channels } => MessageView::Hello {
                client_id: client_id@,
                mode,
                sample_rate,
                channels,
            },
            Message::HelloAck { session_id, sample_rate, channels } => MessageView::HelloAck {
                session_id: session_id@,
                sample_rate,
                channels,
            },
            Message::AudioData { sequence, timestamp, sample_rate, data } => MessageView::AudioData {
                sequence,
                timestamp,
                sample_rate,
                data: data@,
            },
            Message::AudioDataAck { sequence } => MessageView::AudioDataAck { sequence },
            Message::Ping { timestamp } => MessageView::Ping { timestamp },
            Message::Pong { timestamp } => MessageView::Pong { timestamp },
            Message::LatencyReport { latency_bits } => MessageView::LatencyReport { latency_bits },
            Message::StreamStart { direction } => MessageView::StreamStart { direction },
            Message::StreamStop => MessageView::StreamStop,
            Message::Error { code, message } => MessageView::Error { code, message: message@ },
        }
    }
}

impl StreamMode {
    /// The mode as it is shown to people.
    pub fn name(self) -> (name: &'static str)
        ensures
            name@ == match self {
                StreamMode::Speaker => "Speaker"@,
                StreamMode::Microphone => "Microphone"@,
            },
    {
        match self {
            StreamMode::Speaker => "Speaker",
            StreamMode::Microphone => "Microphone",
        }
    }
}

/// The mode of a client that was started as a microphone, or was not.
pub open spec fn mode_for(as_mic: bool) -> StreamMode {
    if as_mic {
        StreamMode::Microphone
    } else {
        StreamMode::Speaker
    }
}

impl Message {
    /// The greeting of a client with a given name.
    pub fn hello_from(client_id: String, as_mic: bool) -> (hello: Message)
        ensures
            hello@ == (MessageView::Hello {
                client_id: client_id@,
                mode: mode_for(as_mic),
                sample_rate: SAMPLE_RATE,
                channels: CHANNELS,
            }),
    {
        let mode: StreamMode = if as_mic {
            StreamMode::Microphone
        } else {
            StreamMode::Speaker
        };
        Message::Hello { client_id, mode, sample_rate: SAMPLE_RATE, channels: CHANNELS }
    }

    /// The greeting of a client with a fresh name.
    pub fn hello(as_mic: bool) -> (hello: Message)
        ensures
            exists|client_id: Seq<char>|
                {
                    &&& #[trigger] identity::is_random_uuid(client_id)
                    &&& identity::was_drawn(client_id)
                    &&& hello@ == (MessageView::Hello {
                        client_id,
                        mode: mode_for(as_mic),
                        sample_rate: SAMPLE_RATE,
                        channels: CHANNELS,
                    })
                },
    {
        let client_id: String = identity::fresh_id();
        Message::hello_from(client_id, as_mic)
    }

    /// Audio in a control message. A sender may leave out the time and the rate: the time then
    /// counts as 0, and the rate as the usual one.
    pub fn audio_data(
        sequence: u64,
        timestamp: Option<u64>,
        sample_rate: Option<u32>,
        data: Vec<u8>,
    ) -> (audio: Message)
        ensures
            audio@ == (MessageView::AudioData {
                sequence,
                timestamp: match timestamp {
                    Some(given) => given,
                    None => 0,
                },
                sample_rate: match sample_rate {
                    Some(given) => given,
                    None => SAMPLE_RATE,
                },
                data: data@,
            }),
    {
        Message::AudioData {
            sequence,
            timestamp: timestamp.unwrap_or(0),
            sample_rate: sample_rate.unwrap_or(SAMPLE_RATE),
            data,
        }
    }

    /// A heartbeat that carries the current time.
    pub fn ping() -> (ping: Message)
        ensures
            ping@ matches MessageView::Ping { timestamp } && clock::was_read(timestamp),
    {
        Message::Ping { timestamp: clock::timestamp_ms() }
    }
}

/// A client is a microphone exactly if it was started as one.
pub proof fn law_mode_as_started(as_mic: bool)
    ensures
        as_mic <==> mode_for(as_mic) == StreamMode::Microphone,
        !as_mic <==> mode_for(as_mic) == StreamMode::Speaker,
{
}

/// Nothing of a message is left out of its mathematical value, whatever kind of message it is.
pub proof fn law_messages_say_what_they_hold(message: Message)
    ensures
        message matches Message::Hello { client_id, mode, sample_rate, channels } ==> message@
            == (MessageView::Hello { client_id: client_id@, mode, sample_rate, channels }),
        message matches Message::HelloAck { session_id, sample_rate, channels } ==> message@
            == (MessageView::HelloAck { session_id: session_id@, sample_rate, channels }),
        message matches Message::AudioData { sequence, timestamp, sample_rate, data } ==> message@
            == (MessageView::AudioData { sequence, timestamp, sample_rate, data: data@ }),
        message matches Message::AudioDataAck { sequence } ==> message@
            == (MessageView::AudioDataAck { sequence }),
        message matches Message::Ping { timestamp } ==> message@ == (MessageView::Ping {
            timestamp,
        }),
        message matches Message::Pong { timestamp } ==> message@ == (MessageView::Pong {
            timestamp,
        }),
        message matches Message::LatencyReport { latency_bits } ==> message@
            == (MessageView::LatencyReport { latency_bits }),
        message matches Message::StreamStart { direction } ==> message@
            == (MessageView::StreamStart { direction }),
        message is StreamStop ==> message@ is StreamStop,
        message matches Message::Error { code, message: text } ==> message@ == (MessageView::Error {
            code,
            message: text@,
        }),
{
}

/// Audio in a message keeps what the sender gave; a time that was left out counts as 0, and a rate
/// that was left out as 44100 Hz.
pub proof fn law_audio_data_keeps_what_is_given(
    sequence: u64,
    timestamp: Option<u64>,
    sample_rate: Option<u32>,
    data: Vec<u8>,
    audio: Message,
)
    requires
        call_ensures(Message::audio_data, (sequence, timestamp, sample_rate, data), audio),
    ensures
        audio matches Message::AudioData { sequence: s, timestamp: t, sample_rate: r, data: d } && {
            &&& s == sequence
            &&& timestamp matches Some(given) ==> t == given
            &&& timestamp is None ==> t == 0
            &&& sample_rate matches Some(given) ==> r == given
            &&& sample_rate is None ==> r == 44100
            &&& d@ == data@
        },
{
    law_messages_say_what_they_hold(audio);
}

/// A greeting names the client, its mode, 44100 Hz and one channel.
pub proof fn law_greeting_names_the_client(client_id: String, as_mic: bool, hello: Message)
    requires
        call_ensures(Message::hello_from, (client_id, as_mic), hello),
    ensures
        hello matches Message::Hello { client_id: id, mode, sample_rate, channels } && {
            &&& id@ == client_id@
            &&& mode == StreamMode::Microphone <==> as_mic
            &&& sample_rate == 44100
            &&& channels == 1
        },
{
    law_messages_say_what_they_hold(hello);
}

} // verus!
