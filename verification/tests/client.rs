use audio_relay::address::{server_url, socket_address};
use audio_relay::client::{microphone_frame, Playing, SpeakerClient};
use audio_relay::protocol::{
    decode_audio_frame, encode_audio_frame, AudioFrame, FrameStream, Message,
};
use audio_relay::server::feed::{FeedEvent, FeedStep, SpeakerFeed};
use audio_relay::server::session::{Action, Incoming, Session};

#[test]
fn addresses_are_written_out() {
    assert_eq!(socket_address("0.0.0.0", 8080), "0.0.0.0:8080");
    assert_eq!(socket_address("localhost", 0), "localhost:0");
    assert_eq!(socket_address("", 65535), ":65535");
    assert_eq!(socket_address("h", 10), "h:10");
    assert_eq!(server_url("192.168.1.7", 9090), "ws://192.168.1.7:9090");
}

#[test]
fn speaker_plays_frames() {
    let mut speaker = SpeakerClient::new();
    assert_eq!(speaker.sample_rate, 44100);
    let bytes = encode_audio_frame(&AudioFrame {
        sequence: 4,
        timestamp: 5,
        sample_rate: 48000,
        data: vec![1, 2, 3],
    });
    assert_eq!(
        speaker.on_event(Incoming::Binary { data: bytes }),
        Playing::Play { data: vec![1, 2, 3] }
    );
    assert_eq!(speaker.sample_rate, 48000);
    assert_eq!(speaker.on_event(Incoming::Binary { data: vec![1] }), Playing::Ignore);
    let pong = Some(Message::Pong { timestamp: 1 });
    let answer = Incoming::Text { text: "x".to_string(), message: pong };
    assert_eq!(speaker.on_event(answer), Playing::Ignore);
    assert_eq!(speaker.on_event(Incoming::Other), Playing::Ignore);
    assert_eq!(speaker.on_event(Incoming::Close), Playing::Stop);
    assert_eq!(speaker.on_event(Incoming::Failed), Playing::Stop);
    assert_eq!(speaker.sample_rate, 48000);
}

#[test]
fn microphone_frames_name_the_usual_rate() {
    let mut stream = FrameStream::new();
    microphone_frame(&mut stream, vec![1]);
    let frame = decode_audio_frame(&microphone_frame(&mut stream, vec![2, 3])).unwrap();
    assert_eq!(frame.sequence, 1);
    assert_eq!(frame.sample_rate, 44100);
    assert_eq!(frame.data, vec![2, 3]);
}

#[test]
fn recorded_audio_reaches_a_speaker_unchanged() {
    let recorded: Vec<u8> = (0..=255).collect();
    let mut stream = FrameStream::new();
    let sent = microphone_frame(&mut stream, recorded.clone());
    let mut session = Session::new("a".to_string());
    let greeting = Message::hello_from("mic".to_string(), true);
    session.on_event(Incoming::Text { text: "t".to_string(), message: Some(greeting) }, 48000);
    let step = session.on_event(Incoming::Binary { data: sent }, 48000);
    let mut feed = SpeakerFeed::new("s".to_string());
    let mut speaker = SpeakerClient::new();
    let mut played = Vec::new();
    for action in step.actions {
        if let Action::Broadcast { sample_rate, data } = action {
            assert_eq!(sample_rate, 44100);
            match feed.on_event(FeedEvent::Audio { sample_rate, data }) {
                FeedStep::Send { bytes } => {
                    played.push(speaker.on_event(Incoming::Binary { data: bytes }));
                }
                other => panic!("{:?}", other),
            }
        }
    }
    assert_eq!(played, vec![Playing::Play { data: recorded }]);
}

#[test]
fn microphone_sends_every_piece_in_order() {
    let mut stream = FrameStream::new();
    for k in 0..4u64 {
        let bytes = microphone_frame(&mut stream, vec![k as u8; 3]);
        assert_eq!(bytes.len(), 23);
        assert_eq!(bytes[..8], k.to_le_bytes());
        assert_eq!(bytes[16..20], 44100u32.to_le_bytes());
        assert_eq!(bytes[20..], [k as u8; 3]);
    }
}

#[test]
fn two_speakers_hear_the_same() {
    let mut one = SpeakerFeed::new("one".to_string());
    let mut other = SpeakerFeed::new("other".to_string());
    for k in 0..3u64 {
        let audio = || FeedEvent::Audio { sample_rate: 8000, data: vec![k as u8, 9] };
        let steps = [one.on_event_at(audio(), 10 + k), other.on_event_at(audio(), 90 + k)];
        for (step, timestamp) in steps.into_iter().zip([10 + k, 90 + k]) {
            match step {
                FeedStep::Send { bytes } => assert_eq!(
                    decode_audio_frame(&bytes),
                    Some(AudioFrame {
                        sequence: k,
                        timestamp,
                        sample_rate: 8000,
                        data: vec![k as u8, 9],
                    })
                ),
                other => panic!("{:?}", other),
            }
        }
    }
}
