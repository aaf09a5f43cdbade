use audio_relay::endian::{push_le, read_le};
use audio_relay::protocol::clock::reading_of;
use audio_relay::protocol::identity::fresh_id;
use audio_relay::protocol::{
    decode_audio_frame, encode_audio_frame, timestamp_ms, AudioFrame, FrameStream, Message,
    StreamMode, CHANNELS, SAMPLE_RATE,
};

fn sample_frame() -> AudioFrame {
    AudioFrame {
        sequence: 0x0102030405060708,
        timestamp: 1700000000000,
        sample_rate: 44100,
        data: vec![72, 101, 108, 108, 111],
    }
}

#[test]
fn numbers_are_little_endian() {
    let mut out = vec![9u8];
    push_le(&mut out, 0x1234, 2);
    push_le(&mut out, 0xdeadbeef, 4);
    push_le(&mut out, u64::MAX - 1, 8);
    assert_eq!(
        out,
        vec![9, 0x34, 0x12, 0xef, 0xbe, 0xad, 0xde, 0xfe, 255, 255, 255, 255, 255, 255, 255]
    );
    assert_eq!(read_le(&out, 1, 2), 0x1234);
    assert_eq!(read_le(&out, 3, 4), 0xdeadbeef);
    assert_eq!(read_le(&out, 7, 8), u64::MAX - 1);
    assert_eq!(read_le(&out, 15, 0), 0);
}

#[test]
fn frame_has_the_documented_layout() {
    let bytes = encode_audio_frame(&sample_frame());
    assert_eq!(bytes.len(), 25);
    assert_eq!(&bytes[0..8], &[8, 7, 6, 5, 4, 3, 2, 1]);
    assert_eq!(&bytes[8..16], &1700000000000u64.to_le_bytes());
    assert_eq!(&bytes[16..20], &44100u32.to_le_bytes());
    assert_eq!(&bytes[20..], b"Hello");
}

#[test]
fn frame_reads_back() {
    let frame = sample_frame();
    assert_eq!(decode_audio_frame(&encode_audio_frame(&frame)), Some(frame));
    let extreme = AudioFrame {
        sequence: u64::MAX,
        timestamp: u64::MAX,
        sample_rate: u32::MAX,
        data: Vec::new(),
    };
    assert_eq!(decode_audio_frame(&encode_audio_frame(&extreme)), Some(extreme));
}

#[test]
fn bytes_write_back() {
    let bytes: Vec<u8> = (0u8..=99).collect();
    let frame = decode_audio_frame(&bytes).unwrap();
    assert_eq!(frame.sample_rate, 0x13121110);
    assert_eq!(frame.data, bytes[20..].to_vec());
    assert_eq!(encode_audio_frame(&frame), bytes);
}

#[test]
fn short_frames_are_refused() {
    assert_eq!(decode_audio_frame(&[]), None);
    assert_eq!(decode_audio_frame(&[0; 19]), None);
    let header_only = decode_audio_frame(&[0; 20]).unwrap();
    assert_eq!(header_only.data, Vec::<u8>::new());
}

#[test]
fn different_frames_have_different_bytes() {
    let frame = sample_frame();
    let mut later = frame.clone();
    later.sequence += 1;
    assert_ne!(encode_audio_frame(&frame), encode_audio_frame(&later));
}

#[test]
fn clock_reading_of_given_times() {
    assert_eq!(reading_of(None), 0);
    assert_eq!(reading_of(Some(1700000000000)), 1700000000000);
    assert_eq!(reading_of(Some(u64::MAX as u128)), u64::MAX);
    assert_eq!(reading_of(Some(u64::MAX as u128 + 6)), 5);
}

#[test]
fn clock_tells_the_time() {
    let first = timestamp_ms();
    assert!(first > 1_600_000_000_000);
    assert!(first < 10_000_000_000_000);
    assert!(timestamp_ms() >= first);
}

#[test]
fn fresh_ids_are_random_uuids() {
    let one = fresh_id();
    let other = fresh_id();
    assert_ne!(one, other);
    for id in [one, other] {
        let chars: Vec<char> = id.chars().collect();
        assert_eq!(chars.len(), 36);
        for (i, c) in chars.iter().enumerate() {
            if [8, 13, 18, 23].contains(&i) {
                assert_eq!(*c, '-');
            } else {
                assert!(c.is_ascii_digit() || ('a'..='f').contains(c));
            }
        }
        assert_eq!(chars[14], '4');
        assert!(['8', '9', 'a', 'b'].contains(&chars[19]));
        assert!(uuid::Uuid::parse_str(&id).is_ok());
    }
}

#[test]
fn stream_numbers_its_frames() {
    let mut stream = FrameStream::new();
    assert!(stream.has_next());
    for expected in 0..3u64 {
        let bytes = stream.next_frame_at(48000, vec![expected as u8, 7], 1234);
        assert_eq!(
            decode_audio_frame(&bytes),
            Some(AudioFrame {
                sequence: expected,
                timestamp: 1234,
                sample_rate: 48000,
                data: vec![expected as u8, 7],
            })
        );
    }
    let before = timestamp_ms();
    let frame = decode_audio_frame(&stream.next_frame(44100, vec![1])).unwrap();
    assert_eq!(frame.sequence, 3);
    assert!(frame.timestamp >= before);
}

#[test]
fn greeting_names_rate_and_mode() {
    assert_eq!(
        Message::hello_from("device_name".to_string(), false),
        Message::Hello {
            client_id: "device_name".to_string(),
            mode: StreamMode::Speaker,
            sample_rate: 44100,
            channels: 1,
        }
    );
    match Message::hello(true) {
        Message::Hello { client_id, mode, sample_rate, channels } => {
            assert_eq!(client_id.len(), 36);
            assert_eq!(mode, StreamMode::Microphone);
            assert_eq!(sample_rate, SAMPLE_RATE);
            assert_eq!(channels, CHANNELS);
        }
        other => panic!("{:?}", other),
    }
}

#[test]
fn audio_message_without_time_and_rate() {
    assert_eq!(
        Message::audio_data(0, None, None, vec![72, 101]),
        Message::AudioData { sequence: 0, timestamp: 0, sample_rate: 44100, data: vec![72, 101] }
    );
    assert_eq!(
        Message::audio_data(3, Some(4), Some(5), vec![]),
        Message::AudioData { sequence: 3, timestamp: 4, sample_rate: 5, data: vec![] }
    );
}

#[test]
fn heartbeat_carries_the_time() {
    let before = timestamp_ms();
    match Message::ping() {
        Message::Ping { timestamp } => assert!(timestamp >= before),
        other => panic!("{:?}", other),
    }
}

#[test]
fn modes_have_names() {
    assert_eq!(StreamMode::Speaker.name(), "Speaker");
    assert_eq!(StreamMode::Microphone.name(), "Microphone");
}
