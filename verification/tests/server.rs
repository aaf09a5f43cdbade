use audio_relay::protocol::{encode_audio_frame, timestamp_ms, decode_audio_frame};
use audio_relay::protocol::{AudioFrame, Message, StreamDirection, StreamMode};
use audio_relay::server::capture_slot::{CaptureAction, CaptureEvent, CaptureSlot, Phase};
use audio_relay::server::discovery::{ServiceInfo, DISCOVERY_PORT};
use audio_relay::server::feed::{FeedEvent, FeedStep, SendOutcome, SpeakerFeed};
use audio_relay::server::registry::{
    ClientEntry, ClientRegistry, Latency, RegistryUpdate, Speed,
};
use audio_relay::server::session::{Action, Incoming, Session, Step};
use audio_relay::server::web::{
    rate_reply, requested_rate, set_sample_rate, RateReply, RateRequest,
};

fn text(message: Option<Message>) -> Incoming {
    Incoming::Text { text: "0123456789".to_string(), message }
}

fn hello(id: &str, mode: StreamMode) -> Incoming {
    text(Some(Message::Hello {
        client_id: id.to_string(),
        mode,
        sample_rate: 22050,
        channels: 2,
    }))
}

fn run(session: &mut Session, event: Incoming) -> Step {
    session.step(event, 48000, 5000, "session".to_string())
}

fn updates(step: Step) -> Vec<RegistryUpdate> {
    step.actions
        .into_iter()
        .filter_map(|a| match a {
            Action::Update(u) => Some(u),
            _ => None,
        })
        .collect()
}

#[test]
fn speaker_is_welcomed_registered_and_fed() {
    let mut session = Session::new("1.2.3.4:5".to_string());
    let step = run(&mut session, hello("phone", StreamMode::Speaker));
    assert!(!step.done);
    assert_eq!(step.actions.len(), 3);
    match &step.actions[0] {
        Action::Reply(m) => assert_eq!(
            m,
            &Message::HelloAck {
                session_id: "session".to_string(),
                sample_rate: 48000,
                channels: 1,
            }
        ),
        other => panic!("{:?}", other),
    }
    match &step.actions[1] {
        Action::Update(u) => assert_eq!(
            u,
            &RegistryUpdate::Register {
                client_id: "phone".to_string(),
                addr: "1.2.3.4:5".to_string(),
                mode: StreamMode::Speaker,
            }
        ),
        other => panic!("{:?}", other),
    }
    assert!(matches!(&step.actions[2], Action::Feed { client_id } if client_id == "phone"));
    assert_eq!(session.client_id, Some("phone".to_string()));
    assert_eq!(session.mode, Some(StreamMode::Speaker));
}

#[test]
fn microphone_is_not_fed() {
    let mut session = Session::new("a".to_string());
    let step = run(&mut session, hello("mic", StreamMode::Microphone));
    assert_eq!(step.actions.len(), 2);
    assert_eq!(session.mode, Some(StreamMode::Microphone));
}

#[test]
fn second_greeting_is_counted_for_the_first_name() {
    let mut session = Session::new("a".to_string());
    run(&mut session, hello("one", StreamMode::Microphone));
    let got = updates(run(&mut session, hello("two", StreamMode::Speaker)));
    assert_eq!(got[0], RegistryUpdate::CountUp { client_id: "one".to_string(), bytes: 10 });
    assert_eq!(session.client_id, Some("two".to_string()));
}

#[test]
fn pings_are_answered_even_before_the_greeting() {
    let mut session = Session::new("a".to_string());
    let step = run(&mut session, text(Some(Message::Ping { timestamp: 77 })));
    assert_eq!(step.actions.len(), 1);
    assert!(matches!(
        &step.actions[0],
        Action::Reply(Message::Pong { timestamp: 77 })
    ));
}

#[test]
fn nothing_else_happens_before_the_greeting() {
    let mut session = Session::new("a".to_string());
    let frame = encode_audio_frame(&AudioFrame {
        sequence: 0,
        timestamp: 0,
        sample_rate: 1,
        data: vec![1],
    });
    for event in [
        Incoming::Binary { data: frame },
        text(Some(Message::audio_data(0, None, None, vec![1]))),
        text(Some(Message::Pong { timestamp: 1 })),
        text(Some(Message::LatencyReport { latency_bits: 1 })),
        text(None),
        Incoming::Other,
    ] {
        let step = run(&mut session, event);
        assert!(step.actions.is_empty());
        assert!(!step.done);
    }
    assert_eq!(session.client_id, None);
}

#[test]
fn microphone_audio_is_passed_on() {
    let mut session = Session::new("a".to_string());
    run(&mut session, hello("mic", StreamMode::Microphone));
    let bytes = encode_audio_frame(&AudioFrame {
        sequence: 9,
        timestamp: 8,
        sample_rate: 16000,
        data: vec![1, 2, 3, 4],
    });
    let step = run(&mut session, Incoming::Binary { data: bytes });
    assert_eq!(step.actions.len(), 2);
    assert!(matches!(
        &step.actions[0],
        Action::Update(RegistryUpdate::CountUp { bytes: 24, .. })
    ));
    match &step.actions[1] {
        Action::Broadcast { sample_rate, data } => {
            assert_eq!(*sample_rate, 16000);
            assert_eq!(data, &vec![1, 2, 3, 4]);
        }
        other => panic!("{:?}", other),
    }
    let step = run(&mut session, text(Some(Message::audio_data(1, None, Some(8000), vec![5]))));
    assert!(matches!(
        &step.actions[1],
        Action::Broadcast { sample_rate: 8000, data } if data == &vec![5]
    ));
    let step = run(&mut session, Incoming::Binary { data: vec![0; 19] });
    assert_eq!(step.actions.len(), 1);
}

#[test]
fn speaker_audio_is_not_passed_on() {
    let mut session = Session::new("a".to_string());
    run(&mut session, hello("s", StreamMode::Speaker));
    let step = run(&mut session, Incoming::Binary { data: vec![0; 30] });
    assert_eq!(
        updates(step),
        vec![RegistryUpdate::CountUp { client_id: "s".to_string(), bytes: 30 }]
    );
    let step = run(&mut session, text(Some(Message::audio_data(0, None, None, vec![1]))));
    assert_eq!(step.actions.len(), 1);
}

#[test]
fn latency_is_measured_or_reported() {
    let mut session = Session::new("a".to_string());
    run(&mut session, hello("s", StreamMode::Speaker));
    let got = updates(run(&mut session, text(Some(Message::Pong { timestamp: 4960 }))));
    assert_eq!(
        got[1],
        RegistryUpdate::SetLatency {
            client_id: "s".to_string(),
            latency: Latency::RoundTrip { now: 5000, timestamp: 4960 },
        }
    );
    let bits = 12.5f64.to_bits();
    let report = text(Some(Message::LatencyReport { latency_bits: bits }));
    let got = updates(run(&mut session, report));
    assert_eq!(
        got[1],
        RegistryUpdate::SetLatency {
            client_id: "s".to_string(),
            latency: Latency::Reported { bits },
        }
    );
}

#[test]
fn other_messages_are_only_counted() {
    let mut session = Session::new("a".to_string());
    run(&mut session, hello("s", StreamMode::Microphone));
    for message in [
        Message::StreamStop,
        Message::StreamStart { direction: StreamDirection::PcToPhone },
        Message::AudioDataAck { sequence: 1 },
        Message::Error { code: 1, message: "x".to_string() },
        Message::HelloAck { session_id: "x".to_string(), sample_rate: 1, channels: 1 },
    ] {
        let step = run(&mut session, text(Some(message)));
        assert_eq!(step.actions.len(), 1);
    }
}

#[test]
fn text_is_counted_in_bytes() {
    let mut session = Session::new("a".to_string());
    run(&mut session, hello("s", StreamMode::Speaker));
    let event = Incoming::Text { text: "\u{97f3}\u{9891}a".to_string(), message: None };
    assert_eq!(
        updates(run(&mut session, event)),
        vec![RegistryUpdate::CountUp { client_id: "s".to_string(), bytes: 7 }]
    );
}

#[test]
fn connection_ends_on_close_and_failure() {
    let mut session = Session::new("a".to_string());
    assert!(run(&mut session, Incoming::Close).done);
    assert!(run(&mut session, Incoming::Failed).done);
    assert!(!run(&mut session, Incoming::Other).done);
    let actions = session.finish();
    assert_eq!(actions.len(), 2);
    assert!(matches!(&actions[0], Action::StopHeartbeat));
    assert!(matches!(&actions[1], Action::DropSender));
}

#[test]
fn client_is_removed_at_the_end() {
    let mut registry = ClientRegistry::new();
    let mut session = Session::new("a".to_string());
    let step = session.on_event(hello("s", StreamMode::Speaker), 44100);
    match &step.actions[0] {
        Action::Reply(Message::HelloAck { session_id, sample_rate, .. }) => {
            assert_eq!(session_id.len(), 36);
            assert_eq!(*sample_rate, 44100);
        }
        other => panic!("{:?}", other),
    }
    for update in updates(step) {
        registry.apply(update);
    }
    assert!(registry.get(&"s".to_string()).is_some());
    for action in session.finish() {
        if let Action::Update(update) = action {
            registry.apply(update);
        }
    }
    assert!(registry.get(&"s".to_string()).is_none());
}

#[test]
fn measured_latency_uses_the_clock() {
    let mut session = Session::new("a".to_string());
    session.on_event(hello("s", StreamMode::Speaker), 44100);
    let before = timestamp_ms();
    let step = session.on_event(text(Some(Message::Pong { timestamp: 3 })), 44100);
    match &updates(step)[1] {
        RegistryUpdate::SetLatency { latency: Latency::RoundTrip { now, timestamp }, .. } => {
            assert!(*now >= before);
            assert_eq!(*timestamp, 3);
        }
        other => panic!("{:?}", other),
    }
}

fn register(id: &str) -> RegistryUpdate {
    RegistryUpdate::Register {
        client_id: id.to_string(),
        addr: "addr".to_string(),
        mode: StreamMode::Speaker,
    }
}

#[test]
fn registry_counts_and_forgets() {
    let id = "c".to_string();
    let mut registry = ClientRegistry::new();
    registry.apply_at(RegistryUpdate::CountUp { client_id: id.clone(), bytes: 5 }, 1);
    assert!(registry.get(&id).is_none());
    registry.apply_at(register("c"), 100);
    registry.apply_at(register("d"), 200);
    registry.apply_at(RegistryUpdate::CountUp { client_id: id.clone(), bytes: 5 }, 300);
    registry.apply_at(RegistryUpdate::CountUp { client_id: id.clone(), bytes: 6 }, 300);
    registry.apply_at(RegistryUpdate::CountDown { client_id: id.clone(), bytes: 7 }, 300);
    let latency = Latency::RoundTrip { now: 9, timestamp: 1 };
    registry.apply_at(RegistryUpdate::SetLatency { client_id: id.clone(), latency }, 300);
    let entry = registry.get(&id).unwrap();
    assert_eq!(entry.bytes_up, 11);
    assert_eq!(entry.bytes_down, 7);
    assert_eq!(entry.latency, latency);
    assert_eq!(entry.connected_at, 100);
    let other = registry.get(&"d".to_string()).unwrap();
    assert_eq!((other.bytes_up, other.bytes_down, other.connected_at), (0, 0, 200));
    registry.apply_at(register("c"), 400);
    assert_eq!(registry.get(&id).unwrap().bytes_up, 0);
    assert_eq!(registry.list().len(), 2);
    registry.apply_at(RegistryUpdate::Unregister { client_id: id.clone() }, 500);
    registry.apply_at(RegistryUpdate::Unregister { client_id: id.clone() }, 500);
    assert!(registry.get(&id).is_none());
    assert!(registry.get(&"d".to_string()).is_some());
}

#[test]
fn full_counters_have_no_room() {
    let id = "c".to_string();
    let mut registry = ClientRegistry::new();
    registry.apply_at(register("c"), 1);
    let most = RegistryUpdate::CountUp { client_id: id.clone(), bytes: u64::MAX };
    let one = RegistryUpdate::CountUp { client_id: id.clone(), bytes: 1 };
    let down = RegistryUpdate::CountDown { client_id: id.clone(), bytes: u64::MAX };
    assert!(registry.can_apply(&most));
    registry.apply_at(most, 1);
    assert!(!registry.can_apply(&one));
    assert!(registry.can_apply(&down));
    registry.apply_at(down, 1);
    assert!(!registry.can_apply(&RegistryUpdate::CountDown { client_id: id, bytes: 2 }));
    let stranger = "x".to_string();
    assert!(registry.can_apply(&RegistryUpdate::CountUp { client_id: stranger, bytes: 1 }));
}

#[test]
fn speeds_are_worked_out_once_a_second() {
    let mut entry =
        ClientEntry::new_at("c".to_string(), "a".to_string(), StreamMode::Microphone, 1000);
    assert_eq!(entry.speed_up, Speed { bytes: 0, elapsed_ms: 1 });
    entry.bytes_up = 300;
    entry.bytes_down = 40;
    entry.update_speed_at(1999);
    assert_eq!(entry.speed_up.bytes, 0);
    entry.update_speed_at(500);
    assert_eq!(entry.last_speed_calc, 1000);
    entry.update_speed_at(2500);
    assert_eq!(entry.speed_up, Speed { bytes: 300, elapsed_ms: 1500 });
    assert_eq!(entry.speed_down, Speed { bytes: 40, elapsed_ms: 1500 });
    assert_eq!(entry.last_speed_calc, 2500);
    entry.bytes_up = 310;
    entry.update_speed_at(3499);
    assert_eq!(entry.speed_up.bytes, 300);
    entry.update_speed_at(3500);
    assert_eq!(entry.speed_up, Speed { bytes: 10, elapsed_ms: 1000 });
    assert_eq!(entry.bytes_up_snapshot, 310);
}

#[test]
fn entries_are_made_now() {
    let before = timestamp_ms();
    let mut entry = ClientEntry::new("c".to_string(), "a".to_string(), StreamMode::Speaker);
    assert!(entry.connected_at >= before);
    assert_eq!(entry.last_speed_calc, entry.connected_at);
    entry.last_speed_calc = 0;
    entry.bytes_up = 8;
    entry.update_speed();
    assert_eq!(entry.speed_up.bytes, 8);
    assert!(entry.last_speed_calc >= before);
}

#[test]
fn clients_are_listed() {
    let mut registry = ClientRegistry::new();
    assert!(registry.list().is_empty());
    registry.apply_at(register("c"), 5);
    registry.apply_at(RegistryUpdate::CountUp { client_id: "c".to_string(), bytes: 12 }, 5);
    let list = registry.list();
    assert_eq!(list.len(), 1);
    assert_eq!(list[0].client_id, "c");
    assert_eq!(list[0].addr, "addr");
    assert_eq!(list[0].mode, "Speaker");
    assert_eq!(list[0].latency, Latency::Unmeasured);
    assert_eq!(list[0].connected_at, 5);
    assert_eq!(list[0].bytes_up, 12);
    assert_eq!(list[0].speed_up.bytes, 12);
    assert!(list[0].speed_up.elapsed_ms > 1_000_000_000_000);
}

#[test]
fn listing_works_the_speeds_out() {
    let mut registry = ClientRegistry::new();
    registry.apply_at(register("c"), 1000);
    registry.apply_at(register("d"), 2500);
    for id in ["c", "d"] {
        let client_id = id.to_string();
        registry.apply_at(RegistryUpdate::CountUp { client_id, bytes: 60 }, 2500);
    }
    let list = registry.list_at(3000);
    assert_eq!(list.len(), 2);
    for client in list {
        let expected = if client.client_id == "c" {
            Speed { bytes: 60, elapsed_ms: 2000 }
        } else {
            Speed { bytes: 0, elapsed_ms: 1 }
        };
        assert_eq!(client.speed_up, expected);
    }
    assert_eq!(registry.get(&"c".to_string()).unwrap().last_speed_calc, 3000);
    assert_eq!(registry.get(&"d".to_string()).unwrap().last_speed_calc, 2500);
}

#[test]
fn bytes_are_counted_from_the_greeting_on() {
    let mut registry = ClientRegistry::new();
    let mut session = Session::new("addr".to_string());
    let events = vec![
        text(None),
        hello("c", StreamMode::Microphone),
        text(None),
        Incoming::Binary { data: vec![1, 2, 3] },
        text(Some(Message::StreamStop)),
    ];
    for event in events {
        let step = run(&mut session, event);
        assert!(!step.done);
        for update in updates(step) {
            registry.apply_at(update, 5000);
        }
    }
    assert_eq!(registry.get(&"c".to_string()).unwrap().bytes_up, 23);
}

#[test]
fn feed_numbers_audio_only() {
    let mut feed = SpeakerFeed::new("s".to_string());
    let audio = || FeedEvent::Audio { sample_rate: 48000, data: vec![1, 2] };
    for sequence in 0..2u64 {
        match feed.on_event_at(audio(), 33) {
            FeedStep::Send { bytes } => assert_eq!(
                decode_audio_frame(&bytes),
                Some(AudioFrame {
                    sequence,
                    timestamp: 33,
                    sample_rate: 48000,
                    data: vec![1, 2],
                })
            ),
            other => panic!("{:?}", other),
        }
        assert_eq!(feed.on_event_at(FeedEvent::Lagged, 34), FeedStep::Wait);
    }
    let before = timestamp_ms();
    match feed.on_event(audio()) {
        FeedStep::Send { bytes } => {
            let frame = decode_audio_frame(&bytes).unwrap();
            assert_eq!(frame.sequence, 2);
            assert!(frame.timestamp >= before);
        }
        other => panic!("{:?}", other),
    }
    assert_eq!(feed.on_event(FeedEvent::Closed), FeedStep::Stop);
}

#[test]
fn feed_counts_what_was_sent() {
    let feed = SpeakerFeed::new("s".to_string());
    let count = Some(RegistryUpdate::CountDown { client_id: "s".to_string(), bytes: 22 });
    assert_eq!(feed.after_send(SendOutcome::Sent, 22), count);
    assert_eq!(feed.after_send(SendOutcome::NoSender, 22), count);
    assert_eq!(feed.after_send(SendOutcome::Failed, 22), None);
}

#[test]
fn capture_is_replaced_after_the_old_one_stopped() {
    let mut slot = CaptureSlot::new(48000);
    assert!(!slot.expects(CaptureEvent::Stopped));
    let first = CaptureEvent::Replace { target_rate: 48000 };
    assert!(slot.expects(first));
    assert_eq!(slot.step(first), CaptureAction::Start { target_rate: 48000 });
    assert!(!slot.expects(first));
    assert_eq!(slot.step(CaptureEvent::Started), CaptureAction::Succeed);
    assert_eq!(slot.phase, Phase::Running);
    let second = CaptureEvent::Replace { target_rate: 22050 };
    assert_eq!(slot.step(second), CaptureAction::StopOld);
    assert_eq!(slot.sample_rate, 48000);
    assert_eq!(slot.step(CaptureEvent::Stopped), CaptureAction::Start { target_rate: 22050 });
    assert_eq!(slot.sample_rate, 22050);
    assert_eq!(slot.step(CaptureEvent::StartFailed), CaptureAction::Fail);
    assert_eq!(slot.phase, Phase::Empty);
    assert_eq!(slot.sample_rate, 22050);
}

#[test]
fn given_up_replacement_can_be_wished_again() {
    let mut slot = CaptureSlot { phase: Phase::Running, sample_rate: 48000 };
    assert_eq!(slot.step(CaptureEvent::Replace { target_rate: 8000 }), CaptureAction::StopOld);
    let again = CaptureEvent::Replace { target_rate: 16000 };
    assert!(slot.expects(again));
    assert_eq!(slot.step(again), CaptureAction::StopOld);
    assert_eq!(slot.phase, Phase::Stopping { target_rate: 16000 });
    assert_eq!(slot.sample_rate, 48000);
    assert_eq!(slot.step(CaptureEvent::Stopped), CaptureAction::Start { target_rate: 16000 });
    assert_eq!(slot.step(CaptureEvent::Started), CaptureAction::Succeed);
    assert_eq!(slot.sample_rate, 16000);
}

fn json(body: &str) -> serde_json::Value {
    serde_json::from_str(body).unwrap()
}

#[test]
fn rate_is_read_from_the_request() {
    let request = set_sample_rate(&json("{\"sample_rate\": 48000, \"other\": 1}"));
    assert_eq!(request, RateRequest::Change { sample_rate: 48000 });
    for body in [
        "{}",
        "{\"rate\": 48000}",
        "{\"sample_rate\": \"48000\"}",
        "{\"sample_rate\": -1}",
        "{\"sample_rate\": 44100.5}",
        "{\"sample_rate\": null}",
        "[48000]",
        "48000",
    ] {
        assert_eq!(set_sample_rate(&json(body)), RateRequest::Missing);
    }
}

#[test]
fn rate_is_cut_to_32_bits() {
    assert_eq!(requested_rate(None), RateRequest::Missing);
    assert_eq!(
        requested_rate(Some(0x1_0000_ac44)),
        RateRequest::Change { sample_rate: 44100 }
    );
    assert_eq!(
        requested_rate(Some(u32::MAX as u64)),
        RateRequest::Change { sample_rate: u32::MAX }
    );
    let request = set_sample_rate(&json("{\"sample_rate\": 4294967296}"));
    assert_eq!(request, RateRequest::Change { sample_rate: 0 });
}

#[test]
fn rate_requests_are_answered() {
    let change = RateRequest::Change { sample_rate: 8000 };
    assert_eq!(
        rate_reply(RateRequest::Missing, None),
        RateReply::Refused { error: "missing sample_rate".to_string() }
    );
    assert_eq!(rate_reply(change, None), RateReply::Changed { sample_rate: 8000 });
    assert_eq!(
        rate_reply(change, Some("no thread".to_string())),
        RateReply::Refused { error: "no thread".to_string() }
    );
}

#[test]
fn service_is_described() {
    let info = ServiceInfo::new(8080, 8081);
    assert_eq!((info.name, info.ws_port, info.web_port), ("AudioRelay", 8080, 8081));
    assert_eq!(DISCOVERY_PORT, 8082);
}
