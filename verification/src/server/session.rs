//! One client's connection, from the handshake to the end.

use vstd::prelude::*;

use crate::protocol::clock;
use crate::protocol::frame;
use crate::protocol::identity;
use crate::protocol::message::{Message, MessageView, StreamMode, CHANNELS};
use crate::server::registry::{self, Latency, RegistryUpdate, RegistryUpdateView};

verus! {

/// Seconds between two heartbeats of the server.
pub const HEARTBEAT_SECS: u64 = 10;

/// What came over a connection.
#[derive(Debug)]
pub enum Incoming {
    /// A text message, and what it says if it is one of the protocol's.
    Text { text: String, message: Option<Message> },
    /// A binary message.
    Binary { data: Vec<u8> },
    /// The other end closes the connection.
    Close,
    /// Receiving failed.
    Failed,
    /// Something that the protocol has no use for.
    Other,
}

/// An `Incoming` as a mathematical value; of a text, its length in bytes is what counts.
pub enum IncomingView {
    Text { len: nat, message: Option<MessageView> },
    Binary { data: Seq<u8> },
    Close,
    Failed,
    Other,
}

impl View for Incoming {
    type V = IncomingView;

    open spec fn view(&self) -> IncomingView {
        match *self {
            Incoming::Text { text, message } => IncomingView::Text {
                len: vstd::utf8::encode_utf8(text@).len(),
                message: match message {
                    Some(m) => Some(m@),
                    None => None,
                },
            },
            Incoming::Binary { data } => IncomingView::Binary { data: data@ },
            Incoming::Close => IncomingView::Close,
            Incoming::Failed => IncomingView::Failed,
            Incoming::Other => IncomingView::Other,
        }
    }
}

/// What is to be done on behalf of a connection.
#[derive(Debug)]
pub enum Action {
    /// Change what is kept of the clients.
    Update(RegistryUpdate),
    /// Send a message to this client.
    Reply(Message),
    /// Start sending this client the audio of the server.
    Feed { client_id: String },
    /// Pass audio on to everyone who listens.
    Broadcast { sample_rate: u32, data: Vec<u8> },
    /// Stop sending heartbeats to this client.
    StopHeartbeat,
    /// Let go of the sending half of the connection.
    DropSender,
}

/// An `Action` as a mathematical value.
pub enum ActionView {
    Update(RegistryUpdateView),
    Reply(MessageView),
    Feed { client_id: Seq<char> },
    Broadcast { sample_rate: u32, data: Seq<u8> },
    StopHeartbeat,
    DropSender,
}

impl View for Action {
    type V = ActionView;

    open spec fn view(&self) -> ActionView {
        match *self {
            Action::Update(update) => ActionView::Update(update@),
            Action::Reply(message) => ActionView::Reply(message@),
            Action::Feed { client_id } => ActionView::Feed { client_id: client_id@ },
            Action::Broadcast { sample_rate, data } => ActionView::Broadcast {
                sample_rate,
                data: data@,
            },
            Action::StopHeartbeat => ActionView::StopHeartbeat,
            Action::DropSender => ActionView::DropSender,
        }
    }
}

/// Actions as mathematical values, in order.
pub open spec fn actions_view(actions: Seq<Action>) -> Seq<ActionView> {
    Seq::new(actions.len(), |i: int| actions[i]@)
}

/// What the server knows of one connection.
#[derive(Debug)]
pub struct Session {
    /// The client's network address.
    pub addr: String,
    /// The client's name, once it said hello.
    pub client_id: Option<String>,
    /// What the client is there for, once it said hello.
    pub mode: Option<StreamMode>,
}

/// A `Session` as a mathematical value.
pub struct SessionView {
    pub addr: Seq<char>,
    pub client_id: Option<Seq<char>>,
    pub mode: Option<StreamMode>,
}

impl View for Session {
    type V = SessionView;

    open spec fn view(&self) -> SessionView {
        SessionView {
            addr: self.addr@,
            client_id: match self.client_id {
                Some(id) => Some(id@),
                None => None,
            },
            mode: self.mode,
        }
    }
}

/// The count for `len` bytes that came in: only a client that said hello is counted for.
pub open spec fn count_up(session: SessionView, len: nat) -> Seq<ActionView> {
    match session.client_id {
        Some(client_id) => seq![
            ActionView::Update(RegistryUpdateView::CountUp { client_id, bytes: len as u64 }),
        ],
        None => seq![],
    }
}

/// Keeping a latency: only for a client that said hello.
pub open spec fn set_latency(session: SessionView, latency: Latency) -> Seq<ActionView> {
    match session.client_id {
        Some(client_id) => seq![
            ActionView::Update(RegistryUpdateView::SetLatency { client_id, latency }),
        ],
        None => seq![],
    }
}

/// Passing audio on: only from a microphone.
pub open spec fn pass_on(session: SessionView, sample_rate: u32, data: Seq<u8>) -> Seq<ActionView> {
    if session.mode == Some(StreamMode::Microphone) {
        seq![ActionView::Broadcast { sample_rate, data }]
    } else {
        seq![]
    }
}

/// What a greeting leads to: the acknowledgement with the server's own rate, the entry in the list
/// of clients and, for a speaker, the audio.
pub open spec fn welcome(
    addr: Seq<char>,
    client_id: Seq<char>,
    mode: StreamMode,
    session_id: Seq<char>,
    actual_rate: u32,
) -> Seq<ActionView> {
    let start = seq![
        ActionView::Reply(
            MessageView::HelloAck { session_id, sample_rate: actual_rate, channels: CHANNELS },
        ),
        ActionView::Update(RegistryUpdateView::Register { client_id, addr, mode }),
    ];
    if mode == StreamMode::Speaker {
        start.push(ActionView::Feed { client_id })
    } else {
        start
    }
}

/// What a control message leads to.
pub open spec fn message_actions(
    session: SessionView,
    message: MessageView,
    actual_rate: u32,
    now: u64,
    session_id: Seq<char>,
) -> Seq<ActionView> {
    match message {
        MessageView::Hello { client_id, mode, .. } => welcome(
            session.addr,
            client_id,
            mode,
            session_id,
            actual_rate,
        ),
        MessageView::AudioData { sample_rate, data, .. } => pass_on(session, sample_rate, data),
        MessageView::Pong { timestamp } => set_latency(
            session,
            Latency::RoundTrip { now, timestamp },
        ),
        MessageView::Ping { timestamp } => seq![
            ActionView::Reply(MessageView::Pong { timestamp }),
        ],
        MessageView::LatencyReport { latency_bits } => set_latency(
            session,
            Latency::Reported { bits: latency_bits },
        ),
        _ => seq![],
    }
}

/// Everything that is to be done when something comes in.
///
/// `actual_rate` is the rate at which the server captures, `now` the time, and `session_id` a fresh
/// name for the session.
pub open spec fn actions_for(
    session: SessionView,
    event: IncomingView,
    actual_rate: u32,
    now: u64,
    session_id: Seq<char>,
) -> Seq<ActionView> {
    match event {
        IncomingView::Text { len, message } => count_up(session, len) + match message {
            Some(m) => message_actions(session, m, actual_rate, now, session_id),
            None => seq![],
        },
        IncomingView::Binary { data } => count_up(session, data.len()) + match frame::frame_of(
            data,
        ) {
            Some(f) => pass_on(session, f.sample_rate, f.data),
            None => seq![],
        },
        _ => seq![],
    }
}

/// The session after something came in: a greeting sets the client's name and mode, and nothing
/// else does.
pub open spec fn session_after(session: SessionView, event: IncomingView) -> SessionView {
    match event {
        IncomingView::Text { message: Some(MessageView::Hello { client_id, mode, .. }), .. } =>
            SessionView { client_id: Some(client_id), mode: Some(mode), ..session },
        _ => session,
    }
}

/// The connection is over after this.
pub open spec fn ends(event: IncomingView) -> bool {
    event is Close || event is Failed
}

/// What is to be done once the connection is over.
pub open spec fn farewell(session: SessionView) -> Seq<ActionView> {
    let start = seq![ActionView::StopHeartbeat, ActionView::DropSender];
    match session.client_id {
        Some(client_id) => start.push(
            ActionView::Update(RegistryUpdateView::Unregister { client_id }),
        ),
        None => start,
    }
}

/// What to do about something that came in, and whether the connection goes on.
#[derive(Debug)]
pub struct Step {
    pub actions: Vec<Action>,
    /// Nothing more is to be received.
    pub done: bool,
}

impl Session {
    /// A connection on which nothing was said yet.
    pub fn new(addr: String) -> (session: Self)
        ensures
            session@ == (SessionView { addr: addr@, client_id: None, mode: None }),
    {
        Session { addr, client_id: None, mode: None }
    }

    fn push_count(&self, len: u64, actions: &mut Vec<Action>)
        ensures
            actions_view(final(actions)@) == actions_view(old(actions)@) + count_up(
                self@,
                len as nat,
            ),
    {
        if let Some(id) = &self.client_id {
            actions.push(
                Action::Update(RegistryUpdate::CountUp { client_id: id.clone(), bytes: len }),
            );
        }
        assert(actions_view(actions@) =~= actions_view(old(actions)@) + count_up(
            self@,
            len as nat,
        ));
    }

    fn push_latency(&self, latency: Latency, actions: &mut Vec<Action>)
        ensures
            actions_view(final(actions)@) == actions_view(old(actions)@) + set_latency(
                self@,
                latency,
            ),
    {
        if let Some(id) = &self.client_id {
            actions.push(
                Action::Update(RegistryUpdate::SetLatency { client_id: id.clone(), latency }),
            );
        }
        assert(actions_view(actions@) =~= actions_view(old(actions)@) + set_latency(
            self@,
            latency,
        ));
    }

    fn push_audio(&self, sample_rate: u32, data: Vec<u8>, actions: &mut Vec<Action>)
        ensures
            actions_view(final(actions)@) == actions_view(old(actions)@) + pass_on(
                self@,
                sample_rate,
                data@,
            ),
    {
        if let Some(StreamMode::Microphone) = self.mode {
            actions.push(Action::Broadcast { sample_rate, data });
        }
        assert(actions_view(actions@) =~= actions_view(old(actions)@) + pass_on(
            self@,
            sample_rate,
            data@,
        ));
    }

    fn push_welcome(
        &self,
        client_id: &String,
        mode: StreamMode,
        session_id: String,
        actual_rate: u32,
        actions: &mut Vec<Action>,
    )
        ensures
            actions_view(final(actions)@) == actions_view(old(actions)@) + welcome(
                self@.addr,
                client_id@,
                mode,
                session_id@,
                actual_rate,
            ),
    {
        actions.push(
            Action::Reply(
                Message::HelloAck { session_id, sample_rate: actual_rate, channels: CHANNELS },
            ),
        );
        actions.push(
            Action::Update(
                RegistryUpdate::Register {
                    client_id: client_id.clone(),
                    addr: self.addr.clone(),
                    mode,
                },
            ),
        );
        if let StreamMode::Speaker = mode {
            actions.push(Action::Feed { client_id: client_id.clone() });
        }
        assert(actions_view(actions@) =~= actions_view(old(actions)@) + welcome(
            self@.addr,
            client_id@,
            mode,
            session_id@,
            actual_rate,
        ));
    }

    /// Decides what to do about something that came in at `now`.
    ///
    /// `session_id` names the session if this is a greeting; `actual_rate` is the rate at which the
    /// server captures.
    pub fn step(
        &mut self,
        event: Incoming,
        actual_rate: u32,
        now: u64,
        session_id: String,
    ) -> (step: Step)
        ensures
            final(self)@ == session_after(old(self)@, event@),
            actions_view(step.actions@) == actions_for(
                old(self)@,
                event@,
                actual_rate,
                now,
                session_id@,
            ),
            step.done == ends(event@),
            step.done <==> event is Close || event is Failed,
    {
        let mut actions: Vec<Action> = Vec::new();
        let ghost before = self@;
        let mut done: bool = false;
        match event {
            Incoming::Text { text, message } => {
                self.push_count(text.as_str().as_bytes().len() as u64, &mut actions);
                match message {
                    Some(Message::Hello { client_id, mode, sample_rate: _, channels: _ }) => {
                        self.push_welcome(&client_id, mode, session_id, actual_rate, &mut actions);
                        self.client_id = Some(client_id);
                        self.mode = Some(mode);
                    },
                    Some(Message::AudioData { sequence: _, timestamp: _, sample_rate, data }) => {
                        self.push_audio(sample_rate, data, &mut actions);
                    },
                    Some(Message::Pong { timestamp }) => {
                        self.push_latency(Latency::RoundTrip { now, timestamp }, &mut actions);
                    },
                    Some(Message::Ping { timestamp }) => {
                        actions.push(Action::Reply(Message::Pong { timestamp }));
                    },
                    Some(Message::LatencyReport { latency_bits }) => {
                        self.push_latency(Latency::Reported { bits: latency_bits }, &mut actions);
                    },
                    _ => {},
                }
            },
            Incoming::Binary { data } => {
                self.push_count(data.len() as u64, &mut actions);
                if let Some(StreamMode::Microphone) = self.mode {
                    if let Some(audio) = frame::decode_audio_frame(data.as_slice()) {
                        self.push_audio(audio.sample_rate, audio.data, &mut actions);
                    }
                }
            },
            Incoming::Close => {
                done = true;
            },
            Incoming::Failed => {
                done = true;
            },
            Incoming::Other => {},
        }
        assert(actions_view(actions@) =~= actions_for(
            before,
            event@,
            actual_rate,
            now,
            session_id@,
        ));
        Step { actions, done }
    }

    /// Decides what to do about something that comes in now.
    pub fn on_event(&mut self, event: Incoming, actual_rate: u32) -> (step: Step)
        ensures
            final(self)@ == session_after(old(self)@, event@),
            step.done == ends(event@),
            step.done <==> event is Close || event is Failed,
            exists|now: u64, session_id: Seq<char>|
                {
                    &&& clock::was_read(now)
                    &&& greets(event@) ==> identity::is_random_uuid(session_id)
                        && identity::was_drawn(session_id)
                    &&& actions_view(step.actions@) == #[trigger] actions_for(
                        old(self)@,
                        event@,
                        actual_rate,
                        now,
                        session_id,
                    )
                },
    {
        let session_id: String = match &event {
            Incoming::Text { text: _, message: Some(Message::Hello { .. }) } => identity::fresh_id(),
            _ => String::new(),
        };
        let now: u64 = clock::timestamp_ms();
        self.step(event, actual_rate, now, session_id)
    }

    /// Decides what to do once the connection is over.
    pub fn finish(self) -> (actions: Vec<Action>)
        ensures
            actions_view(actions@) == farewell(self@),
    {
        let mut actions: Vec<Action> = Vec::new();
        let ghost session = self@;
        actions.push(Action::StopHeartbeat);
        actions.push(Action::DropSender);
        if let Some(client_id) = self.client_id {
            actions.push(Action::Update(RegistryUpdate::Unregister { client_id }));
        }
        assert(actions_view(actions@) =~= farewell(session));
        actions
    }
}

/// The event is a greeting.
pub open spec fn greets(event: IncomingView) -> bool {
    event matches IncomingView::Text { message: Some(MessageView::Hello { .. }), .. }
}

/// A ping is answered with a pong that carries the same time, whoever sends it and whenever.
pub proof fn law_every_ping_is_answered(
    session: SessionView,
    len: nat,
    timestamp: u64,
    actual_rate: u32,
    now: u64,
    session_id: Seq<char>,
)
    ensures
        actions_for(
            session,
            IncomingView::Text { len, message: Some(MessageView::Ping { timestamp }) },
            actual_rate,
            now,
            session_id,
        ) == count_up(session, len).push(ActionView::Reply(MessageView::Pong { timestamp })),
{
    assert(count_up(session, len) + seq![ActionView::Reply(MessageView::Pong { timestamp })]
        =~= count_up(session, len).push(ActionView::Reply(MessageView::Pong { timestamp })));
}

/// A greeting is acknowledged with the rate at which the server captures, whatever rate the client
/// asked for, and from then on the session has the client's name and mode.
pub proof fn law_greeting_is_acknowledged(
    session: SessionView,
    len: nat,
    client_id: Seq<char>,
    mode: StreamMode,
    sample_rate: u32,
    channels: u16,
    actual_rate: u32,
    now: u64,
    session_id: Seq<char>,
)
    ensures
        ({
            let event = IncomingView::Text {
                len,
                message: Some(MessageView::Hello { client_id, mode, sample_rate, channels }),
            };
            let actions = actions_for(session, event, actual_rate, now, session_id);
            let after = session_after(session, event);
            &&& actions.contains(
                ActionView::Reply(
                    MessageView::HelloAck {
                        session_id,
                        sample_rate: actual_rate,
                        channels: CHANNELS,
                    },
                ),
            )
            &&& actions.contains(
                ActionView::Update(
                    RegistryUpdateView::Register { client_id, addr: session.addr, mode },
                ),
            )
            &&& actions.contains(ActionView::Feed { client_id }) <==> mode == StreamMode::Speaker
            &&& after.client_id == Some(client_id)
            &&& after.mode == Some(mode)
        }),
{
    let event = IncomingView::Text {
        len,
        message: Some(MessageView::Hello { client_id, mode, sample_rate, channels }),
    };
    let actions = actions_for(session, event, actual_rate, now, session_id);
    let n = count_up(session, len).len() as int;
    let said = welcome(session.addr, client_id, mode, session_id, actual_rate);
    assert(actions == count_up(session, len) + said);
    assert(actions[n] == said[0]);
    assert(actions[n + 1] == said[1]);
    if mode == StreamMode::Speaker {
        assert(actions[n + 2] == said[2]);
        assert(actions[n + 2] == ActionView::Feed { client_id });
    }
}

/// Only what a microphone sends is passed on: neither a speaker nor a client that said nothing yet
/// can be heard by others.
pub proof fn law_only_microphones_are_heard(
    session: SessionView,
    event: IncomingView,
    actual_rate: u32,
    now: u64,
    session_id: Seq<char>,
    sample_rate: u32,
    data: Seq<u8>,
)
    requires
        session.mode != Some(StreamMode::Microphone),
    ensures
        !actions_for(session, event, actual_rate, now, session_id).contains(
            ActionView::Broadcast { sample_rate, data },
        ),
{
}

/// An audio frame from a microphone is passed on with its own rate and with every byte of its data
/// as it was sent.
pub proof fn law_microphone_frames_are_passed_on(
    session: SessionView,
    sent: frame::AudioFrameView,
    actual_rate: u32,
    now: u64,
    session_id: Seq<char>,
)
    requires
        session.mode == Some(StreamMode::Microphone),
    ensures
        ({
            let bytes = frame::frame_bytes(sent);
            actions_for(
                session,
                IncomingView::Binary { data: bytes },
                actual_rate,
                now,
                session_id,
            ) == count_up(session, bytes.len()).push(
                ActionView::Broadcast { sample_rate: sent.sample_rate, data: sent.data },
            )
        }),
{
    frame::law_decode_after_encode(sent);
    let bytes = frame::frame_bytes(sent);
    let last = ActionView::Broadcast { sample_rate: sent.sample_rate, data: sent.data };
    assert(count_up(session, bytes.len()) + seq![last] =~= count_up(session, bytes.len()).push(
        last,
    ));
}

/// Before its greeting a client gets nothing but answers to its pings: it is not counted, not
/// heard and not fed, whatever it sends.
pub proof fn law_nothing_before_greeting(
    session: SessionView,
    event: IncomingView,
    actual_rate: u32,
    now: u64,
    session_id: Seq<char>,
    i: int,
)
    requires
        session.client_id is None,
        session.mode is None,
        !greets(event),
        0 <= i < actions_for(session, event, actual_rate, now, session_id).len(),
    ensures
        session_after(session, event) == session,
        actions_for(session, event, actual_rate, now, session_id)[i] matches ActionView::Reply(
            MessageView::Pong { .. },
        ),
{
}

/// Something that came in, with what else its handling depends on.
pub struct Moment {
    pub event: IncomingView,
    pub actual_rate: u32,
    pub now: u64,
    pub session_id: Seq<char>,
}

/// The clients after the updates among some actions.
pub open spec fn clients_after(
    clients: registry::Clients,
    actions: Seq<ActionView>,
    now: u64,
) -> registry::Clients
    decreases actions.len(),
{
    if actions.len() == 0 {
        clients
    } else {
        let before = clients_after(clients, actions.drop_last(), now);
        match actions.last() {
            ActionView::Update(update) => registry::updated(before, update, now),
            _ => before,
        }
    }
}

/// The session after a series of things came in.
pub open spec fn session_run(session: SessionView, moments: Seq<Moment>) -> SessionView
    decreases moments.len(),
{
    if moments.len() == 0 {
        session
    } else {
        session_after(session_run(session, moments.drop_last()), moments.last().event)
    }
}

/// The clients after a series of things came in over one connection.
pub open spec fn clients_run(
    session: SessionView,
    clients: registry::Clients,
    moments: Seq<Moment>,
) -> registry::Clients
    decreases moments.len(),
{
    if moments.len() == 0 {
        clients
    } else {
        let earlier = moments.drop_last();
        let last = moments.last();
        clients_after(
            clients_run(session, clients, earlier),
            actions_for(
                session_run(session, earlier),
                last.event,
                last.actual_rate,
                last.now,
                last.session_id,
            ),
            last.now,
        )
    }
}

/// Every greeting in the series is by a client of this name.
pub open spec fn greets_as(moments: Seq<Moment>, client_id: Seq<char>) -> bool {
    forall|i: int|
        0 <= i < moments.len() ==> match (#[trigger] moments[i]).event {
            IncomingView::Text { message: Some(MessageView::Hello { client_id: id, .. }), .. } => id
                == client_id,
            _ => true,
        }
}

/// All updates among the actions are about this client.
spec fn about(actions: Seq<ActionView>, client_id: Seq<char>) -> bool {
    forall|i: int|
        0 <= i < actions.len() ==> match #[trigger] actions[i] {
            ActionView::Update(update) => registry::subject(update) == client_id,
            _ => true,
        }
}

proof fn lemma_clients_after_touch_one(
    clients: registry::Clients,
    actions: Seq<ActionView>,
    now: u64,
    client_id: Seq<char>,
)
    requires
        about(actions, client_id),
    ensures
        clients_after(clients, actions, now).remove(client_id) == clients.remove(client_id),
    decreases actions.len(),
{
    if actions.len() > 0 {
        let rest = actions.drop_last();
        assert forall|i: int| 0 <= i < rest.len() implies match #[trigger] rest[i] {
            ActionView::Update(update) => registry::subject(update) == client_id,
            _ => true,
        } by {
            assert(rest[i] == actions[i]);
        }
        lemma_clients_after_touch_one(clients, rest, now, client_id);
        let before = clients_after(clients, rest, now);
        let last = actions[actions.len() - 1];
        if let ActionView::Update(update) = last {
            assert(registry::subject(update) == client_id);
            assert(registry::updated(before, update, now).remove(client_id) =~= before.remove(
                client_id,
            ));
        }
    }
}

/// A connection on which one client is named touches no other client, and once it is over that
/// client is gone: the other clients are as they were before.
pub proof fn law_connection_leaves_no_trace(
    session: SessionView,
    clients: registry::Clients,
    moments: Seq<Moment>,
    client_id: Seq<char>,
    now: u64,
)
    requires
        session.client_id is None,
        greets_as(moments, client_id),
    ensures
        clients_run(session, clients, moments).remove(client_id) == clients.remove(client_id),
        session_run(session, moments).client_id is Some ==> clients_after(
            clients_run(session, clients, moments),
            farewell(session_run(session, moments)),
            now,
        ) == clients.remove(client_id),
{
    lemma_run_touches_one(session, clients, moments, client_id);
    let end = session_run(session, moments);
    let left = clients_run(session, clients, moments);
    if end.client_id is Some {
        let bye = farewell(end);
        let start = seq![ActionView::StopHeartbeat, ActionView::DropSender];
        assert(bye.drop_last() =~= start);
        assert(start.drop_last() =~= seq![ActionView::StopHeartbeat]);
        assert(seq![ActionView::StopHeartbeat].drop_last() =~= Seq::<ActionView>::empty());
        reveal_with_fuel(clients_after, 4);
        assert(clients_after(left, bye, now) == left.remove(client_id));
    }
}

proof fn lemma_run_touches_one(
    session: SessionView,
    clients: registry::Clients,
    moments: Seq<Moment>,
    client_id: Seq<char>,
)
    requires
        session.client_id is None,
        greets_as(moments, client_id),
    ensures
        session_run(session, moments).client_id matches Some(id) ==> id == client_id,
        clients_run(session, clients, moments).remove(client_id) == clients.remove(client_id),
    decreases moments.len(),
{
    if moments.len() > 0 {
        let earlier = moments.drop_last();
        let last = moments[moments.len() - 1];
        assert(greets_as(earlier, client_id)) by {
            assert forall|i: int| 0 <= i < earlier.len() implies match (
            #[trigger] earlier[i]).event {
                IncomingView::Text { message: Some(MessageView::Hello { client_id: id, .. }), .. } => id
                    == client_id,
                _ => true,
            } by {
                assert(earlier[i] == moments[i]);
            }
        }
        lemma_run_touches_one(session, clients, earlier, client_id);
        let here = session_run(session, earlier);
        let actions = actions_for(
            here,
            last.event,
            last.actual_rate,
            last.now,
            last.session_id,
        );
        assert(about(actions, client_id));
        lemma_clients_after_touch_one(
            clients_run(session, clients, earlier),
            actions,
            last.now,
            client_id,
        );
    }
}

/// When a registered client sends a heartbeat back, its latency becomes half of the time between
/// the sending of the heartbeat and its return.
pub proof fn law_heartbeat_sets_latency(
    session: SessionView,
    clients: registry::Clients,
    client_id: Seq<char>,
    len: nat,
    timestamp: u64,
    actual_rate: u32,
    now: u64,
    session_id: Seq<char>,
)
    requires
        session.client_id == Some(client_id),
        clients.dom().contains(client_id),
    ensures
        clients_after(
            clients,
            actions_for(
                session,
                IncomingView::Text { len, message: Some(MessageView::Pong { timestamp }) },
                actual_rate,
                now,
                session_id,
            ),
            now,
        )[client_id].latency == (Latency::RoundTrip { now, timestamp }),
{
    let counted = count_up(session, len);
    let both = counted + set_latency(session, Latency::RoundTrip { now, timestamp });
    assert(both.drop_last() =~= counted);
    assert(counted.drop_last() =~= Seq::<ActionView>::empty());
    reveal_with_fuel(clients_after, 3);
}

/// How many bytes an event counts for.
pub open spec fn event_len(event: IncomingView) -> nat {
    match event {
        IncomingView::Text { len, .. } => len,
        IncomingView::Binary { data } => data.len(),
        _ => 0,
    }
}

/// How many bytes a series of events counts for.
pub open spec fn total_len(moments: Seq<Moment>) -> nat
    decreases moments.len(),
{
    if moments.len() == 0 {
        0
    } else {
        total_len(moments.drop_last()) + event_len(moments.last().event)
    }
}

/// Every byte that a registered client sends after its greeting is counted, exactly once.
pub proof fn law_every_byte_is_counted(
    session: SessionView,
    clients: registry::Clients,
    moments: Seq<Moment>,
    client_id: Seq<char>,
)
    requires
        session.client_id == Some(client_id),
        clients.dom().contains(client_id),
        forall|i: int| 0 <= i < moments.len() ==> !greets((#[trigger] moments[i]).event),
        clients[client_id].bytes_up + total_len(moments) <= u64::MAX,
    ensures
        session_run(session, moments) == session,
        clients_run(session, clients, moments).dom().contains(client_id),
        clients_run(session, clients, moments)[client_id].bytes_up == clients[client_id].bytes_up
            + total_len(moments),
    decreases moments.len(),
{
    if moments.len() > 0 {
        let earlier = moments.drop_last();
        let last = moments[moments.len() - 1];
        assert forall|i: int| 0 <= i < earlier.len() implies !greets(
            (#[trigger] earlier[i]).event,
        ) by {
            assert(earlier[i] == moments[i]);
        }
        law_every_byte_is_counted(session, clients, earlier, client_id);
        let before = clients_run(session, clients, earlier);
        let actions = actions_for(
            session,
            last.event,
            last.actual_rate,
            last.now,
            last.session_id,
        );
        assert(!greets(last.event));
        reveal_with_fuel(clients_after, 3);
        if event_len(last.event) > 0 || actions.len() > 0 {
            let counted = count_up(session, event_len(last.event));
            assert(counted.drop_last() =~= Seq::<ActionView>::empty());
            if actions.len() == 1 {
                assert(actions =~= counted);
            } else {
                assert(actions.drop_last() =~= counted);
            }
        }
    }
}

/// A text that is no message of the protocol is counted, and changes nothing else: the session goes
/// on as it was.
pub proof fn law_invalid_text_is_only_counted(
    session: SessionView,
    len: nat,
    actual_rate: u32,
    now: u64,
    session_id: Seq<char>,
)
    ensures
        ({
            let event = IncomingView::Text { len, message: None };
            &&& actions_for(session, event, actual_rate, now, session_id) == count_up(session, len)
            &&& session_after(session, event) == session
            &&& !ends(event)
        }),
{
    assert(count_up(session, len) + Seq::<ActionView>::empty() =~= count_up(session, len));
}

/// A client that says hello once is counted for every byte that it sends after its greeting, valid
/// or not, and for nothing before: neither for the greeting nor for what came ahead of it.
pub proof fn law_bytes_are_counted_from_the_greeting(
    session: SessionView,
    clients: registry::Clients,
    before: Seq<Moment>,
    greeting: Moment,
    after: Seq<Moment>,
    client_id: Seq<char>,
)
    requires
        session.client_id is None,
        session.mode is None,
        forall|i: int| 0 <= i < before.len() ==> !greets((#[trigger] before[i]).event),
        greeting.event matches IncomingView::Text {
            message: Some(MessageView::Hello { client_id: id, .. }),
            ..
        } && id == client_id,
        forall|i: int| 0 <= i < after.len() ==> !greets((#[trigger] after[i]).event),
        total_len(after) <= u64::MAX,
    ensures
        ({
            let end = clients_run(session, clients, before.push(greeting) + after);
            &&& end.dom().contains(client_id)
            &&& end[client_id].bytes_up == total_len(after)
        }),
{
    let start = before.push(greeting);
    lemma_runs_join(session, clients, start, after);
    lemma_unnamed_run(session, clients, before);
    assert(start.drop_last() =~= before);
    let here = session_run(session, start);
    let registered = clients_run(session, clients, start);
    let actions = actions_for(
        session,
        greeting.event,
        greeting.actual_rate,
        greeting.now,
        greeting.session_id,
    );
    let mode = greeting.event->message->0->Hello_mode;
    let said = welcome(
        session.addr,
        client_id,
        mode,
        greeting.session_id,
        greeting.actual_rate,
    );
    assert(actions =~= said);
    let reply = said[0];
    let entered = said[1];
    assert(seq![reply].drop_last() =~= Seq::<ActionView>::empty());
    assert(seq![reply, entered].drop_last() =~= seq![reply]);
    if mode == StreamMode::Speaker {
        assert(said.drop_last() =~= seq![reply, entered]);
    } else {
        assert(said =~= seq![reply, entered]);
    }
    reveal_with_fuel(clients_after, 4);
    assert(registered.dom().contains(client_id) && registered[client_id].bytes_up == 0);
    law_every_byte_is_counted(here, registered, after, client_id);
}

/// Nothing that comes in before a greeting names the session or touches the clients.
proof fn lemma_unnamed_run(session: SessionView, clients: registry::Clients, moments: Seq<Moment>)
    requires
        session.client_id is None,
        session.mode is None,
        forall|i: int| 0 <= i < moments.len() ==> !greets((#[trigger] moments[i]).event),
    ensures
        session_run(session, moments) == session,
        clients_run(session, clients, moments) == clients,
    decreases moments.len(),
{
    if moments.len() > 0 {
        let earlier = moments.drop_last();
        let last = moments[moments.len() - 1];
        assert forall|i: int| 0 <= i < earlier.len() implies !greets(
            (#[trigger] earlier[i]).event,
        ) by {
            assert(earlier[i] == moments[i]);
        }
        lemma_unnamed_run(session, clients, earlier);
        assert(!greets(last.event));
        let actions = actions_for(
            session,
            last.event,
            last.actual_rate,
            last.now,
            last.session_id,
        );
        if actions.len() > 0 {
            assert(actions.drop_last() =~= Seq::<ActionView>::empty());
            reveal_with_fuel(clients_after, 2);
        }
    }
}

/// A series of events after another one.
proof fn lemma_runs_join(
    session: SessionView,
    clients: registry::Clients,
    first: Seq<Moment>,
    second: Seq<Moment>,
)
    ensures
        session_run(session, first + second) == session_run(session_run(session, first), second),
        clients_run(session, clients, first + second) == clients_run(
            session_run(session, first),
            clients_run(session, clients, first),
            second,
        ),
    decreases second.len(),
{
    if second.len() == 0 {
        assert(first + second =~= first);
    } else {
        lemma_runs_join(session, clients, first, second.drop_last());
        assert((first + second).drop_last() =~= first + second.drop_last());
        assert((first + second).last() == second.last());
    }
}

/// The connection is over after a close and after a failure to receive, and after nothing else: not
/// after a text, whatever it says, not after binary data, and not after anything else.
pub proof fn law_only_close_and_failure_end_it(
    len: nat,
    message: Option<MessageView>,
    data: Seq<u8>,
)
    ensures
        !ends(IncomingView::Text { len, message }),
        !ends(IncomingView::Binary { data }),
        !ends(IncomingView::Other),
        ends(IncomingView::Close),
        ends(IncomingView::Failed),
{
}

/// A named client is counted for as many bytes as came, once; a client without a name is not.
pub proof fn law_counting_is_one_update(session: SessionView, client_id: Seq<char>, len: nat)
    ensures
        session.client_id == Some(client_id) ==> count_up(session, len) == seq![
            ActionView::Update(RegistryUpdateView::CountUp { client_id, bytes: len as u64 }),
        ],
        session.client_id is None ==> count_up(session, len).len() == 0,
{
}

/// What a greeting leads to, all of it and in order: after the count for a client that had a name
/// already, the acknowledgement with the server's own rate and one channel, then the entry under the
/// new name, and for a speaker the start of its feed.
pub proof fn law_greeting_step_by_step(
    session: SessionView,
    len: nat,
    client_id: Seq<char>,
    mode: StreamMode,
    sample_rate: u32,
    channels: u16,
    actual_rate: u32,
    now: u64,
    session_id: Seq<char>,
)
    ensures
        ({
            let event = IncomingView::Text {
                len,
                message: Some(MessageView::Hello { client_id, mode, sample_rate, channels }),
            };
            let actions = actions_for(session, event, actual_rate, now, session_id);
            let n = count_up(session, len).len() as int;
            &&& actions.take(n) == count_up(session, len)
            &&& actions[n] == ActionView::Reply(
                MessageView::HelloAck { session_id, sample_rate: actual_rate, channels: 1 },
            )
            &&& actions[n + 1] == ActionView::Update(
                RegistryUpdateView::Register { client_id, addr: session.addr, mode },
            )
            &&& mode == StreamMode::Speaker ==> actions.len() == n + 3 && actions[n + 2]
                == (ActionView::Feed { client_id })
            &&& mode == StreamMode::Microphone ==> actions.len() == n + 2
        }),
{
    let event = IncomingView::Text {
        len,
        message: Some(MessageView::Hello { client_id, mode, sample_rate, channels }),
    };
    let actions = actions_for(session, event, actual_rate, now, session_id);
    let n = count_up(session, len).len() as int;
    assert(actions.take(n) =~= count_up(session, len));
}

/// Only a greeting changes the session: it sets the name and the mode and keeps the address.
pub proof fn law_only_a_greeting_changes_the_session(
    session: SessionView,
    len: nat,
    message: Option<MessageView>,
    data: Seq<u8>,
)
    ensures
        session_after(session, IncomingView::Binary { data }) == session,
        session_after(session, IncomingView::Close) == session,
        session_after(session, IncomingView::Failed) == session,
        session_after(session, IncomingView::Other) == session,
        session_after(session, IncomingView::Text { len, message }).addr == session.addr,
        message matches Some(MessageView::Hello { client_id, mode, .. }) ==> session_after(
            session,
            IncomingView::Text { len, message },
        ).client_id == Some(client_id) && session_after(
            session,
            IncomingView::Text { len, message },
        ).mode == Some(mode),
        !(message matches Some(MessageView::Hello { .. })) ==> session_after(
            session,
            IncomingView::Text { len, message },
        ) == session,
{
}

/// Audio in a text message from a microphone is passed on with its own rate and every byte of its
/// data; from anyone else it is only counted.
pub proof fn law_audio_messages(
    session: SessionView,
    len: nat,
    sequence: u64,
    timestamp: u64,
    sample_rate: u32,
    data: Seq<u8>,
    actual_rate: u32,
    now: u64,
    session_id: Seq<char>,
)
    ensures
        ({
            let event = IncomingView::Text {
                len,
                message: Some(MessageView::AudioData { sequence, timestamp, sample_rate, data }),
            };
            let actions = actions_for(session, event, actual_rate, now, session_id);
            if session.mode == Some(StreamMode::Microphone) {
                actions == count_up(session, len).push(ActionView::Broadcast { sample_rate, data })
            } else {
                actions == count_up(session, len)
            }
        }),
{
    let counted = count_up(session, len);
    let passed = ActionView::Broadcast { sample_rate, data };
    assert(counted + seq![passed] =~= counted.push(passed));
    assert(counted + Seq::<ActionView>::empty() =~= counted);
}

/// A pong and a report set the latency of a named client, to the round trip or to the figure
/// reported, and do nothing else but being counted; without a name they do nothing.
pub proof fn law_latency_messages(
    session: SessionView,
    client_id: Seq<char>,
    len: nat,
    timestamp: u64,
    latency_bits: u64,
    actual_rate: u32,
    now: u64,
    session_id: Seq<char>,
)
    ensures
        ({
            let pong = IncomingView::Text { len, message: Some(MessageView::Pong { timestamp }) };
            let report = IncomingView::Text {
                len,
                message: Some(MessageView::LatencyReport { latency_bits }),
            };
            let after_pong = actions_for(session, pong, actual_rate, now, session_id);
            let after_report = actions_for(session, report, actual_rate, now, session_id);
            &&& session.client_id == Some(client_id) ==> {
                &&& after_pong == seq![
                    ActionView::Update(
                        RegistryUpdateView::CountUp { client_id, bytes: len as u64 },
                    ),
                    ActionView::Update(
                        RegistryUpdateView::SetLatency {
                            client_id,
                            latency: Latency::RoundTrip { now, timestamp },
                        },
                    ),
                ]
                &&& after_report == seq![
                    ActionView::Update(
                        RegistryUpdateView::CountUp { client_id, bytes: len as u64 },
                    ),
                    ActionView::Update(
                        RegistryUpdateView::SetLatency {
                            client_id,
                            latency: Latency::Reported { bits: latency_bits },
                        },
                    ),
                ]
            }
            &&& session.client_id is None ==> after_pong.len() == 0 && after_report.len() == 0
        }),
{
    let pong = IncomingView::Text { len, message: Some(MessageView::Pong { timestamp }) };
    let report = IncomingView::Text {
        len,
        message: Some(MessageView::LatencyReport { latency_bits }),
    };
    let after_pong = actions_for(session, pong, actual_rate, now, session_id);
    let after_report = actions_for(session, report, actual_rate, now, session_id);
    if session.client_id == Some(client_id) {
        assert(after_pong =~= seq![
            ActionView::Update(RegistryUpdateView::CountUp { client_id, bytes: len as u64 }),
            ActionView::Update(
                RegistryUpdateView::SetLatency {
                    client_id,
                    latency: Latency::RoundTrip { now, timestamp },
                },
            ),
        ]);
        assert(after_report =~= seq![
            ActionView::Update(RegistryUpdateView::CountUp { client_id, bytes: len as u64 }),
            ActionView::Update(
                RegistryUpdateView::SetLatency {
                    client_id,
                    latency: Latency::Reported { bits: latency_bits },
                },
            ),
        ]);
    }
}

/// The other messages of the protocol are counted, and nothing else is done about them.
pub proof fn law_other_messages_are_only_counted(
    session: SessionView,
    len: nat,
    message: MessageView,
    actual_rate: u32,
    now: u64,
    session_id: Seq<char>,
)
    requires
        message is HelloAck || message is AudioDataAck || message is StreamStart
            || message is StreamStop || message is Error,
    ensures
        actions_for(
            session,
            IncomingView::Text { len, message: Some(message) },
            actual_rate,
            now,
            session_id,
        ) == count_up(session, len),
{
    assert(count_up(session, len) + Seq::<ActionView>::empty() =~= count_up(session, len));
}

/// Binary data is counted. From a microphone, all but its first 20 bytes are passed on, with the rate
/// that stands little-endian in bytes 16 to 19; data too short for that, or from anyone else, is not
/// passed on.
pub proof fn law_binary_data(
    session: SessionView,
    data: Seq<u8>,
    actual_rate: u32,
    now: u64,
    session_id: Seq<char>,
)
    ensures
        ({
            let actions = actions_for(
                session,
                IncomingView::Binary { data },
                actual_rate,
                now,
                session_id,
            );
            let counted = count_up(session, data.len());
            if session.mode == Some(StreamMode::Microphone) && data.len() >= 20 {
                &&& actions.len() == counted.len() + 1
                &&& actions.take(counted.len() as int) == counted
                &&& actions.last() matches ActionView::Broadcast { sample_rate, data: passed }
                &&& crate::endian::le_bytes(sample_rate as nat, 4) == data.subrange(16, 20)
                &&& passed == data.subrange(20, data.len() as int)
            } else {
                actions == counted
            }
        }),
{
    let actions = actions_for(session, IncomingView::Binary { data }, actual_rate, now, session_id);
    let counted = count_up(session, data.len());
    frame::law_frames_start_with_a_header(data);
    assert(actions.take(counted.len() as int) =~= counted);
    assert(counted + Seq::<ActionView>::empty() =~= counted);
}

/// Nothing is done about a close, a failure, or anything that the protocol has no use for.
pub proof fn law_nothing_else_is_done(
    session: SessionView,
    actual_rate: u32,
    now: u64,
    session_id: Seq<char>,
)
    ensures
        actions_for(session, IncomingView::Close, actual_rate, now, session_id).len() == 0,
        actions_for(session, IncomingView::Failed, actual_rate, now, session_id).len() == 0,
        actions_for(session, IncomingView::Other, actual_rate, now, session_id).len() == 0,
{
}

/// At the end the heartbeat is stopped, the sending half is let go of, and a client that has a name
/// leaves the list, in this order.
pub proof fn law_farewell_step_by_step(session: SessionView, client_id: Seq<char>)
    ensures
        farewell(session).len() >= 2,
        farewell(session)[0] is StopHeartbeat,
        farewell(session)[1] is DropSender,
        session.client_id is None ==> farewell(session).len() == 2,
        session.client_id == Some(client_id) ==> farewell(session).len() == 3 && farewell(
            session,
        )[2] == ActionView::Update(RegistryUpdateView::Unregister { client_id }),
{
}

/// The mathematical value of what came in: of a text its length in UTF-8 bytes and its message, of
/// binary data every byte.
pub proof fn law_incoming_view(event: Incoming)
    ensures
        event matches Incoming::Text { text, message } ==> {
            &&& event@ matches IncomingView::Text { len, message: said }
            &&& len == vstd::utf8::encode_utf8(text@).len()
            &&& message is None <==> said is None
            &&& message matches Some(m) ==> said == Some(m@)
        },
        event matches Incoming::Binary { data } ==> event@ == (IncomingView::Binary {
            data: data@,
        }),
        event is Close <==> event@ is Close,
        event is Failed <==> event@ is Failed,
        event is Other <==> event@ is Other,
{
}

/// Nothing of an action is left out of its mathematical value, and a row of actions keeps its order.
pub proof fn law_action_view(actions: Seq<Action>, i: int)
    requires
        0 <= i < actions.len(),
    ensures
        actions_view(actions).len() == actions.len(),
        ({
            let seen = actions_view(actions)[i];
            match actions[i] {
                Action::Update(update) => seen == ActionView::Update(update@),
                Action::Reply(message) => seen == ActionView::Reply(message@),
                Action::Feed { client_id } => seen == (ActionView::Feed { client_id: client_id@ }),
                Action::Broadcast { sample_rate, data } => seen == (ActionView::Broadcast {
                    sample_rate,
                    data: data@,
                }),
                Action::StopHeartbeat => seen is StopHeartbeat,
                Action::DropSender => seen is DropSender,
            }
        }),
{
}

/// Nothing of a session is left out of its mathematical value.
pub proof fn law_session_view(session: Session)
    ensures
        session@.addr == session.addr@,
        session@.mode == session.mode,
        session.client_id is None <==> session@.client_id is None,
        session.client_id matches Some(id) ==> session@.client_id == Some(id@),
{
}

/// A ping is answered with a pong of the same time as the last thing done, the session stays as it is,
/// and the connection goes on.
pub proof fn law_answering_a_ping(
    session: &mut Session,
    text: String,
    timestamp: u64,
    actual_rate: u32,
    now: u64,
    session_id: String,
    step: Step,
)
    requires
        call_ensures(
            Session::step,
            (
                session,
                Incoming::Text { text, message: Some(Message::Ping { timestamp }) },
                actual_rate,
                now,
                session_id,
            ),
            step,
        ),
    ensures
        !step.done,
        final(session)@ == old(session)@,
        step.actions@.len() == if old(session).client_id is Some {
            2int
        } else {
            1int
        },
        step.actions@.last() matches Action::Reply(Message::Pong { timestamp: answered }) && answered
            == timestamp,
{
    let event = Incoming::Text { text, message: Some(Message::Ping { timestamp }) };
    law_incoming_view(event);
    let len = vstd::utf8::encode_utf8(text@).len();
    assert(event@ == IncomingView::Text { len, message: Some(MessageView::Ping { timestamp }) });
    law_every_ping_is_answered(
        old(session)@,
        len,
        timestamp,
        actual_rate,
        now,
        session_id@,
    );
    assert(actions_view(step.actions@).len() == step.actions@.len());
    law_action_view(step.actions@, step.actions@.len() - 1);
}

/// Whatever comes in, the connection goes on unless it is a close or a failure; the address never
/// changes; and only a greeting changes the client's name and mode, to those that it names.
pub proof fn law_going_on(
    session: &mut Session,
    event: Incoming,
    actual_rate: u32,
    now: u64,
    session_id: String,
    step: Step,
)
    requires
        call_ensures(Session::step, (session, event, actual_rate, now, session_id), step),
    ensures
        step.done <==> event is Close || event is Failed,
        final(session)@.addr == old(session)@.addr,
        event matches Incoming::Text {
            message: Some(Message::Hello { client_id, mode, .. }),
            ..
        } ==> final(session)@.client_id == Some(client_id@) && final(session)@.mode == Some(mode),
        !(event matches Incoming::Text { message: Some(Message::Hello { .. }), .. })
            ==> final(session)@ == old(session)@,
{
    law_incoming_view(event);
    match event {
        Incoming::Text { text, message } => {
            let len = vstd::utf8::encode_utf8(text@).len();
            let said = event@->message;
            law_only_a_greeting_changes_the_session(old(session)@, len, said, Seq::empty());
            if let Some(m) = message {
                lemma_message_kind(m);
            }
        },
        Incoming::Binary { data } => {
            law_only_a_greeting_changes_the_session(old(session)@, 0, None, data@);
        },
        _ => {
            law_only_a_greeting_changes_the_session(old(session)@, 0, None, Seq::empty());
        },
    }
}

/// A message and its mathematical value are of the same kind.
proof fn lemma_message_kind(message: Message)
    ensures
        message is Hello <==> message@ is Hello,
        message matches Message::Hello { client_id, mode, sample_rate, channels } ==> message@
            == (MessageView::Hello { client_id: client_id@, mode, sample_rate, channels }),
{
}

/// When the connection is over, its heartbeat is stopped, its sending half is let go of, and its
/// client, if it has a name, leaves the list.
pub proof fn law_finishing(session: Session, actions: Vec<Action>)
    requires
        call_ensures(Session::finish, (session,), actions),
    ensures
        actions@.len() == if session.client_id is Some {
            3int
        } else {
            2int
        },
        actions@[0] is StopHeartbeat,
        actions@[1] is DropSender,
        session.client_id matches Some(id) ==> (actions@[2] matches Action::Update(
            RegistryUpdate::Unregister { client_id },
        ) && client_id@ == id@),
{
    law_session_view(session);
    let id = if let Some(id) = session.client_id {
        id@
    } else {
        Seq::empty()
    };
    law_farewell_step_by_step(session@, id);
    assert(actions_view(actions@).len() == actions@.len());
    law_action_view(actions@, 0);
    law_action_view(actions@, 1);
    if session.client_id is Some {
        law_action_view(actions@, 2);
    }
}

} // verus!
