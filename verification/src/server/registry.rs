//! The clients that are connected, and what is known of each.

use vstd::prelude::*;

use crate::protocol::clock;
use crate::protocol::message::StreamMode;

verus! {

/// Milliseconds after which a client's speeds are worked out anew.
pub const SPEED_PERIOD_MS: u64 = 1000;

/// What is known of a client's latency.
#[derive(Debug, Clone, Copy, PartialEq, Eq, Structural)]
pub enum Latency {
    /// Nothing yet; it counts as zero.
    Unmeasured,
    /// A heartbeat sent at `timestamp` came back at `now`: half of the time between.
    RoundTrip { now: u64, timestamp: u64 },
    /// The client's own figure in milliseconds, as the bits of a 64-bit floating-point number.
    Reported { bits: u64 },
}

/// A transfer speed: so many bytes in so many milliseconds.
#[derive(Debug, Clone, Copy, PartialEq, Eq, Structural)]
pub struct Speed {
    pub bytes: u64,
    pub elapsed_ms: u64,
}

/// What the server keeps of a connected client.
#[derive(Debug, Clone, PartialEq, Eq)]
pub struct ClientEntry {
    pub client_id: String,
    /// The client's network address.
    pub addr: String,
    pub mode: StreamMode,
    pub latency: Latency,
    /// When the client said hello, in milliseconds since the Unix epoch.
    pub connected_at: u64,
    /// Bytes received from the client.
    pub bytes_up: u64,
    /// Bytes sent to the client.
    pub bytes_down: u64,
    /// When the speeds were last worked out.
    pub last_speed_calc: u64,
    /// `bytes_up` at that time.
    pub bytes_up_snapshot: u64,
    /// `bytes_down` at that time.
    pub bytes_down_snapshot: u64,
    pub speed_up: Speed,
    pub speed_down: Speed,
}

/// A `ClientEntry` as a mathematical value.
pub struct ClientEntryView {
    pub client_id: Seq<char>,
    pub addr: Seq<char>,
    pub mode: StreamMode,
    pub latency: Latency,
    pub connected_at: u64,
    pub bytes_up: u64,
    pub bytes_down: u64,
    pub last_speed_calc: u64,
    pub bytes_up_snapshot: u64,
    pub bytes_down_snapshot: u64,
    pub speed_up: Speed,
    pub speed_down: Speed,
}

impl View for ClientEntry {
    type V = ClientEntryView;

    open spec fn view(&self) -> ClientEntryView {
        ClientEntryView {
            client_id: self.client_id@,
            addr: self.addr@,
            mode: self.mode,
            latency: self.latency,
            connected_at: self.connected_at,
            bytes_up: self.bytes_up,
            bytes_down: self.bytes_down,
            last_speed_calc: self.last_speed_calc,
            bytes_up_snapshot: self.bytes_up_snapshot,
            bytes_down_snapshot: self.bytes_down_snapshot,
            speed_up: self.speed_up,
            speed_down: self.speed_down,
        }
    }
}

impl ClientEntryView {
    /// What every entry keeps to: counters never fall behind what was last seen of them, and a
    /// speed is measured over some time.
    pub open spec fn valid(self) -> bool {
        &&& self.bytes_up_snapshot <= self.bytes_up
        &&& self.bytes_down_snapshot <= self.bytes_down
        &&& self.speed_up.elapsed_ms > 0
        &&& self.speed_down.elapsed_ms > 0
    }
}

/// The speed of a client that has not transferred anything.
pub open spec fn no_speed() -> Speed {
    Speed { bytes: 0, elapsed_ms: 1 }
}

/// The entry of a client that said hello at `now`.
pub open spec fn fresh_entry(
    client_id: Seq<char>,
    addr: Seq<char>,
    mode: StreamMode,
    now: u64,
) -> ClientEntryView {
    ClientEntryView {
        client_id,
        addr,
        mode,
        latency: Latency::Unmeasured,
        connected_at: now,
        bytes_up: 0,
        bytes_down: 0,
        last_speed_calc: now,
        bytes_up_snapshot: 0,
        bytes_down_snapshot: 0,
        speed_up: no_speed(),
        speed_down: no_speed(),
    }
}

/// An entry after its speeds were looked at, at `now`: worked out anew if the period is over, as
/// they were if it is not, or if the clock went back.
pub open spec fn speeds_at(entry: ClientEntryView, now: u64) -> ClientEntryView {
    if now - entry.last_speed_calc >= SPEED_PERIOD_MS {
        let elapsed_ms = (now - entry.last_speed_calc) as u64;
        ClientEntryView {
            speed_up: Speed {
                bytes: (entry.bytes_up - entry.bytes_up_snapshot) as u64,
                elapsed_ms,
            },
            speed_down: Speed {
                bytes: (entry.bytes_down - entry.bytes_down_snapshot) as u64,
                elapsed_ms,
            },
            bytes_up_snapshot: entry.bytes_up,
            bytes_down_snapshot: entry.bytes_down,
            last_speed_calc: now,
            ..entry
        }
    } else {
        entry
    }
}

impl ClientEntry {
    /// The entry of a client that says hello now.
    pub fn new(client_id: String, addr: String, mode: StreamMode) -> (entry: Self)
        ensures
            entry@.valid(),
            exists|now: u64| #[trigger]
                clock::was_read(now) && entry@ == fresh_entry(client_id@, addr@, mode, now),
    {
        let now: u64 = clock::timestamp_ms();
        ClientEntry::new_at(client_id, addr, mode, now)
    }

    /// The entry of a client that said hello at `now`.
    pub fn new_at(client_id: String, addr: String, mode: StreamMode, now: u64) -> (entry: Self)
        ensures
            entry@.valid(),
            entry@ == fresh_entry(client_id@, addr@, mode, now),
    {
        ClientEntry {
            client_id,
            addr,
            mode,
            latency: Latency::Unmeasured,
            connected_at: now,
            bytes_up: 0,
            bytes_down: 0,
            last_speed_calc: now,
            bytes_up_snapshot: 0,
            bytes_down_snapshot: 0,
            speed_up: Speed { bytes: 0, elapsed_ms: 1 },
            speed_down: Speed { bytes: 0, elapsed_ms: 1 },
        }
    }

    /// Works the speeds out anew if the period is over.
    pub fn update_speed(&mut self)
        requires
            old(self)@.valid(),
        ensures
            final(self)@.valid(),
            exists|now: u64| #[trigger]
                clock::was_read(now) && final(self)@ == speeds_at(old(self)@, now),
    {
        let now: u64 = clock::timestamp_ms();
        self.update_speed_at(now);
    }

    /// Works the speeds out anew if the period is over at `now`.
    pub fn update_speed_at(&mut self, now: u64)
        requires
            old(self)@.valid(),
        ensures
            final(self)@.valid(),
            final(self)@ == speeds_at(old(self)@, now),
    {
        let elapsed_ms: u64 = now.saturating_sub(self.last_speed_calc);
        if elapsed_ms >= SPEED_PERIOD_MS {
            self.speed_up = Speed { bytes: self.bytes_up - self.bytes_up_snapshot, elapsed_ms };
            self.speed_down = Speed {
                bytes: self.bytes_down - self.bytes_down_snapshot,
                elapsed_ms,
            };
            self.bytes_up_snapshot = self.bytes_up;
            self.bytes_down_snapshot = self.bytes_down;
            self.last_speed_calc = now;
        }
    }
}

/// A change to what the server keeps of its clients.
#[derive(Debug, Clone, PartialEq, Eq)]
pub enum RegistryUpdate {
    /// A client said hello.
    Register { client_id: String, addr: String, mode: StreamMode },
    /// Bytes came from a client.
    CountUp { client_id: String, bytes: u64 },
    /// Bytes went to a client.
    CountDown { client_id: String, bytes: u64 },
    /// A client's latency became known.
    SetLatency { client_id: String, latency: Latency },
    /// A client is gone.
    Unregister { client_id: String },
}

/// A `RegistryUpdate` as a mathematical value.
pub enum RegistryUpdateView {
    Register { client_id: Seq<char>, addr: Seq<char>, mode: StreamMode },
    CountUp { client_id: Seq<char>, bytes: u64 },
    CountDown { client_id: Seq<char>, bytes: u64 },
    SetLatency { client_id: Seq<char>, latency: Latency },
    Unregister { client_id: Seq<char> },
}

impl View for RegistryUpdate {
    type V = RegistryUpdateView;

    open spec fn view(&self) -> RegistryUpdateView {
        match *self {
            RegistryUpdate::Register { client_id, addr, mode } => RegistryUpdateView::Register {
                client_id: client_id@,
                addr: addr@,
                mode,
            },
            RegistryUpdate::CountUp { client_id, bytes } => RegistryUpdateView::CountUp {
                client_id: client_id@,
                bytes,
            },
            RegistryUpdate::CountDown { client_id, bytes } => RegistryUpdateView::CountDown {
                client_id: client_id@,
                bytes,
            },
            RegistryUpdate::SetLatency { client_id, latency } => RegistryUpdateView::SetLatency {
                client_id: client_id@,
                latency,
            },
            RegistryUpdate::Unregister { client_id } => RegistryUpdateView::Unregister {
                client_id: client_id@,
            },
        }
    }
}

/// The clients by their names.
pub type Clients = Map<Seq<char>, ClientEntryView>;

/// The clients after an update at time `now`. A client that is not there is not counted for, has no
/// latency and cannot leave; one that says hello again starts afresh.
pub open spec fn updated(clients: Clients, update: RegistryUpdateView, now: u64) -> Clients {
    match update {
        RegistryUpdateView::Register { client_id, addr, mode } => clients.insert(
            client_id,
            fresh_entry(client_id, addr, mode, now),
        ),
        RegistryUpdateView::CountUp { client_id, bytes } => if clients.dom().contains(client_id) {
            let entry = clients[client_id];
            clients.insert(
                client_id,
                ClientEntryView { bytes_up: (entry.bytes_up + bytes) as u64, ..entry },
            )
        } else {
            clients
        },
        RegistryUpdateView::CountDown { client_id, bytes } => if clients.dom().contains(client_id) {
            let entry = clients[client_id];
            clients.insert(
                client_id,
                ClientEntryView { bytes_down: (entry.bytes_down + bytes) as u64, ..entry },
            )
        } else {
            clients
        },
        RegistryUpdateView::SetLatency { client_id, latency } => if clients.dom().contains(
            client_id,
        ) {
            clients.insert(client_id, ClientEntryView { latency, ..clients[client_id] })
        } else {
            clients
        },
        RegistryUpdateView::Unregister { client_id } => clients.remove(client_id),
    }
}

/// The counters have room for an update.
pub open spec fn has_room(clients: Clients, update: RegistryUpdateView) -> bool {
    match update {
        RegistryUpdateView::CountUp { client_id, bytes } => clients.dom().contains(client_id)
            ==> clients[client_id].bytes_up + bytes <= u64::MAX,
        RegistryUpdateView::CountDown { client_id, bytes } => clients.dom().contains(client_id)
            ==> clients[client_id].bytes_down + bytes <= u64::MAX,
        _ => true,
    }
}

/// Every client is kept under its own name, and every entry is sound.
pub open spec fn clients_valid(clients: Clients) -> bool {
    forall|id: Seq<char>| #[trigger]
        clients.dom().contains(id) ==> clients[id].client_id == id && clients[id].valid()
}

/// Some entry has this name.
spec fn listed(entries: Seq<ClientEntry>, id: Seq<char>) -> bool {
    exists|i: int| 0 <= i < entries.len() && (#[trigger] entries[i])@.client_id == id
}

/// The place of the entry with this name.
spec fn place(entries: Seq<ClientEntry>, id: Seq<char>) -> int {
    choose|i: int| 0 <= i < entries.len() && (#[trigger] entries[i])@.client_id == id
}

/// The entries by their names.
spec fn by_name(entries: Seq<ClientEntry>) -> Clients {
    Map::new(|id: Seq<char>| listed(entries, id), |id: Seq<char>| entries[place(entries, id)]@)
}

/// No name occurs twice, and every entry is sound.
spec fn sound(entries: Seq<ClientEntry>) -> bool {
    &&& forall|i: int, j: int|
        0 <= i < j < entries.len() ==> (#[trigger] entries[i])@.client_id != (
        #[trigger] entries[j])@.client_id
    &&& forall|i: int| 0 <= i < entries.len() ==> (#[trigger] entries[i])@.valid()
}

proof fn lemma_by_name(entries: Seq<ClientEntry>, i: int)
    requires
        sound(entries),
        0 <= i < entries.len(),
    ensures
        listed(entries, entries[i]@.client_id),
        by_name(entries)[entries[i]@.client_id] == entries[i]@,
{
    let id = entries[i]@.client_id;
    assert(entries[i]@.client_id == id);
    let p = place(entries, id);
    assert(0 <= p < entries.len() && entries[p]@.client_id == id);
    assert(p == i);
}

/// Replacing one entry by another of the same name replaces it under that name.
proof fn lemma_replace(entries: Seq<ClientEntry>, i: int, entry: ClientEntry)
    requires
        sound(entries),
        0 <= i < entries.len(),
        entry@.client_id == entries[i]@.client_id,
        entry@.valid(),
    ensures
        sound(entries.update(i, entry)),
        by_name(entries.update(i, entry)) == by_name(entries).insert(entry@.client_id, entry@),
{
    let after = entries.update(i, entry);
    assert forall|j: int| 0 <= j < after.len() implies (#[trigger] after[j])@.client_id
        == entries[j]@.client_id && after[j]@.valid() by {}
    assert(sound(after)) by {
        assert forall|j: int, k: int| 0 <= j < k < after.len() implies (
        #[trigger] after[j])@.client_id != (#[trigger] after[k])@.client_id by {
            assert(entries[j]@.client_id != entries[k]@.client_id);
        }
    }
    let left = by_name(after);
    let right = by_name(entries).insert(entry@.client_id, entry@);
    assert forall|id: Seq<char>| left.dom().contains(id) == right.dom().contains(id) by {
        if left.dom().contains(id) {
            assert(entries[place(after, id)]@.client_id == id);
        }
        if right.dom().contains(id) {
            if id == entry@.client_id {
                assert(after[i]@.client_id == id);
            } else {
                assert(after[place(entries, id)]@.client_id == id);
            }
        }
    }
    assert forall|id: Seq<char>| left.dom().contains(id) implies left[id] == right[id] by {
        let p = place(after, id);
        assert(entries[p]@.client_id == id);
        lemma_by_name(after, p);
        lemma_by_name(entries, p);
        lemma_by_name(entries, i);
    }
    assert(left =~= right);
}

/// Adding an entry with a new name adds it under that name.
proof fn lemma_add(entries: Seq<ClientEntry>, entry: ClientEntry)
    requires
        sound(entries),
        !listed(entries, entry@.client_id),
        entry@.valid(),
    ensures
        sound(entries.push(entry)),
        by_name(entries.push(entry)) == by_name(entries).insert(entry@.client_id, entry@),
{
    let after = entries.push(entry);
    assert(sound(after)) by {
        assert forall|j: int, k: int| 0 <= j < k < after.len() implies (
        #[trigger] after[j])@.client_id != (#[trigger] after[k])@.client_id by {
            assert(entries[j]@.client_id == after[j]@.client_id);
        }
    }
    let left = by_name(after);
    let right = by_name(entries).insert(entry@.client_id, entry@);
    assert forall|id: Seq<char>| left.dom().contains(id) == right.dom().contains(id) by {
        if left.dom().contains(id) {
            let p = place(after, id);
            assert(after[p]@.client_id == id);
            if p < entries.len() {
                assert(entries[p]@.client_id == id);
            }
        }
        if right.dom().contains(id) {
            if id == entry@.client_id {
                assert(after[entries.len() as int]@.client_id == id);
            } else {
                assert(after[place(entries, id)]@.client_id == id);
            }
        }
    }
    assert forall|id: Seq<char>| left.dom().contains(id) implies left[id] == right[id] by {
        let p = place(after, id);
        assert(after[p]@.client_id == id);
        lemma_by_name(after, p);
        if p < entries.len() {
            assert(entries[p]@.client_id == id);
            lemma_by_name(entries, p);
        }
    }
    assert(left =~= right);
}

/// Removing an entry removes its name.
proof fn lemma_remove(entries: Seq<ClientEntry>, i: int)
    requires
        sound(entries),
        0 <= i < entries.len(),
    ensures
        sound(entries.remove(i)),
        by_name(entries.remove(i)) == by_name(entries).remove(entries[i]@.client_id),
{
    let after = entries.remove(i);
    let gone = entries[i]@.client_id;
    assert forall|j: int| 0 <= j < after.len() implies #[trigger] after[j] == if j < i {
        entries[j]
    } else {
        entries[j + 1]
    } by {}
    assert(sound(after)) by {
        assert forall|j: int, k: int| 0 <= j < k < after.len() implies (
        #[trigger] after[j])@.client_id != (#[trigger] after[k])@.client_id by {
            let jj = if j < i {
                j
            } else {
                j + 1
            };
            let kk = if k < i {
                k
            } else {
                k + 1
            };
            assert(entries[jj]@.client_id != entries[kk]@.client_id);
        }
    }
    let left = by_name(after);
    let right = by_name(entries).remove(gone);
    assert forall|id: Seq<char>| left.dom().contains(id) == right.dom().contains(id) by {
        if left.dom().contains(id) {
            let p = place(after, id);
            let q = if p < i {
                p
            } else {
                p + 1
            };
            assert(after[p]@.client_id == id);
            assert(entries[q]@.client_id == id);
        }
        if right.dom().contains(id) {
            let q = place(entries, id);
            assert(entries[q]@.client_id == id);
            assert(q != i);
            let p = if q < i {
                q
            } else {
                q - 1
            };
            assert(after[p]@.client_id == id);
        }
    }
    assert forall|id: Seq<char>| left.dom().contains(id) implies left[id] == right[id] by {
        let p = place(after, id);
        assert(after[p]@.client_id == id);
        let q = if p < i {
            p
        } else {
            p + 1
        };
        assert(entries[q]@.client_id == id);
        lemma_by_name(after, p);
        lemma_by_name(entries, q);
    }
    assert(left =~= right);
}

/// What is told of a client to whoever asks.
#[derive(Debug, Clone, PartialEq, Eq)]
pub struct ClientSummary {
    pub client_id: String,
    pub addr: String,
    pub mode: &'static str,
    pub latency: Latency,
    pub connected_at: u64,
    pub bytes_up: u64,
    pub bytes_down: u64,
    pub speed_up: Speed,
    pub speed_down: Speed,
}

/// A summary tells what an entry holds.
pub open spec fn summarises(summary: ClientSummary, entry: ClientEntryView) -> bool {
    &&& summary.client_id@ == entry.client_id
    &&& summary.addr@ == entry.addr
    &&& summary.mode@ == match entry.mode {
        StreamMode::Speaker => "Speaker"@,
        StreamMode::Microphone => "Microphone"@,
    }
    &&& summary.latency == entry.latency
    &&& summary.connected_at == entry.connected_at
    &&& summary.bytes_up == entry.bytes_up
    &&& summary.bytes_down == entry.bytes_down
    &&& summary.speed_up == entry.speed_up
    &&& summary.speed_down == entry.speed_down
}

/// `after` has the clients of `before`, with the speeds of every one of them brought up to date at
/// `now`.
pub open spec fn all_speeds_at(before: Clients, after: Clients, now: u64) -> bool {
    &&& after.dom() == before.dom()
    &&& forall|id: Seq<char>| #[trigger]
        before.dom().contains(id) ==> after[id] == speeds_at(before[id], now)
}

/// The list tells of each client once, and of no others.
pub open spec fn lists(list: Seq<ClientSummary>, clients: Clients) -> bool {
    &&& forall|i: int|
        0 <= i < list.len() ==> clients.dom().contains((#[trigger] list[i]).client_id@)
            && summarises(list[i], clients[list[i].client_id@])
    &&& forall|i: int, j: int|
        0 <= i < j < list.len() ==> (#[trigger] list[i]).client_id@ != (
        #[trigger] list[j]).client_id@
    &&& forall|id: Seq<char>| #[trigger]
        clients.dom().contains(id) ==> exists|i: int|
            0 <= i < list.len() && (#[trigger] list[i]).client_id@ == id
}

impl ClientEntry {
    /// What is told of this client.
    pub fn summary(&self) -> (summary: ClientSummary)
        ensures
            summarises(summary, self@),
    {
        ClientSummary {
            client_id: self.client_id.clone(),
            addr: self.addr.clone(),
            mode: self.mode.name(),
            latency: self.latency,
            connected_at: self.connected_at,
            bytes_up: self.bytes_up,
            bytes_down: self.bytes_down,
            speed_up: self.speed_up,
            speed_down: self.speed_down,
        }
    }
}

/// The connected clients. No two have the same name.
#[derive(Debug)]
pub struct ClientRegistry {
    entries: Vec<ClientEntry>,
}

impl View for ClientRegistry {
    type V = Clients;

    closed spec fn view(&self) -> Clients {
        by_name(self.entries@)
    }
}

impl ClientRegistry {
    /// What every registry keeps to.
    pub closed spec fn valid(&self) -> bool {
        sound(self.entries@)
    }

    /// In a valid registry every client is kept under its own name, with counters that never fell
    /// behind their snapshots.
    pub proof fn law_clients_are_under_their_names(&self)
        requires
            self.valid(),
        ensures
            clients_valid(self@),
    {
        assert forall|id: Seq<char>| #[trigger] self@.dom().contains(id) implies self@[id].client_id
            == id && self@[id].valid() by {
            let p = place(self.entries@, id);
            assert(self.entries@[p]@.client_id == id);
            lemma_by_name(self.entries@, p);
        }
    }

    /// A registry without clients.
    pub fn new() -> (registry: Self)
        ensures
            registry.valid(),
            registry@ == Map::<Seq<char>, ClientEntryView>::empty(),
    {
        let registry = ClientRegistry { entries: Vec::new() };
        assert(registry@ =~= Map::<Seq<char>, ClientEntryView>::empty());
        registry
    }

    /// The place of a client's entry.
    fn find(&self, client_id: &String) -> (found: Option<usize>)
        ensures
            match found {
                Some(i) => i < self.entries@.len() && self.entries@[i as int]@.client_id
                    == client_id@,
                None => !listed(self.entries@, client_id@),
            },
    {
        let mut i: usize = 0;
        while i < self.entries.len()
            invariant
                i <= self.entries@.len(),
                forall|j: int| 0 <= j < i ==> (#[trigger] self.entries@[j])@.client_id != client_id@,
            decreases self.entries@.len() - i,
        {
            if self.entries[i].client_id == *client_id {
                return Some(i);
            }
            i = i + 1;
        }
        None
    }

    /// The entry of a client, if it is connected.
    pub fn get(&self, client_id: &String) -> (entry: Option<&ClientEntry>)
        requires
            self.valid(),
        ensures
            entry is Some <==> self@.dom().contains(client_id@),
            entry matches Some(e) ==> e@ == self@[client_id@] && e@.valid(),
    {
        match self.find(client_id) {
            Some(i) => {
                proof {
                    lemma_by_name(self.entries@, i as int);
                }
                Some(&self.entries[i])
            },
            None => None,
        }
    }

    /// Whether the counters have room for an update.
    pub fn can_apply(&self, update: &RegistryUpdate) -> (fits: bool)
        requires
            self.valid(),
        ensures
            fits == has_room(self@, update@),
    {
        match update {
            RegistryUpdate::CountUp { client_id, bytes } => match self.get(client_id) {
                Some(entry) => *bytes <= u64::MAX - entry.bytes_up,
                None => true,
            },
            RegistryUpdate::CountDown { client_id, bytes } => match self.get(client_id) {
                Some(entry) => *bytes <= u64::MAX - entry.bytes_down,
                None => true,
            },
            _ => true,
        }
    }

    /// Takes in an update.
    pub fn apply(&mut self, update: RegistryUpdate)
        requires
            old(self).valid(),
            has_room(old(self)@, update@),
        ensures
            final(self).valid(),
            exists|now: u64| #[trigger]
                clock::was_read(now) && final(self)@ == updated(old(self)@, update@, now),
    {
        let now: u64 = clock::timestamp_ms();
        self.apply_at(update, now);
    }

    /// Takes in an update at time `now`.
    pub fn apply_at(&mut self, update: RegistryUpdate, now: u64)
        requires
            old(self).valid(),
            has_room(old(self)@, update@),
        ensures
            final(self).valid(),
            final(self)@ == updated(old(self)@, update@, now),
    {
        match update {
            RegistryUpdate::Register { client_id, addr, mode } => {
                let place: Option<usize> = self.find(&client_id);
                let entry: ClientEntry = ClientEntry::new_at(client_id, addr, mode, now);
                match place {
                    Some(i) => {
                        proof {
                            lemma_replace(self.entries@, i as int, entry);
                        }
                        self.entries.set(i, entry);
                    },
                    None => {
                        proof {
                            lemma_add(self.entries@, entry);
                        }
                        self.entries.push(entry);
                    },
                }
            },
            RegistryUpdate::CountUp { client_id, bytes } => {
                if let Some(i) = self.find(&client_id) {
                    let ghost before = self.entries@;
                    proof {
                        lemma_by_name(before, i as int);
                    }
                    let total: u64 = self.entries[i].bytes_up + bytes;
                    self.entries[i].bytes_up = total;
                    proof {
                        assert(self.entries@ =~= before.update(i as int, self.entries@[i as int]));
                        lemma_replace(before, i as int, self.entries@[i as int]);
                    }
                }
            },
            RegistryUpdate::CountDown { client_id, bytes } => {
                if let Some(i) = self.find(&client_id) {
                    let ghost before = self.entries@;
                    proof {
                        lemma_by_name(before, i as int);
                    }
                    let total: u64 = self.entries[i].bytes_down + bytes;
                    self.entries[i].bytes_down = total;
                    proof {
                        assert(self.entries@ =~= before.update(i as int, self.entries@[i as int]));
                        lemma_replace(before, i as int, self.entries@[i as int]);
                    }
                }
            },
            RegistryUpdate::SetLatency { client_id, latency } => {
                if let Some(i) = self.find(&client_id) {
                    let ghost before = self.entries@;
                    proof {
                        lemma_by_name(before, i as int);
                    }
                    self.entries[i].latency = latency;
                    proof {
                        assert(self.entries@ =~= before.update(i as int, self.entries@[i as int]));
                        lemma_replace(before, i as int, self.entries@[i as int]);
                    }
                }
            },
            RegistryUpdate::Unregister { client_id } => {
                match self.find(&client_id) {
                    Some(i) => {
                        proof {
                            lemma_remove(self.entries@, i as int);
                        }
                        let _ = self.entries.remove(i);
                    },
                    None => {
                        assert(self@.remove(client_id@) =~= self@);
                    },
                }
            },
        }
    }

    /// Brings the speeds of all clients up to date and tells of each client, in no special order.
    pub fn list(&mut self) -> (list: Vec<ClientSummary>)
        requires
            old(self).valid(),
        ensures
            final(self).valid(),
            exists|now: u64| #[trigger]
                clock::was_read(now) && all_speeds_at(old(self)@, final(self)@, now),
            lists(list@, final(self)@),
    {
        let now: u64 = clock::timestamp_ms();
        self.list_at(now)
    }

    /// Brings the speeds of all clients up to date at `now` and tells of each client, in no special
    /// order.
    pub fn list_at(&mut self, now: u64) -> (list: Vec<ClientSummary>)
        requires
            old(self).valid(),
        ensures
            final(self).valid(),
            all_speeds_at(old(self)@, final(self)@, now),
            lists(list@, final(self)@),
    {
        let ghost before = self.entries@;
        let mut list: Vec<ClientSummary> = Vec::new();
        let mut i: usize = 0;
        while i < self.entries.len()
            invariant
                before == old(self).entries@,
                sound(before),
                i <= self.entries@.len() == before.len(),
                list@.len() == i,
                forall|j: int|
                    0 <= j < i ==> (#[trigger] self.entries@[j])@ == speeds_at(before[j]@, now)
                        && self.entries@[j]@.valid(),
                forall|j: int|
                    i <= j < before.len() ==> (#[trigger] self.entries@[j]) == before[j],
                forall|j: int|
                    0 <= j < i ==> summarises(#[trigger] list@[j], self.entries@[j]@),
            decreases before.len() - i,
        {
            assert(self.entries@[i as int] == before[i as int]);
            self.entries[i].update_speed_at(now);
            let summary: ClientSummary = self.entries[i].summary();
            list.push(summary);
            i = i + 1;
        }
        proof {
            let after = self.entries@;
            assert forall|j: int| 0 <= j < before.len() implies (#[trigger] after[j])@.client_id
                == before[j]@.client_id by {}
            assert(sound(after)) by {
                assert forall|j: int, k: int| 0 <= j < k < after.len() implies (
                #[trigger] after[j])@.client_id != (#[trigger] after[k])@.client_id by {
                    assert(before[j]@.client_id != before[k]@.client_id);
                }
            }
            assert forall|id: Seq<char>| by_name(before).dom().contains(id) == by_name(
                after,
            ).dom().contains(id) by {
                if by_name(before).dom().contains(id) {
                    assert(before[place(before, id)]@.client_id == id);
                    assert(after[place(before, id)]@.client_id == id);
                }
                if by_name(after).dom().contains(id) {
                    assert(after[place(after, id)]@.client_id == id);
                    assert(before[place(after, id)]@.client_id == id);
                }
            }
            assert(self@.dom() =~= old(self)@.dom());
            assert forall|id: Seq<char>| #[trigger] old(self)@.dom().contains(id) implies self@[id]
                == speeds_at(old(self)@[id], now) by {
                let p = place(before, id);
                assert(before[p]@.client_id == id);
                assert(after[p]@.client_id == id);
                lemma_by_name(before, p);
                lemma_by_name(after, p);
            }
            assert forall|j: int| 0 <= j < list@.len() implies self@.dom().contains(
                (#[trigger] list@[j]).client_id@,
            ) && summarises(list@[j], self@[list@[j].client_id@]) by {
                lemma_by_name(after, j);
            }
            assert forall|j: int, k: int| 0 <= j < k < list@.len() implies (
            #[trigger] list@[j]).client_id@ != (#[trigger] list@[k]).client_id@ by {
                assert(after[j]@.client_id != after[k]@.client_id);
            }
            assert forall|id: Seq<char>| #[trigger] self@.dom().contains(id) implies exists|j: int|
                0 <= j < list@.len() && (#[trigger] list@[j]).client_id@ == id by {
                let p = place(after, id);
                assert(after[p]@.client_id == id);
                assert(list@[p].client_id@ == id);
            }
        }
        list
    }
}

/// Every update leaves every client under its own name, with sound counters.
pub proof fn law_updates_keep_clients_valid(
    clients: Clients,
    update: RegistryUpdateView,
    now: u64,
)
    requires
        clients_valid(clients),
        has_room(clients, update),
    ensures
        clients_valid(updated(clients, update, now)),
{
}

/// The client that an update is about.
pub open spec fn subject(update: RegistryUpdateView) -> Seq<char> {
    match update {
        RegistryUpdateView::Register { client_id, .. } => client_id,
        RegistryUpdateView::CountUp { client_id, .. } => client_id,
        RegistryUpdateView::CountDown { client_id, .. } => client_id,
        RegistryUpdateView::SetLatency { client_id, .. } => client_id,
        RegistryUpdateView::Unregister { client_id } => client_id,
    }
}

/// An update touches no client but the one that it is about.
pub proof fn law_updates_touch_one_client(
    clients: Clients,
    update: RegistryUpdateView,
    now: u64,
    other: Seq<char>,
)
    requires
        other != subject(update),
    ensures
        updated(clients, update, now).dom().contains(other) == clients.dom().contains(other),
        clients.dom().contains(other) ==> updated(clients, update, now)[other] == clients[other],
{
}

/// A client that said hello is there, and gone once it left; the others are as they were.
pub proof fn law_register_then_unregister(
    clients: Clients,
    client_id: Seq<char>,
    addr: Seq<char>,
    mode: StreamMode,
    now: u64,
    later: u64,
)
    ensures
        ({
            let here = updated(
                clients,
                RegistryUpdateView::Register { client_id, addr, mode },
                now,
            );
            let gone = updated(here, RegistryUpdateView::Unregister { client_id }, later);
            &&& here.dom().contains(client_id)
            &&& here[client_id].mode == mode
            &&& !gone.dom().contains(client_id)
            &&& gone == clients.remove(client_id)
        }),
{
    let here = updated(clients, RegistryUpdateView::Register { client_id, addr, mode }, now);
    assert(here.remove(client_id) =~= clients.remove(client_id));
}

/// Counting twice is counting once for both: what a counter holds is the sum of all that was
/// counted since the client said hello.
pub proof fn law_counts_add_up(
    clients: Clients,
    client_id: Seq<char>,
    first: u64,
    second: u64,
    now: u64,
)
    requires
        clients.dom().contains(client_id),
        clients[client_id].bytes_up + first + second <= u64::MAX,
    ensures
        updated(
            updated(clients, RegistryUpdateView::CountUp { client_id, bytes: first }, now),
            RegistryUpdateView::CountUp { client_id, bytes: second },
            now,
        ) == updated(
            clients,
            RegistryUpdateView::CountUp { client_id, bytes: (first + second) as u64 },
            now,
        ),
{
    let both = RegistryUpdateView::CountUp { client_id, bytes: (first + second) as u64 };
    let once = updated(clients, RegistryUpdateView::CountUp { client_id, bytes: first }, now);
    let twice = updated(once, RegistryUpdateView::CountUp { client_id, bytes: second }, now);
    assert(twice =~= updated(clients, both, now));
}

/// No byte is left out of the speeds or counted in two of them: when the speeds are worked out
/// anew, they account for exactly what was transferred since the last time.
pub proof fn law_speeds_account_for_every_byte(entry: ClientEntryView, now: u64)
    requires
        entry.valid(),
        now >= entry.last_speed_calc + SPEED_PERIOD_MS,
    ensures
        ({
            let after = speeds_at(entry, now);
            &&& entry.bytes_up_snapshot + after.speed_up.bytes == after.bytes_up_snapshot
            &&& entry.bytes_down_snapshot + after.speed_down.bytes == after.bytes_down_snapshot
            &&& after.bytes_up_snapshot == entry.bytes_up
            &&& after.bytes_down_snapshot == entry.bytes_down
            &&& entry.last_speed_calc + after.speed_up.elapsed_ms == now
            &&& after.speed_down.elapsed_ms == after.speed_up.elapsed_ms
        }),
{
}

/// Speeds are not worked out twice within the period: asking again at once changes nothing.
pub proof fn law_speeds_keep_for_a_period(entry: ClientEntryView, now: u64, again: u64)
    requires
        again - now < SPEED_PERIOD_MS,
        now >= entry.last_speed_calc + SPEED_PERIOD_MS,
    ensures
        speeds_at(speeds_at(entry, now), again) == speeds_at(entry, now),
{
}

/// Looking at the speeds does not change what was counted.
pub proof fn law_speeds_leave_counters(entry: ClientEntryView, now: u64)
    requires
        entry.valid(),
    ensures
        speeds_at(entry, now).valid(),
        speeds_at(entry, now).bytes_up == entry.bytes_up,
        speeds_at(entry, now).bytes_down == entry.bytes_down,
        speeds_at(entry, now).client_id == entry.client_id,
        speeds_at(entry, now).connected_at == entry.connected_at,
{
}

/// Counting bytes from a client raises that counter by exactly as many and changes nothing else, of this
/// client or of any other; for a client that is not there nothing changes at all.
pub proof fn law_count_up_adds(
    clients: Clients,
    client_id: Seq<char>,
    bytes: u64,
    now: u64,
)
    requires
        clients.dom().contains(client_id) ==> clients[client_id].bytes_up + bytes <= u64::MAX,
    ensures
        ({
            let after = updated(clients, RegistryUpdateView::CountUp { client_id, bytes }, now);
            &&& after.dom() == clients.dom()
            &&& after.remove(client_id) == clients.remove(client_id)
            &&& clients.dom().contains(client_id) ==> {
                let old_entry = clients[client_id];
                let new_entry = after[client_id];
                &&& new_entry.bytes_up - old_entry.bytes_up == bytes
                &&& new_entry.bytes_down == old_entry.bytes_down
                &&& new_entry.client_id == old_entry.client_id
                &&& new_entry.addr == old_entry.addr
                &&& new_entry.mode == old_entry.mode
                &&& new_entry.latency == old_entry.latency
                &&& new_entry.connected_at == old_entry.connected_at
                &&& new_entry.last_speed_calc == old_entry.last_speed_calc
                &&& new_entry.bytes_up_snapshot == old_entry.bytes_up_snapshot
                &&& new_entry.bytes_down_snapshot == old_entry.bytes_down_snapshot
                &&& new_entry.speed_up == old_entry.speed_up
                &&& new_entry.speed_down == old_entry.speed_down
            }
        }),
{
    let after = updated(clients, RegistryUpdateView::CountUp { client_id, bytes }, now);
    assert(after.dom() =~= clients.dom());
    assert(after.remove(client_id) =~= clients.remove(client_id));
}

/// Counting bytes to a client raises that counter by exactly as many and changes nothing else, of this
/// client or of any other; for a client that is not there nothing changes at all.
pub proof fn law_count_down_adds(
    clients: Clients,
    client_id: Seq<char>,
    bytes: u64,
    now: u64,
)
    requires
        clients.dom().contains(client_id) ==> clients[client_id].bytes_down + bytes <= u64::MAX,
    ensures
        ({
            let after = updated(clients, RegistryUpdateView::CountDown { client_id, bytes }, now);
            &&& after.dom() == clients.dom()
            &&& after.remove(client_id) == clients.remove(client_id)
            &&& clients.dom().contains(client_id) ==> {
                let old_entry = clients[client_id];
                let new_entry = after[client_id];
                &&& new_entry.bytes_down - old_entry.bytes_down == bytes
                &&& new_entry.bytes_up == old_entry.bytes_up
                &&& new_entry.client_id == old_entry.client_id
                &&& new_entry.addr == old_entry.addr
                &&& new_entry.mode == old_entry.mode
                &&& new_entry.latency == old_entry.latency
                &&& new_entry.connected_at == old_entry.connected_at
                &&& new_entry.last_speed_calc == old_entry.last_speed_calc
                &&& new_entry.bytes_up_snapshot == old_entry.bytes_up_snapshot
                &&& new_entry.bytes_down_snapshot == old_entry.bytes_down_snapshot
                &&& new_entry.speed_up == old_entry.speed_up
                &&& new_entry.speed_down == old_entry.speed_down
            }
        }),
{
    let after = updated(clients, RegistryUpdateView::CountDown { client_id, bytes }, now);
    assert(after.dom() =~= clients.dom());
    assert(after.remove(client_id) =~= clients.remove(client_id));
}

/// Counting down twice is counting down once for both.
pub proof fn law_down_counts_add_up(
    clients: Clients,
    client_id: Seq<char>,
    first: u64,
    second: u64,
    now: u64,
)
    requires
        clients.dom().contains(client_id),
        clients[client_id].bytes_down + first + second <= u64::MAX,
    ensures
        updated(
            updated(clients, RegistryUpdateView::CountDown { client_id, bytes: first }, now),
            RegistryUpdateView::CountDown { client_id, bytes: second },
            now,
        ) == updated(
            clients,
            RegistryUpdateView::CountDown { client_id, bytes: (first + second) as u64 },
            now,
        ),
{
    let both = RegistryUpdateView::CountDown { client_id, bytes: (first + second) as u64 };
    let once = updated(clients, RegistryUpdateView::CountDown { client_id, bytes: first }, now);
    let twice = updated(once, RegistryUpdateView::CountDown { client_id, bytes: second }, now);
    assert(twice =~= updated(clients, both, now));
}

/// Keeping a latency changes nothing but the latency, and only of a client that is there.
pub proof fn law_latency_is_all_that_changes(
    clients: Clients,
    client_id: Seq<char>,
    latency: Latency,
    now: u64,
)
    ensures
        ({
            let after = updated(clients, RegistryUpdateView::SetLatency { client_id, latency }, now);
            &&& after.dom() == clients.dom()
            &&& after.remove(client_id) == clients.remove(client_id)
            &&& clients.dom().contains(client_id) ==> {
                let old_entry = clients[client_id];
                let new_entry = after[client_id];
                &&& new_entry.latency == latency
                &&& new_entry.bytes_up == old_entry.bytes_up
                &&& new_entry.bytes_down == old_entry.bytes_down
                &&& new_entry.client_id == old_entry.client_id
                &&& new_entry.addr == old_entry.addr
                &&& new_entry.mode == old_entry.mode
                &&& new_entry.connected_at == old_entry.connected_at
                &&& new_entry.last_speed_calc == old_entry.last_speed_calc
                &&& new_entry.bytes_up_snapshot == old_entry.bytes_up_snapshot
                &&& new_entry.bytes_down_snapshot == old_entry.bytes_down_snapshot
                &&& new_entry.speed_up == old_entry.speed_up
                &&& new_entry.speed_down == old_entry.speed_down
            }
        }),
{
    let after = updated(clients, RegistryUpdateView::SetLatency { client_id, latency }, now);
    assert(after.dom() =~= clients.dom());
    assert(after.remove(client_id) =~= clients.remove(client_id));
}

/// A client that says hello is there from then on, under its own name, with its address, its mode
/// and the time, and with nothing transferred and nothing measured yet, even if it was there before;
/// the others are as they were.
pub proof fn law_greeting_starts_afresh(
    clients: Clients,
    client_id: Seq<char>,
    addr: Seq<char>,
    mode: StreamMode,
    now: u64,
)
    ensures
        ({
            let after = updated(
                clients,
                RegistryUpdateView::Register { client_id, addr, mode },
                now,
            );
            let entry = after[client_id];
            &&& after.dom() == clients.dom().insert(client_id)
            &&& after.remove(client_id) == clients.remove(client_id)
            &&& entry.client_id == client_id
            &&& entry.addr == addr
            &&& entry.mode == mode
            &&& entry.latency is Unmeasured
            &&& entry.connected_at == now
            &&& entry.last_speed_calc == now
            &&& entry.bytes_up == 0
            &&& entry.bytes_down == 0
            &&& entry.bytes_up_snapshot == 0
            &&& entry.bytes_down_snapshot == 0
            &&& entry.speed_up.bytes == 0
            &&& entry.speed_down.bytes == 0
            &&& entry.speed_up.elapsed_ms > 0
            &&& entry.speed_down.elapsed_ms > 0
        }),
{
    let after = updated(clients, RegistryUpdateView::Register { client_id, addr, mode }, now);
    assert(after.dom() =~= clients.dom().insert(client_id));
    assert(after.remove(client_id) =~= clients.remove(client_id));
}

/// A client that leaves is gone, and nothing else changes.
pub proof fn law_leaving_removes_one(clients: Clients, client_id: Seq<char>, now: u64)
    ensures
        ({
            let after = updated(clients, RegistryUpdateView::Unregister { client_id }, now);
            &&& after.dom() == clients.dom().remove(client_id)
            &&& forall|other: Seq<char>|
                other != client_id && #[trigger] clients.dom().contains(other) ==> after[other]
                    == clients[other]
        }),
{
    let after = updated(clients, RegistryUpdateView::Unregister { client_id }, now);
    assert(after.dom() =~= clients.dom().remove(client_id));
}

/// Only a counter that would pass its limit has no room.
pub proof fn law_only_full_counters_refuse(clients: Clients, update: RegistryUpdateView)
    ensures
        !has_room(clients, update) <==> {
            ||| {
                &&& update matches RegistryUpdateView::CountUp { client_id, bytes }
                &&& clients.dom().contains(client_id)
                &&& clients[client_id].bytes_up + bytes > 0xffff_ffff_ffff_ffff
            }
            ||| {
                &&& update matches RegistryUpdateView::CountDown { client_id, bytes }
                &&& clients.dom().contains(client_id)
                &&& clients[client_id].bytes_down + bytes > 0xffff_ffff_ffff_ffff
            }
        },
{
}

/// An update and the time of it.
pub struct TimedUpdate {
    pub update: RegistryUpdateView,
    pub now: u64,
}

/// The clients after a series of updates.
pub open spec fn updated_run(clients: Clients, updates: Seq<TimedUpdate>) -> Clients
    decreases updates.len(),
{
    if updates.len() == 0 {
        clients
    } else {
        let last = updates.last();
        updated(updated_run(clients, updates.drop_last()), last.update, last.now)
    }
}

/// The bytes counted from and to a client in a series of updates.
pub open spec fn bytes_counted(updates: Seq<TimedUpdate>, id: Seq<char>) -> (nat, nat)
    decreases updates.len(),
{
    if updates.len() == 0 {
        (0, 0)
    } else {
        let (up, down) = bytes_counted(updates.drop_last(), id);
        match updates.last().update {
            RegistryUpdateView::CountUp { client_id, bytes } => if client_id == id {
                (up + bytes as nat, down)
            } else {
                (up, down)
            },
            RegistryUpdateView::CountDown { client_id, bytes } => if client_id == id {
                (up, down + bytes as nat)
            } else {
                (up, down)
            },
            _ => (up, down),
        }
    }
}

/// As long as a client stays, its counters are what they were and the sum of all that was counted
/// for it, up and down apart, whatever else happens in between.
pub proof fn law_counters_are_sums(clients: Clients, updates: Seq<TimedUpdate>, id: Seq<char>)
    requires
        clients.dom().contains(id),
        forall|i: int|
            0 <= i < updates.len() ==> match (#[trigger] updates[i]).update {
                RegistryUpdateView::Register { client_id, .. } => client_id != id,
                RegistryUpdateView::Unregister { client_id } => client_id != id,
                _ => true,
            },
        clients[id].bytes_up + bytes_counted(updates, id).0 <= u64::MAX,
        clients[id].bytes_down + bytes_counted(updates, id).1 <= u64::MAX,
    ensures
        updated_run(clients, updates).dom().contains(id),
        updated_run(clients, updates)[id].bytes_up == clients[id].bytes_up + bytes_counted(
            updates,
            id,
        ).0,
        updated_run(clients, updates)[id].bytes_down == clients[id].bytes_down + bytes_counted(
            updates,
            id,
        ).1,
        updated_run(clients, updates)[id].mode == clients[id].mode,
        updated_run(clients, updates)[id].addr == clients[id].addr,
        updated_run(clients, updates)[id].connected_at == clients[id].connected_at,
    decreases updates.len(),
{
    if updates.len() > 0 {
        let earlier = updates.drop_last();
        let last = updates[updates.len() - 1];
        assert forall|i: int| 0 <= i < earlier.len() implies match (#[trigger] earlier[i]).update {
            RegistryUpdateView::Register { client_id, .. } => client_id != id,
            RegistryUpdateView::Unregister { client_id } => client_id != id,
            _ => true,
        } by {
            assert(earlier[i] == updates[i]);
        }
        law_counters_are_sums(clients, earlier, id);
    }
}

/// What looking at the speeds does, field by field. At least a second after the last time, the
/// speeds are the bytes since then and the milliseconds since then, and this time and these counters
/// are remembered; sooner, or with a clock that went back, nothing changes.
pub proof fn law_speeds_field_by_field(entry: ClientEntryView, now: u64)
    requires
        entry.valid(),
    ensures
        now < entry.last_speed_calc + 1000 ==> speeds_at(entry, now) == entry,
        now >= entry.last_speed_calc + 1000 ==> {
            let after = speeds_at(entry, now);
            &&& after.speed_up.bytes == entry.bytes_up - entry.bytes_up_snapshot
            &&& after.speed_down.bytes == entry.bytes_down - entry.bytes_down_snapshot
            &&& after.speed_up.elapsed_ms == now - entry.last_speed_calc
            &&& after.speed_down.elapsed_ms == now - entry.last_speed_calc
            &&& after.bytes_up_snapshot == entry.bytes_up
            &&& after.bytes_down_snapshot == entry.bytes_down
            &&& after.last_speed_calc == now
            &&& after.bytes_up == entry.bytes_up
            &&& after.bytes_down == entry.bytes_down
            &&& after.client_id == entry.client_id
            &&& after.addr == entry.addr
            &&& after.mode == entry.mode
            &&& after.latency == entry.latency
            &&& after.connected_at == entry.connected_at
        },
{
}

/// Listing brings every client's speeds up to date and leaves everything else of every client alone.
pub proof fn law_listing_touches_speeds_only(
    before: Clients,
    after: Clients,
    now: u64,
    id: Seq<char>,
)
    requires
        clients_valid(before),
        all_speeds_at(before, after, now),
    ensures
        after.dom().contains(id) <==> before.dom().contains(id),
        before.dom().contains(id) ==> {
            &&& after[id].client_id == before[id].client_id
            &&& after[id].addr == before[id].addr
            &&& after[id].mode == before[id].mode
            &&& after[id].latency == before[id].latency
            &&& after[id].connected_at == before[id].connected_at
            &&& after[id].bytes_up == before[id].bytes_up
            &&& after[id].bytes_down == before[id].bytes_down
            &&& now >= before[id].last_speed_calc + 1000 ==> {
                &&& after[id].speed_up.bytes == before[id].bytes_up - before[id].bytes_up_snapshot
                &&& after[id].speed_down.bytes == before[id].bytes_down
                    - before[id].bytes_down_snapshot
                &&& after[id].speed_up.elapsed_ms == now - before[id].last_speed_calc
                &&& after[id].speed_down.elapsed_ms == now - before[id].last_speed_calc
                &&& after[id].last_speed_calc == now
                &&& after[id].bytes_up_snapshot == before[id].bytes_up
                &&& after[id].bytes_down_snapshot == before[id].bytes_down
            }
            &&& now < before[id].last_speed_calc + 1000 ==> after[id] == before[id]
        },
{
    if before.dom().contains(id) {
        law_speeds_field_by_field(before[id], now);
    }
}

/// Whoever asks is told of every client, of each of them once and of nobody else, and what is told
/// is what is kept of the client, field by field.
pub proof fn law_every_client_is_told_of(
    list: Seq<ClientSummary>,
    clients: Clients,
    id: Seq<char>,
    i: int,
    j: int,
)
    requires
        lists(list, clients),
        0 <= i < list.len(),
        0 <= j < list.len(),
    ensures
        clients.dom().contains(id) ==> exists|k: int|
            0 <= k < list.len() && (#[trigger] list[k]).client_id@ == id,
        list[i].client_id@ == list[j].client_id@ ==> i == j,
        clients.dom().contains(list[i].client_id@),
        ({
            let told = list[i];
            let kept = clients[told.client_id@];
            &&& told.addr@ == kept.addr
            &&& kept.mode == StreamMode::Speaker ==> told.mode@ == "Speaker"@
            &&& kept.mode == StreamMode::Microphone ==> told.mode@ == "Microphone"@
            &&& told.latency == kept.latency
            &&& told.connected_at == kept.connected_at
            &&& told.bytes_up == kept.bytes_up
            &&& told.bytes_down == kept.bytes_down
            &&& told.speed_up == kept.speed_up
            &&& told.speed_down == kept.speed_down
        }),
{
    if i < j {
        assert(list[i].client_id@ != list[j].client_id@);
    } else if j < i {
        assert(list[j].client_id@ != list[i].client_id@);
    }
}

/// An empty list tells that there are no clients.
pub proof fn law_empty_list_means_no_clients(list: Seq<ClientSummary>, clients: Clients)
    requires
        lists(list, clients),
        list.len() == 0,
    ensures
        forall|id: Seq<char>| !#[trigger] clients.dom().contains(id),
{
}

/// Nothing of an entry is left out of its mathematical value.
pub proof fn law_entry_view(entry: ClientEntry)
    ensures
        entry@.client_id == entry.client_id@,
        entry@.addr == entry.addr@,
        entry@.mode == entry.mode,
        entry@.latency == entry.latency,
        entry@.connected_at == entry.connected_at,
        entry@.bytes_up == entry.bytes_up,
        entry@.bytes_down == entry.bytes_down,
        entry@.last_speed_calc == entry.last_speed_calc,
        entry@.bytes_up_snapshot == entry.bytes_up_snapshot,
        entry@.bytes_down_snapshot == entry.bytes_down_snapshot,
        entry@.speed_up == entry.speed_up,
        entry@.speed_down == entry.speed_down,
{
}

/// Nothing of an update is left out of its mathematical value, whatever kind of update it is.
pub proof fn law_update_view(update: RegistryUpdate)
    ensures
        update matches RegistryUpdate::Register { client_id, addr, mode } ==> update@
            == (RegistryUpdateView::Register { client_id: client_id@, addr: addr@, mode }),
        update matches RegistryUpdate::CountUp { client_id, bytes } ==> update@
            == (RegistryUpdateView::CountUp { client_id: client_id@, bytes }),
        update matches RegistryUpdate::CountDown { client_id, bytes } ==> update@
            == (RegistryUpdateView::CountDown { client_id: client_id@, bytes }),
        update matches RegistryUpdate::SetLatency { client_id, latency } ==> update@
            == (RegistryUpdateView::SetLatency { client_id: client_id@, latency }),
        update matches RegistryUpdate::Unregister { client_id } ==> update@
            == (RegistryUpdateView::Unregister { client_id: client_id@ }),
{
}

/// Counting bytes to a client that is there raises its count by exactly as many, and changes nothing
/// else of any client.
pub proof fn law_applying_a_count_down(
    registry: &mut ClientRegistry,
    client_id: String,
    bytes: u64,
    now: u64,
)
    requires
        old(registry)@.dom().contains(client_id@),
        old(registry)@[client_id@].bytes_down + bytes <= u64::MAX,
        call_ensures(
            ClientRegistry::apply_at,
            (registry, RegistryUpdate::CountDown { client_id, bytes }, now),
            (),
        ),
    ensures
        final(registry)@ == old(registry)@.insert(
            client_id@,
            ClientEntryView {
                bytes_down: final(registry)@[client_id@].bytes_down,
                ..old(registry)@[client_id@]
            },
        ),
        final(registry)@[client_id@].bytes_down == old(registry)@[client_id@].bytes_down + bytes,
{
    law_update_view(RegistryUpdate::CountDown { client_id, bytes });
    law_count_down_adds(old(registry)@, client_id@, bytes, now);
    assert(final(registry)@ =~= old(registry)@.insert(
        client_id@,
        ClientEntryView {
            bytes_down: final(registry)@[client_id@].bytes_down,
            ..old(registry)@[client_id@]
        },
    ));
}

/// Counting bytes from a client that is there raises its count by exactly as many, and changes nothing
/// else of any client.
pub proof fn law_applying_a_count_up(
    registry: &mut ClientRegistry,
    client_id: String,
    bytes: u64,
    now: u64,
)
    requires
        old(registry)@.dom().contains(client_id@),
        old(registry)@[client_id@].bytes_up + bytes <= u64::MAX,
        call_ensures(
            ClientRegistry::apply_at,
            (registry, RegistryUpdate::CountUp { client_id, bytes }, now),
            (),
        ),
    ensures
        final(registry)@ == old(registry)@.insert(
            client_id@,
            ClientEntryView {
                bytes_up: final(registry)@[client_id@].bytes_up,
                ..old(registry)@[client_id@]
            },
        ),
        final(registry)@[client_id@].bytes_up == old(registry)@[client_id@].bytes_up + bytes,
{
    law_update_view(RegistryUpdate::CountUp { client_id, bytes });
    law_count_up_adds(old(registry)@, client_id@, bytes, now);
    assert(final(registry)@ =~= old(registry)@.insert(
        client_id@,
        ClientEntryView {
            bytes_up: final(registry)@[client_id@].bytes_up,
            ..old(registry)@[client_id@]
        },
    ));
}

/// A client is found exactly if it is there, and then it is its own entry that is found.
pub proof fn law_getting(registry: &ClientRegistry, client_id: &String, entry: Option<&ClientEntry>)
    requires
        registry.valid(),
        call_ensures(ClientRegistry::get, (registry, client_id), entry),
    ensures
        entry is Some <==> registry@.dom().contains(client_id@),
        entry matches Some(e) ==> e.client_id@ == client_id@ && e.bytes_up
            == registry@[client_id@].bytes_up && e.bytes_down == registry@[client_id@].bytes_down,
{
    registry.law_clients_are_under_their_names();
}

/// Looking at an entry's speeds, field by field: nothing changes within a second, and after it the
/// speeds account for what was transferred since.
pub proof fn law_updating_speeds(entry: &mut ClientEntry, now: u64)
    requires
        old(entry)@.valid(),
        call_ensures(ClientEntry::update_speed_at, (entry, now), ()),
    ensures
        final(entry).bytes_up == old(entry).bytes_up,
        final(entry).bytes_down == old(entry).bytes_down,
        final(entry).latency == old(entry).latency,
        final(entry).mode == old(entry).mode,
        final(entry).connected_at == old(entry).connected_at,
        final(entry).client_id@ == old(entry).client_id@,
        final(entry).addr@ == old(entry).addr@,
        now >= old(entry).last_speed_calc + 1000 ==> {
            &&& final(entry).speed_up.bytes == old(entry).bytes_up - old(entry).bytes_up_snapshot
            &&& final(entry).speed_down.bytes == old(entry).bytes_down
                - old(entry).bytes_down_snapshot
            &&& final(entry).speed_up.elapsed_ms == now - old(entry).last_speed_calc
            &&& final(entry).speed_down.elapsed_ms == now - old(entry).last_speed_calc
            &&& final(entry).last_speed_calc == now
        },
        now < old(entry).last_speed_calc + 1000 ==> final(entry)@ == old(entry)@,
{
    law_entry_view(*old(entry));
    law_entry_view(*final(entry));
    law_speeds_field_by_field(old(entry)@, now);
}

/// Whoever asks for the list is told of every client that is there, with its counters as they are.
pub proof fn law_listing(
    registry: &mut ClientRegistry,
    now: u64,
    list: Vec<ClientSummary>,
    id: Seq<char>,
)
    requires
        old(registry).valid(),
        old(registry)@.dom().contains(id),
        call_ensures(ClientRegistry::list_at, (registry, now), list),
    ensures
        exists|i: int|
            {
                &&& 0 <= i < list@.len()
                &&& (#[trigger] list@[i]).client_id@ == id
                &&& list@[i].addr@ == old(registry)@[id].addr
                &&& list@[i].latency == old(registry)@[id].latency
                &&& list@[i].connected_at == old(registry)@[id].connected_at
                &&& list@[i].bytes_up == old(registry)@[id].bytes_up
                &&& list@[i].bytes_down == old(registry)@[id].bytes_down
                &&& now >= old(registry)@[id].last_speed_calc + 1000 ==> {
                    &&& list@[i].speed_up.bytes == old(registry)@[id].bytes_up
                        - old(registry)@[id].bytes_up_snapshot
                    &&& list@[i].speed_down.bytes == old(registry)@[id].bytes_down
                        - old(registry)@[id].bytes_down_snapshot
                }
            },
        final(registry)@.dom() == old(registry)@.dom(),
{
    old(registry).law_clients_are_under_their_names();
    law_listing_touches_speeds_only(old(registry)@, final(registry)@, now, id);
    let i = choose|i: int| 0 <= i < list@.len() && (#[trigger] list@[i]).client_id@ == id;
    law_every_client_is_told_of(list@, final(registry)@, id, i, i);
    assert(list@[i].client_id@ == id);
}

/// An update is refused only where a counter of a client that is there would pass its limit.
pub proof fn law_room(registry: &ClientRegistry, update: &RegistryUpdate, fits: bool)
    requires
        call_ensures(ClientRegistry::can_apply, (registry, update), fits),
    ensures
        *update matches RegistryUpdate::CountUp { client_id, bytes } ==> fits == !(
        registry@.dom().contains(client_id@) && registry@[client_id@].bytes_up + bytes
            > 0xffff_ffff_ffff_ffff),
        *update matches RegistryUpdate::CountDown { client_id, bytes } ==> fits == !(
        registry@.dom().contains(client_id@) && registry@[client_id@].bytes_down + bytes
            > 0xffff_ffff_ffff_ffff),
        !(update is CountUp) && !(update is CountDown) ==> fits,
{
    law_update_view(*update);
    law_only_full_counters_refuse(registry@, update@);
}

} // verus!
