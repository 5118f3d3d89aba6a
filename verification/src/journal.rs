//! The bounded journal of recent events. It numbers events, keeps a window from
//! which clients resume, and feeds one bounded queue for each client. Whatever it
//! cannot publish for sure starts a new epoch, which sends every client back to a
//! snapshot.

use crate::dispatch::{
    closed_off, law_nothing_waits_once_closed_off, pending, TargetDatabase, TargetTables,
};
use crate::handles::{outcome, ServerInstanceId, StreamEpoch};
use crate::json::{as_text_view, field_of, items_view, json_text, to_text, Json, JsonView};
use crate::limits::JournalLimits;
use crate::operation::{find_target, lemma_target_at, tables, target_at, targets_wf};
use crate::problem::{KernelProblem, KernelProblemView};
use crate::projection::{
    compile_event, compiled_event, AggregateRevision, CursorView, EventCursor, EventEnvelope,
    EventView,
};
use crate::table::{Row, Table};
use crate::text::{cat, cat3, copy_list, list_has, opt_view, same, texts};
use std::collections::VecDeque;
use vstd::prelude::*;
use vstd::string::*;

verus! {

/// How many clients may follow the journal at once.
pub const ACTIVE_EVENT_SUBSCRIPTIONS_HARD_CAP: usize = 256;

/// Why nothing is read or published while a store leaves something to do.
pub const RUN_ACTIONS_PENDING: &'static str = "run_actions_pending";

/// What the mark on an event starts with that was given up, not published.
pub const OUTBOX_RECONCILED_PREFIX: &'static str = "reconciled:";

pub const NANOS_PER_SECOND: u64 = 1_000_000_000;

/// An event of the journal: what it takes on the wire, and when it came, in
/// nanoseconds of a clock that never goes back.
pub struct JournalEntry {
    pub event: EventEnvelope,
    pub encoded_bytes: usize,
    pub inserted_at: u64,
}

/// An event of the journal, as a value.
pub ghost struct EntryView {
    pub event: EventView,
    pub encoded_bytes: usize,
    pub inserted_at: u64,
}

impl View for JournalEntry {
    type V = EntryView;

    open spec fn view(&self) -> EntryView {
        EntryView {
            event: self.event@,
            encoded_bytes: self.encoded_bytes,
            inserted_at: self.inserted_at,
        }
    }
}

impl Clone for JournalEntry {
    fn clone(&self) -> (r: Self)
        ensures
            r@ == self@,
    {
        JournalEntry {
            event: self.event.clone(),
            encoded_bytes: self.encoded_bytes,
            inserted_at: self.inserted_at,
        }
    }
}

/// Entries as values.
pub open spec fn entries_view(v: Seq<JournalEntry>) -> Seq<EntryView> {
    v.map_values(|e: JournalEntry| e@)
}

/// Events as values.
pub open spec fn event_views(v: Seq<EventEnvelope>) -> Seq<EventView> {
    v.map_values(|e: EventEnvelope| e@)
}

/// What entries take on the wire together.
pub open spec fn total(entries: Seq<EntryView>) -> nat
    decreases entries.len(),
{
    if entries.len() == 0 {
        0
    } else {
        total(entries.drop_last()) + entries.last().encoded_bytes as nat
    }
}

/// How many bytes a change takes in its store.
pub open spec fn stored_size(change: JsonView) -> usize {
    vstd::utf8::encode_utf8(json_text(change)).len() as usize
}

/// What changes take in their store together.
pub open spec fn stored_total(list: Seq<JsonView>) -> nat
    decreases list.len(),
{
    if list.len() == 0 {
        0
    } else {
        stored_total(list.drop_last()) + stored_size(list.last()) as nat
    }
}

/// What one client has yet to get. Up to `replay_until` it reads the journal
/// itself; what came later waits in its own queue.
pub struct ClientQueue {
    client_id: u64,
    replay_until: u64,
    last_delivered: u64,
    events: VecDeque<JournalEntry>,
    bytes: usize,
}

/// What one client has yet to get, as a value.
pub ghost struct ClientView {
    pub client_id: u64,
    pub replay_until: u64,
    pub last_delivered: u64,
    pub events: Seq<EntryView>,
    pub bytes: usize,
}

impl View for ClientQueue {
    type V = ClientView;

    closed spec fn view(&self) -> ClientView {
        ClientView {
            client_id: self.client_id,
            replay_until: self.replay_until,
            last_delivered: self.last_delivered,
            events: entries_view(self.events@),
            bytes: self.bytes,
        }
    }
}

/// Clients as values.
pub open spec fn clients_view(v: Seq<ClientQueue>) -> Seq<ClientView> {
    v.map_values(|c: ClientQueue| c@)
}

/// The latest revision of an aggregate in this epoch, and whether it is gone.
pub struct HeadRow {
    pub key: String,
    pub revision: AggregateRevision,
    pub gone: bool,
}

/// The latest revision of an aggregate, as a value.
pub ghost struct HeadView {
    pub key: Seq<char>,
    pub revision: AggregateRevision,
    pub gone: bool,
}

impl View for HeadRow {
    type V = HeadView;

    open spec fn view(&self) -> HeadView {
        HeadView { key: self.key@, revision: self.revision, gone: self.gone }
    }
}

impl Row for HeadRow {
    open spec fn key_of(v: HeadView) -> Seq<char> {
        v.key
    }

    fn key(&self) -> (r: &str) {
        self.key.as_str()
    }
}

/// The latest revisions of the aggregates in this epoch.
pub type Heads = Map<Seq<char>, HeadView>;

/// Why an epoch ended.
#[derive(Debug, Clone, Copy, PartialEq, Eq, Structural)]
pub enum RotationReason {
    Capacity,
    Publication,
    Protocol,
}

/// How often things happened to a journal.
#[derive(Debug, Clone, Copy, PartialEq, Eq, Structural)]
pub struct JournalCounts {
    pub rotations: u64,
    pub capacity_rotations: u64,
    pub publication_rotations: u64,
    pub protocol_rotations: u64,
    pub evicted: u64,
    pub resyncs: u64,
}

/// A count that stays at its top.
pub open spec fn raised(n: u64, by: nat) -> u64 {
    if n + by > u64::MAX {
        u64::MAX
    } else {
        (n + by) as u64
    }
}

/// A journal, as a value.
pub ghost struct JournalView {
    pub server_instance_id: Seq<char>,
    pub limits: JournalLimits,
    pub config_error: Option<Seq<char>>,
    pub epoch: Seq<char>,
    pub next_seq: u64,
    pub bytes: usize,
    pub entries: Seq<EntryView>,
    pub heads: Heads,
    pub clients: Seq<ClientView>,
    pub next_client_id: u64,
    pub counts: JournalCounts,
    pub poisoned: Seq<Seq<char>>,
    pub blocked: Set<Seq<char>>,
}

/// Whether every sum that is held against these limits can be told from the top of
/// its type.
pub open spec fn measurable(limits: JournalLimits) -> bool {
    &&& limits.journal_max_events < usize::MAX
    &&& limits.journal_max_bytes < usize::MAX
    &&& limits.client_event_queue_max_events < usize::MAX
    &&& limits.client_event_queue_max_bytes < usize::MAX
}

/// Limits within their ranges can be held against sums.
pub proof fn law_valid_limits_are_measurable(limits: JournalLimits)
    requires
        limits.problem() is None,
    ensures
        measurable(limits),
{
}

impl JournalView {
    /// The number of the last event.
    pub open spec fn last_seq(self) -> int {
        self.next_seq - 1
    }

    /// The number of the first event that is still there; that of the next one
    /// where none is.
    pub open spec fn first_seq(self) -> u64 {
        if self.entries.len() > 0 {
            self.entries[0].event.seq
        } else {
            self.next_seq
        }
    }

    /// A queue holds, without a gap, what a client has yet to get after its replay,
    /// and is within its bounds.
    pub open spec fn feeds(self, c: ClientView) -> bool {
        let from: int = if c.last_delivered < c.replay_until {
            c.replay_until as int
        } else {
            c.last_delivered as int
        };
        &&& c.client_id < self.next_client_id
        &&& from + c.events.len() == self.last_seq()
        &&& forall|k: int|
            0 <= k < c.events.len() ==> (#[trigger] c.events[k]).event.seq == from + 1 + k
                && c.events[k].event.stream_epoch == self.epoch
        &&& c.bytes == total(c.events)
        &&& c.events.len() <= self.limits.client_event_queue_max_events
        &&& c.bytes <= self.limits.client_event_queue_max_bytes
    }

    /// The invariant of a journal: the events are of its epoch and numbered without
    /// a gap up to the last, they are counted and within their bounds, and every
    /// queue goes on without a gap.
    pub open spec fn sound(self) -> bool {
        &&& measurable(self.limits)
        &&& self.entries.len() < self.next_seq
        &&& forall|i: int|
            0 <= i < self.entries.len() ==> (#[trigger] self.entries[i]).event.seq == self.next_seq
                - self.entries.len() + i && self.entries[i].event.stream_epoch == self.epoch
                && self.entries[i].encoded_bytes == self.entries[i].event.size()
        &&& self.bytes == total(self.entries)
        &&& self.entries.len() <= self.limits.journal_max_events
        &&& self.bytes <= self.limits.journal_max_bytes
        &&& self.clients.len() <= ACTIVE_EVENT_SUBSCRIPTIONS_HARD_CAP
        &&& forall|i: int, j: int|
            0 <= i < j < self.clients.len() ==> (#[trigger] self.clients[i]).client_id < (
            #[trigger] self.clients[j]).client_id
        &&& forall|i: int|
            0 <= i < self.clients.len() ==> self.feeds(#[trigger] self.clients[i])
    }

    /// Where a client stands, if it is there.
    pub open spec fn place_of(self, client_id: u64) -> Option<int> {
        if exists|i: int|
            0 <= i < self.clients.len() && (#[trigger] self.clients[i]).client_id == client_id {
            Some(
                choose|i: int|
                    0 <= i < self.clients.len() && (#[trigger] self.clients[i]).client_id
                        == client_id,
            )
        } else {
            None
        }
    }

    /// The journal without the client at a place.
    pub open spec fn without(self, at: int) -> JournalView {
        JournalView { clients: self.clients.remove(at), ..self }
    }

    /// The journal with some more clients sent back to a snapshot.
    pub open spec fn sent_back(self, by: nat) -> JournalView {
        JournalView {
            counts: JournalCounts { resyncs: raised(self.counts.resyncs, by), ..self.counts },
            ..self
        }
    }

    /// The journal at the start of a new epoch.
    pub open spec fn rotated(self, reason: RotationReason, fresh: Seq<char>) -> JournalView {
        JournalView {
            epoch: fresh,
            next_seq: 1,
            bytes: 0,
            entries: seq![],
            heads: Map::empty(),
            clients: seq![],
            counts: JournalCounts {
                rotations: raised(self.counts.rotations, 1),
                capacity_rotations: if reason is Capacity {
                    raised(self.counts.capacity_rotations, 1)
                } else {
                    self.counts.capacity_rotations
                },
                publication_rotations: if reason is Publication {
                    raised(self.counts.publication_rotations, 1)
                } else {
                    self.counts.publication_rotations
                },
                protocol_rotations: if reason is Protocol {
                    raised(self.counts.protocol_rotations, 1)
                } else {
                    self.counts.protocol_rotations
                },
                evicted: self.counts.evicted,
                resyncs: raised(self.counts.resyncs, self.clients.len()),
            },
            ..self
        }
    }

    /// The journal that publishes nothing before a store is recovered.
    pub open spec fn poisoned_by(self, store_key: Seq<char>) -> JournalView {
        JournalView {
            poisoned: if self.poisoned.contains(store_key) {
                self.poisoned
            } else {
                self.poisoned.push(store_key)
            },
            ..self
        }
    }

    /// The journal to which a store is closed until what it leaves to do is done.
    pub open spec fn blocked_by(self, store_key: Seq<char>) -> JournalView {
        JournalView { blocked: self.blocked.insert(store_key), ..self }
    }

    /// The journal to which a store is open again.
    pub open spec fn freed_of(self, store_key: Seq<char>) -> JournalView {
        JournalView { blocked: self.blocked.remove(store_key), ..self }
    }

    /// The journal after it has made room, and whether the room is enough: the
    /// oldest events go, but none before its least age.
    pub open spec fn trimmed(self, events: nat, bytes: nat, now: u64) -> (JournalView, bool)
        decreases self.entries.len(),
    {
        if self.entries.len() + events <= self.limits.journal_max_events && self.bytes + bytes
            <= self.limits.journal_max_bytes {
            (self, true)
        } else if self.entries.len() == 0 || young(self.entries[0], self.limits, now) {
            (self, false)
        } else {
            self.evicted().trimmed(events, bytes, now)
        }
    }

    /// The journal without its oldest event.
    pub open spec fn evicted(self) -> JournalView {
        JournalView {
            entries: self.entries.skip(1),
            bytes: (self.bytes - self.entries[0].encoded_bytes) as usize,
            counts: JournalCounts { evicted: raised(self.counts.evicted, 1), ..self.counts },
            ..self
        }
    }

    /// The journal with new events, in every queue that has room for them; a client
    /// without room is sent back to a snapshot.
    pub open spec fn appended(self, staged: Seq<EntryView>, heads: Heads) -> JournalView {
        let kept = fanned(self.clients, staged, self.limits);
        JournalView {
            bytes: (self.bytes + total(staged)) as usize,
            entries: self.entries + staged,
            heads,
            next_seq: (self.next_seq + staged.len()) as u64,
            clients: kept,
            ..self.sent_back((self.clients.len() - kept.len()) as nat)
        }
    }
}

/// Whether an event is too young to be given up.
pub open spec fn young(entry: EntryView, limits: JournalLimits, now: u64) -> bool {
    let age: int = if now >= entry.inserted_at {
        now - entry.inserted_at
    } else {
        0
    };
    age / (NANOS_PER_SECOND as int) < limits.journal_min_age_secs
}

/// The queue of a client with new events, if it has room.
pub open spec fn fed(
    c: ClientView,
    staged: Seq<EntryView>,
    limits: JournalLimits,
) -> Option<ClientView> {
    if c.events.len() + staged.len() > limits.client_event_queue_max_events || c.bytes + total(
        staged,
    ) > limits.client_event_queue_max_bytes {
        None
    } else {
        Some(
            ClientView {
                events: c.events + staged,
                bytes: (c.bytes + total(staged)) as usize,
                ..c
            },
        )
    }
}

/// The queues with new events, without those that have no room.
pub open spec fn fanned(
    clients: Seq<ClientView>,
    staged: Seq<EntryView>,
    limits: JournalLimits,
) -> Seq<ClientView>
    decreases clients.len(),
{
    if clients.len() == 0 {
        seq![]
    } else {
        let rest = fanned(clients.drop_last(), staged, limits);
        match fed(clients.last(), staged, limits) {
            Some(c) => rest.push(c),
            None => rest,
        }
    }
}

/// What a client that reads the journal itself gets in one go: the events behind
/// `after` up to `until`, as many as its bounds allow and at least one. Nothing
/// where one of them is over the bound alone.
pub open spec fn replayed(
    entries: Seq<EntryView>,
    at: nat,
    after: u64,
    until: u64,
    limits: JournalLimits,
    got: Seq<EventView>,
    bytes: nat,
) -> Option<Seq<EventView>>
    decreases entries.len() - at,
{
    if at >= entries.len() {
        Some(got)
    } else {
        let entry = entries[at as int];
        if !(after < entry.event.seq <= until) {
            replayed(entries, at + 1, after, until, limits, got, bytes)
        } else if entry.encoded_bytes > limits.client_event_queue_max_bytes {
            None
        } else if got.len() > 0 && (got.len() >= limits.client_event_queue_max_events || bytes
            + entry.encoded_bytes > limits.client_event_queue_max_bytes) {
            Some(got)
        } else {
            replayed(
                entries,
                at + 1,
                after,
                until,
                limits,
                got.push(entry.event),
                bytes + entry.encoded_bytes as nat,
            )
        }
    }
}

/// What a poll of a client gives, and the journal after it.
pub open spec fn poll_view(j: JournalView, client_id: u64, epoch: Seq<char>) -> (
    JournalView,
    Result<Seq<EventView>, KernelProblemView>,
) {
    if j.epoch != epoch {
        (j, Err(KernelProblemView::ResyncRequired))
    } else {
        match j.place_of(client_id) {
            None => (j, Err(KernelProblemView::ResyncRequired)),
            Some(at) => {
                let c = j.clients[at];
                if c.last_delivered < c.replay_until {
                    let batch = replayed(
                        j.entries,
                        0,
                        c.last_delivered,
                        c.replay_until,
                        j.limits,
                        seq![],
                        0,
                    );
                    if c.last_delivered + 1 < j.first_seq() || batch is None || batch->0.len() == 0 {
                        (j.without(at).sent_back(1), Err(KernelProblemView::ResyncRequired))
                    } else {
                        (
                            JournalView {
                                clients: j.clients.update(
                                    at,
                                    ClientView { last_delivered: batch->0.last().seq, ..c },
                                ),
                                ..j
                            },
                            Ok(batch->0),
                        )
                    }
                } else {
                    (
                        JournalView {
                            clients: j.clients.update(
                                at,
                                ClientView {
                                    last_delivered: if c.events.len() > 0 {
                                        c.events.last().event.seq
                                    } else {
                                        c.last_delivered
                                    },
                                    events: seq![],
                                    bytes: 0,
                                    ..c
                                },
                            ),
                            ..j
                        },
                        Ok(c.events.map_values(|e: EntryView| e.event)),
                    )
                }
            },
        }
    }
}

/// What a client is told when it starts to follow.
#[derive(Debug)]
pub struct EventHello {
    pub stream_epoch: StreamEpoch,
    pub first_available_seq: u64,
    pub last_seq: u64,
}

/// What a client is told when it starts to follow, as a value.
pub ghost struct HelloView {
    pub stream_epoch: Seq<char>,
    pub first_available_seq: u64,
    pub last_seq: u64,
}

impl View for EventHello {
    type V = HelloView;

    open spec fn view(&self) -> HelloView {
        HelloView {
            stream_epoch: self.stream_epoch@,
            first_available_seq: self.first_available_seq,
            last_seq: self.last_seq,
        }
    }
}

/// The schema of what a client is told when it starts to follow.
pub const EVENTS_HELLO_SCHEMA: &'static str = "events.hello.v1";

/// A client's own hold on the journal.
#[derive(Debug)]
pub struct EventSubscription {
    client_id: u64,
    stream_epoch: StreamEpoch,
    last_seq: u64,
    hello: EventHello,
}

/// A client's own hold on the journal, as a value.
pub ghost struct SubscriptionView {
    pub client_id: u64,
    pub stream_epoch: Seq<char>,
    pub last_seq: u64,
    pub hello: HelloView,
}

impl View for EventSubscription {
    type V = SubscriptionView;

    closed spec fn view(&self) -> SubscriptionView {
        SubscriptionView {
            client_id: self.client_id,
            stream_epoch: self.stream_epoch@,
            last_seq: self.last_seq,
            hello: self.hello@,
        }
    }
}

/// What it takes to resume from a cursor, and the journal after it.
pub open spec fn subscribe_view(j: JournalView, cursor: CursorView) -> (
    JournalView,
    Result<SubscriptionView, KernelProblemView>,
) {
    if j.epoch != cursor.stream_epoch || cursor.through_seq > j.last_seq() || cursor.through_seq
        + 1 < j.first_seq() {
        (j.sent_back(1), Err(KernelProblemView::ResyncRequired))
    } else if j.clients.len() >= ACTIVE_EVENT_SUBSCRIPTIONS_HARD_CAP {
        (j, Err(KernelProblemView::ServiceUnavailable("event_subscription_limit"@)))
    } else if j.next_client_id == u64::MAX {
        (j, Err(KernelProblemView::ServiceUnavailable("event_client_id_exhausted"@)))
    } else {
        (
            JournalView {
                clients: j.clients.push(
                    ClientView {
                        client_id: j.next_client_id,
                        replay_until: j.last_seq() as u64,
                        last_delivered: cursor.through_seq,
                        events: seq![],
                        bytes: 0,
                    },
                ),
                next_client_id: (j.next_client_id + 1) as u64,
                ..j
            },
            Ok(
                SubscriptionView {
                    client_id: j.next_client_id,
                    stream_epoch: j.epoch,
                    last_seq: cursor.through_seq,
                    hello: HelloView {
                        stream_epoch: j.epoch,
                        first_available_seq: j.first_seq(),
                        last_seq: j.last_seq() as u64,
                    },
                },
            ),
        )
    }
}

/// The first `n` of the changes that wait as entries of the journal; where one
/// cannot be, why the epoch ends.
pub open spec fn staged_entries(
    j: JournalView,
    changes: Seq<JsonView>,
    n: nat,
    occurred_at: Seq<char>,
    now: u64,
) -> Result<Seq<EntryView>, RotationReason>
    decreases n,
{
    if n == 0 {
        Ok(seq![])
    } else {
        match staged_entries(j, changes, (n - 1) as nat, occurred_at, now) {
            Err(reason) => Err(reason),
            Ok(before) => if j.next_seq + (n - 1) > u64::MAX {
                Err(RotationReason::Publication)
            } else {
                match compiled_event(
                    j.epoch,
                    (j.next_seq + (n - 1)) as u64,
                    occurred_at,
                    changes[n - 1],
                ) {
                    Err(_) => Err(RotationReason::Protocol),
                    Ok(event) => if event.size() > j.limits.journal_event_max_bytes {
                        Err(RotationReason::Capacity)
                    } else {
                        Ok(
                            before.push(
                                EntryView { event, encoded_bytes: event.size(), inserted_at: now },
                            ),
                        )
                    },
                }
            },
        }
    }
}

/// The key of an aggregate among the heads.
pub open spec fn aggregate_key(event: EventView) -> Seq<char> {
    event.aggregate.kind.name() + ":"@ + event.aggregate.handle
}

/// Whether an event says that its aggregate is gone.
pub open spec fn is_tombstone(event: EventView) -> bool {
    as_text_view(field_of(event.projection, "mode"@)) == Some("tombstone"@)
}

/// The heads after the first `n` events, if each goes on from where its aggregate
/// stands and none is of an aggregate that is gone.
pub open spec fn followed(heads: Heads, staged: Seq<EntryView>, n: nat) -> Option<Heads>
    decreases n,
{
    if n == 0 {
        Some(heads)
    } else {
        match followed(heads, staged, (n - 1) as nat) {
            None => None,
            Some(before) => {
                let event = staged[n - 1].event;
                let key = aggregate_key(event);
                if before.contains_key(key) && (before[key].gone || before[key].revision
                    != event.base_revision) {
                    None
                } else {
                    Some(
                        before.insert(
                            key,
                            HeadView {
                                key,
                                revision: event.aggregate_revision,
                                gone: is_tombstone(event),
                            },
                        ),
                    )
                }
            },
        }
    }
}

/// What comes of a publication before its store is asked: the journal with room
/// made, and the entries and heads to add; or why the epoch ends.
pub open spec fn publication_plan(
    j: JournalView,
    changes: Seq<JsonView>,
    occurred_at: Seq<char>,
    now: u64,
) -> (JournalView, Result<(Seq<EntryView>, Heads), RotationReason>) {
    if changes.len() > j.limits.journal_max_events || stored_total(changes)
        > j.limits.journal_max_bytes {
        (j, Err(RotationReason::Capacity))
    } else {
        match staged_entries(j, changes, changes.len(), occurred_at, now) {
            Err(reason) => (j, Err(reason)),
            Ok(staged) => if total(staged) > j.limits.journal_max_bytes {
                (j, Err(RotationReason::Capacity))
            } else {
                match followed(j.heads, staged, staged.len()) {
                    None => (j, Err(RotationReason::Protocol)),
                    Some(heads) => {
                        let (roomy, enough) = j.trimmed(staged.len(), total(staged), now);
                        if enough {
                            (roomy, Ok((staged, heads)))
                        } else {
                            (roomy, Err(RotationReason::Capacity))
                        }
                    },
                }
            },
        }
    }
}

/// The target with everything that waits given up.
pub open spec fn given_up(t: TargetTables, occurred_at: Seq<char>) -> TargetTables {
    TargetTables { outbox: closed_off(t.outbox, OUTBOX_RECONCILED_PREFIX@ + occurred_at), ..t }
}

/// The end of an epoch: what waits in the target is given up; where its store does
/// not take that, nothing is published before it is recovered.
pub open spec fn aborted(
    j: JournalView,
    t: TargetTables,
    reason: RotationReason,
    occurred_at: Seq<char>,
    reconciled: bool,
    fresh: Seq<char>,
) -> (JournalView, TargetTables, Result<(), KernelProblemView>) {
    if reconciled {
        (j.rotated(reason, fresh), given_up(t, occurred_at), Ok(()))
    } else {
        (
            j.rotated(reason, fresh).poisoned_by(t.store_key),
            t,
            Err(KernelProblemView::ResyncRequired),
        )
    }
}

/// What comes of a publication: the journal, the target, and the answer. `marked`
/// and `reconciled` are what the store says where it is asked.
pub open spec fn publish_view(
    j: JournalView,
    t: TargetTables,
    occurred_at: Seq<char>,
    now: u64,
    marked: bool,
    reconciled: bool,
    fresh: Seq<char>,
) -> (JournalView, TargetTables, Result<(), KernelProblemView>) {
    let changes = pending(t.outbox);
    if j.poisoned.len() > 0 {
        (j, t, Err(KernelProblemView::ResyncRequired))
    } else if changes.len() == 0 {
        (j, t, Ok(()))
    } else {
        let (roomy, plan) = publication_plan(j, changes, occurred_at, now);
        match plan {
            Err(reason) => {
                let end = aborted(roomy, t, reason, occurred_at, reconciled, fresh);
                (end.0, end.1, Err(KernelProblemView::ResyncRequired))
            },
            Ok((staged, heads)) => if !marked {
                let end = aborted(
                    roomy,
                    t,
                    RotationReason::Publication,
                    occurred_at,
                    reconciled,
                    fresh,
                );
                (end.0, end.1, Err(KernelProblemView::ResyncRequired))
            } else {
                let done = TargetTables { outbox: closed_off(t.outbox, occurred_at), ..t };
                if j.next_seq + staged.len() > u64::MAX {
                    let end = aborted(
                        roomy,
                        done,
                        RotationReason::Publication,
                        occurred_at,
                        reconciled,
                        fresh,
                    );
                    (end.0, end.1, Err(KernelProblemView::ResyncRequired))
                } else {
                    (roomy.appended(staged, heads), done, Ok(()))
                }
            },
        }
    }
}

/// Whether a publication asks the store to mark what it publishes.
pub open spec fn asks_mark(
    j: JournalView,
    t: TargetTables,
    occurred_at: Seq<char>,
    now: u64,
) -> bool {
    &&& j.poisoned.len() == 0
    &&& pending(t.outbox).len() > 0
    &&& publication_plan(j, pending(t.outbox), occurred_at, now).1 is Ok
}

/// Whether a publication asks the store to give up what waits.
pub open spec fn asks_reconcile(
    j: JournalView,
    t: TargetTables,
    occurred_at: Seq<char>,
    now: u64,
    marked: bool,
) -> bool {
    &&& j.poisoned.len() == 0
    &&& pending(t.outbox).len() > 0
    &&& (publication_plan(j, pending(t.outbox), occurred_at, now).1 matches Ok(plan) ==> !marked
        || j.next_seq + plan.0.len() > u64::MAX)
}

/// What holds between a publication's start and its end, whatever the store says.
pub open spec fn published<M: FnOnce() -> bool, R: FnOnce() -> bool>(
    start: (JournalView, TargetTables),
    occurred_at: Seq<char>,
    now: u64,
    mark: M,
    reconcile: R,
    end: (JournalView, TargetTables),
    answer: Result<(), KernelProblemView>,
) -> bool {
    exists|marked: bool, reconciled: bool|
        {
            &&& #[trigger] publish_view(
                start.0,
                start.1,
                occurred_at,
                now,
                marked,
                reconciled,
                end.0.epoch,
            ) == (end.0, end.1, answer)
            &&& asks_mark(start.0, start.1, occurred_at, now) ==> mark.ensures((), marked)
            &&& asks_reconcile(start.0, start.1, occurred_at, now, marked)
                ==> reconcile.ensures((), reconciled)
        }
}

/// The recovery of every store that could not be asked: the journal, the targets,
/// and the answer. `closed` says of each target whether its store took it.
pub open spec fn recover_view(
    j: JournalView,
    targets: Seq<TargetTables>,
    closed: Seq<bool>,
    occurred_at: Seq<char>,
) -> (JournalView, Seq<TargetTables>, Result<(), KernelProblemView>)
    decreases j.poisoned.len(),
{
    if j.poisoned.len() == 0 {
        (j, targets, Ok(()))
    } else {
        match target_at(targets, j.poisoned[0], 0) {
            None => (j, targets, Err(KernelProblemView::ResyncRequired)),
            Some(at) => if !closed[at] {
                (j, targets, Err(KernelProblemView::ResyncRequired))
            } else {
                recover_view(
                    JournalView { poisoned: j.poisoned.skip(1), ..j },
                    targets.update(at, given_up(targets[at], occurred_at)),
                    closed,
                    occurred_at,
                )
            },
        }
    }
}

/// How full a journal is, and how often things happened to it.
#[derive(Debug, Clone, Copy, PartialEq, Eq, Structural)]
pub struct JournalStats {
    pub events: usize,
    pub bytes: usize,
    pub first_available_seq: u64,
    pub clients: usize,
    pub rotations: u64,
    pub capacity_rotations: u64,
    pub publication_rotations: u64,
    pub protocol_rotations: u64,
    pub evicted: u64,
    pub resyncs: u64,
    pub max_client_queue_events: usize,
    pub max_client_queue_bytes: usize,
}

/// The most events in one of the first `n` queues.
pub open spec fn longest_queue(clients: Seq<ClientView>, n: nat) -> nat
    decreases n,
{
    if n == 0 {
        0
    } else if clients[n - 1].events.len() > longest_queue(clients, (n - 1) as nat) {
        clients[n - 1].events.len()
    } else {
        longest_queue(clients, (n - 1) as nat)
    }
}

/// The most bytes in one of the first `n` queues.
pub open spec fn heaviest_queue(clients: Seq<ClientView>, n: nat) -> usize
    decreases n,
{
    if n == 0 {
        0
    } else if clients[n - 1].bytes > heaviest_queue(clients, (n - 1) as nat) {
        clients[n - 1].bytes
    } else {
        heaviest_queue(clients, (n - 1) as nat)
    }
}

/// The journal of recent events.
pub struct EventJournal {
    server_instance_id: ServerInstanceId,
    limits: JournalLimits,
    config_error: Option<String>,
    stream_epoch: StreamEpoch,
    next_seq: u64,
    bytes: usize,
    entries: VecDeque<JournalEntry>,
    heads: Table<HeadRow>,
    clients: Vec<ClientQueue>,
    next_client_id: u64,
    counts: JournalCounts,
    poisoned: Vec<String>,
    blocked: Vec<String>,
}

impl View for EventJournal {
    type V = JournalView;

    closed spec fn view(&self) -> JournalView {
        JournalView {
            server_instance_id: self.server_instance_id@,
            limits: self.limits,
            config_error: opt_view(self.config_error),
            epoch: self.stream_epoch@,
            next_seq: self.next_seq,
            bytes: self.bytes,
            entries: entries_view(self.entries@),
            heads: self.heads@,
            clients: clients_view(self.clients@),
            next_client_id: self.next_client_id,
            counts: self.counts,
            poisoned: texts(self.poisoned@),
            blocked: texts(self.blocked@).to_set(),
        }
    }
}

impl EventSubscription {
    /// The place that the client has reached.
    pub fn cursor(&self) -> (r: EventCursor)
        ensures
            r@ == (CursorView { stream_epoch: self@.stream_epoch, through_seq: self@.last_seq }),
    {
        EventCursor { stream_epoch: self.stream_epoch.clone(), through_seq: self.last_seq }
    }

    /// What the client was told when it started to follow.
    pub fn hello(&self) -> (r: &EventHello)
        ensures
            r@ == self@.hello,
    {
        &self.hello
    }

    /// The events that came since the last poll. A client that was sent back to a
    /// snapshot is told so.
    pub fn poll(&mut self, journal: &mut EventJournal) -> (r: Result<
        Vec<EventEnvelope>,
        KernelProblem,
    >)
        requires
            old(journal).wf(),
            old(journal)@.sound(),
        ensures
            final(journal).wf(),
            final(journal)@.sound(),
            ({
                let (j, answer) = poll_view(
                    old(journal)@,
                    old(self)@.client_id,
                    old(self)@.stream_epoch,
                );
                &&& final(journal)@ == j
                &&& match r {
                    Ok(events) => answer == Ok::<Seq<EventView>, KernelProblemView>(
                        event_views(events@),
                    ),
                    Err(p) => answer == Err::<Seq<EventView>, KernelProblemView>(p@),
                }
                &&& final(self)@ == (SubscriptionView {
                    last_seq: if answer matches Ok(events) && events.len() > 0 {
                        (answer->Ok_0).last().seq
                    } else {
                        old(self)@.last_seq
                    },
                    ..old(self)@
                })
            }),
    {
        let events: Vec<EventEnvelope> = match journal.poll_client(
            self.client_id,
            &self.stream_epoch,
        ) {
            Ok(events) => events,
            Err(p) => {
                return Err(p);
            },
        };
        if events.len() > 0 {
            self.last_seq = events[events.len() - 1].seq;
            assert(event_views(events@).last() == events@.last()@);
        }
        Ok(events)
    }

    /// Ends the subscription.
    pub fn release(self, journal: &mut EventJournal)
        requires
            old(journal).wf(),
            old(journal)@.sound(),
        ensures
            final(journal).wf(),
            final(journal)@.sound(),
            final(journal)@ == release_view(old(journal)@, self@.client_id, self@.stream_epoch),
    {
        journal.release_client(self.client_id, &self.stream_epoch);
    }
}

/// The journal without a client.
pub open spec fn release_view(j: JournalView, client_id: u64, epoch: Seq<char>) -> JournalView {
    match j.place_of(client_id) {
        Some(at) => if j.epoch == epoch {
            j.without(at)
        } else {
            j
        },
        None => j,
    }
}

proof fn lemma_total_add(a: Seq<EntryView>, b: Seq<EntryView>)
    ensures
        total(a + b) == total(a) + total(b),
    decreases b.len(),
{
    if b.len() == 0 {
        assert(a + b =~= a);
    } else {
        assert((a + b).drop_last() =~= a + b.drop_last());
        lemma_total_add(a, b.drop_last());
    }
}

proof fn lemma_total_first(a: Seq<EntryView>)
    requires
        a.len() > 0,
    ensures
        total(a) == a[0].encoded_bytes + total(a.skip(1)),
{
    assert(a =~= seq![a[0]] + a.skip(1));
    lemma_total_add(seq![a[0]], a.skip(1));
    assert(seq![a[0]].drop_last() =~= seq![]);
    assert(total(seq![a[0]]) == a[0].encoded_bytes) by {
        reveal_with_fuel(total, 2);
    }
}

/// What goes on in a journal without its oldest event.
proof fn lemma_evicted(j: JournalView)
    requires
        j.sound(),
        j.entries.len() > 0,
    ensures
        j.evicted().sound(),
        j.bytes >= j.entries[0].encoded_bytes,
{
    lemma_total_first(j.entries);
    let e = j.evicted();
    assert forall|i: int| 0 <= i < e.clients.len() implies e.feeds(#[trigger] e.clients[i]) by {
        assert(j.feeds(j.clients[i]));
    }
}

proof fn lemma_trimmed(j: JournalView, events: nat, bytes: nat, now: u64)
    requires
        j.sound(),
    ensures
        ({
            let t = j.trimmed(events, bytes, now).0;
            &&& t.sound()
            &&& t.clients == j.clients
            &&& t.next_seq == j.next_seq
            &&& t.epoch == j.epoch
            &&& t.limits == j.limits
            &&& t.heads == j.heads
            &&& t.poisoned == j.poisoned
            &&& t.next_client_id == j.next_client_id
            &&& j.trimmed(events, bytes, now).1 ==> t.entries.len() + events
                <= t.limits.journal_max_events && t.bytes + bytes <= t.limits.journal_max_bytes
        }),
    decreases j.entries.len(),
{
    if j.entries.len() + events <= j.limits.journal_max_events && j.bytes + bytes
        <= j.limits.journal_max_bytes {
    } else if j.entries.len() == 0 || young(j.entries[0], j.limits, now) {
    } else {
        lemma_evicted(j);
        lemma_trimmed(j.evicted(), events, bytes, now);
    }
}

/// Entries that go on where a journal ends.
pub open spec fn goes_on(j: JournalView, staged: Seq<EntryView>) -> bool {
    forall|k: int|
        0 <= k < staged.len() ==> (#[trigger] staged[k]).event.seq == j.next_seq + k
            && staged[k].event.stream_epoch == j.epoch && staged[k].encoded_bytes
            == staged[k].event.size()
}

pub(crate) proof fn lemma_staged(
    j: JournalView,
    changes: Seq<JsonView>,
    n: nat,
    occurred_at: Seq<char>,
    now: u64,
)
    requires
        staged_entries(j, changes, n, occurred_at, now) is Ok,
    ensures
        goes_on(j, staged_entries(j, changes, n, occurred_at, now)->Ok_0),
        staged_entries(j, changes, n, occurred_at, now)->Ok_0.len() == n,
        forall|k: nat|
            k <= n ==> (#[trigger] staged_entries(j, changes, k, occurred_at, now)) is Ok,
    decreases n,
{
    if n > 0 {
        lemma_staged(j, changes, (n - 1) as nat, occurred_at, now);
    }
}

proof fn lemma_fanned(clients: Seq<ClientView>, staged: Seq<EntryView>, limits: JournalLimits)
    ensures
        fanned(clients, staged, limits).len() <= clients.len(),
        forall|i: int|
            0 <= i < fanned(clients, staged, limits).len() ==> exists|k: int|
                0 <= k < clients.len() && Some(#[trigger] fanned(clients, staged, limits)[i])
                    == #[trigger] fed(clients[k], staged, limits),
    decreases clients.len(),
{
    if clients.len() > 0 {
        let rest = fanned(clients.drop_last(), staged, limits);
        lemma_fanned(clients.drop_last(), staged, limits);
        let all = fanned(clients, staged, limits);
        assert forall|i: int| 0 <= i < all.len() implies exists|k: int|
            0 <= k < clients.len() && Some(#[trigger] all[i]) == #[trigger] fed(
                clients[k],
                staged,
                limits,
            ) by {
            if i < rest.len() {
                assert(all[i] == rest[i]);
                let k = choose|k: int|
                    0 <= k < clients.drop_last().len() && Some(rest[i]) == #[trigger] fed(
                        clients.drop_last()[k],
                        staged,
                        limits,
                    );
                assert(clients.drop_last()[k] == clients[k]);
                assert(Some(all[i]) == fed(clients[k], staged, limits));
            } else {
                assert(Some(all[i]) == fed(clients[clients.len() - 1], staged, limits));
            }
        }
    }
}

proof fn lemma_fanned_order(
    clients: Seq<ClientView>,
    staged: Seq<EntryView>,
    limits: JournalLimits,
)
    requires
        forall|i: int, j: int|
            0 <= i < j < clients.len() ==> (#[trigger] clients[i]).client_id < (
            #[trigger] clients[j]).client_id,
    ensures
        ({
            let f = fanned(clients, staged, limits);
            &&& forall|i: int, j: int|
                0 <= i < j < f.len() ==> (#[trigger] f[i]).client_id < (#[trigger] f[j]).client_id
            &&& forall|i: int|
                0 <= i < f.len() ==> clients.len() > 0 && (#[trigger] f[i]).client_id
                    <= clients.last().client_id
        }),
    decreases clients.len(),
{
    if clients.len() > 0 {
        let init = clients.drop_last();
        lemma_fanned_order(init, staged, limits);
        let rest = fanned(init, staged, limits);
        let f = fanned(clients, staged, limits);
        assert forall|i: int| 0 <= i < rest.len() implies (#[trigger] rest[i]).client_id
            < clients.last().client_id by {
            assert(init.last() == clients[clients.len() - 2]);
        }
        assert forall|i: int, j: int| 0 <= i < j < f.len() implies (#[trigger] f[i]).client_id < (
        #[trigger] f[j]).client_id by {
            assert(f[i] == rest[i]);
            if j < rest.len() {
                assert(f[j] == rest[j]);
            }
        }
        assert forall|i: int| 0 <= i < f.len() implies (#[trigger] f[i]).client_id
            <= clients.last().client_id by {
            if i < rest.len() {
                assert(f[i] == rest[i]);
            }
        }
    }
}

proof fn lemma_appended(j: JournalView, staged: Seq<EntryView>, heads: Heads)
    requires
        j.sound(),
        goes_on(j, staged),
        j.next_seq + staged.len() <= u64::MAX,
        j.entries.len() + staged.len() <= j.limits.journal_max_events,
        j.bytes + total(staged) <= j.limits.journal_max_bytes,
    ensures
        j.appended(staged, heads).sound(),
{
    let a = j.appended(staged, heads);
    lemma_total_add(j.entries, staged);
    lemma_fanned(j.clients, staged, j.limits);
    lemma_fanned_order(j.clients, staged, j.limits);
    assert forall|i: int| 0 <= i < a.entries.len() implies (#[trigger] a.entries[i]).event.seq
        == a.next_seq - a.entries.len() + i && a.entries[i].event.stream_epoch == a.epoch
        && a.entries[i].encoded_bytes == a.entries[i].event.size() by {
        if i < j.entries.len() {
            assert(a.entries[i] == j.entries[i]);
        } else {
            assert(a.entries[i] == staged[i - j.entries.len()]);
        }
    }
    assert forall|i: int| 0 <= i < a.clients.len() implies a.feeds(#[trigger] a.clients[i]) by {
        let k = choose|k: int|
            0 <= k < j.clients.len() && Some(a.clients[i]) == #[trigger] fed(
                j.clients[k],
                staged,
                j.limits,
            );
        let c = j.clients[k];
        assert(j.feeds(c));
        lemma_total_add(c.events, staged);
        let n = a.clients[i];
        assert forall|m: int| 0 <= m < n.events.len() implies (#[trigger] n.events[m]).event.seq
            == (if n.last_delivered < n.replay_until {
            n.replay_until as int
        } else {
            n.last_delivered as int
        }) + 1 + m && n.events[m].event.stream_epoch == a.epoch by {
            if m < c.events.len() {
                assert(n.events[m] == c.events[m]);
            } else {
                assert(n.events[m] == staged[m - c.events.len()]);
            }
        }
    }
}

proof fn lemma_without(j: JournalView, at: int, by: nat)
    requires
        j.sound(),
        0 <= at < j.clients.len(),
    ensures
        j.without(at).sound(),
        j.without(at).sent_back(by).sound(),
{
    let w = j.without(at);
    assert forall|i: int| 0 <= i < w.clients.len() implies w.feeds(#[trigger] w.clients[i]) by {
        if i < at {
            assert(j.feeds(j.clients[i]));
        } else {
            assert(j.feeds(j.clients[i + 1]));
        }
    }
    let s = w.sent_back(by);
    assert forall|i: int| 0 <= i < s.clients.len() implies s.feeds(#[trigger] s.clients[i]) by {
        assert(w.feeds(w.clients[i]));
    }
}

proof fn lemma_sent_back(j: JournalView, by: nat)
    requires
        j.sound(),
    ensures
        j.sent_back(by).sound(),
{
    let s = j.sent_back(by);
    assert forall|i: int| 0 <= i < s.clients.len() implies s.feeds(#[trigger] s.clients[i]) by {
        assert(j.feeds(j.clients[i]));
    }
}

/// What a client reads of the journal itself goes on, without a gap, where it had
/// got to.
proof fn lemma_replayed(
    j: JournalView,
    at: nat,
    after: u64,
    until: u64,
    got: Seq<EventView>,
    bytes: nat,
)
    requires
        j.sound(),
        j.first_seq() <= after + 1,
        after < until < j.next_seq,
        forall|k: int|
            0 <= k < got.len() ==> (#[trigger] got[k]).seq == after + 1 + k && got[k].stream_epoch
                == j.epoch,
        at <= j.entries.len(),
        j.first_seq() + at <= after + 1 ==> got.len() == 0,
        j.first_seq() + at > after + 1 && j.first_seq() + at <= until + 1 ==> after + 1 + got.len()
            == j.first_seq() + at,
        j.first_seq() + at > until + 1 ==> after + got.len() == until,
    ensures
        ({
            let batch = replayed(j.entries, at, after, until, j.limits, got, bytes);
            batch is Some ==> {
                &&& batch->0.len() <= until - after
                &&& forall|k: int|
                    0 <= k < batch->0.len() ==> (#[trigger] batch->0[k]).seq == after + 1 + k
                        && batch->0[k].stream_epoch == j.epoch
            }
        }),
    decreases j.entries.len() - at,
{
    if at < j.entries.len() {
        let entry = j.entries[at as int];
        assert(entry.event.seq == j.first_seq() + at);
        if !(after < entry.event.seq <= until) {
            lemma_replayed(j, at + 1, after, until, got, bytes);
        } else if entry.encoded_bytes > j.limits.client_event_queue_max_bytes {
        } else if got.len() > 0 && (got.len() >= j.limits.client_event_queue_max_events || bytes
            + entry.encoded_bytes > j.limits.client_event_queue_max_bytes) {
        } else {
            lemma_replayed(
                j,
                at + 1,
                after,
                until,
                got.push(entry.event),
                bytes + entry.encoded_bytes as nat,
            );
        }
    }
}

proof fn lemma_polled(j: JournalView, client_id: u64, epoch: Seq<char>)
    requires
        j.sound(),
    ensures
        poll_view(j, client_id, epoch).0.sound(),
        j.place_of(client_id) matches Some(at) ==> 0 <= at < j.clients.len()
            && j.clients[at].client_id == client_id,
{
    let after = poll_view(j, client_id, epoch).0;
    if j.place_of(client_id) is Some && j.epoch == epoch {
        let at = j.place_of(client_id)->0;
        let c = j.clients[at];
        assert(j.feeds(c));
        if c.last_delivered < c.replay_until {
            if c.last_delivered + 1 < j.first_seq() {
                lemma_without(j, at, 1);
            } else {
                lemma_replayed(j, 0, c.last_delivered, c.replay_until, seq![], 0);
                lemma_without(j, at, 1);
            }
        }
        if poll_view(j, client_id, epoch).1 is Ok {
            assert forall|i: int| 0 <= i < after.clients.len() implies after.feeds(
                #[trigger] after.clients[i],
            ) by {
                assert(j.feeds(j.clients[i]));
            }
        }
    }
}

impl EventJournal {
    /// The part of the invariant that the value does not show.
    pub closed spec fn wf(self) -> bool {
        self.heads.wf()
    }

    /// An empty journal at the start of an epoch.
    pub fn with_limits(limits: JournalLimits) -> (r: Self)
        requires
            measurable(limits),
        ensures
            r.wf(),
            r@.sound(),
            r@ == (JournalView {
                server_instance_id: r@.server_instance_id,
                limits,
                config_error: None,
                epoch: r@.epoch,
                next_seq: 1,
                bytes: 0,
                entries: seq![],
                heads: Map::empty(),
                clients: seq![],
                next_client_id: 1,
                counts: (JournalCounts {
                    rotations: 0,
                    capacity_rotations: 0,
                    publication_rotations: 0,
                    protocol_rotations: 0,
                    evicted: 0,
                    resyncs: 0,
                }),
                poisoned: seq![],
                blocked: Set::empty(),
            }),
    {
        let r: EventJournal = EventJournal {
            server_instance_id: ServerInstanceId::new(),
            limits,
            config_error: None,
            stream_epoch: StreamEpoch::new(),
            next_seq: 1,
            bytes: 0,
            entries: VecDeque::new(),
            heads: Table::new(),
            clients: Vec::new(),
            next_client_id: 1,
            counts: JournalCounts {
                rotations: 0,
                capacity_rotations: 0,
                publication_rotations: 0,
                protocol_rotations: 0,
                evicted: 0,
                resyncs: 0,
            },
            poisoned: Vec::new(),
            blocked: Vec::new(),
        };
        assert(r@.blocked =~= Set::empty());
        assert(r@.entries =~= seq![]);
        assert(r@.clients =~= seq![]);
        assert(r@.poisoned =~= seq![]);
        assert(r@.heads =~= Map::empty());
        r
    }

    /// A journal by the limits that were read; where they could not be, by the
    /// standard ones, and it serves nothing.
    pub fn configured(loaded: Result<JournalLimits, String>) -> (r: Self)
        requires
            loaded matches Ok(limits) ==> measurable(limits),
        ensures
            r.wf(),
            r@.sound(),
            match loaded {
                Ok(limits) => r@.limits == limits && r@.config_error is None,
                Err(m) => r@.limits == JournalLimits::standard() && r@.config_error == Some(m@),
            },
            r@.next_seq == 1,
            r@.entries.len() == 0,
            r@.clients.len() == 0,
            r@.poisoned.len() == 0,
    {
        match loaded {
            Ok(limits) => EventJournal::with_limits(limits),
            Err(m) => {
                let mut journal: EventJournal = EventJournal::with_limits(JournalLimits::default());
                journal.config_error = Some(m);
                journal
            },
        }
    }

    /// The instance that this journal belongs to.
    pub fn server_instance_id(&self) -> (r: &ServerInstanceId)
        ensures
            r@ == self@.server_instance_id,
    {
        &self.server_instance_id
    }

    /// Whether the limits of the journal could be read.
    pub fn ensure_configured(&self) -> (r: Result<(), KernelProblem>)
        ensures
            match r {
                Ok(_) => self@.config_error is None,
                Err(p) => self@.config_error is Some && p@ == KernelProblemView::ServiceUnavailable(
                    self@.config_error->0,
                ),
            },
    {
        match &self.config_error {
            Some(m) => Err(KernelProblem::unavailable(m.as_str())),
            None => Ok(()),
        }
    }

    /// The place behind the last event.
    pub fn cursor(&self) -> (r: EventCursor)
        requires
            self@.sound(),
        ensures
            r@ == (CursorView {
                stream_epoch: self@.epoch,
                through_seq: self@.last_seq() as u64,
            }),
    {
        EventCursor {
            stream_epoch: self.stream_epoch.clone(),
            through_seq: self.next_seq.saturating_sub(1),
        }
    }

    fn first_available_seq(&self) -> (r: u64)
        ensures
            r == self@.first_seq(),
    {
        if self.entries.len() > 0 {
            self.entries[0].event.seq
        } else {
            self.next_seq
        }
    }

    /// How full the journal is, and how often things happened to it.
    pub fn stats(&self) -> (r: JournalStats)
        ensures
            r == (JournalStats {
                events: self@.entries.len() as usize,
                bytes: self@.bytes,
                first_available_seq: self@.first_seq(),
                clients: self@.clients.len() as usize,
                rotations: self@.counts.rotations,
                capacity_rotations: self@.counts.capacity_rotations,
                publication_rotations: self@.counts.publication_rotations,
                protocol_rotations: self@.counts.protocol_rotations,
                evicted: self@.counts.evicted,
                resyncs: self@.counts.resyncs,
                max_client_queue_events: longest_queue(
                    self@.clients,
                    self@.clients.len(),
                ) as usize,
                max_client_queue_bytes: heaviest_queue(self@.clients, self@.clients.len()),
            }),
    {
        let mut most_events: usize = 0;
        let mut most_bytes: usize = 0;
        let mut i: usize = 0;
        while i < self.clients.len()
            invariant
                i <= self.clients@.len(),
                self@.clients == clients_view(self.clients@),
                most_events == longest_queue(self@.clients, i as nat),
                most_bytes == heaviest_queue(self@.clients, i as nat),
            decreases self.clients@.len() - i,
        {
            let events: usize = self.clients[i].events.len();
            if events > most_events {
                most_events = events;
            }
            if self.clients[i].bytes > most_bytes {
                most_bytes = self.clients[i].bytes;
            }
            i = i + 1;
        }
        JournalStats {
            events: self.entries.len(),
            bytes: self.bytes,
            first_available_seq: self.first_available_seq(),
            clients: self.clients.len(),
            rotations: self.counts.rotations,
            capacity_rotations: self.counts.capacity_rotations,
            publication_rotations: self.counts.publication_rotations,
            protocol_rotations: self.counts.protocol_rotations,
            evicted: self.counts.evicted,
            resyncs: self.counts.resyncs,
            max_client_queue_events: most_events,
            max_client_queue_bytes: most_bytes,
        }
    }

    /// Starts to follow the journal from a place on.
    pub fn subscribe(&mut self, cursor: &EventCursor) -> (r: Result<
        EventSubscription,
        KernelProblem,
    >)
        requires
            old(self).wf(),
            old(self)@.sound(),
        ensures
            final(self).wf(),
            final(self)@.sound(),
            (final(self)@, outcome(r)) == subscribe_view(old(self)@, cursor@),
    {
        let ghost before = self@;
        let last_seq: u64 = self.next_seq.saturating_sub(1);
        let first_seq: u64 = self.first_available_seq();
        if !self.stream_epoch.same(&cursor.stream_epoch) || cursor.through_seq > last_seq
            || cursor.through_seq.saturating_add(1) < first_seq {
            self.counts.resyncs = self.counts.resyncs.saturating_add(1);
            proof {
                lemma_sent_back(before, 1);
            }
            assert(self@ == before.sent_back(1));
            return Err(KernelProblem::ResyncRequired);
        }
        if self.clients.len() >= ACTIVE_EVENT_SUBSCRIPTIONS_HARD_CAP {
            return Err(KernelProblem::unavailable("event_subscription_limit"));
        }
        let client_id: u64 = self.next_client_id;
        if client_id == u64::MAX {
            return Err(KernelProblem::unavailable("event_client_id_exhausted"));
        }
        self.next_client_id = client_id + 1;
        let queue: ClientQueue = ClientQueue {
            client_id,
            replay_until: last_seq,
            last_delivered: cursor.through_seq,
            events: VecDeque::new(),
            bytes: 0,
        };
        assert(queue@.events =~= seq![]);
        self.clients.push(queue);
        proof {
            assert(clients_view(self.clients@) =~= before.clients.push(queue@));
            let j = self@;
            assert forall|i: int| 0 <= i < j.clients.len() implies j.feeds(
                #[trigger] j.clients[i],
            ) by {
                if i < before.clients.len() {
                    assert(before.feeds(before.clients[i]));
                }
            }
            assert forall|a: int, b: int| 0 <= a < b < j.clients.len() implies (
            #[trigger] j.clients[a]).client_id < (#[trigger] j.clients[b]).client_id by {
                assert(before.feeds(before.clients[a]));
            }
        }
        Ok(
            EventSubscription {
                client_id,
                stream_epoch: self.stream_epoch.clone(),
                last_seq: cursor.through_seq,
                hello: EventHello {
                    stream_epoch: self.stream_epoch.clone(),
                    first_available_seq: first_seq,
                    last_seq,
                },
            },
        )
    }

    fn find_client(&self, client_id: u64) -> (r: Option<usize>)
        requires
            self@.sound(),
        ensures
            match r {
                Some(at) => self@.place_of(client_id) == Some(at as int) && at < self.clients@.len(),
                None => self@.place_of(client_id) is None,
            },
    {
        let mut i: usize = 0;
        while i < self.clients.len()
            invariant
                i <= self.clients@.len(),
                self@.sound(),
                self@.clients == clients_view(self.clients@),
                forall|k: int|
                    0 <= k < i ==> (#[trigger] self@.clients[k]).client_id != client_id,
            decreases self.clients@.len() - i,
        {
            assert(self@.clients[i as int].client_id == self.clients@[i as int].client_id);
            if self.clients[i].client_id == client_id {
                proof {
                    let at = self@.place_of(client_id)->0;
                    if at < i {
                        assert(self@.clients[at].client_id < self@.clients[i as int].client_id);
                    } else if at > i {
                        assert(self@.clients[i as int].client_id < self@.clients[at].client_id);
                    }
                }
                return Some(i);
            }
            i = i + 1;
        }
        None
    }

    fn drop_client(&mut self, at: usize)
        requires
            old(self).wf(),
            old(self)@.sound(),
            at < old(self)@.clients.len(),
        ensures
            final(self).wf(),
            final(self)@ == old(self)@.without(at as int).sent_back(1),
            final(self)@.sound(),
    {
        let ghost before = self@;
        self.clients.remove(at);
        assert(clients_view(self.clients@) =~= before.clients.remove(at as int));
        self.counts.resyncs = self.counts.resyncs.saturating_add(1);
        proof {
            lemma_without(before, at as int, 1);
        }
        assert(self@ == before.without(at as int).sent_back(1));
    }

    fn replay_batch(&self, after: u64, until: u64) -> (r: Option<Vec<EventEnvelope>>)
        requires
            self@.sound(),
        ensures
            match r {
                Some(v) => replayed(self@.entries, 0, after, until, self@.limits, seq![], 0) == Some(
                    event_views(v@),
                ),
                None => replayed(self@.entries, 0, after, until, self@.limits, seq![], 0) is None,
            },
    {
        let mut bytes: usize = 0;
        let mut replay: Vec<EventEnvelope> = Vec::new();
        let mut i: usize = 0;
        assert(event_views(replay@) =~= seq![]);
        while i < self.entries.len()
            invariant
                i <= self.entries@.len(),
                self@.sound(),
                self@.entries == entries_view(self.entries@),
                self@.limits == self.limits,
                bytes <= self.limits.client_event_queue_max_bytes,
                replayed(self@.entries, 0, after, until, self@.limits, seq![], 0) == replayed(
                    self@.entries,
                    i as nat,
                    after,
                    until,
                    self@.limits,
                    event_views(replay@),
                    bytes as nat,
                ),
                replay@.len() == 0 ==> bytes == 0,
            decreases self.entries@.len() - i,
        {
            let entry: &JournalEntry = &self.entries[i];
            assert(self@.entries[i as int] == entry@);
            if after < entry.event.seq && entry.event.seq <= until {
                if entry.encoded_bytes > self.limits.client_event_queue_max_bytes {
                    return None;
                }
                if replay.len() > 0 && (replay.len() >= self.limits.client_event_queue_max_events
                    || bytes.saturating_add(entry.encoded_bytes)
                    > self.limits.client_event_queue_max_bytes) {
                    return Some(replay);
                }
                let ghost got = replay@;
                bytes = bytes.saturating_add(entry.encoded_bytes);
                replay.push(entry.event.clone());
                assert(event_views(replay@) =~= event_views(got).push(entry.event@));
            }
            i = i + 1;
        }
        Some(replay)
    }

    fn poll_client(&mut self, client_id: u64, stream_epoch: &StreamEpoch) -> (r: Result<
        Vec<EventEnvelope>,
        KernelProblem,
    >)
        requires
            old(self).wf(),
            old(self)@.sound(),
        ensures
            final(self).wf(),
            final(self)@.sound(),
            final(self)@ == poll_view(old(self)@, client_id, stream_epoch@).0,
            match r {
                Ok(events) => poll_view(old(self)@, client_id, stream_epoch@).1 == Ok::<
                    Seq<EventView>,
                    KernelProblemView,
                >(event_views(events@)),
                Err(p) => poll_view(old(self)@, client_id, stream_epoch@).1 == Err::<
                    Seq<EventView>,
                    KernelProblemView,
                >(p@),
            },
    {
        let ghost before = self@;
        proof {
            lemma_polled(before, client_id, stream_epoch@);
        }
        if !self.stream_epoch.same(stream_epoch) {
            return Err(KernelProblem::ResyncRequired);
        }
        let at: usize = match self.find_client(client_id) {
            Some(at) => at,
            None => {
                return Err(KernelProblem::ResyncRequired);
            },
        };
        let ghost c = before.clients[at as int];
        assert(c == self.clients@[at as int]@);
        let after: u64 = self.clients[at].last_delivered;
        let until: u64 = self.clients[at].replay_until;
        if after < until {
            if after.saturating_add(1) < self.first_available_seq() {
                self.drop_client(at);
                return Err(KernelProblem::ResyncRequired);
            }
            let replay: Vec<EventEnvelope> = match self.replay_batch(after, until) {
                Some(replay) => replay,
                None => {
                    self.drop_client(at);
                    return Err(KernelProblem::ResyncRequired);
                },
            };
            if replay.len() == 0 {
                self.drop_client(at);
                return Err(KernelProblem::ResyncRequired);
            }
            let last: u64 = replay[replay.len() - 1].seq;
            assert(event_views(replay@).last() == replay@.last()@);
            self.clients[at].last_delivered = last;
            assert(clients_view(self.clients@) =~= before.clients.update(
                at as int,
                ClientView { last_delivered: last, ..c },
            ));
            return Ok(replay);
        }
        let mut events: Vec<EventEnvelope> = Vec::new();
        let mut queue: VecDeque<JournalEntry> = VecDeque::new();
        let mut last: u64 = after;
        let ghost all = self.clients@[at as int].events@;
        let mut i: usize = 0;
        let count: usize = self.clients[at].events.len();
        while i < count
            invariant
                at < self.clients@.len(),
                count == all.len(),
                i <= count,
                all == self.clients@[at as int].events@,
                event_views(events@) =~= entries_view(all.take(i as int)).map_values(
                    |e: EntryView| e.event,
                ),
                last == (if i > 0 {
                    all[i - 1].event.seq
                } else {
                    after
                }),
            decreases count - i,
        {
            let entry: &JournalEntry = &self.clients[at].events[i];
            last = entry.event.seq;
            let ghost got = events@;
            events.push(entry.event.clone());
            assert(event_views(events@) =~= event_views(got).push(all[i as int].event@));
            assert(all.take(i + 1) =~= all.take(i as int).push(all[i as int]));
            i = i + 1;
        }
        assert(all.take(i as int) =~= all);
        self.clients[at].events.clear();
        self.clients[at].bytes = 0;
        self.clients[at].last_delivered = last;
        assert(entries_view(self.clients@[at as int].events@) =~= seq![]);
        assert(clients_view(self.clients@) =~= before.clients.update(
            at as int,
            ClientView { last_delivered: last, events: seq![], bytes: 0, ..c },
        ));
        Ok(events)
    }

    fn release_client(&mut self, client_id: u64, stream_epoch: &StreamEpoch)
        requires
            old(self).wf(),
            old(self)@.sound(),
        ensures
            final(self).wf(),
            final(self)@.sound(),
            final(self)@ == release_view(old(self)@, client_id, stream_epoch@),
    {
        let ghost before = self@;
        if self.stream_epoch.same(stream_epoch) {
            match self.find_client(client_id) {
                Some(at) => {
                    self.clients.remove(at);
                    assert(clients_view(self.clients@) =~= before.clients.remove(at as int));
                    proof {
                        lemma_without(before, at as int, 0);
                    }
                },
                None => {},
            }
        }
    }

    fn rotate_epoch(&mut self, reason: RotationReason)
        requires
            old(self)@.sound(),
        ensures
            final(self).wf(),
            final(self)@ == old(self)@.rotated(reason, final(self)@.epoch),
            final(self)@.sound(),
            is_fresh(final(self)@.epoch),
    {
        let clients: usize = self.clients.len();
        self.counts.resyncs = self.counts.resyncs.saturating_add(clients as u64);
        self.stream_epoch = StreamEpoch::new();
        self.next_seq = 1;
        self.bytes = 0;
        self.entries = VecDeque::new();
        self.heads = Table::new();
        self.clients = Vec::new();
        self.counts.rotations = self.counts.rotations.saturating_add(1);
        match reason {
            RotationReason::Capacity => {
                self.counts.capacity_rotations = self.counts.capacity_rotations.saturating_add(1);
            },
            RotationReason::Publication => {
                self.counts.publication_rotations =
                self.counts.publication_rotations.saturating_add(1);
            },
            RotationReason::Protocol => {
                self.counts.protocol_rotations = self.counts.protocol_rotations.saturating_add(1);
            },
        }
        assert(self@.entries =~= seq![]);
        assert(self@.clients =~= seq![]);
        assert(self@.heads =~= Map::empty());
    }

    fn poison(&mut self, store_key: &str)
        requires
            old(self).wf(),
            old(self)@.sound(),
        ensures
            final(self).wf(),
            final(self)@.sound(),
            final(self)@ == old(self)@.poisoned_by(store_key@),
    {
        let ghost before = self@;
        if !list_has(&self.poisoned, store_key) {
            self.poisoned.push(store_key.to_owned());
            assert(texts(self.poisoned@) =~= before.poisoned.push(store_key@));
        }
        proof {
            let j = self@;
            assert forall|i: int| 0 <= i < j.clients.len() implies j.feeds(
                #[trigger] j.clients[i],
            ) by {
                assert(before.feeds(before.clients[i]));
            }
        }
    }
}

/// Whether a text is the name of a new epoch.
pub open spec fn is_fresh(epoch: Seq<char>) -> bool {
    crate::handles::is_canonical_v7(epoch)
}

/// Whether an event is too young to be given up.
fn is_young(entry: &JournalEntry, limits: &JournalLimits, now: u64) -> (r: bool)
    ensures
        r == young(entry@, *limits, now),
{
    now.saturating_sub(entry.inserted_at) / NANOS_PER_SECOND < limits.journal_min_age_secs
}

/// What entries take on the wire together, up to the top of the type.
fn weigh(entries: &Vec<JournalEntry>) -> (r: usize)
    ensures
        total(entries_view(entries@)) <= usize::MAX ==> r == total(entries_view(entries@)),
        total(entries_view(entries@)) > usize::MAX ==> r == usize::MAX,
{
    let mut sum: usize = 0;
    let mut i: usize = 0;
    let ghost all = entries_view(entries@);
    assert(all.take(0) =~= seq![]);
    while i < entries.len()
        invariant
            i <= entries@.len(),
            all == entries_view(entries@),
            total(all.take(i as int)) <= usize::MAX ==> sum == total(all.take(i as int)),
            total(all.take(i as int)) > usize::MAX ==> sum == usize::MAX,
        decreases entries@.len() - i,
    {
        sum = sum.saturating_add(entries[i].encoded_bytes);
        assert(all.take(i + 1).drop_last() =~= all.take(i as int));
        i = i + 1;
    }
    assert(all.take(i as int) =~= all);
    sum
}

/// What changes take in their store together, up to the top of the type.
fn weigh_stored(list: &Vec<Json>) -> (r: usize)
    ensures
        stored_total(items_view(list@)) <= usize::MAX ==> r == stored_total(items_view(list@)),
        stored_total(items_view(list@)) > usize::MAX ==> r == usize::MAX,
{
    let mut sum: usize = 0;
    let mut i: usize = 0;
    let ghost all = items_view(list@);
    assert(all.take(0) =~= seq![]);
    while i < list.len()
        invariant
            i <= list@.len(),
            all == items_view(list@),
            stored_total(all.take(i as int)) <= usize::MAX ==> sum == stored_total(
                all.take(i as int),
            ),
            stored_total(all.take(i as int)) > usize::MAX ==> sum == usize::MAX,
        decreases list@.len() - i,
    {
        let size: usize = to_text(&list[i]).as_str().len();
        sum = sum.saturating_add(size);
        assert(all.take(i + 1).drop_last() =~= all.take(i as int));
        assert(all.take(i + 1).last() == list@[i as int]@);
        i = i + 1;
    }
    assert(all.take(i as int) =~= all);
    sum
}

fn key_of_aggregate(event: &EventEnvelope) -> (r: String)
    ensures
        r@ == aggregate_key(event@),
{
    cat3(event.aggregate.kind.as_str(), ":", event.aggregate.handle.as_str())
}

fn says_gone(event: &EventEnvelope) -> (r: bool)
    ensures
        r == is_tombstone(event@),
{
    match event.projection.get_str("mode") {
        Some(mode) => same(mode, "tombstone"),
        None => false,
    }
}

impl EventJournal {
    /// Makes room for new events.
    fn make_capacity(&mut self, append_events: usize, append_bytes: usize, now: u64) -> (r: bool)
        requires
            old(self).wf(),
            old(self)@.sound(),
        ensures
            final(self).wf(),
            (final(self)@, r) == old(self)@.trimmed(
                append_events as nat,
                append_bytes as nat,
                now,
            ),
            final(self)@.sound(),
    {
        loop
            invariant
                self.wf(),
                self@.sound(),
                old(self)@.trimmed(append_events as nat, append_bytes as nat, now) == self@.trimmed(
                    append_events as nat,
                    append_bytes as nat,
                    now,
                ),
            decreases self@.entries.len(),
        {
            let ghost before = self@;
            if self.entries.len().saturating_add(append_events) <= self.limits.journal_max_events
                && self.bytes.saturating_add(append_bytes) <= self.limits.journal_max_bytes {
                return true;
            }
            if self.entries.len() == 0 || is_young(&self.entries[0], &self.limits, now) {
                return false;
            }
            proof {
                lemma_evicted(before);
            }
            let removed: usize = self.entries[0].encoded_bytes;
            self.entries.pop_front();
            assert(entries_view(self.entries@) =~= before.entries.skip(1));
            self.bytes = self.bytes.saturating_sub(removed);
            self.counts.evicted = self.counts.evicted.saturating_add(1);
            assert(self@ == before.evicted());
        }
    }

    /// Hands new events to every client that has room for them, and sends the
    /// others back to a snapshot.
    fn fan_out(&mut self, staged: &Vec<JournalEntry>)
        requires
            old(self).wf(),
            measurable(old(self)@.limits),
        ensures
            final(self).wf(),
            ({
                let kept = fanned(old(self)@.clients, entries_view(staged@), old(self)@.limits);
                final(self)@ == (JournalView {
                    clients: kept,
                    ..old(self)@.sent_back((old(self)@.clients.len() - kept.len()) as nat)
                })
            }),
    {
        let appended_bytes: usize = weigh(staged);
        let ghost start = self@;
        let ghost all = entries_view(staged@);
        let ghost mut done: int = 0;
        let mut i: usize = 0;
        assert(start.clients.take(0) =~= seq![]);
        assert(clients_view(self.clients@) =~= seq![] + start.clients.skip(0));
        while i < self.clients.len()
            invariant
                self.wf(),
                measurable(start.limits),
                all == entries_view(staged@),
                total(all) <= usize::MAX ==> appended_bytes == total(all),
                total(all) > usize::MAX ==> appended_bytes == usize::MAX,
                0 <= done <= start.clients.len(),
                i == fanned(start.clients.take(done), all, start.limits).len(),
                i <= done,
                clients_view(self.clients@) == fanned(start.clients.take(done), all, start.limits)
                    + start.clients.skip(done),
                self@ == (JournalView {
                    clients: clients_view(self.clients@),
                    ..start.sent_back((done - i) as nat)
                }),
            decreases start.clients.len() - done,
        {
            let ghost before = self.clients@;
            let ghost c = start.clients[done];
            assert(start.clients.take(done + 1).drop_last() =~= start.clients.take(done));
            assert(clients_view(before)[i as int] == c);
            assert(before[i as int]@ == c);
            assert(start.clients.take(done + 1).last() == c);
            assert(self@.limits == start.limits);
            let ghost rest = fanned(start.clients.take(done), all, start.limits);
            if self.clients[i].events.len().saturating_add(staged.len())
                > self.limits.client_event_queue_max_events || self.clients[i].bytes.saturating_add(
                appended_bytes,
            ) > self.limits.client_event_queue_max_bytes {
                self.clients.remove(i);
                self.counts.resyncs = self.counts.resyncs.saturating_add(1);
                assert(fed(c, all, start.limits) is None);
                assert(clients_view(self.clients@) =~= clients_view(before).remove(i as int));
                assert(clients_view(self.clients@) =~= fanned(
                    start.clients.take(done + 1),
                    all,
                    start.limits,
                ) + start.clients.skip(done + 1));
            } else {
                let mut k: usize = 0;
                while k < staged.len()
                    invariant
                        self.wf(),
                        k <= staged@.len(),
                        i < self.clients@.len(),
                        before.len() == self.clients@.len(),
                        all == entries_view(staged@),
                        entries_view(self.clients@[i as int].events@) == c.events + all.take(
                            k as int,
                        ),
                        self.clients@[i as int].client_id == c.client_id,
                        self.clients@[i as int].replay_until == c.replay_until,
                        self.clients@[i as int].last_delivered == c.last_delivered,
                        self.clients@[i as int].bytes == c.bytes,
                        forall|m: int|
                            0 <= m < before.len() && m != i ==> self.clients@[m] == before[m],
                        self@ == (JournalView {
                            clients: clients_view(self.clients@),
                            ..start.sent_back((done - i) as nat)
                        }),
                    decreases staged@.len() - k,
                {
                    let ghost held = self.clients@[i as int].events@;
                    let entry: JournalEntry = staged[k].clone();
                    self.clients[i].events.push_back(entry);
                    assert(entries_view(held.push(entry)) =~= entries_view(held).push(entry@));
                    assert(c.events + all.take(k + 1) =~= (c.events + all.take(k as int)).push(
                        all[k as int],
                    ));
                    k = k + 1;
                }
                assert(all.take(k as int) =~= all);
                let bytes: usize = self.clients[i].bytes.saturating_add(appended_bytes);
                self.clients[i].bytes = bytes;
                assert(Some(self.clients@[i as int]@) == fed(c, all, start.limits));
                let ghost now_fed = self.clients@[i as int]@;
                assert(clients_view(self.clients@) =~= clients_view(before).update(
                    i as int,
                    now_fed,
                ));
                assert(fanned(start.clients.take(done + 1), all, start.limits) == rest.push(
                    now_fed,
                ));
                assert(clients_view(self.clients@) =~= fanned(
                    start.clients.take(done + 1),
                    all,
                    start.limits,
                ) + start.clients.skip(done + 1));
                i = i + 1;
            }
            proof {
                done = done + 1;
            }
        }
        proof {
            assert(done == start.clients.len());
            assert(start.clients.take(done) =~= start.clients);
            assert(clients_view(self.clients@) =~= fanned(start.clients, all, start.limits));
        }
    }

    /// The changes that wait as entries of the journal; where one cannot be, why
    /// the epoch ends.
    fn stage(&self, changes: &Vec<Json>, occurred_at: &str, now: u64) -> (r: Result<
        Vec<JournalEntry>,
        RotationReason,
    >)
        ensures
            ({
                let plan = staged_entries(
                    self@,
                    items_view(changes@),
                    changes@.len(),
                    occurred_at@,
                    now,
                );
                match r {
                    Ok(v) => plan == Ok::<Seq<EntryView>, RotationReason>(entries_view(v@)),
                    Err(reason) => plan == Err::<Seq<EntryView>, RotationReason>(reason),
                }
            }),
    {
        let mut staged: Vec<JournalEntry> = Vec::new();
        let mut index: usize = 0;
        let ghost all = items_view(changes@);
        assert(entries_view(staged@) =~= seq![]);
        while index < changes.len()
            invariant
                index <= changes@.len(),
                all == items_view(changes@),
                staged_entries(self@, all, index as nat, occurred_at@, now) == Ok::<
                    Seq<EntryView>,
                    RotationReason,
                >(entries_view(staged@)),
            decreases changes@.len() - index,
        {
            let ghost before = staged@;
            let step = self.stage_one(&changes[index], index, occurred_at, now);
            assert(all[index as int] == changes@[index as int]@);
            match step {
                Ok(entry) => {
                    staged.push(entry);
                    assert(entries_view(staged@) =~= entries_view(before).push(entry@));
                },
                Err(reason) => {
                    proof {
                        lemma_stage_stops(
                            self@,
                            all,
                            (index + 1) as nat,
                            changes@.len(),
                            occurred_at@,
                            now,
                        );
                    }
                    return Err(reason);
                },
            }
            index = index + 1;
        }
        Ok(staged)
    }

    fn stage_one(&self, change: &Json, index: usize, occurred_at: &str, now: u64) -> (r: Result<
        JournalEntry,
        RotationReason,
    >)
        ensures
            match r {
                Ok(e) => {
                    &&& self@.next_seq + index <= u64::MAX
                    &&& compiled_event(
                        self@.epoch,
                        (self@.next_seq + index) as u64,
                        occurred_at@,
                        change@,
                    ) == Ok::<EventView, Seq<char>>(e@.event)
                    &&& e@.event.size() <= self@.limits.journal_event_max_bytes
                    &&& e@.encoded_bytes == e@.event.size()
                    &&& e@.inserted_at == now
                },
                Err(reason) => if self@.next_seq + index > u64::MAX {
                    reason is Publication
                } else {
                    match compiled_event(
                        self@.epoch,
                        (self@.next_seq + index) as u64,
                        occurred_at@,
                        change@,
                    ) {
                        Err(_) => reason is Protocol,
                        Ok(e) => reason is Capacity && e.size()
                            > self@.limits.journal_event_max_bytes,
                    }
                },
            },
    {
        let seq: u64 = match self.next_seq.checked_add(index as u64) {
            Some(seq) => seq,
            None => {
                return Err(RotationReason::Publication);
            },
        };
        let event: EventEnvelope = match compile_event(
            &self.stream_epoch,
            seq,
            occurred_at,
            change,
        ) {
            Ok(event) => event,
            Err(_) => {
                return Err(RotationReason::Protocol);
            },
        };
        let encoded_bytes: usize = event.encoded_bytes();
        if encoded_bytes > self.limits.journal_event_max_bytes {
            return Err(RotationReason::Capacity);
        }
        Ok(JournalEntry { event, encoded_bytes, inserted_at: now })
    }

    /// Moves the heads along with new events; `false` where one does not go on from
    /// where its aggregate stands.
    fn follow(&mut self, staged: &Vec<JournalEntry>) -> (r: bool)
        requires
            old(self).wf(),
        ensures
            final(self).wf(),
            final(self)@ == (JournalView { heads: final(self)@.heads, ..old(self)@ }),
            r == (followed(old(self)@.heads, entries_view(staged@), staged@.len()) is Some),
            r ==> final(self)@.heads == followed(
                old(self)@.heads,
                entries_view(staged@),
                staged@.len(),
            )->0,
    {
        let ghost start = self@;
        let ghost all = entries_view(staged@);
        let mut i: usize = 0;
        while i < staged.len()
            invariant
                self.wf(),
                i <= staged@.len(),
                all == entries_view(staged@),
                start == old(self)@,
                self@ == (JournalView { heads: self@.heads, ..start }),
                followed(start.heads, all, i as nat) == Some(self@.heads),
            decreases staged@.len() - i,
        {
            let event: &EventEnvelope = &staged[i].event;
            assert(all[i as int].event == event@);
            let key: String = key_of_aggregate(event);
            let fits: bool = match self.heads.get(key.as_str()) {
                Some(head) => !head.gone && head.revision == event.base_revision,
                None => true,
            };
            if !fits {
                proof {
                    lemma_follow_stops(start.heads, all, (i + 1) as nat, all.len());
                }
                return false;
            }
            self.heads.put(
                HeadRow { key, revision: event.aggregate_revision, gone: says_gone(event) },
            );
            i = i + 1;
        }
        true
    }
}

proof fn lemma_stage_stops(
    j: JournalView,
    changes: Seq<JsonView>,
    n: nat,
    all: nat,
    occurred_at: Seq<char>,
    now: u64,
)
    requires
        n <= all,
        staged_entries(j, changes, n, occurred_at, now) is Err,
    ensures
        staged_entries(j, changes, all, occurred_at, now) == staged_entries(
            j,
            changes,
            n,
            occurred_at,
            now,
        ),
    decreases all - n,
{
    if n < all {
        lemma_stage_stops(j, changes, n + 1, all, occurred_at, now);
    }
}

proof fn lemma_follow_stops(heads: Heads, staged: Seq<EntryView>, n: nat, all: nat)
    requires
        n <= all,
        followed(heads, staged, n) is None,
    ensures
        followed(heads, staged, all) is None,
    decreases all - n,
{
    if n < all {
        lemma_follow_stops(heads, staged, n + 1, all);
    }
}

/// A journal with other heads.
pub open spec fn with_heads(j: JournalView, heads: Heads) -> JournalView {
    JournalView { heads, ..j }
}

proof fn lemma_heads(j: JournalView, heads: Heads)
    requires
        j.sound(),
    ensures
        with_heads(j, heads).sound(),
{
    let h = with_heads(j, heads);
    assert forall|i: int| 0 <= i < h.clients.len() implies h.feeds(#[trigger] h.clients[i]) by {
        assert(j.feeds(j.clients[i]));
    }
}

proof fn lemma_trimmed_heads(j: JournalView, heads: Heads, events: nat, bytes: nat, now: u64)
    ensures
        with_heads(j, heads).trimmed(events, bytes, now) == (
            with_heads(j.trimmed(events, bytes, now).0, heads),
            j.trimmed(events, bytes, now).1,
        ),
    decreases j.entries.len(),
{
    if j.entries.len() + events <= j.limits.journal_max_events && j.bytes + bytes
        <= j.limits.journal_max_bytes {
    } else if j.entries.len() == 0 || young(j.entries[0], j.limits, now) {
    } else {
        assert(with_heads(j, heads).evicted() == with_heads(j.evicted(), heads));
        lemma_trimmed_heads(j.evicted(), heads, events, bytes, now);
    }
}

proof fn lemma_published<M: FnOnce() -> bool, R: FnOnce() -> bool>(
    start: (JournalView, TargetTables),
    occurred_at: Seq<char>,
    now: u64,
    mark: M,
    reconcile: R,
    marked: bool,
    reconciled: bool,
    end: (JournalView, TargetTables),
    answer: Result<(), KernelProblemView>,
)
    requires
        publish_view(start.0, start.1, occurred_at, now, marked, reconciled, end.0.epoch) == (
            end.0,
            end.1,
            answer,
        ),
        asks_mark(start.0, start.1, occurred_at, now) ==> mark.ensures((), marked),
        asks_reconcile(start.0, start.1, occurred_at, now, marked) ==> reconcile.ensures(
            (),
            reconciled,
        ),
    ensures
        published(start, occurred_at, now, mark, reconcile, end, answer),
{
}

impl EventJournal {
    /// Ends the epoch. What waits in the target is given up; where its store does
    /// not take that, nothing is published before the store is recovered. Says
    /// whether the store took it.
    fn rotate_and_reconcile<R: FnOnce() -> bool>(
        &mut self,
        target: &mut TargetDatabase,
        reason: RotationReason,
        occurred_at: &str,
        reconcile: R,
    ) -> (r: bool)
        requires
            old(self).wf(),
            old(self)@.sound(),
            old(target).wf(),
            reconcile.requires(()),
        ensures
            final(self).wf(),
            final(self)@.sound(),
            final(target).wf(),
            reconcile.ensures((), r),
            ({
                let end = aborted(
                    old(self)@,
                    old(target)@,
                    reason,
                    occurred_at@,
                    r,
                    final(self)@.epoch,
                );
                final(self)@ == end.0 && final(target)@ == end.1
            }),
    {
        self.rotate_epoch(reason);
        let reconciled: bool = reconcile();
        if reconciled {
            target.close_pending(cat(OUTBOX_RECONCILED_PREFIX, occurred_at).as_str());
        } else {
            self.poison(target.store_key());
        }
        reconciled
    }

    /// Gives a publication up: what may have reached the target without an answer
    /// is never published, and every client is sent back to a snapshot.
    pub fn abort_publication<R: FnOnce() -> bool>(
        &mut self,
        target: &mut TargetDatabase,
        occurred_at: &str,
        reconcile: R,
    ) -> (r: Result<(), KernelProblem>)
        requires
            old(self).wf(),
            old(self)@.sound(),
            old(target).wf(),
            reconcile.requires(()),
        ensures
            final(self).wf(),
            final(self)@.sound(),
            final(target).wf(),
            exists|reconciled: bool|
                reconcile.ensures((), reconciled) && #[trigger] aborted(
                    old(self)@,
                    old(target)@,
                    RotationReason::Publication,
                    occurred_at@,
                    reconciled,
                    final(self)@.epoch,
                ) == (final(self)@, final(target)@, outcome(r)),
    {
        let ghost start = (self@, target@);
        let reconciled: bool = self.rotate_and_reconcile(
            target,
            RotationReason::Publication,
            occurred_at,
            reconcile,
        );
        let ghost end = aborted(
            start.0,
            start.1,
            RotationReason::Publication,
            occurred_at@,
            reconciled,
            self@.epoch,
        );
        if reconciled {
            Ok(())
        } else {
            Err(KernelProblem::ResyncRequired)
        }
    }

    /// A store that could not be read: a new epoch, in which nothing is published
    /// before the store is recovered.
    pub fn publication_failure(&mut self, store_key: &str) -> (r: KernelProblem)
        requires
            old(self).wf(),
            old(self)@.sound(),
        ensures
            final(self).wf(),
            final(self)@.sound(),
            final(self)@ == old(self)@.rotated(
                RotationReason::Publication,
                final(self)@.epoch,
            ).poisoned_by(store_key@),
            r@ == KernelProblemView::ResyncRequired,
    {
        self.rotate_epoch(RotationReason::Publication);
        self.poison(store_key);
        KernelProblem::ResyncRequired
    }

    /// Whether nothing is published before a store is recovered.
    pub fn is_poisoned(&self) -> (r: bool)
        ensures
            r == (self@.poisoned.len() > 0),
    {
        self.poisoned.len() > 0
    }

    /// The stores that have to be recovered before anything is published.
    pub fn poisoned_targets(&self) -> (r: Vec<String>)
        ensures
            texts(r@) == self@.poisoned,
    {
        copy_list(&self.poisoned)
    }

    /// Publishes what waits in a target, in order: compiles it, makes room, has the
    /// store mark it, appends it and hands it to every client. Nothing can be seen
    /// before the store has marked it. Where one step fails the epoch ends: another is
    /// drawn, and that it is another one is as likely as a fresh UUID is new.
    pub fn publish_pending<M: FnOnce() -> bool, R: FnOnce() -> bool>(
        &mut self,
        target: &mut TargetDatabase,
        occurred_at: &str,
        now: u64,
        mark: M,
        reconcile: R,
    ) -> (r: Result<(), KernelProblem>)
        requires
            old(self).wf(),
            old(self)@.sound(),
            old(target).wf(),
            mark.requires(()),
            reconcile.requires(()),
        ensures
            final(self).wf(),
            final(self)@.sound(),
            final(target).wf(),
            published(
                (old(self)@, old(target)@),
                occurred_at@,
                now,
                mark,
                reconcile,
                (final(self)@, final(target)@),
                outcome(r),
            ),
    {
        let ghost start = self@;
        let ghost begun = target@;
        if self.poisoned.len() > 0 {
            proof {
            lemma_published(
                (start, begun),
                occurred_at@,
                now,
                mark,
                reconcile,
                false,
                false,
                (self@, target@),
                Err::<(), KernelProblemView>(KernelProblemView::ResyncRequired),
            );
        }
            return Err(KernelProblem::ResyncRequired);
        }
        let changes: Vec<Json> = target.pending();
        let ghost waiting = pending(begun.outbox);
        assert(waiting == items_view(changes@));
        assert(waiting.len() == changes@.len());
        if changes.len() == 0 {
            proof {
            lemma_published(
                (start, begun),
                occurred_at@,
                now,
                mark,
                reconcile,
                false,
                false,
                (self@, target@),
                Ok::<(), KernelProblemView>(()),
            );
        }
            return Ok(());
        }
        let plan: Result<Vec<JournalEntry>, RotationReason> = self.prepare(
            &changes,
            occurred_at,
            now,
        );
        let ghost roomy = publication_plan(start, waiting, occurred_at@, now).0;
        let ghost readied = self@;
        assert(readied == with_heads(roomy, readied.heads));
        let staged: Vec<JournalEntry> = match plan {
            Ok(staged) => staged,
            Err(reason) => {
                let reconciled: bool = self.rotate_and_reconcile(
                    target,
                    reason,
                    occurred_at,
                    reconcile,
                );
                proof {
            lemma_published(
                (start, begun),
                occurred_at@,
                now,
                mark,
                reconcile,
                false,
                reconciled,
                (self@, target@),
                Err::<(), KernelProblemView>(KernelProblemView::ResyncRequired),
            );
        }
                return Err(KernelProblem::ResyncRequired);
            },
        };
        let marked: bool = mark();
        if !marked {
            let reconciled: bool = self.rotate_and_reconcile(
                target,
                RotationReason::Publication,
                occurred_at,
                reconcile,
            );
            proof {
            lemma_published(
                (start, begun),
                occurred_at@,
                now,
                mark,
                reconcile,
                marked,
                reconciled,
                (self@, target@),
                Err::<(), KernelProblemView>(KernelProblemView::ResyncRequired),
            );
        }
            return Err(KernelProblem::ResyncRequired);
        }
        target.close_pending(occurred_at);
        let next_seq: u64 = match self.next_seq.checked_add(staged.len() as u64) {
            Some(next_seq) => next_seq,
            None => {
                let reconciled: bool = self.rotate_and_reconcile(
                    target,
                    RotationReason::Publication,
                    occurred_at,
                    reconcile,
                );
                proof {
            lemma_published(
                (start, begun),
                occurred_at@,
                now,
                mark,
                reconcile,
                marked,
                reconciled,
                (self@, target@),
                Err::<(), KernelProblemView>(KernelProblemView::ResyncRequired),
            );
        }
                return Err(KernelProblem::ResyncRequired);
            },
        };
        let ghost added = entries_view(staged@);
        proof {
            lemma_appended(readied, added, readied.heads);
        }
        self.append(staged, next_seq);
        proof {
            lemma_published(
                (start, begun),
                occurred_at@,
                now,
                mark,
                reconcile,
                marked,
                false,
                (self@, target@),
                Ok::<(), KernelProblemView>(()),
            );
        }
        Ok(())
    }

    /// What comes of a publication before its store is asked: room in the journal,
    /// and the entries to add; or why the epoch ends.
    fn prepare(&mut self, changes: &Vec<Json>, occurred_at: &str, now: u64) -> (r: Result<
        Vec<JournalEntry>,
        RotationReason,
    >)
        requires
            old(self).wf(),
            old(self)@.sound(),
        ensures
            final(self).wf(),
            final(self)@.sound(),
            ({
                let (roomy, plan) = publication_plan(
                    old(self)@,
                    items_view(changes@),
                    occurred_at@,
                    now,
                );
                &&& final(self)@ == with_heads(roomy, final(self)@.heads)
                &&& final(self)@.next_seq == old(self)@.next_seq
                &&& match r {
                    Ok(v) => {
                        &&& plan == Ok::<(Seq<EntryView>, Heads), RotationReason>(
                            (entries_view(v@), final(self)@.heads),
                        )
                        &&& goes_on(final(self)@, entries_view(v@))
                        &&& final(self)@.entries.len() + v@.len()
                            <= final(self)@.limits.journal_max_events
                        &&& final(self)@.bytes + total(entries_view(v@))
                            <= final(self)@.limits.journal_max_bytes
                    },
                    Err(reason) => plan == Err::<(Seq<EntryView>, Heads), RotationReason>(reason),
                }
            }),
    {
        let ghost start = self@;
        let ghost waiting = items_view(changes@);
        assert(waiting.len() == changes@.len());
        if changes.len() > self.limits.journal_max_events || weigh_stored(changes)
            > self.limits.journal_max_bytes {
            return Err(RotationReason::Capacity);
        }
        let staged: Vec<JournalEntry> = match self.stage(changes, occurred_at, now) {
            Ok(staged) => staged,
            Err(reason) => {
                return Err(reason);
            },
        };
        let ghost added = entries_view(staged@);
        proof {
            lemma_staged(start, waiting, waiting.len(), occurred_at@, now);
        }
        let staged_bytes: usize = weigh(&staged);
        if staged_bytes > self.limits.journal_max_bytes {
            return Err(RotationReason::Capacity);
        }
        let follows: bool = self.follow(&staged);
        let ghost heads = self@.heads;
        proof {
            lemma_heads(start, heads);
            assert(self@ == with_heads(start, heads));
        }
        if !follows {
            return Err(RotationReason::Protocol);
        }
        proof {
            lemma_trimmed_heads(start, heads, added.len(), total(added), now);
            lemma_trimmed(with_heads(start, heads), added.len(), total(added), now);
        }
        if !self.make_capacity(staged.len(), staged_bytes, now) {
            return Err(RotationReason::Capacity);
        }
        Ok(staged)
    }

    fn append(&mut self, staged: Vec<JournalEntry>, next_seq: u64)
        requires
            old(self).wf(),
            old(self)@.sound(),
            next_seq == old(self)@.next_seq + staged@.len(),
            old(self)@.bytes + total(entries_view(staged@)) <= old(self)@.limits.journal_max_bytes,
        ensures
            final(self).wf(),
            final(self)@ == old(self)@.appended(entries_view(staged@), old(self)@.heads),
    {
        let ghost start = self@;
        let ghost added = entries_view(staged@);
        self.bytes = self.bytes.saturating_add(weigh(&staged));
        let mut i: usize = 0;
        assert(entries_view(self.entries@) =~= start.entries + added.take(0));
        while i < staged.len()
            invariant
                self.wf(),
                i <= staged@.len(),
                added == entries_view(staged@),
                entries_view(self.entries@) == start.entries + added.take(i as int),
                self@ == (JournalView {
                    entries: entries_view(self.entries@),
                    bytes: (start.bytes + total(added)) as usize,
                    ..start
                }),
            decreases staged@.len() - i,
        {
            let ghost held = self.entries@;
            let entry: JournalEntry = staged[i].clone();
            self.entries.push_back(entry);
            assert(entries_view(held.push(entry)) =~= entries_view(held).push(entry@));
            assert(start.entries + added.take(i + 1) =~= (start.entries + added.take(
                i as int,
            )).push(added[i as int]));
            i = i + 1;
        }
        assert(added.take(i as int) =~= added);
        self.next_seq = next_seq;
        self.fan_out(&staged);
    }

    /// Recovers every store that could not be asked: what waits there is given up.
    /// `closed` says of each target whether its store took that.
    pub fn recover_poisoned(
        &mut self,
        targets: &mut Vec<TargetDatabase>,
        closed: &Vec<bool>,
        occurred_at: &str,
    ) -> (r: Result<(), KernelProblem>)
        requires
            old(self).wf(),
            old(self)@.sound(),
            targets_wf(old(targets)@),
            closed@.len() == old(targets)@.len(),
        ensures
            final(self).wf(),
            final(self)@.sound(),
            targets_wf(final(targets)@),
            (final(self)@, tables(final(targets)@), outcome(r)) == recover_view(
                old(self)@,
                tables(old(targets)@),
                closed@,
                occurred_at@,
            ),
    {
        let ghost start = self@;
        while self.poisoned.len() > 0
            invariant
                self.wf(),
                self@.sound(),
                start == old(self)@,
                targets_wf(targets@),
                closed@.len() == targets@.len(),
                recover_view(start, tables(old(targets)@), closed@, occurred_at@)
                    == recover_view(self@, tables(targets@), closed@, occurred_at@),
            decreases self.poisoned@.len(),
        {
            let ghost before = self@;
            let ghost had = targets@;
            let key: String = self.poisoned[0].clone();
            assert(self@.poisoned[0] == key@);
            let at: usize = match find_target(targets, key.as_str()) {
                Some(at) => at,
                None => {
                    return Err(KernelProblem::ResyncRequired);
                },
            };
            if !closed[at] {
                return Err(KernelProblem::ResyncRequired);
            }
            let mark: String = cat(OUTBOX_RECONCILED_PREFIX, occurred_at);
            targets[at].close_pending(mark.as_str());
            assert(tables(targets@) =~= tables(had).update(
                at as int,
                given_up(had[at as int]@, occurred_at@),
            ));
            self.poisoned.remove(0);
            assert(texts(self.poisoned@) =~= before.poisoned.skip(1));
            proof {
                let j = self@;
                assert forall|i: int| 0 <= i < j.clients.len() implies j.feeds(
                    #[trigger] j.clients[i],
                ) by {
                    assert(before.feeds(before.clients[i]));
                }
            }
        }
        Ok(())
    }
}

/// What has to be in order before what a store leaves to do is done: the limits were
/// read, and every store that could not be asked is recovered.
pub open spec fn entry_view(
    j: JournalView,
    targets: Seq<TargetTables>,
    closed: Seq<bool>,
    occurred_at: Seq<char>,
) -> (JournalView, Seq<TargetTables>, Result<(), KernelProblemView>) {
    match j.config_error {
        Some(m) => (j, targets, Err(KernelProblemView::ServiceUnavailable(m))),
        None => recover_view(j, targets, closed, occurred_at),
    }
}

/// Whether one of some stores is closed until what it leaves to do is done.
pub open spec fn any_blocked(j: JournalView, targets: Seq<TargetTables>) -> bool {
    exists|i: int| 0 <= i < targets.len() && j.blocked.contains((#[trigger] targets[i]).store_key)
}

/// What has to be in order before anything is read or published: besides that, no store
/// leaves something to do that was not done.
pub open spec fn gate_view(
    j: JournalView,
    targets: Seq<TargetTables>,
    closed: Seq<bool>,
    occurred_at: Seq<char>,
) -> (JournalView, Seq<TargetTables>, Result<(), KernelProblemView>) {
    let entry = entry_view(j, targets, closed, occurred_at);
    if entry.2 is Ok && any_blocked(entry.0, entry.1) {
        (entry.0, entry.1, Err(KernelProblemView::ServiceUnavailable(RUN_ACTIONS_PENDING@)))
    } else {
        entry
    }
}

impl EventJournal {
    /// Closes a store until what it leaves to do is done.
    pub fn block_for_run_actions(&mut self, store_key: &str)
        requires
            old(self).wf(),
            old(self)@.sound(),
        ensures
            final(self).wf(),
            final(self)@.sound(),
            final(self)@ == old(self)@.blocked_by(store_key@),
    {
        let ghost before = self@;
        let ghost had = self.blocked@;
        if !list_has(&self.blocked, store_key) {
            self.blocked.push(store_key.to_owned());
            assert(texts(self.blocked@) =~= texts(had).push(store_key@));
            assert(texts(had).push(store_key@).to_set() =~= texts(had).to_set().insert(store_key@))
                by {
                let all = texts(had).push(store_key@);
                assert(all[had.len() as int] == store_key@);
                assert forall|x: Seq<char>| texts(had).contains(x) implies all.contains(x) by {
                    let k = choose|k: int| 0 <= k < had.len() && texts(had)[k] == x;
                    assert(all[k] == x);
                }
            }
        } else {
            assert(before.blocked.insert(store_key@) =~= before.blocked);
        }
        proof {
            lemma_still_fed(before, self@);
        }
    }

    /// Opens a store again once what it left to do is done.
    pub fn clear_run_action_block(&mut self, store_key: &str)
        requires
            old(self).wf(),
            old(self)@.sound(),
        ensures
            final(self).wf(),
            final(self)@.sound(),
            final(self)@ == old(self)@.freed_of(store_key@),
    {
        let ghost before = self@;
        let ghost had = texts(self.blocked@);
        let mut rest: Vec<String> = Vec::new();
        let mut i: usize = 0;
        while i < self.blocked.len()
            invariant
                i <= self.blocked@.len(),
                had == texts(self.blocked@),
                forall|x: Seq<char>|
                    texts(rest@).contains(x) <==> x != store_key@ && had.take(i as int).contains(x),
            decreases self.blocked@.len() - i,
        {
            let ghost listed = rest@;
            let ghost key = had[i as int];
            assert(self.blocked@[i as int]@ == key);
            if !same(self.blocked[i].as_str(), store_key) {
                let kept: String = self.blocked[i].clone();
                rest.push(kept);
                assert(texts(rest@) =~= texts(listed).push(key));
            }
            assert(had.take(i + 1) =~= had.take(i as int).push(key));
            assert forall|x: Seq<char>|
                texts(rest@).contains(x) <==> x != store_key@ && had.take(i + 1).contains(x) by {
                lemma_contains_push(had.take(i as int), key, x);
                lemma_contains_push(texts(listed), key, x);
                assert(texts(listed).contains(x) <==> x != store_key@ && had.take(
                    i as int,
                ).contains(x));
            }
            i = i + 1;
        }
        assert(had.take(i as int) =~= had);
        self.blocked = rest;
        assert(self@.blocked =~= before.blocked.remove(store_key@));
        proof {
            lemma_still_fed(before, self@);
        }
    }

    fn has_blocked(&self, targets: &Vec<TargetDatabase>) -> (r: bool)
        ensures
            r == any_blocked(self@, tables(targets@)),
    {
        let ghost all = tables(targets@);
        let mut i: usize = 0;
        while i < targets.len()
            invariant
                i <= targets@.len(),
                all == tables(targets@),
                forall|k: int|
                    0 <= k < i ==> !self@.blocked.contains((#[trigger] all[k]).store_key),
            decreases targets@.len() - i,
        {
            assert(all[i as int] == targets@[i as int]@);
            if list_has(&self.blocked, targets[i].store_key()) {
                assert(self@.blocked.contains(all[i as int].store_key));
                return true;
            }
            i = i + 1;
        }
        false
    }

    /// The way in for what stores leave to do: it is open to a store that is closed until
    /// that is done.
    pub fn linearize_run_actions(
        &mut self,
        targets: &mut Vec<TargetDatabase>,
        closed: &Vec<bool>,
        occurred_at: &str,
    ) -> (r: Result<(), KernelProblem>)
        requires
            old(self).wf(),
            old(self)@.sound(),
            targets_wf(old(targets)@),
            closed@.len() == old(targets)@.len(),
        ensures
            final(self).wf(),
            final(self)@.sound(),
            targets_wf(final(targets)@),
            (final(self)@, tables(final(targets)@), outcome(r)) == entry_view(
                old(self)@,
                tables(old(targets)@),
                closed@,
                occurred_at@,
            ),
    {
        match self.ensure_configured() {
            Ok(_) => {},
            Err(p) => {
                return Err(p);
            },
        }
        self.recover_poisoned(targets, closed, occurred_at)
    }

    /// The one way in for everything else: nothing is read, published or followed before
    /// it is open, and while a store leaves something to do it is not.
    pub fn linearize(
        &mut self,
        targets: &mut Vec<TargetDatabase>,
        closed: &Vec<bool>,
        occurred_at: &str,
    ) -> (r: Result<(), KernelProblem>)
        requires
            old(self).wf(),
            old(self)@.sound(),
            targets_wf(old(targets)@),
            closed@.len() == old(targets)@.len(),
        ensures
            final(self).wf(),
            final(self)@.sound(),
            targets_wf(final(targets)@),
            (final(self)@, tables(final(targets)@), outcome(r)) == gate_view(
                old(self)@,
                tables(old(targets)@),
                closed@,
                occurred_at@,
            ),
    {
        match self.linearize_run_actions(targets, closed, occurred_at) {
            Ok(_) => {},
            Err(p) => {
                return Err(p);
            },
        }
        if self.has_blocked(targets) {
            return Err(KernelProblem::unavailable(RUN_ACTIONS_PENDING));
        }
        Ok(())
    }

    /// A place in the stream together with what the stores hold at it.
    pub fn snapshot<T, F: FnOnce() -> Result<T, KernelProblem>>(
        &mut self,
        targets: &mut Vec<TargetDatabase>,
        closed: &Vec<bool>,
        occurred_at: &str,
        read_authority: F,
    ) -> (r: Result<(EventCursor, T), KernelProblem>)
        requires
            old(self).wf(),
            old(self)@.sound(),
            targets_wf(old(targets)@),
            closed@.len() == old(targets)@.len(),
            read_authority.requires(()),
        ensures
            final(self).wf(),
            final(self)@.sound(),
            targets_wf(final(targets)@),
            ({
                let gate = gate_view(
                    old(self)@,
                    tables(old(targets)@),
                    closed@,
                    occurred_at@,
                );
                &&& final(self)@ == gate.0
                &&& tables(final(targets)@) == gate.1
                &&& match r {
                    Ok((cursor, value)) => gate.2 is Ok && cursor@ == (CursorView {
                        stream_epoch: gate.0.epoch,
                        through_seq: gate.0.last_seq() as u64,
                    }) && read_authority.ensures((), Ok(value)),
                    Err(p) => gate.2 == Err::<(), KernelProblemView>(p@) || (gate.2 is Ok
                        && read_authority.ensures((), Err(p))),
                }
            }),
    {
        match self.linearize(targets, closed, occurred_at) {
            Ok(_) => {},
            Err(p) => {
                return Err(p);
            },
        }
        let cursor: EventCursor = self.cursor();
        match read_authority() {
            Ok(value) => Ok((cursor, value)),
            Err(p) => Err(p),
        }
    }

    /// Starts to follow the journal once it is in order.
    pub fn subscribe_live(
        &mut self,
        targets: &mut Vec<TargetDatabase>,
        closed: &Vec<bool>,
        occurred_at: &str,
        cursor: &EventCursor,
    ) -> (r: Result<EventSubscription, KernelProblem>)
        requires
            old(self).wf(),
            old(self)@.sound(),
            targets_wf(old(targets)@),
            closed@.len() == old(targets)@.len(),
        ensures
            final(self).wf(),
            final(self)@.sound(),
            targets_wf(final(targets)@),
            ({
                let gate = gate_view(
                    old(self)@,
                    tables(old(targets)@),
                    closed@,
                    occurred_at@,
                );
                &&& tables(final(targets)@) == gate.1
                &&& match gate.2 {
                    Err(p) => final(self)@ == gate.0 && outcome(r) == Err::<
                        SubscriptionView,
                        KernelProblemView,
                    >(p),
                    Ok(_) => (final(self)@, outcome(r)) == subscribe_view(gate.0, cursor@),
                }
            }),
    {
        match self.linearize(targets, closed, occurred_at) {
            Ok(_) => {},
            Err(p) => {
                return Err(p);
            },
        }
        self.subscribe(cursor)
    }
}

proof fn lemma_contains_push(s: Seq<Seq<char>>, key: Seq<char>, x: Seq<char>)
    ensures
        s.push(key).contains(x) <==> s.contains(x) || x == key,
{
    let all = s.push(key);
    assert(all[s.len() as int] == key);
    if s.contains(x) {
        let k = choose|k: int| 0 <= k < s.len() && s[k] == x;
        assert(all[k] == x);
    }
    if all.contains(x) {
        let k = choose|k: int| 0 <= k < all.len() && all[k] == x;
        if k < s.len() {
            assert(s[k] == x);
        }
    }
}

proof fn lemma_still_fed(before: JournalView, after: JournalView)
    requires
        before.sound(),
        after == (JournalView { blocked: after.blocked, ..before }),
    ensures
        after.sound(),
{
    assert forall|i: int| 0 <= i < after.clients.len() implies after.feeds(
        #[trigger] after.clients[i],
    ) by {
        assert(before.feeds(before.clients[i]));
    }
}

/// A client gets every event once, in order and of one epoch: what a poll gives
/// starts right behind what it got before and goes on without a gap.
pub proof fn law_polls_have_no_gap(j: JournalView, client_id: u64, epoch: Seq<char>)
    requires
        j.sound(),
        poll_view(j, client_id, epoch).1 is Ok,
    ensures
        ({
            let events = poll_view(j, client_id, epoch).1->Ok_0;
            let at = j.place_of(client_id)->0;
            let before = j.clients[at];
            let after = poll_view(j, client_id, epoch).0.clients[at];
            &&& forall|k: int|
                0 <= k < events.len() ==> (#[trigger] events[k]).seq == before.last_delivered + 1
                    + k && events[k].stream_epoch == epoch
            &&& after.last_delivered == before.last_delivered + events.len()
            &&& before.last_delivered < before.replay_until ==> events.len() > 0
            &&& before.last_delivered >= before.replay_until ==> after.last_delivered
                == j.last_seq()
        }),
{
    lemma_polled(j, client_id, epoch);
    let at = j.place_of(client_id)->0;
    let c = j.clients[at];
    assert(j.feeds(c));
    let events = poll_view(j, client_id, epoch).1->Ok_0;
    if c.last_delivered < c.replay_until {
        lemma_replayed(j, 0, c.last_delivered, c.replay_until, seq![], 0);
        assert(events.last() == events[events.len() - 1]);
    } else {
        assert forall|k: int| 0 <= k < events.len() implies (#[trigger] events[k]).seq
            == c.last_delivered + 1 + k && events[k].stream_epoch == epoch by {
            assert(events[k] == c.events[k].event);
        }
        if c.events.len() > 0 {
            assert(c.events.last() == c.events[c.events.len() - 1]);
        }
    }
}

/// Whoever holds the cursor of the journal can follow from there, as long as there
/// is room for one more client.
pub proof fn law_a_cursor_can_be_followed(j: JournalView)
    requires
        j.sound(),
        j.clients.len() < ACTIVE_EVENT_SUBSCRIPTIONS_HARD_CAP,
        j.next_client_id < u64::MAX,
    ensures
        subscribe_view(
            j,
            CursorView { stream_epoch: j.epoch, through_seq: j.last_seq() as u64 },
        ).1 is Ok,
{
}

/// A new epoch sends everyone back to a snapshot: no client of before is fed, and no
/// cursor of another epoch can be followed.
pub proof fn law_a_new_epoch_sends_everyone_back(
    j: JournalView,
    reason: RotationReason,
    fresh: Seq<char>,
    client_id: u64,
    cursor: CursorView,
)
    requires
        cursor.stream_epoch != fresh,
    ensures
        poll_view(j.rotated(reason, fresh), client_id, j.epoch).1 == Err::<
            Seq<EventView>,
            KernelProblemView,
        >(KernelProblemView::ResyncRequired),
        poll_view(j.rotated(reason, fresh), client_id, fresh).1 == Err::<
            Seq<EventView>,
            KernelProblemView,
        >(KernelProblemView::ResyncRequired),
        subscribe_view(j.rotated(reason, fresh), cursor).1 == Err::<
            SubscriptionView,
            KernelProblemView,
        >(KernelProblemView::ResyncRequired),
{
}

/// A publication that fails tells nothing: the journal goes on under the epoch that was
/// drawn, without an event and without a client, and everyone who followed is sent back
/// whichever epoch that is.
pub proof fn law_a_failed_publication_tells_nothing(
    j: JournalView,
    t: TargetTables,
    occurred_at: Seq<char>,
    now: u64,
    marked: bool,
    reconciled: bool,
    fresh: Seq<char>,
    client_id: u64,
    epoch: Seq<char>,
)
    requires
        j.poisoned.len() == 0,
        publish_view(j, t, occurred_at, now, marked, reconciled, fresh).2 is Err,
    ensures
        ({
            let end = publish_view(j, t, occurred_at, now, marked, reconciled, fresh).0;
            &&& end.epoch == fresh
            &&& end.entries.len() == 0
            &&& end.next_seq == 1
            &&& poll_view(end, client_id, epoch).1 == Err::<Seq<EventView>, KernelProblemView>(
                KernelProblemView::ResyncRequired,
            )
        }),
{
}

/// Nothing is skipped in silence: after a publication nothing waits in the target,
/// or the journal publishes nothing more before a store is recovered.
pub proof fn law_nothing_is_skipped(
    j: JournalView,
    t: TargetTables,
    occurred_at: Seq<char>,
    now: u64,
    marked: bool,
    reconciled: bool,
    fresh: Seq<char>,
)
    ensures
        ({
            let end = publish_view(j, t, occurred_at, now, marked, reconciled, fresh);
            pending(end.1.outbox).len() == 0 || end.0.poisoned.len() > 0
        }),
{
    law_nothing_waits_once_closed_off(t.outbox, occurred_at);
    law_nothing_waits_once_closed_off(t.outbox, OUTBOX_RECONCILED_PREFIX@ + occurred_at);
    law_nothing_waits_once_closed_off(
        closed_off(t.outbox, occurred_at),
        OUTBOX_RECONCILED_PREFIX@ + occurred_at,
    );
}

/// What is published is everything that waited, in order: the events that were not
/// there before are the changes that waited, numbered on from the last event.
pub proof fn law_publication_keeps_the_order(
    j: JournalView,
    t: TargetTables,
    occurred_at: Seq<char>,
    now: u64,
    marked: bool,
    reconciled: bool,
    fresh: Seq<char>,
    k: int,
)
    requires
        j.sound(),
        pending(t.outbox).len() > 0,
        publish_view(j, t, occurred_at, now, marked, reconciled, fresh).2 is Ok,
        0 <= k < pending(t.outbox).len(),
    ensures
        ({
            let changes = pending(t.outbox);
            let end = publish_view(j, t, occurred_at, now, marked, reconciled, fresh).0;
            let at = end.entries.len() - changes.len() + k;
            &&& 0 <= at < end.entries.len()
            &&& end.next_seq == j.next_seq + changes.len()
            &&& compiled_event(j.epoch, (j.next_seq + k) as u64, occurred_at, changes[k]) == Ok::<
                EventView,
                Seq<char>,
            >(end.entries[at].event)
        }),
{
    let changes = pending(t.outbox);
    let plan = publication_plan(j, changes, occurred_at, now);
    let staged = plan.1->Ok_0.0;
    lemma_staged(j, changes, changes.len(), occurred_at, now);
    lemma_staged_event(j, changes, changes.len(), occurred_at, now, k);
    lemma_trimmed(j, staged.len(), total(staged), now);
    let end = publish_view(j, t, occurred_at, now, marked, reconciled, fresh).0;
    assert(end.entries == plan.0.entries + staged);
    assert(end.entries[plan.0.entries.len() + k] == staged[k]);
}

proof fn lemma_staged_event(
    j: JournalView,
    changes: Seq<JsonView>,
    n: nat,
    occurred_at: Seq<char>,
    now: u64,
    k: int,
)
    requires
        staged_entries(j, changes, n, occurred_at, now) is Ok,
        0 <= k < n,
    ensures
        staged_entries(j, changes, n, occurred_at, now)->Ok_0.len() == n,
        compiled_event(j.epoch, (j.next_seq + k) as u64, occurred_at, changes[k]) == Ok::<
            EventView,
            Seq<char>,
        >(staged_entries(j, changes, n, occurred_at, now)->Ok_0[k].event),
    decreases n,
{
    lemma_staged(j, changes, n, occurred_at, now);
    lemma_staged(j, changes, (n - 1) as nat, occurred_at, now);
    if k < n - 1 {
        lemma_staged_event(j, changes, (n - 1) as nat, occurred_at, now, k);
    }
}

/// A slow client never holds up the others: each other client with room gets the new
/// events, and its queue is fed without regard to anyone else's.
pub proof fn law_a_slow_client_slows_no_one(
    j: JournalView,
    staged: Seq<EntryView>,
    heads: Heads,
    at: int,
)
    requires
        j.sound(),
        0 <= at < j.clients.len(),
        fed(j.clients[at], staged, j.limits) is Some,
    ensures
        j.appended(staged, heads).clients.contains(fed(j.clients[at], staged, j.limits)->0),
{
    lemma_fed_is_kept(j.clients, staged, j.limits, at);
}

proof fn lemma_fed_is_kept(
    clients: Seq<ClientView>,
    staged: Seq<EntryView>,
    limits: JournalLimits,
    at: int,
)
    requires
        0 <= at < clients.len(),
        fed(clients[at], staged, limits) is Some,
    ensures
        fanned(clients, staged, limits).contains(fed(clients[at], staged, limits)->0),
    decreases clients.len(),
{
    let all = fanned(clients, staged, limits);
    let kept = fed(clients[at], staged, limits)->0;
    let rest = fanned(clients.drop_last(), staged, limits);
    if at < clients.len() - 1 {
        lemma_fed_is_kept(clients.drop_last(), staged, limits, at);
        assert(clients.drop_last()[at] == clients[at]);
        let i = choose|i: int| 0 <= i < rest.len() && rest[i] == kept;
        assert(all[i] == kept);
    } else {
        assert(all[all.len() - 1] == kept);
    }
}

/// The journal never grows over its bounds, whatever is published.
pub proof fn law_the_journal_is_bounded(
    j: JournalView,
    t: TargetTables,
    occurred_at: Seq<char>,
    now: u64,
    marked: bool,
    reconciled: bool,
    fresh: Seq<char>,
)
    requires
        j.sound(),
    ensures
        ({
            let end = publish_view(j, t, occurred_at, now, marked, reconciled, fresh).0;
            &&& end.entries.len() <= j.limits.journal_max_events
            &&& end.bytes <= j.limits.journal_max_bytes
            &&& forall|i: int|
                0 <= i < end.clients.len() ==> (#[trigger] end.clients[i]).events.len()
                    <= j.limits.client_event_queue_max_events && end.clients[i].bytes
                    <= j.limits.client_event_queue_max_bytes
        }),
{
    let changes = pending(t.outbox);
    assert forall|i: int| 0 <= i < j.clients.len() implies (
    #[trigger] j.clients[i]).events.len() <= j.limits.client_event_queue_max_events
        && j.clients[i].bytes <= j.limits.client_event_queue_max_bytes by {
        assert(j.feeds(j.clients[i]));
    }
    if j.poisoned.len() == 0 && changes.len() > 0 {
        let plan = publication_plan(j, changes, occurred_at, now);
        if plan.1 is Ok {
            let staged = plan.1->Ok_0.0;
            let heads = plan.1->Ok_0.1;
            lemma_staged(j, changes, changes.len(), occurred_at, now);
            lemma_trimmed(j, staged.len(), total(staged), now);
            if j.next_seq + staged.len() <= u64::MAX {
                lemma_appended(plan.0, staged, heads);
                let end = plan.0.appended(staged, heads);
                assert forall|i: int| 0 <= i < end.clients.len() implies (
                #[trigger] end.clients[i]).events.len() <= j.limits.client_event_queue_max_events
                    && end.clients[i].bytes <= j.limits.client_event_queue_max_bytes by {
                    assert(end.feeds(end.clients[i]));
                }
            }
        }
    }
}

/// Once every store is recovered nothing waits in any of them, and the journal
/// publishes again.
pub proof fn law_recovery_gives_up_what_waited(
    j: JournalView,
    targets: Seq<TargetTables>,
    closed: Seq<bool>,
    occurred_at: Seq<char>,
    key: Seq<char>,
)
    requires
        recover_view(j, targets, closed, occurred_at).2 is Ok,
        closed.len() == targets.len(),
        j.poisoned.contains(key),
    ensures
        recover_view(j, targets, closed, occurred_at).0.poisoned.len() == 0,
        exists|at: int|
            0 <= at < targets.len() && (#[trigger] recover_view(
                j,
                targets,
                closed,
                occurred_at,
            ).1[at]).store_key == key && pending(
                recover_view(j, targets, closed, occurred_at).1[at].outbox,
            ).len() == 0,
    decreases j.poisoned.len(),
{
    let end = recover_view(j, targets, closed, occurred_at);
    let first = target_at(targets, j.poisoned[0], 0)->0;
    lemma_target_at(targets, j.poisoned[0], 0);
    let next = JournalView { poisoned: j.poisoned.skip(1), ..j };
    let given = targets.update(first, given_up(targets[first], occurred_at));
    if next.poisoned.contains(key) {
        law_recovery_gives_up_what_waited(next, given, closed, occurred_at, key);
    } else {
        let i = choose|i: int| 0 <= i < j.poisoned.len() && j.poisoned[i] == key;
        if i > 0 {
            assert(next.poisoned[i - 1] == key);
        }
        law_nothing_waits_once_closed_off(
            targets[first].outbox,
            OUTBOX_RECONCILED_PREFIX@ + occurred_at,
        );
        lemma_recovery_stays(next, given, closed, occurred_at, first);
        assert(end.1[first].store_key == key);
    }
}

proof fn lemma_recovery_stays(
    j: JournalView,
    targets: Seq<TargetTables>,
    closed: Seq<bool>,
    occurred_at: Seq<char>,
    at: int,
)
    requires
        recover_view(j, targets, closed, occurred_at).2 is Ok,
        closed.len() == targets.len(),
        0 <= at < targets.len(),
        pending(targets[at].outbox).len() == 0,
    ensures
        ({
            let end = recover_view(j, targets, closed, occurred_at);
            &&& end.0.poisoned.len() == 0
            &&& end.1.len() == targets.len()
            &&& end.1[at].store_key == targets[at].store_key
            &&& pending(end.1[at].outbox).len() == 0
        }),
    decreases j.poisoned.len(),
{
    if j.poisoned.len() > 0 {
        let first = target_at(targets, j.poisoned[0], 0)->0;
        lemma_target_at(targets, j.poisoned[0], 0);
        let next = JournalView { poisoned: j.poisoned.skip(1), ..j };
        let given = targets.update(first, given_up(targets[first], occurred_at));
        law_nothing_waits_once_closed_off(
            targets[first].outbox,
            OUTBOX_RECONCILED_PREFIX@ + occurred_at,
        );
        lemma_recovery_stays(next, given, closed, occurred_at, at);
    }
}
} // verus!
