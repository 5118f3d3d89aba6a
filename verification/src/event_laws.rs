//! What holds of every event that clients follow: that it shows the stored change, that each
//! change is told once and in order, and that whoever resumes misses nothing.

use crate::dispatch::{pending, OutboxView, TargetTables};
use crate::handles::AggregateKind;
use crate::journal::{
    fanned, law_polls_have_no_gap, law_publication_keeps_the_order, lemma_staged, poll_view,
    ACTIVE_EVENT_SUBSCRIPTIONS_HARD_CAP, publication_plan, publish_view, replayed, subscribe_view,
    total, ClientView, EntryView, JournalView, SubscriptionView,
};
use crate::json::{as_text_view, field_of, JsonView};
use crate::limits::JournalLimits;
use crate::problem::KernelProblemView;
use crate::projection::{compiled_event, AggregateRevision, CursorView, EventView};
use vstd::prelude::*;
use vstd::string::*;

verus! {

/// Whether a field holds a number, of those that a machine word holds.
pub open spec fn holds_number(v: JsonView, name: Seq<char>, n: u64) -> bool {
    match field_of(v, name) {
        Some(JsonView::Unsigned(m)) => m <= u64::MAX ==> m == n,
        _ => false,
    }
}

/// Whether a stored value says a revision: one number, or for a workflow one on each axis.
pub open spec fn says_revision(v: JsonView, kind: AggregateKind, r: AggregateRevision) -> bool {
    match r {
        AggregateRevision::Workflow(w) => kind is ProjectWorkflow && holds_number(
            v,
            "semantic_revision"@,
            w.semantic_revision,
        ) && holds_number(v, "presentation_revision"@, w.presentation_revision),
        AggregateRevision::Scalar(s) => !(kind is ProjectWorkflow) && holds_number(
            v,
            "revision"@,
            s.revision,
        ),
    }
}

/// An event shows the stored change, whatever its mode: what clients are to see is the delta
/// of the change as it stands; the aggregate, the type, the command and the two revisions are
/// those of the change; and the place is the one that was asked for.
pub proof fn law_an_event_shows_the_stored_change(
    epoch: Seq<char>,
    seq: u64,
    occurred_at: Seq<char>,
    value: JsonView,
)
    requires
        compiled_event(epoch, seq, occurred_at, value) is Ok,
    ensures
        ({
            let e = compiled_event(epoch, seq, occurred_at, value)->Ok_0;
            let shown = field_of(value, "projection"@);
            let about = field_of(value, "aggregate"@);
            &&& shown is Some
            &&& about is Some
            &&& field_of(shown->0, "delta"@) == Some(e.projection)
            &&& e.stream_epoch == epoch
            &&& e.seq == seq
            &&& e.occurred_at == occurred_at
            &&& field_of(about->0, "handle"@) == Some(JsonView::Text(e.aggregate.handle))
            &&& field_of(about->0, "kind"@) == Some(JsonView::Text(e.aggregate.kind.name()))
            &&& field_of(value, "type"@) == Some(JsonView::Text(e.event_type + ".applied"@))
                || field_of(value, "type"@) == Some(JsonView::Text(e.event_type))
            &&& field_of(shown->0, "base_revision"@) matches Some(v) && says_revision(
                v,
                e.aggregate.kind,
                e.base_revision,
            )
            &&& field_of(shown->0, "aggregate_revision"@) matches Some(v) && says_revision(
                v,
                e.aggregate.kind,
                e.aggregate_revision,
            )
            &&& e.caused_by_command_id == (match field_of(value, "caused_by_command_id"@) {
                Some(JsonView::Text(id)) => Some(id),
                _ => None,
            })
            &&& e.projection_critical == (field_of(value, "projection_critical"@) != Some(
                JsonView::Bool(false),
            ))
        }),
{
    let e = compiled_event(epoch, seq, occurred_at, value)->Ok_0;
    let stored = as_text_view(field_of(value, "type"@))->0;
    if crate::text::ends(".applied"@, stored) {
        lemma_cut(stored, ".applied"@);
    }
}

proof fn lemma_cut(stored: Seq<char>, end: Seq<char>)
    requires
        crate::text::ends(end, stored),
    ensures
        stored.take(stored.len() - end.len()) + end == stored,
{
    assert(stored.take(stored.len() - end.len()) + end =~= stored);
}

/// An event moves its aggregate forward. What replaces something, and what a client works
/// into what it has, comes with a revision of its own; a delta takes exactly one step.
pub proof fn law_an_event_moves_forward(
    epoch: Seq<char>,
    seq: u64,
    occurred_at: Seq<char>,
    value: JsonView,
)
    requires
        compiled_event(epoch, seq, occurred_at, value) is Ok,
    ensures
        ({
            let e = compiled_event(epoch, seq, occurred_at, value)->Ok_0;
            let mode = field_of(e.projection, "mode"@);
            &&& match (e.base_revision, e.aggregate_revision) {
                (AggregateRevision::Workflow(b), AggregateRevision::Workflow(a)) => {
                    a.semantic_revision >= b.semantic_revision && a.presentation_revision
                        >= b.presentation_revision
                },
                (AggregateRevision::Scalar(b), AggregateRevision::Scalar(a)) => a.revision
                    >= b.revision,
                _ => false,
            }
            &&& mode == Some(JsonView::Text("typed_delta"@)) || mode == Some(
                JsonView::Text("replace"@),
            ) || mode == Some(JsonView::Text("tombstone"@))
            &&& mode == Some(JsonView::Text("replace"@)) ==> e.aggregate_revision != e.base_revision
                && field_of(e.projection, "data"@) is Some
            &&& mode == Some(JsonView::Text("typed_delta"@)) ==> field_of(e.projection, "data"@)
                is Some && field_of(e.projection, "delta_type"@) == Some(
                JsonView::Text(e.event_type),
            )
            &&& mode == Some(JsonView::Text("typed_delta"@)) ==> match (
                e.base_revision,
                e.aggregate_revision,
            ) {
                (AggregateRevision::Workflow(b), AggregateRevision::Workflow(a)) => (
                a.semantic_revision - b.semantic_revision) + (a.presentation_revision
                    - b.presentation_revision) == 1,
                (AggregateRevision::Scalar(b), AggregateRevision::Scalar(a)) => a.revision
                    == b.revision + 1 || a.revision == u64::MAX,
                _ => false,
            }
        }),
{
    reveal_strlit("typed_delta");
    reveal_strlit("replace");
    reveal_strlit("tombstone");
    assert("typed_delta"@.len() == 11 && "replace"@.len() == 7 && "tombstone"@.len() == 9);
}

/// What waits is every event that was not published, in the order it was written.
pub proof fn law_what_waits_is_what_was_not_published(rows: Seq<OutboxView>)
    ensures
        pending(rows) == rows.filter(|r: OutboxView| r.published_at is None).map_values(
            |r: OutboxView| r.event,
        ),
    decreases rows.len(),
{
    reveal(Seq::filter);
    let keep = |r: OutboxView| r.published_at is None;
    let told = |r: OutboxView| r.event;
    if rows.len() > 0 {
        law_what_waits_is_what_was_not_published(rows.drop_last());
        let rest = rows.drop_last().filter(keep);
        assert(rows.filter(keep) == if keep(rows.last()) {
            rest.push(rows.last())
        } else {
            rest
        });
        assert(pending(rows) =~= rows.filter(keep).map_values(told));
    } else {
        assert(pending(rows) =~= rows.filter(keep).map_values(told));
    }
}

proof fn lemma_only_from_the_front(j: JournalView, events: nat, bytes: nat, now: u64)
    ensures
        exists|x: int|
            0 <= x <= j.entries.len() && j.trimmed(events, bytes, now).0.entries
                == #[trigger] j.entries.skip(x),
        j.trimmed(events, bytes, now).0.clients == j.clients,
        j.trimmed(events, bytes, now).0.limits == j.limits,
        j.trimmed(events, bytes, now).0.epoch == j.epoch,
    decreases j.entries.len(),
{
    assert(j.entries.skip(0) =~= j.entries);
    if j.entries.len() > 0 {
        let less = j.evicted();
        lemma_only_from_the_front(less, events, bytes, now);
        let x = choose|x: int|
            0 <= x <= less.entries.len() && less.trimmed(events, bytes, now).0.entries
                == #[trigger] less.entries.skip(x);
        assert(less.entries.skip(x) =~= j.entries.skip(x + 1));
    }
}

proof fn lemma_same_epoch(
    j: JournalView,
    t: TargetTables,
    occurred_at: Seq<char>,
    now: u64,
    marked: bool,
    reconciled: bool,
    fresh: Seq<char>,
)
    requires
        publish_view(j, t, occurred_at, now, marked, reconciled, fresh).2 is Ok,
    ensures
        publish_view(j, t, occurred_at, now, marked, reconciled, fresh).0.epoch == j.epoch,
{
    let changes = pending(t.outbox);
    if j.poisoned.len() == 0 && changes.len() > 0 {
        let staged = publication_plan(j, changes, occurred_at, now).1->Ok_0.0;
        lemma_only_from_the_front(j, staged.len(), total(staged), now);
    }
}

/// A publication that succeeds marks everything that waited, and only that, at its moment;
/// no event changes, and none is lost.
pub proof fn law_a_publication_marks_what_it_tells(
    j: JournalView,
    t: TargetTables,
    occurred_at: Seq<char>,
    now: u64,
    marked: bool,
    reconciled: bool,
    fresh: Seq<char>,
    r: int,
)
    requires
        publish_view(j, t, occurred_at, now, marked, reconciled, fresh).2 is Ok,
        0 <= r < t.outbox.len(),
    ensures
        ({
            let (j1, t1, _) = publish_view(j, t, occurred_at, now, marked, reconciled, fresh);
            &&& t1.outbox.len() == t.outbox.len()
            &&& t1.outbox[r].event == t.outbox[r].event
            &&& t1.outbox[r].published_at == (match t.outbox[r].published_at {
                Some(at) => Some(at),
                None => Some(occurred_at),
            })
            &&& t1.receipts == t.receipts
            &&& t1.store_key == t.store_key
            &&& t.outbox[r].published_at is None ==> marked
            &&& j1.epoch == j.epoch
        }),
{
    let waits = |row: OutboxView| row.published_at is None;
    lemma_same_epoch(j, t, occurred_at, now, marked, reconciled, fresh);
    law_what_waits_is_what_was_not_published(t.outbox);
    if t.outbox[r].published_at is None {
        t.outbox.filter_lemma(waits);
        assert(t.outbox.filter(waits).contains(t.outbox[r])) by {
            t.outbox.lemma_filter_contains(waits, r);
        }
        assert(pending(t.outbox).len() > 0);
    }
}

/// Where nothing waits a publication changes nothing.
pub proof fn law_nothing_to_tell_changes_nothing(
    j: JournalView,
    t: TargetTables,
    occurred_at: Seq<char>,
    now: u64,
    marked: bool,
    reconciled: bool,
    fresh: Seq<char>,
)
    requires
        j.poisoned.len() == 0,
        forall|r: int| 0 <= r < t.outbox.len() ==> (#[trigger] t.outbox[r]).published_at is Some,
    ensures
        publish_view(j, t, occurred_at, now, marked, reconciled, fresh) == (
            j,
            t,
            Ok::<(), KernelProblemView>(()),
        ),
{
    let waits = |row: OutboxView| row.published_at is None;
    law_what_waits_is_what_was_not_published(t.outbox);
    if t.outbox.filter(waits).len() > 0 {
        t.outbox.filter_lemma(waits);
        assert(t.outbox.filter(waits).contains(t.outbox.filter(waits)[0]));
        t.outbox.lemma_filter_contains_rev(waits, t.outbox.filter(waits)[0]);
    }
}

/// The events that a publication adds are those that waited, each once and in order: the
/// n-th comes n-th behind the last event of before, under the same epoch, and shows the n-th
/// change.
pub proof fn law_what_waited_is_told_once_and_in_order(
    j: JournalView,
    t: TargetTables,
    occurred_at: Seq<char>,
    now: u64,
    marked: bool,
    reconciled: bool,
    fresh: Seq<char>,
    k: int,
)
    requires
        j.sound(),
        publish_view(j, t, occurred_at, now, marked, reconciled, fresh).2 is Ok,
        0 <= k < t.outbox.filter(|r: OutboxView| r.published_at is None).len(),
    ensures
        ({
            let waiting = t.outbox.filter(|r: OutboxView| r.published_at is None);
            let end = publish_view(j, t, occurred_at, now, marked, reconciled, fresh).0;
            let at = end.entries.len() - waiting.len() + k;
            let e = end.entries[at].event;
            let shown = field_of(waiting[k].event, "projection"@)->0;
            &&& 0 <= at < end.entries.len()
            &&& e.stream_epoch == j.epoch
            &&& e.seq == j.next_seq + k
            &&& e.occurred_at == occurred_at
            &&& field_of(shown, "delta"@) == Some(e.projection)
            &&& end.next_seq == j.next_seq + waiting.len()
            &&& end.epoch == j.epoch
        }),
{
    lemma_same_epoch(j, t, occurred_at, now, marked, reconciled, fresh);
    law_what_waits_is_what_was_not_published(t.outbox);
    let waiting = t.outbox.filter(|r: OutboxView| r.published_at is None);
    assert(pending(t.outbox)[k] == waiting[k].event);
    law_publication_keeps_the_order(j, t, occurred_at, now, marked, reconciled, fresh, k);
    let changes = pending(t.outbox);
    let staged = publication_plan(j, changes, occurred_at, now).1->Ok_0.0;
    lemma_staged(j, changes, changes.len(), occurred_at, now);
    assert(j.next_seq + changes.len() <= u64::MAX);
    law_an_event_shows_the_stored_change(
        j.epoch,
        (j.next_seq + k) as u64,
        occurred_at,
        changes[k],
    );
}

/// What was told before stays as it was told; only the oldest events make room.
pub proof fn law_what_was_told_stays_as_it_was(
    j: JournalView,
    t: TargetTables,
    occurred_at: Seq<char>,
    now: u64,
    marked: bool,
    reconciled: bool,
    fresh: Seq<char>,
)
    requires
        publish_view(j, t, occurred_at, now, marked, reconciled, fresh).2 is Ok,
    ensures
        ({
            let end = publish_view(j, t, occurred_at, now, marked, reconciled, fresh).0;
            exists|x: int|
                0 <= x <= j.entries.len() && (#[trigger] j.entries.skip(x)).is_prefix_of(
                    end.entries,
                )
        }),
{
    let end = publish_view(j, t, occurred_at, now, marked, reconciled, fresh).0;
    let changes = pending(t.outbox);
    assert(j.entries.skip(0) =~= j.entries);
    if j.poisoned.len() == 0 && changes.len() > 0 {
        let (roomy, plan) = publication_plan(j, changes, occurred_at, now);
        let staged = plan->Ok_0.0;
        lemma_only_from_the_front(j, staged.len(), total(staged), now);
        let x = choose|x: int|
            0 <= x <= j.entries.len() && roomy.entries == #[trigger] j.entries.skip(x);
        assert(j.entries.skip(x).is_prefix_of(end.entries)) by {
            assert(end.entries.take(j.entries.skip(x).len() as int) =~= j.entries.skip(x));
        }
    } else {
        assert(j.entries.skip(0).is_prefix_of(end.entries)) by {
            assert(end.entries.take(j.entries.len() as int) =~= j.entries);
        }
    }
}

proof fn lemma_fanned(clients: Seq<ClientView>, staged: Seq<EntryView>, limits: JournalLimits, i: int)
    requires
        0 <= i < fanned(clients, staged, limits).len(),
    ensures
        ({
            let c = fanned(clients, staged, limits)[i];
            exists|o: int|
                0 <= o < clients.len() && (#[trigger] clients[o]).client_id == c.client_id
                    && c.events == clients[o].events + staged && c.last_delivered
                    == clients[o].last_delivered && c.replay_until == clients[o].replay_until
        }),
    decreases clients.len(),
{
    let rest = clients.drop_last();
    let all = fanned(clients, staged, limits);
    let before = fanned(rest, staged, limits);
    if clients.len() > 0 {
        if i < before.len() {
            lemma_fanned(rest, staged, limits, i);
            let c = before[i];
            assert(all[i] == c);
            let o = choose|o: int|
                0 <= o < rest.len() && (#[trigger] rest[o]).client_id == c.client_id && c.events
                    == rest[o].events + staged && c.last_delivered == rest[o].last_delivered
                    && c.replay_until == rest[o].replay_until;
            assert(clients[o] == rest[o]);
        } else {
            let o = clients.len() - 1;
            assert(clients[o] == clients.last());
        }
    }
}

/// Every client that is still followed gets every new event, in order and once, behind what
/// it had not fetched yet.
pub proof fn law_every_client_gets_every_new_event(
    j: JournalView,
    t: TargetTables,
    occurred_at: Seq<char>,
    now: u64,
    marked: bool,
    reconciled: bool,
    fresh: Seq<char>,
    i: int,
)
    requires
        j.sound(),
        publish_view(j, t, occurred_at, now, marked, reconciled, fresh).2 is Ok,
        0 <= i < publish_view(j, t, occurred_at, now, marked, reconciled, fresh).0.clients.len(),
    ensures
        ({
            let end = publish_view(j, t, occurred_at, now, marked, reconciled, fresh).0;
            let c = end.clients[i];
            let added = end.entries.skip(end.entries.len() - (end.next_seq - j.next_seq));
            exists|o: int|
                0 <= o < j.clients.len() && (#[trigger] j.clients[o]).client_id == c.client_id
                    && c.events == j.clients[o].events + added && c.last_delivered
                    == j.clients[o].last_delivered
        }),
{
    let end = publish_view(j, t, occurred_at, now, marked, reconciled, fresh).0;
    let changes = pending(t.outbox);
    let c = end.clients[i];
    let added = end.entries.skip(end.entries.len() - (end.next_seq - j.next_seq));
    if j.poisoned.len() == 0 && changes.len() > 0 {
        let (roomy, plan) = publication_plan(j, changes, occurred_at, now);
        let staged = plan->Ok_0.0;
        lemma_staged(j, changes, changes.len(), occurred_at, now);
        lemma_only_from_the_front(j, staged.len(), total(staged), now);
        lemma_same_seq(j, staged.len(), total(staged), now);
        lemma_fanned(j.clients, staged, j.limits, i);
        assert(added =~= staged);
    } else {
        assert(added =~= Seq::<EntryView>::empty());
        assert(j.clients[i].events + added =~= j.clients[i].events);
    }
}

proof fn lemma_same_seq(j: JournalView, events: nat, bytes: nat, now: u64)
    ensures
        j.trimmed(events, bytes, now).0.next_seq == j.next_seq,
    decreases j.entries.len(),
{
    if j.entries.len() > 0 {
        lemma_same_seq(j.evicted(), events, bytes, now);
    }
}

proof fn lemma_replayed_from(
    entries: Seq<EntryView>,
    at: nat,
    after: u64,
    until: u64,
    limits: JournalLimits,
    got: Seq<EventView>,
    bytes: nat,
)
    requires
        replayed(entries, at, after, until, limits, got, bytes) is Some,
        forall|k: int|
            0 <= k < got.len() ==> exists|i: int|
                0 <= i < entries.len() && #[trigger] entries[i].event == #[trigger] got[k],
    ensures
        ({
            let all = replayed(entries, at, after, until, limits, got, bytes)->0;
            forall|k: int|
                0 <= k < all.len() ==> exists|i: int|
                    0 <= i < entries.len() && #[trigger] entries[i].event == #[trigger] all[k]
        }),
    decreases entries.len() - at,
{
    if at < entries.len() {
        let entry = entries[at as int];
        let more = got.push(entry.event);
        assert forall|k: int| 0 <= k < more.len() implies exists|i: int|
            0 <= i < entries.len() && #[trigger] entries[i].event == #[trigger] more[k] by {
            if k < got.len() {
                assert(more[k] == got[k]);
            } else {
                assert(entries[at as int].event == more[k]);
            }
        }
        if !(after < entry.event.seq <= until) {
            lemma_replayed_from(entries, at + 1, after, until, limits, got, bytes);
        } else if entry.encoded_bytes > limits.client_event_queue_max_bytes {
        } else if got.len() > 0 && (got.len() >= limits.client_event_queue_max_events || bytes
            + entry.encoded_bytes > limits.client_event_queue_max_bytes) {
        } else {
            lemma_replayed_from(
                entries,
                at + 1,
                after,
                until,
                limits,
                more,
                bytes + entry.encoded_bytes as nat,
            );
        }
    }
}

/// A poll gives events as they were told: each is one of the journal or one that waited for
/// this client, and what waited is given in full.
pub proof fn law_a_poll_gives_what_was_told(j: JournalView, client_id: u64, epoch: Seq<char>, k: int)
    requires
        poll_view(j, client_id, epoch).1 is Ok,
        0 <= k < poll_view(j, client_id, epoch).1->Ok_0.len(),
    ensures
        ({
            let events = poll_view(j, client_id, epoch).1->Ok_0;
            let c = j.clients[j.place_of(client_id)->0];
            &&& j.epoch == epoch
            &&& c.client_id == client_id
            &&& c.last_delivered < c.replay_until ==> exists|i: int|
                0 <= i < j.entries.len() && #[trigger] j.entries[i].event == events[k]
            &&& c.last_delivered >= c.replay_until ==> events.len() == c.events.len() && events[k]
                == c.events[k].event
        }),
{
    let c = j.clients[j.place_of(client_id)->0];
    if c.last_delivered < c.replay_until {
        lemma_replayed_from(
            j.entries,
            0,
            c.last_delivered,
            c.replay_until,
            j.limits,
            seq![],
            0,
        );
    }
}

/// Whoever resumes misses nothing: a client is let in exactly where the journal goes on from
/// the event that it has seen last, in the same epoch, with every later event still there;
/// and the first thing that it gets is the event right behind.
pub proof fn law_who_resumes_misses_nothing(j: JournalView, cursor: CursorView)
    requires
        j.sound(),
        j.clients.len() < ACTIVE_EVENT_SUBSCRIPTIONS_HARD_CAP,
        j.next_client_id < u64::MAX,
    ensures
        ({
            let (j1, answer) = subscribe_view(j, cursor);
            let oldest = j.next_seq - j.entries.len();
            &&& answer is Ok <==> cursor.stream_epoch == j.epoch && cursor.through_seq < j.next_seq
                && cursor.through_seq + 1 >= oldest
            &&& answer is Err ==> answer == Err::<SubscriptionView, KernelProblemView>(
                KernelProblemView::ResyncRequired,
            ) && j1.clients == j.clients
            &&& answer is Ok ==> {
                let s = answer->Ok_0;
                let polled = poll_view(j1, s.client_id, s.stream_epoch).1;
                &&& s.stream_epoch == j.epoch
                &&& s.hello.last_seq == j.next_seq - 1
                &&& s.hello.first_available_seq == oldest
                &&& j1.entries == j.entries
                &&& j1.clients.len() == j.clients.len() + 1
                &&& cursor.through_seq == j.next_seq - 1 ==> polled == Ok::<
                    Seq<EventView>,
                    KernelProblemView,
                >(seq![])
                &&& cursor.through_seq < j.next_seq - 1 && polled is Ok ==> polled->Ok_0.len() > 0
                    && polled->Ok_0[0].seq == cursor.through_seq + 1 && polled->Ok_0[0].stream_epoch
                    == j.epoch
            }
        }),
{
    let (j1, answer) = subscribe_view(j, cursor);
    if j.entries.len() > 0 {
        assert(j.entries[0].event.seq == j.next_seq - j.entries.len());
    }
    if answer is Ok {
        let s = answer->Ok_0;
        let new = j1.clients[j1.clients.len() - 1];
        assert forall|i: int| 0 <= i < j1.clients.len() implies j1.feeds(
            #[trigger] j1.clients[i],
        ) by {
            if i < j.clients.len() {
                assert(j1.clients[i] == j.clients[i]);
                assert(j.feeds(j.clients[i]));
            }
        }
        assert forall|a: int, b: int| 0 <= a < b < j1.clients.len() implies (
        #[trigger] j1.clients[a]).client_id < (#[trigger] j1.clients[b]).client_id by {
            assert(j.feeds(j.clients[a]));
        }
        assert(j1.sound());
        let at = j1.clients.len() - 1;
        assert(j1.clients[at].client_id == s.client_id);
        assert(j1.place_of(s.client_id) == Some(at)) by {
            let p = j1.place_of(s.client_id)->0;
            if p != at {
                assert(j1.clients[p].client_id < j1.clients[at].client_id);
            }
        }
        if poll_view(j1, s.client_id, s.stream_epoch).1 is Ok {
            law_polls_have_no_gap(j1, s.client_id, s.stream_epoch);
        }
        if cursor.through_seq == j.next_seq - 1 {
            assert(poll_view(j1, s.client_id, s.stream_epoch).1->Ok_0 =~= seq![]);
        }
    }
}

} // verus!
