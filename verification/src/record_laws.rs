//! What holds of the records that commands leave: what a restart makes of them, and what a
//! round of cleaning takes away and leaves.

use crate::command::{EnvelopeView, ProblemView};
use crate::dispatch::{
    ended_problem, finish_intent_view, receipt_result, reconcile_view, refusal_state, replay_view,
    reserve_view, IntentState, IntentView, Intents, ReceiptView, Receipts, ReconcileEnd,
    TargetTables,
};
use crate::limits::RetentionLimits;
use crate::moment::{moment_text, Moment};
use crate::operation::{target_at, OperationView};
use crate::reconcile::{
    cleaned, kept_audit, kept_operations, receipts_cleaned, settled_intents, young_receipts,
    AuditView, ProtectionView, Records,
};
use crate::text::before;
use vstd::prelude::*;
use vstd::string::*;

verus! {

/// Whether a text comes before another: at the first place where they differ it has the
/// smaller character, or it ends there.
pub open spec fn comes_before(a: Seq<char>, b: Seq<char>) -> bool {
    exists|p: int| #[trigger] differs_at(a, b, p)
}

/// Whether two texts agree up to a place, and the first is smaller or ends there.
pub open spec fn differs_at(a: Seq<char>, b: Seq<char>, p: int) -> bool {
    &&& 0 <= p <= a.len()
    &&& p < b.len()
    &&& a.take(p) == b.take(p)
    &&& p == a.len() || a[p] < b[p]
}

/// Moments are told apart by their texts, in the order of a dictionary.
pub proof fn law_texts_are_in_the_order_of_a_dictionary(a: Seq<char>, b: Seq<char>)
    ensures
        before(a, b) <==> comes_before(a, b),
    decreases a.len(),
{
    if b.len() == 0 {
    } else if a.len() == 0 {
        assert(a.take(0) =~= b.take(0));
        assert(differs_at(a, b, 0));
    } else if a[0] != b[0] {
        assert(a.take(0) =~= b.take(0));
        if a[0] < b[0] {
            assert(differs_at(a, b, 0));
        }
        if comes_before(a, b) {
            let p = choose|p: int| #[trigger] differs_at(a, b, p);
            if p > 0 {
                assert(a.take(p)[0] == b.take(p)[0]);
            }
        }
    } else {
        let (x, y) = (a.skip(1), b.skip(1));
        law_texts_are_in_the_order_of_a_dictionary(x, y);
        if comes_before(x, y) {
            let p = choose|p: int| #[trigger] differs_at(x, y, p);
            assert forall|i: int| 0 <= i < p + 1 implies a[i] == b[i] by {
                if i > 0 {
                    assert(x.take(p)[i - 1] == y.take(p)[i - 1]);
                }
            }
            assert(a.take(p + 1) =~= b.take(p + 1));
            assert(differs_at(a, b, p + 1));
        }
        if comes_before(a, b) {
            let p = choose|p: int| #[trigger] differs_at(a, b, p);
            assert forall|i: int| 0 <= i < p - 1 implies x[i] == y[i] by {
                assert(a.take(p)[i + 1] == b.take(p)[i + 1]);
            }
            assert(x.take(p - 1) =~= y.take(p - 1));
            assert(differs_at(x, y, p - 1));
        }
    }
}

/// Whether something is older than some days: it was written before the moment that many
/// days ago.
pub open spec fn older_than(at: Seq<char>, now: Moment, days: u64) -> bool {
    moment_text((now.seconds - days * 86_400) as i64, now.nanos) matches Some(then) && before(
        at,
        then,
    )
}

/// Whether an audit row speaks of an id.
pub open spec fn spoken_of(audit: Seq<AuditView>, id: Seq<char>) -> bool {
    crate::reconcile::referenced(audit, id)
}

/// Whether an operation may go: it ended, it is old, and nothing speaks of it.
pub open spec fn operation_goes(had: Records, op: OperationView, limits: RetentionLimits, protection: ProtectionView, now: Moment) -> bool {
    &&& op.record.state is Completed || op.record.state is NeedsYou
    &&& older_than(op.record.updated_at, now, limits.operation_retention_days)
    &&& !protection.operation_handles.contains(op.record.operation_handle)
    &&& !protection.receipt_ids.contains(op.record.command_id)
    &&& !spoken_of(had.audit, op.record.operation_handle)
    &&& !spoken_of(had.audit, op.record.command_id)
}

proof fn lemma_kept_operations(
    had: Records,
    ops: Seq<OperationView>,
    limits: RetentionLimits,
    protection: ProtectionView,
    now: Moment,
    cutoff: Seq<char>,
)
    requires
        moment_text((now.seconds - limits.operation_retention_days * 86_400) as i64, now.nanos)
            == Some(cutoff),
    ensures
        kept_operations(ops, had.audit, protection, cutoff) == ops.filter(
            |op: OperationView| !operation_goes(had, op, limits, protection, now),
        ),
    decreases ops.len(),
{
    reveal(Seq::filter);
    let keep = |op: OperationView| !operation_goes(had, op, limits, protection, now);
    if ops.len() > 0 {
        lemma_kept_operations(had, ops.drop_last(), limits, protection, now, cutoff);
    }
    assert(kept_operations(ops, had.audit, protection, cutoff) =~= ops.filter(keep));
}

proof fn lemma_kept_audit(audit: Seq<AuditView>, limits: RetentionLimits, now: Moment, cutoff: Seq<char>)
    requires
        moment_text((now.seconds - limits.audit_retention_days * 86_400) as i64, now.nanos) == Some(
            cutoff,
        ),
    ensures
        kept_audit(audit, cutoff) == audit.filter(
            |a: AuditView| !older_than(a.created_at, now, limits.audit_retention_days),
        ),
    decreases audit.len(),
{
    reveal(Seq::filter);
    let keep = |a: AuditView| !older_than(a.created_at, now, limits.audit_retention_days);
    if audit.len() > 0 {
        lemma_kept_audit(audit.drop_last(), limits, now, cutoff);
    }
    assert(kept_audit(audit, cutoff) =~= audit.filter(keep));
}

/// Whether the moments that a round of cleaning goes by can be told.
pub open spec fn can_be_told(limits: RetentionLimits, now: Moment) -> bool {
    crate::reconcile::gc_problem(limits, now) is None
}

/// A round of cleaning takes away the operations that ended, are old and are spoken of
/// nowhere, and the audit rows that are old; all others stay as they are, in their order.
pub proof fn law_cleaning_takes_what_is_old_and_free(
    had: Records,
    after: Records,
    limits: RetentionLimits,
    protection: ProtectionView,
    now: Moment,
)
    requires
        cleaned(had, after, limits, protection, now),
        can_be_told(limits, now),
    ensures
        after.ops == had.ops.filter(
            |op: OperationView| !operation_goes(had, op, limits, protection, now),
        ),
        after.audit == had.audit.filter(
            |a: AuditView| !older_than(a.created_at, now, limits.audit_retention_days),
        ),
{
    let cutoff = crate::reconcile::cutoff_text(now, limits.operation_retention_days)->0;
    lemma_kept_operations(had, had.ops, limits, protection, now, cutoff);
    let cutoff = crate::reconcile::cutoff_text(now, limits.audit_retention_days)->0;
    lemma_kept_audit(had.audit, limits, now, cutoff);
}

/// A round of cleaning takes away what was promised for a command exactly where that is
/// settled, is old, belongs to no operation that stays, and is spoken of nowhere.
pub proof fn law_cleaning_takes_old_promises(
    had: Records,
    after: Records,
    limits: RetentionLimits,
    protection: ProtectionView,
    now: Moment,
    id: Seq<char>,
)
    requires
        cleaned(had, after, limits, protection, now),
        can_be_told(limits, now),
        had.intents.contains_key(id),
    ensures
        after.intents.contains_key(id) ==> after.intents[id] == had.intents[id],
        !after.intents.contains_key(id) <==> {
            &&& !(had.intents[id].state is Reserved)
            &&& had.intents[id].resolved_at matches Some(at) && older_than(
                at,
                now,
                limits.receipt_retention_days,
            )
            &&& !protection.receipt_ids.contains(id)
            &&& !spoken_of(had.audit, id)
            &&& forall|k: int|
                0 <= k < after.ops.len() ==> (#[trigger] after.ops[k]).record.command_id != id
        },
        forall|other: Seq<char>| #[trigger]
            after.intents.contains_key(other) ==> had.intents.contains_key(other),
{
}

/// Whether a receipt may go at all: its command was applied, nothing that goes on relies on
/// it, and it is spoken of nowhere.
pub open spec fn receipt_may_go(
    had: Records,
    after: Records,
    row: ReceiptView,
    id: Seq<char>,
    protection: ProtectionView,
) -> bool {
    &&& row.state == "applied"@
    &&& row.finalized_at is Some
    &&& !protection.receipt_ids.contains(id)
    &&& !spoken_of(had.audit, id)
    &&& forall|k: int|
        0 <= k < after.ops.len() && !((#[trigger] after.ops[k]).record.state is Completed
            || after.ops[k].record.state is NeedsYou) ==> after.ops[k].record.command_id != id
            && forall|s: int|
            0 <= s < after.ops[k].steps.len() ==> (#[trigger] after.ops[k].steps[s]).step_id != id
}

/// A receipt that is old and may go, goes. One that is not old goes only where its store has
/// too many, and then none that is older and may go stays. No receipt changes, and none comes
/// from nowhere.
pub proof fn law_cleaning_takes_old_receipts(
    had: Records,
    after: Records,
    limits: RetentionLimits,
    protection: ProtectionView,
    now: Moment,
    at: int,
    id: Seq<char>,
)
    requires
        cleaned(had, after, limits, protection, now),
        can_be_told(limits, now),
        0 <= at < had.targets.len(),
        had.targets[at].receipts.contains_key(id),
        had.targets[at].receipts.dom().finite(),
    ensures
        ({
            let row = had.targets[at].receipts[id];
            let left = after.targets[at].receipts;
            let old = older_than(row.finalized_at->0, now, limits.receipt_retention_days);
            &&& left.contains_key(id) ==> left[id] == row
            &&& receipt_may_go(had, after, row, id, protection) && old ==> !left.contains_key(id)
            &&& !left.contains_key(id) ==> receipt_may_go(had, after, row, id, protection)
            &&& !left.contains_key(id) && !old ==> had.targets[at].receipts.dom().len()
                > limits.receipt_max_rows_per_store && left.dom().len()
                >= limits.receipt_max_rows_per_store && forall|kept: Seq<char>| #[trigger]
                left.contains_key(kept) && receipt_may_go(
                    had,
                    after,
                    left[kept],
                    kept,
                    protection,
                ) ==> !before(left[kept].finalized_at->0, row.finalized_at->0)
            &&& forall|other: Seq<char>| #[trigger]
                left.contains_key(other) ==> had.targets[at].receipts.contains_key(other)
            &&& after.targets[at].outbox == had.targets[at].outbox
            &&& after.targets[at].store_key == had.targets[at].store_key
        }),
{
    let cutoff = crate::reconcile::cutoff_text(now, limits.receipt_retention_days)->0;
    assert(receipts_cleaned(
        had.targets[at],
        after.targets[at],
        cutoff,
        limits.receipt_max_rows_per_store,
        after.ops,
        had.audit,
        protection,
    ));
    let all = had.targets[at].receipts;
    let young = young_receipts(all, after.ops, had.audit, protection, cutoff);
    let left = after.targets[at].receipts;
    assert(young.dom().subset_of(all.dom()));
    vstd::set_lib::lemma_len_subset(young.dom(), all.dom());
    lemma_may_go(had, after, all[id], id, protection);
    assert forall|kept: Seq<char>| #[trigger]
        left.contains_key(kept) && receipt_may_go(had, after, left[kept], kept, protection)
            && !left.contains_key(id) && young.contains_key(id) implies !before(
        left[kept].finalized_at->0,
        all[id].finalized_at->0,
    ) by {
        lemma_may_go(had, after, left[kept], kept, protection);
        assert(young.contains_key(kept));
    }
}

proof fn lemma_may_go(
    had: Records,
    after: Records,
    row: ReceiptView,
    id: Seq<char>,
    protection: ProtectionView,
)
    ensures
        receipt_may_go(had, after, row, id, protection) == crate::reconcile::receipt_free(
            id,
            row,
            after.ops,
            had.audit,
            protection,
        ),
{
    if receipt_may_go(had, after, row, id, protection) && crate::reconcile::held_open(
        after.ops,
        id,
    ) {
        let i = choose|i: int|
            0 <= i < after.ops.len() && crate::reconcile::held_by(#[trigger] after.ops[i], id);
        assert(after.ops[i].record.command_id != id);
    }
    if crate::reconcile::receipt_free(id, row, after.ops, had.audit, protection) {
        assert forall|k: int|
            0 <= k < after.ops.len() && !((#[trigger] after.ops[k]).record.state is Completed
                || after.ops[k].record.state is NeedsYou) implies after.ops[k].record.command_id
            != id && forall|s: int|
            0 <= s < after.ops[k].steps.len() ==> (#[trigger] after.ops[k].steps[s]).step_id
                != id by {
            assert(!crate::reconcile::held_by(after.ops[k], id));
        }
    }
}

proof fn lemma_target_at(targets: Seq<TargetTables>, key: Seq<char>, from: int)
    requires
        0 <= from,
    ensures
        match target_at(targets, key, from) {
            Some(i) => from <= i < targets.len() && targets[i].store_key == key,
            None => forall|i: int|
                from <= i < targets.len() ==> (#[trigger] targets[i]).store_key != key,
        },
    decreases targets.len() - from,
{
    if from < targets.len() && targets[from].store_key != key {
        lemma_target_at(targets, key, from + 1);
    }
}

/// What a restart makes of a command whose end is not known: it took effect exactly where
/// its store has a receipt of it, for the same meaning and the same aggregate; where the
/// store has none it is revoked. Nothing else about it changes, and nothing changes of what
/// had an end or belongs to an operation.
pub proof fn law_a_restart_goes_by_the_receipts(
    intents: Intents,
    ops: Seq<OperationView>,
    targets: Seq<TargetTables>,
    now: Seq<char>,
    id: Seq<char>,
)
    requires
        intents.contains_key(id),
    ensures
        ({
            let was = intents[id];
            let is = settled_intents(intents, ops, targets, now)[id];
            let free = was.state is Reserved && forall|k: int|
                0 <= k < ops.len() ==> (#[trigger] ops[k]).record.command_id != id;
            &&& settled_intents(intents, ops, targets, now).dom() == intents.dom()
            &&& !free ==> is == was
            &&& is != was ==> exists|at: int|
                {
                    &&& 0 <= at < targets.len()
                    &&& (#[trigger] targets[at]).store_key == was.target_store
                    &&& is.resolved_at == Some(now)
                    &&& is.command_id == was.command_id
                    &&& is.semantic_digest == was.semantic_digest
                    &&& is.target_store == was.target_store
                    &&& is.aggregate == was.aggregate
                    &&& is.principal == was.principal
                    &&& is.client_id == was.client_id
                    &&& is.controller_epoch == was.controller_epoch
                    &&& is.root_epoch == was.root_epoch
                    &&& is.created_at == was.created_at
                    &&& if targets[at].receipts.contains_key(id) {
                        let row = targets[at].receipts[id];
                        &&& is.state is Applied
                        &&& is.problem_code is None
                        &&& row.semantic_digest == was.semantic_digest
                        &&& row.aggregate_handle == was.aggregate
                        &&& row.state == "applied"@
                        &&& row.finalized_at is Some
                    } else {
                        &&& is.state is Revoked
                        &&& is.problem_code == Some("controller_lease_expired"@)
                    }
                }
            &&& free && is == was ==> {
                ||| forall|at: int|
                    0 <= at < targets.len() ==> (#[trigger] targets[at]).store_key
                        != was.target_store
                ||| exists|at: int|
                    {
                        &&& 0 <= at < targets.len()
                        &&& (#[trigger] targets[at]).store_key == was.target_store
                        &&& targets[at].receipts.contains_key(id)
                        &&& ({
                            let row = targets[at].receipts[id];
                            ||| row.semantic_digest != was.semantic_digest
                            ||| row.aggregate_handle != was.aggregate
                            ||| row.state != "applied"@
                            ||| row.finalized_at is None
                        })
                    }
            }
        }),
{
    let was = intents[id];
    lemma_target_at(targets, was.target_store, 0);
    assert(settled_intents(intents, ops, targets, now).dom() =~= intents.dom());
    if let Some(at) = target_at(targets, was.target_store, 0) {
        assert(targets[at].store_key == was.target_store);
    }
}

/// A receipt answers its own command only: the same id, the same meaning, the same
/// aggregate, and an effect that was finished. Under another meaning the id is taken.
pub proof fn law_a_receipt_answers_its_own_command(
    receipts: Receipts,
    id: Seq<char>,
    digest: Seq<char>,
    aggregate: Seq<char>,
)
    ensures
        match receipt_result(receipts, id, digest, aggregate) {
            Ok(None) => !receipts.contains_key(id),
            Ok(Some(result)) => {
                &&& receipts.contains_key(id)
                &&& receipts[id].semantic_digest == digest
                &&& receipts[id].aggregate_handle == aggregate
                &&& receipts[id].state == "applied"@
                &&& receipts[id].finalized_at is Some
                &&& result == receipts[id].result
            },
            Err(p) => {
                &&& receipts.contains_key(id)
                &&& p == ProblemView::CommandIdReused <==> receipts[id].semantic_digest != digest
                    || receipts[id].aggregate_handle != aggregate
                &&& p != ProblemView::CommandIdReused ==> p == ProblemView::CommandInProgress && (
                receipts[id].state != "applied"@ || receipts[id].finalized_at is None)
            },
        },
{
}

/// Who asks again for what was done gets what the receipt says, from the store that the
/// command is for, and is told that it is a repetition; who may not ask gets nothing.
pub proof fn law_a_repetition_is_told_what_was_done(
    t: TargetTables,
    e: EnvelopeView,
    digest: Result<Seq<char>, ProblemView>,
    admission: Result<(), ProblemView>,
)
    ensures
        replay_view(t, e, digest, admission) is Ok ==> {
            &&& e.target.store == t.kind
            &&& e.target.store_key() == t.store_key
            &&& digest is Ok
            &&& admission is Ok
        },
        replay_view(t, e, digest, admission) matches Ok(Some(a)) ==> {
            &&& a.replayed
            &&& t.receipts.contains_key(e.command_id)
            &&& a.result == t.receipts[e.command_id].result
            &&& t.receipts[e.command_id].semantic_digest == digest->Ok_0
            &&& t.receipts[e.command_id].aggregate_handle == e.target.aggregate.handle
        },
        replay_view(t, e, digest, admission) matches Ok(None) ==> !t.receipts.contains_key(
            e.command_id,
        ),
{
}

/// What is promised for a command that is new is what was sent, and it has no end yet; what
/// is promised for any other stays. An id stands for one command for ever.
pub proof fn law_a_promise_is_of_what_was_sent(
    intents: Intents,
    e: EnvelopeView,
    digest: Seq<char>,
    now: Seq<char>,
    other: Seq<char>,
)
    requires
        other != e.command_id,
    ensures
        match reserve_view(intents, e, digest, now) {
            Ok((after, row)) => {
                &&& after.contains_key(e.command_id)
                &&& after[e.command_id] == row
                &&& after.contains_key(other) == intents.contains_key(other)
                &&& intents.contains_key(other) ==> after[other] == intents[other]
                &&& row.semantic_digest == digest
                &&& row.target_store == e.target.store_key()
                &&& row.aggregate == e.target.aggregate.handle
                &&& intents.contains_key(e.command_id) ==> row == intents[e.command_id]
                &&& !intents.contains_key(e.command_id) ==> {
                    &&& row.command_id == e.command_id
                    &&& row.principal == e.principal
                    &&& row.client_id == e.client_id
                    &&& row.controller_epoch == e.controller_epoch
                    &&& row.root_epoch is Some <==> e.root_epoch is Some
                    &&& e.root_epoch matches Some(n) ==> row.root_epoch->0 == n
                    &&& row.state is Reserved
                    &&& row.created_at == now
                    &&& row.resolved_at is None
                    &&& row.problem_code is None
                }
            },
            Err(p) => {
                ||| p == ProblemView::CommandIdReused && intents.contains_key(e.command_id) && (
                intents[e.command_id].semantic_digest != digest
                    || intents[e.command_id].target_store != e.target.store_key()
                    || intents[e.command_id].aggregate != e.target.aggregate.handle)
                ||| p is InvalidEnvelope && (e.controller_epoch > i64::MAX || (e.root_epoch matches Some(
                    n,
                ) && n > i64::MAX))
            },
        },
{
}

/// An end is written once: to the row of its command, where that is still open, with its
/// moment and its reason. No other row changes, and no end is written over another.
pub proof fn law_an_end_is_written_once(
    intents: Intents,
    id: Seq<char>,
    state: IntentState,
    code: Option<Seq<char>>,
    now: Seq<char>,
    other: Seq<char>,
)
    requires
        other != id,
    ensures
        ({
            let (after, done) = finish_intent_view(intents, id, state, code, now);
            &&& after.dom() == intents.dom()
            &&& intents.contains_key(other) ==> after[other] == intents[other]
            &&& intents.contains_key(id) && !(intents[id].state is Reserved) ==> after == intents
                && (done is Ok <==> intents[id].state == state && intents[id].problem_code == code)
            &&& intents.contains_key(id) && intents[id].state is Reserved ==> {
                &&& done is Ok
                &&& after[id].state == state
                &&& after[id].problem_code == code
                &&& after[id].resolved_at == Some(now)
                &&& after[id].semantic_digest == intents[id].semantic_digest
                &&& after[id].target_store == intents[id].target_store
                &&& after[id].aggregate == intents[id].aggregate
                &&& after[id].principal == intents[id].principal
                &&& after[id].client_id == intents[id].client_id
                &&& after[id].created_at == intents[id].created_at
            }
            &&& !intents.contains_key(id) ==> done is Err
        }),
{
    let (after, done) = finish_intent_view(intents, id, state, code, now);
    assert(after.dom() =~= intents.dom());
}

/// Whether a command took effect is read off its store: with a receipt it is applied, and the
/// answer is what the receipt says; without one it is revoked.
pub proof fn law_what_became_of_a_command_is_read_off_its_store(
    intents: Intents,
    t: TargetTables,
    id: Seq<char>,
    now: Seq<char>,
)
    ensures
        ({
            let (after, end) = reconcile_view(intents, t, id, now);
            &&& end is Ok ==> intents.contains_key(id) && intents[id].target_store == t.store_key
                && after.contains_key(id)
            &&& end matches Ok(ReconcileEnd::Applied(a)) ==> {
                &&& t.receipts.contains_key(id)
                &&& a.result == t.receipts[id].result
                &&& a.replayed
                &&& t.receipts[id].semantic_digest == intents[id].semantic_digest
                &&& t.receipts[id].state == "applied"@
                &&& after[id].state is Applied
            }
            &&& end matches Ok(ReconcileEnd::Terminal(state)) ==> {
                &&& after[id].state == state
                &&& intents[id].state is Reserved ==> !t.receipts.contains_key(id) && state
                    is Revoked
                &&& !(intents[id].state is Reserved) ==> after == intents
            }
            &&& intents.contains_key(id) && intents[id].target_store == t.store_key
                && intents[id].state is Reserved && !t.receipts.contains_key(id) ==> end == Ok::<
                ReconcileEnd,
                ProblemView,
            >(ReconcileEnd::Terminal(IntentState::Revoked))
        }),
{
}

/// A refusal is remembered: who asks again for what was refused gets a problem with the code
/// that was written down.
pub proof fn law_a_refusal_is_remembered(row: IntentView, p: ProblemView)
    requires
        refusal_state(p) is Some,
        row.problem_code == Some(p.code()),
    ensures
        ended_problem(row).code() == p.code(),
        refusal_state(p) == Some(IntentState::Revoked) <==> p == ProblemView::ControllerLeaseExpired
            || p == ProblemView::RootEpochExpired,
{
    reveal_strlit("controller_lease_expired");
    reveal_strlit("root_epoch_expired");
    reveal_strlit("revision_conflict");
    reveal_strlit("resource_not_found");
    reveal_strlit("invalid_envelope");
    assert("controller_lease_expired"@.len() == 24 && "root_epoch_expired"@.len() == 18
        && "revision_conflict"@.len() == 17 && "resource_not_found"@.len() == 18
        && "invalid_envelope"@.len() == 16);
    assert("root_epoch_expired"@[1] != "resource_not_found"@[1]);
}

} // verus!
