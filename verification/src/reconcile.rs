//! What a restart does with commands and operations that it finds open, and what
//! becomes of old records.

use crate::command::{CommandProblem, ProblemView};
use crate::dispatch::{
    closed_off, law_nothing_waits_once_closed_off, pending, IntentRow, IntentState, IntentView,
    Intents, ReceiptRow, ReceiptView, Receipts, TargetDatabase, TargetTables,
};
use crate::handles::{outcome, CommandId};
use crate::journal::{given_up, OUTBOX_RECONCILED_PREFIX};
use crate::json::{items_view, Json, JsonView};
use crate::limits::{range_message, RetentionLimits};
use crate::moment::{moment_text, Moment};
use crate::operation::{
    find_target, lemma_target_at, mark_reconciling, reconcile_operation, reconcile_operation_view,
    reconciling, tables, target_at, targets_wf, EndView, OperationHandle, OperationOutcome,
    OperationProblem, OperationRow, OperationView, StepId,
};
use crate::table::{earlier, in_order_of, Table};
use crate::text::{
    before, begins, cat, cat3, contains, has_prefix, lemma_before_total, lemma_before_transitive,
    less, list_has, occurs, same, texts,
};
use vstd::prelude::*;
use vstd::string::*;

verus! {

/// Operations as values.
pub open spec fn operations_view(v: Seq<OperationRow>) -> Seq<OperationView> {
    v.map_values(|o: OperationRow| o@)
}

/// Whether a command is that of an operation.
pub open spec fn owned(ops: Seq<OperationView>, id: Seq<char>) -> bool {
    exists|i: int| 0 <= i < ops.len() && (#[trigger] ops[i]).record.command_id == id
}

fn is_owned(ops: &Vec<OperationRow>, id: &str) -> (r: bool)
    ensures
        r == owned(operations_view(ops@), id@),
{
    let ghost all = operations_view(ops@);
    let mut i: usize = 0;
    while i < ops.len()
        invariant
            i <= ops@.len(),
            all == operations_view(ops@),
            forall|k: int| 0 <= k < i ==> (#[trigger] all[k]).record.command_id != id@,
        decreases ops@.len() - i,
    {
        assert(all[i as int] == ops@[i as int]@);
        if same(ops[i].record.command_id.as_str(), id) {
            assert(all[i as int].record.command_id == id@);
            return true;
        }
        i = i + 1;
    }
    false
}

/// What a restart does with a command: nothing where it is closed or an operation's,
/// nothing where its store is not there or a receipt is not its own, `Applied`
/// where its receipt stands, `Revoked` where there is none.
#[derive(Debug, Clone, Copy, PartialEq, Eq, Structural)]
pub enum IntentFate {
    Left,
    Skipped,
    Applied,
    Revoked,
}

/// Whether a receipt is that of a command that was carried out.
pub open spec fn receipt_proves(row: ReceiptView, intent: IntentView) -> bool {
    &&& row.semantic_digest == intent.semantic_digest
    &&& row.aggregate_handle == intent.aggregate
    &&& row.state == "applied"@
    &&& row.finalized_at is Some
}

/// What a restart does with a command.
pub open spec fn intent_fate(
    id: Seq<char>,
    intent: IntentView,
    ops: Seq<OperationView>,
    targets: Seq<TargetTables>,
) -> IntentFate {
    if !(intent.state is Reserved) || owned(ops, id) {
        IntentFate::Left
    } else {
        match target_at(targets, intent.target_store, 0) {
            None => IntentFate::Skipped,
            Some(at) => if !targets[at].receipts.contains_key(id) {
                IntentFate::Revoked
            } else if receipt_proves(targets[at].receipts[id], intent) {
                IntentFate::Applied
            } else {
                IntentFate::Skipped
            },
        }
    }
}

/// A command after a restart.
pub open spec fn settled_intent(
    intent: IntentView,
    fate: IntentFate,
    now: Seq<char>,
) -> IntentView {
    match fate {
        IntentFate::Applied => IntentView {
            state: IntentState::Applied,
            resolved_at: Some(now),
            problem_code: None,
            ..intent
        },
        IntentFate::Revoked => IntentView {
            state: IntentState::Revoked,
            resolved_at: Some(now),
            problem_code: Some("controller_lease_expired"@),
            ..intent
        },
        _ => intent,
    }
}

/// The commands after a restart, before any operation is looked at.
pub open spec fn settled_intents(
    intents: Intents,
    ops: Seq<OperationView>,
    targets: Seq<TargetTables>,
    now: Seq<char>,
) -> Intents {
    Map::new(
        |id: Seq<char>| intents.contains_key(id),
        |id: Seq<char>|
            settled_intent(intents[id], intent_fate(id, intents[id], ops, targets), now),
    )
}

/// The commands to which a restart does the same.
pub open spec fn with_fate(
    intents: Intents,
    ops: Seq<OperationView>,
    targets: Seq<TargetTables>,
    fate: IntentFate,
) -> Set<Seq<char>> {
    intents.dom().filter(|id: Seq<char>| intent_fate(id, intents[id], ops, targets) == fate)
}

/// How many of a list's members a condition holds for.
pub open spec fn tally(keys: Seq<Seq<char>>, f: spec_fn(Seq<char>) -> bool) -> nat
    decreases keys.len(),
{
    if keys.len() == 0 {
        0
    } else {
        tally(keys.drop_last(), f) + (if f(keys.last()) {
            1nat
        } else {
            0nat
        })
    }
}

pub proof fn lemma_tally(keys: Seq<Seq<char>>, f: spec_fn(Seq<char>) -> bool)
    requires
        keys.no_duplicates(),
    ensures
        keys.to_set().filter(f).finite(),
        tally(keys, f) == keys.to_set().filter(f).len(),
    decreases keys.len(),
{
    if keys.len() == 0 {
        assert(keys.to_set().filter(f) =~= Set::empty());
    } else {
        let init = keys.drop_last();
        let last = keys.last();
        assert(init.no_duplicates());
        lemma_tally(init, f);
        assert(!init.contains(last)) by {
            if init.contains(last) {
                let k = choose|k: int| 0 <= k < init.len() && init[k] == last;
                assert(keys[k] == keys[keys.len() - 1]);
            }
        }
        assert forall|x: Seq<char>| #[trigger]
            keys.to_set().contains(x) <==> init.to_set().insert(last).contains(x) by {
            if keys.contains(x) {
                let k = choose|k: int| 0 <= k < keys.len() && keys[k] == x;
                if k < init.len() {
                    assert(init[k] == x);
                }
            }
            if init.contains(x) {
                let k = choose|k: int| 0 <= k < init.len() && init[k] == x;
                assert(keys[k] == x);
            }
            if x == last {
                assert(keys[keys.len() - 1] == x);
            }
        }
        if f(last) {
            assert(keys.to_set().filter(f) =~= init.to_set().filter(f).insert(last));
        } else {
            assert(keys.to_set().filter(f) =~= init.to_set().filter(f));
        }
    }
}

/// What one restart found.
#[derive(Debug)]
pub struct ReconcileReport {
    pub intents_revoked: usize,
    pub intents_applied: usize,
    pub intents_skipped: usize,
    pub operations_completed: usize,
    pub operations_needs_you: usize,
    pub operations_not_accepted: usize,
    pub operations_skipped: usize,
    pub outbox_reconciled: Vec<(String, usize)>,
}

/// What one restart found, as a value.
pub ghost struct ReportView {
    pub intents_revoked: nat,
    pub intents_applied: nat,
    pub intents_skipped: nat,
    pub operations_completed: nat,
    pub operations_needs_you: nat,
    pub operations_not_accepted: nat,
    pub operations_skipped: nat,
    pub outbox_reconciled: Seq<(Seq<char>, nat)>,
}

/// Counts by store, as values.
pub open spec fn counted(v: Seq<(String, usize)>) -> Seq<(Seq<char>, nat)> {
    v.map_values(|p: (String, usize)| (p.0@, p.1 as nat))
}

impl View for ReconcileReport {
    type V = ReportView;

    open spec fn view(&self) -> ReportView {
        ReportView {
            intents_revoked: self.intents_revoked as nat,
            intents_applied: self.intents_applied as nat,
            intents_skipped: self.intents_skipped as nat,
            operations_completed: self.operations_completed as nat,
            operations_needs_you: self.operations_needs_you as nat,
            operations_not_accepted: self.operations_not_accepted as nat,
            operations_skipped: self.operations_skipped as nat,
            outbox_reconciled: counted(self.outbox_reconciled@),
        }
    }
}

/// How often each end of a command came up.
#[derive(Debug, Clone, Copy, PartialEq, Eq, Structural)]
pub struct IntentCounts {
    pub revoked: usize,
    pub applied: usize,
    pub skipped: usize,
}

fn fate_of(
    intent: &IntentRow,
    operations: &Vec<OperationRow>,
    targets: &Vec<TargetDatabase>,
) -> (r: IntentFate)
    requires
        targets_wf(targets@),
    ensures
        r == intent_fate(
            intent@.command_id,
            intent@,
            operations_view(operations@),
            tables(targets@),
        ),
{
    if !matches!(intent.state, IntentState::Reserved) || is_owned(
        operations,
        intent.command_id.as_str(),
    ) {
        return IntentFate::Left;
    }
    let at: usize = match find_target(targets, intent.target_store.as_str()) {
        Some(at) => at,
        None => {
            return IntentFate::Skipped;
        },
    };
    assert(tables(targets@)[at as int] == targets@[at as int]@);
    match targets[at].receipt_row(intent.command_id.as_str()) {
        None => IntentFate::Revoked,
        Some(row) => {
            if same(row.semantic_digest.as_str(), intent.semantic_digest.as_str()) && same(
                row.aggregate_handle.as_str(),
                intent.aggregate.as_str(),
            ) && same(row.state.as_str(), "applied") && row.finalized_at.is_some() {
                IntentFate::Applied
            } else {
                IntentFate::Skipped
            }
        },
    }
}

/// Closes every command that stands alone and that a restart finds open: by its
/// receipt where it has one, as revoked where it has none. No effect is redone.
pub fn reconcile_intents(
    intents: &mut Table<IntentRow>,
    operations: &Vec<OperationRow>,
    targets: &Vec<TargetDatabase>,
    now: &str,
) -> (r: IntentCounts)
    requires
        old(intents).wf(),
        targets_wf(targets@),
    ensures
        final(intents).wf(),
        final(intents)@ == settled_intents(
            old(intents)@,
            operations_view(operations@),
            tables(targets@),
            now@,
        ),
        ({
            let ops = operations_view(operations@);
            let all = tables(targets@);
            &&& r.revoked == with_fate(old(intents)@, ops, all, IntentFate::Revoked).len()
            &&& r.applied == with_fate(old(intents)@, ops, all, IntentFate::Applied).len()
            &&& r.skipped == with_fate(old(intents)@, ops, all, IntentFate::Skipped).len()
        }),
{
    let ghost start = intents@;
    let ghost ops = operations_view(operations@);
    let ghost all = tables(targets@);
    let keys: Vec<String> = intents.keys();
    let ghost ids = texts(keys@);
    let ghost revoked_if = |id: Seq<char>|
        intent_fate(id, start[id], ops, all) == IntentFate::Revoked;
    let ghost applied_if = |id: Seq<char>|
        intent_fate(id, start[id], ops, all) == IntentFate::Applied;
    let ghost skipped_if = |id: Seq<char>|
        intent_fate(id, start[id], ops, all) == IntentFate::Skipped;
    let mut counts: IntentCounts = IntentCounts { revoked: 0, applied: 0, skipped: 0 };
    let mut i: usize = 0;
    assert(ids.take(0) =~= seq![]);
    while i < keys.len()
        invariant
            intents.wf(),
            targets_wf(targets@),
            ops == operations_view(operations@),
            all == tables(targets@),
            i <= keys@.len(),
            ids == texts(keys@),
            ids.no_duplicates(),
            forall|key: Seq<char>| #[trigger] start.contains_key(key) <==> ids.contains(key),
            intents@.dom() =~= start.dom(),
            forall|k: int|
                0 <= k < i ==> intents@[#[trigger] ids[k]] == settled_intent(
                    start[ids[k]],
                    intent_fate(ids[k], start[ids[k]], ops, all),
                    now@,
                ),
            forall|k: int| i <= k < ids.len() ==> intents@[#[trigger] ids[k]] == start[ids[k]],
            revoked_if == (|id: Seq<char>|
                intent_fate(id, start[id], ops, all) == IntentFate::Revoked),
            applied_if == (|id: Seq<char>|
                intent_fate(id, start[id], ops, all) == IntentFate::Applied),
            skipped_if == (|id: Seq<char>|
                intent_fate(id, start[id], ops, all) == IntentFate::Skipped),
            counts.revoked == tally(ids.take(i as int), revoked_if),
            counts.applied == tally(ids.take(i as int), applied_if),
            counts.skipped == tally(ids.take(i as int), skipped_if),
            counts.revoked <= i,
            counts.applied <= i,
            counts.skipped <= i,
        decreases keys@.len() - i,
    {
        let ghost id = ids[i as int];
        let ghost before_put = intents@;
        assert(id == keys@[i as int]@);
        assert(ids.contains(id));
        assert(start.contains_key(id));
        assert(ids.take(i + 1).drop_last() =~= ids.take(i as int));
        assert(ids.take(i + 1).last() == id);
        let row: Option<&IntentRow> = intents.get(keys[i].as_str());
        match row {
            Some(row) => {
                let fate: IntentFate = fate_of(row, operations, targets);
                let mut row: IntentRow = row.clone();
                match fate {
                    IntentFate::Left => {},
                    IntentFate::Skipped => {
                        counts.skipped = counts.skipped + 1;
                    },
                    IntentFate::Applied => {
                        row.state = IntentState::Applied;
                        row.resolved_at = Some(now.to_owned());
                        row.problem_code = None;
                        intents.put(row);
                        counts.applied = counts.applied + 1;
                    },
                    IntentFate::Revoked => {
                        row.state = IntentState::Revoked;
                        row.resolved_at = Some(now.to_owned());
                        row.problem_code = Some("controller_lease_expired".to_owned());
                        intents.put(row);
                        counts.revoked = counts.revoked + 1;
                    },
                }
                assert(intents@[id] == settled_intent(
                    start[id],
                    intent_fate(id, start[id], ops, all),
                    now@,
                ));
            },
            None => {},
        }
        assert forall|k: int| 0 <= k < i + 1 implies intents@[#[trigger] ids[k]] == settled_intent(
            start[ids[k]],
            intent_fate(ids[k], start[ids[k]], ops, all),
            now@,
        ) by {
            if k < i {
                assert(ids[k] != ids[i as int]);
            }
        }
        assert forall|k: int| i + 1 <= k < ids.len() implies intents@[#[trigger] ids[k]]
            == start[ids[k]] by {
            assert(ids[k] != ids[i as int]);
        }
        i = i + 1;
    }
    proof {
        assert(ids.take(i as int) =~= ids);
        assert(intents@ =~= settled_intents(start, ops, all, now@)) by {
            assert forall|id: Seq<char>| start.contains_key(id) implies #[trigger] intents@[id]
                == settled_intents(start, ops, all, now@)[id] by {
                assert(ids.contains(id));
                let k = choose|k: int| 0 <= k < ids.len() && ids[k] == id;
                assert(intents@[ids[k]] == settled_intents(start, ops, all, now@)[id]);
            }
        }
        lemma_tally(ids, revoked_if);
        lemma_tally(ids, applied_if);
        lemma_tally(ids, skipped_if);
        assert(ids.to_set() =~= start.dom());
        assert(ids.to_set().filter(revoked_if) =~= with_fate(start, ops, all, IntentFate::Revoked));
        assert(ids.to_set().filter(applied_if) =~= with_fate(start, ops, all, IntentFate::Applied));
        assert(ids.to_set().filter(skipped_if) =~= with_fate(start, ops, all, IntentFate::Skipped));
    }
    counts
}

/// How often each end of an operation came up.
#[derive(Debug, Clone, Copy, PartialEq, Eq, Structural)]
pub struct OperationCounts {
    pub completed: usize,
    pub needs_you: usize,
    pub not_accepted: usize,
    pub skipped: usize,
}

/// How often each end of an operation came up, as a value.
pub ghost struct EndCounts {
    pub completed: nat,
    pub needs_you: nat,
    pub not_accepted: nat,
    pub skipped: nat,
}

impl View for OperationCounts {
    type V = EndCounts;

    open spec fn view(&self) -> EndCounts {
        EndCounts {
            completed: self.completed as nat,
            needs_you: self.needs_you as nat,
            not_accepted: self.not_accepted as nat,
            skipped: self.skipped as nat,
        }
    }
}

/// The counts with one more end.
pub open spec fn one_more(c: EndCounts, end: Option<EndView>) -> EndCounts {
    match end {
        Some(EndView::Completed { .. }) => EndCounts { completed: c.completed + 1, ..c },
        Some(EndView::NeedsYou { .. }) => EndCounts { needs_you: c.needs_you + 1, ..c },
        Some(EndView::NotAccepted { .. }) => EndCounts { not_accepted: c.not_accepted + 1, ..c },
        None => EndCounts { skipped: c.skipped + 1, ..c },
    }
}

/// Operations, commands and counts on the way through a restart.
pub ghost struct Settling {
    pub ops: Seq<OperationView>,
    pub intents: Intents,
    pub counts: EndCounts,
    pub problem: Option<ProblemView>,
}

/// A restart's way through the first `n` operations. It ends at the first that
/// cannot be brought to an end.
pub open spec fn settling(
    ops: Seq<OperationView>,
    intents: Intents,
    targets: Seq<TargetTables>,
    now: Seq<char>,
    n: nat,
) -> Settling
    decreases n,
{
    if n == 0 {
        Settling {
            ops,
            intents,
            counts: EndCounts { completed: 0, needs_you: 0, not_accepted: 0, skipped: 0 },
            problem: None,
        }
    } else {
        let s = settling(ops, intents, targets, now, (n - 1) as nat);
        if s.problem is Some || s.ops[n - 1].record.state.terminal() {
            s
        } else {
            let (op, after, end) = reconcile_operation_view(
                s.ops[n - 1],
                s.intents,
                targets,
                now,
            );
            match end {
                Ok(end) => Settling {
                    ops: s.ops.update(n - 1, op),
                    intents: after,
                    counts: one_more(s.counts, end),
                    problem: None,
                },
                Err(p) => Settling {
                    ops: s.ops.update(n - 1, op),
                    intents: after,
                    counts: s.counts,
                    problem: Some(ProblemView::Internal(p.message())),
                },
            }
        }
    }
}

proof fn lemma_settling_stops(
    ops: Seq<OperationView>,
    intents: Intents,
    targets: Seq<TargetTables>,
    now: Seq<char>,
    n: nat,
    all: nat,
)
    requires
        n <= all,
        settling(ops, intents, targets, now, n).problem is Some,
    ensures
        settling(ops, intents, targets, now, all) == settling(ops, intents, targets, now, n),
    decreases all - n,
{
    if n < all {
        lemma_settling_stops(ops, intents, targets, now, n + 1, all);
    }
}

/// Brings every open operation to its end, by its receipts alone.
pub fn reconcile_operations(
    operations: &mut Vec<OperationRow>,
    intents: &mut Table<IntentRow>,
    targets: &Vec<TargetDatabase>,
    now: &str,
) -> (r: Result<OperationCounts, CommandProblem>)
    requires
        old(intents).wf(),
        targets_wf(targets@),
        forall|i: int| 0 <= i < old(operations)@.len() ==> (#[trigger] old(operations)@[i])@.wf(),
    ensures
        final(intents).wf(),
        ({
            let end = settling(
                operations_view(old(operations)@),
                old(intents)@,
                tables(targets@),
                now@,
                old(operations)@.len(),
            );
            &&& operations_view(final(operations)@) == end.ops
            &&& final(intents)@ == end.intents
            &&& match r {
                Ok(c) => end.problem is None && c@ == end.counts,
                Err(p) => end.problem == Some(p@),
            }
        }),
{
    let ghost ops = operations_view(operations@);
    let ghost start = intents@;
    let ghost all = tables(targets@);
    let mut counts: OperationCounts = OperationCounts {
        completed: 0,
        needs_you: 0,
        not_accepted: 0,
        skipped: 0,
    };
    let mut i: usize = 0;
    while i < operations.len()
        invariant
            intents.wf(),
            targets_wf(targets@),
            all == tables(targets@),
            ops == operations_view(old(operations)@),
            start == old(intents)@,
            operations@.len() == old(operations)@.len(),
            i <= operations@.len(),
            forall|k: int| i <= k < operations@.len() ==> (#[trigger] operations@[k])@.wf(),
            ({
                let s = settling(ops, start, all, now@, i as nat);
                &&& s.problem is None
                &&& s.ops == operations_view(operations@)
                &&& s.intents == intents@
                &&& s.counts == counts@
            }),
            counts.completed + counts.needs_you + counts.not_accepted + counts.skipped <= i,
        decreases operations@.len() - i,
    {
        let ghost had = operations@;
        assert(operations_view(had)[i as int] == had[i as int]@);
        if !operations[i].record.state.is_terminal() {
            let ended: Result<Option<OperationOutcome>, OperationProblem> = reconcile_operation(
                &mut operations[i],
                intents,
                targets,
                now,
            );
            assert(operations_view(operations@) =~= operations_view(had).update(
                i as int,
                operations@[i as int]@,
            ));
            match ended {
                Ok(Some(OperationOutcome::Completed { .. })) => {
                    counts.completed = counts.completed + 1;
                },
                Ok(Some(OperationOutcome::NeedsYou { .. })) => {
                    counts.needs_you = counts.needs_you + 1;
                },
                Ok(Some(OperationOutcome::NotAccepted { .. })) => {
                    counts.not_accepted = counts.not_accepted + 1;
                },
                Ok(None) => {
                    counts.skipped = counts.skipped + 1;
                },
                Err(p) => {
                    proof {
                        lemma_settling_stops(ops, start, all, now@, (i + 1) as nat, ops.len());
                    }
                    return Err(CommandProblem::Internal(p.message()));
                },
            }
        }
        i = i + 1;
    }
    Ok(counts)
}

/// How many changes were given up, by store, over the first `n` targets; stores
/// where none waited are left out.
pub open spec fn outbox_counts(targets: Seq<TargetTables>, n: nat) -> Seq<(Seq<char>, nat)>
    decreases n,
{
    if n == 0 {
        seq![]
    } else {
        let rest = outbox_counts(targets, (n - 1) as nat);
        let count = pending(targets[n - 1].outbox).len();
        if count > 0 {
            rest.push((targets[n - 1].store_key, count))
        } else {
            rest
        }
    }
}

/// Gives up what waits in a target since before a restart; says how much it was.
pub fn mark_outbox_reconciled(target: &mut TargetDatabase, now: &str) -> (r: usize)
    requires
        old(target).wf(),
    ensures
        final(target).wf(),
        final(target)@ == given_up(old(target)@, now@),
        r == pending(old(target)@.outbox).len(),
{
    let waiting: Vec<Json> = target.pending();
    let count: usize = waiting.len();
    assert(items_view(waiting@).len() == count);
    target.close_pending(cat(OUTBOX_RECONCILED_PREFIX, now).as_str());
    count
}

/// Whether a mark on an event says that it was given up, not published.
pub fn is_reconciled_mark(published_at: &str) -> (r: bool)
    ensures
        r == begins(OUTBOX_RECONCILED_PREFIX@, published_at@),
{
    has_prefix(published_at, OUTBOX_RECONCILED_PREFIX)
}

/// Commands, operations, targets and the answer after a restart.
pub ghost struct Restarted {
    pub intents: Intents,
    pub ops: Seq<OperationView>,
    pub targets: Seq<TargetTables>,
    pub answer: Result<ReportView, ProblemView>,
}

/// What a restart leads to.
pub open spec fn restart_view(
    intents: Intents,
    ops: Seq<OperationView>,
    targets: Seq<TargetTables>,
    now: Seq<char>,
) -> Restarted {
    let settled = settled_intents(intents, ops, targets, now);
    let marked = ops.map_values(|op: OperationView| reconciling(op, now));
    let end = settling(marked, settled, targets, now, marked.len());
    match end.problem {
        Some(p) => Restarted { intents: end.intents, ops: end.ops, targets, answer: Err(p) },
        None => Restarted {
            intents: end.intents,
            ops: end.ops,
            targets: targets.map_values(|t: TargetTables| given_up(t, now)),
            answer: Ok(
                ReportView {
                    intents_revoked: with_fate(intents, ops, targets, IntentFate::Revoked).len(),
                    intents_applied: with_fate(intents, ops, targets, IntentFate::Applied).len(),
                    intents_skipped: with_fate(intents, ops, targets, IntentFate::Skipped).len(),
                    operations_completed: end.counts.completed,
                    operations_needs_you: end.counts.needs_you,
                    operations_not_accepted: end.counts.not_accepted,
                    operations_skipped: end.counts.skipped,
                    outbox_reconciled: outbox_counts(targets, targets.len()),
                },
            ),
        },
    }
}

/// Brings what a restart finds open to its end: commands first, operations after
/// them, and at last what waits to be published.
pub fn reconcile_startup(
    intents: &mut Table<IntentRow>,
    operations: &mut Vec<OperationRow>,
    targets: &mut Vec<TargetDatabase>,
    now: &str,
) -> (r: Result<ReconcileReport, CommandProblem>)
    requires
        old(intents).wf(),
        targets_wf(old(targets)@),
        forall|i: int| 0 <= i < old(operations)@.len() ==> (#[trigger] old(operations)@[i])@.wf(),
    ensures
        final(intents).wf(),
        targets_wf(final(targets)@),
        ({
            let end = restart_view(
                old(intents)@,
                operations_view(old(operations)@),
                tables(old(targets)@),
                now@,
            );
            &&& final(intents)@ == end.intents
            &&& operations_view(final(operations)@) == end.ops
            &&& tables(final(targets)@) == end.targets
            &&& outcome(r) == end.answer
        }),
{
    let ghost ops = operations_view(operations@);
    let ghost all = tables(targets@);
    let found: IntentCounts = reconcile_intents(intents, operations, targets, now);
    let mut i: usize = 0;
    let ghost marked = ops.map_values(|op: OperationView| reconciling(op, now@));
    while i < operations.len()
        invariant
            i <= operations@.len(),
            operations@.len() == old(operations)@.len(),
            ops == operations_view(old(operations)@),
            marked == ops.map_values(|op: OperationView| reconciling(op, now@)),
            forall|k: int| 0 <= k < operations@.len() ==> (#[trigger] operations@[k])@.wf(),
            forall|k: int| 0 <= k < i ==> (#[trigger] operations@[k])@ == marked[k],
            forall|k: int| i <= k < operations@.len() ==> (#[trigger] operations@[k])@ == ops[k],
        decreases operations@.len() - i,
    {
        let ghost had = operations@;
        assert(ops[i as int] == had[i as int]@);
        let _: bool = mark_reconciling(&mut operations[i], now);
        assert(operations@ =~= had.update(i as int, operations@[i as int]));
        i = i + 1;
    }
    assert(operations_view(operations@) =~= marked);
    let ended: OperationCounts = match reconcile_operations(operations, intents, targets, now) {
        Ok(c) => c,
        Err(p) => {
            return Err(p);
        },
    };
    let mut outbox_reconciled: Vec<(String, usize)> = Vec::new();
    let mut i: usize = 0;
    assert(counted(outbox_reconciled@) =~= seq![]);
    while i < targets.len()
        invariant
            targets_wf(targets@),
            i <= targets@.len(),
            targets@.len() == all.len(),
            forall|k: int|
                0 <= k < i ==> (#[trigger] targets@[k])@ == given_up(all[k], now@),
            forall|k: int| i <= k < targets@.len() ==> (#[trigger] targets@[k])@ == all[k],
            counted(outbox_reconciled@) == outbox_counts(all, i as nat),
        decreases targets@.len() - i,
    {
        let ghost had = targets@;
        let ghost listed = outbox_reconciled@;
        assert(had[i as int]@ == all[i as int]);
        let count: usize = mark_outbox_reconciled(&mut targets[i], now);
        assert(targets@ =~= had.update(i as int, targets@[i as int]));
        if count > 0 {
            let key: String = targets[i].store_key().to_owned();
            outbox_reconciled.push((key, count));
            assert(counted(outbox_reconciled@) =~= counted(listed).push((key@, count as nat)));
        }
        i = i + 1;
    }
    assert(tables(targets@) =~= all.map_values(|t: TargetTables| given_up(t, now@)));
    Ok(
        ReconcileReport {
            intents_revoked: found.revoked,
            intents_applied: found.applied,
            intents_skipped: found.skipped,
            operations_completed: ended.completed,
            operations_needs_you: ended.needs_you,
            operations_not_accepted: ended.not_accepted,
            operations_skipped: ended.skipped,
            outbox_reconciled,
        },
    )
}

/// A restart redoes no effect: no receipt of any store changes.
pub proof fn law_a_restart_redoes_nothing(
    intents: Intents,
    ops: Seq<OperationView>,
    targets: Seq<TargetTables>,
    now: Seq<char>,
    at: int,
)
    requires
        0 <= at < targets.len(),
    ensures
        ({
            let after = restart_view(intents, ops, targets, now).targets;
            &&& after.len() == targets.len()
            &&& after[at].receipts == targets[at].receipts
            &&& after[at].store_key == targets[at].store_key
        }),
{
}

/// After a restart nothing waits any more: what an earlier process had yet to publish is
/// given up, and its clients start from a snapshot.
pub proof fn law_a_restart_leaves_nothing_waiting(
    intents: Intents,
    ops: Seq<OperationView>,
    targets: Seq<TargetTables>,
    now: Seq<char>,
    at: int,
)
    requires
        0 <= at < targets.len(),
        restart_view(intents, ops, targets, now).answer is Ok,
    ensures
        pending(restart_view(intents, ops, targets, now).targets[at].outbox) == Seq::<
            JsonView,
        >::empty(),
{
    law_nothing_waits_once_closed_off(targets[at].outbox, OUTBOX_RECONCILED_PREFIX@ + now);
}

/// A command without a receipt is never taken for carried out, and one with its
/// receipt is never taken for revoked.
pub proof fn law_a_receipt_decides(
    id: Seq<char>,
    intent: IntentView,
    ops: Seq<OperationView>,
    targets: Seq<TargetTables>,
)
    ensures
        intent_fate(id, intent, ops, targets) is Applied ==> exists|at: int|
            0 <= at < targets.len() && (#[trigger] targets[at]).receipts.contains_key(id)
                && receipt_proves(targets[at].receipts[id], intent),
        intent_fate(id, intent, ops, targets) is Revoked ==> exists|at: int|
            0 <= at < targets.len() && (#[trigger] targets[at]).store_key == intent.target_store
                && !targets[at].receipts.contains_key(id),
{
    lemma_target_at(targets, intent.target_store, 0);
}

/// A second restart changes no command that the first has looked at.
pub proof fn law_settling_commands_is_repeatable(
    intents: Intents,
    ops: Seq<OperationView>,
    targets: Seq<TargetTables>,
    now: Seq<char>,
    later: Seq<char>,
)
    ensures
        settled_intents(settled_intents(intents, ops, targets, now), ops, targets, later)
            == settled_intents(intents, ops, targets, now),
{
    assert(settled_intents(settled_intents(intents, ops, targets, now), ops, targets, later)
        =~= settled_intents(intents, ops, targets, now));
}

/// Whether a restart has nothing more to do for an operation: it is at its end, or there
/// are no steps to go by.
pub open spec fn at_rest(op: OperationView) -> bool {
    op.record.state.terminal() || op.record.state is Reconciling && op.steps.len() == 0
}

proof fn lemma_one_settled(
    op: OperationView,
    intents: Intents,
    targets: Seq<TargetTables>,
    now: Seq<char>,
)
    requires
        op.record.state is Reconciling,
    ensures
        ({
            let (after, changed, end) = reconcile_operation_view(op, intents, targets, now);
            &&& end is Ok ==> at_rest(after)
            &&& after.record.command_id == op.record.command_id
            &&& changed.dom() == intents.dom()
            &&& forall|id: Seq<char>|
                id != op.record.command_id && intents.contains_key(id) ==> changed[id]
                    == #[trigger] intents[id]
        }),
{
    let (after, changed, end) = reconcile_operation_view(op, intents, targets, now);
    assert(changed.dom() =~= intents.dom());
}

proof fn lemma_settled_so_far(
    ops: Seq<OperationView>,
    intents: Intents,
    targets: Seq<TargetTables>,
    now: Seq<char>,
    n: nat,
)
    requires
        n <= ops.len(),
        forall|k: int|
            0 <= k < ops.len() ==> (#[trigger] ops[k]).record.state.terminal()
                || ops[k].record.state is Reconciling,
        settling(ops, intents, targets, now, n).problem is None,
    ensures
        ({
            let s = settling(ops, intents, targets, now, n);
            &&& s.ops.len() == ops.len()
            &&& forall|k: int|
                0 <= k < ops.len() ==> (#[trigger] s.ops[k]).record.command_id
                    == ops[k].record.command_id
            &&& forall|k: int| 0 <= k < n ==> at_rest(#[trigger] s.ops[k])
            &&& forall|k: int| n <= k < ops.len() ==> #[trigger] s.ops[k] == ops[k]
            &&& s.intents.dom() == intents.dom()
            &&& forall|id: Seq<char>|
                !owned(ops, id) && intents.contains_key(id) ==> s.intents[id]
                    == #[trigger] intents[id]
        }),
    decreases n,
{
    if n > 0 {
        let m = (n - 1) as nat;
        let s = settling(ops, intents, targets, now, m);
        assert(s.problem is None);
        lemma_settled_so_far(ops, intents, targets, now, m);
        assert(s.ops[m as int] == ops[m as int]);
        if !s.ops[m as int].record.state.terminal() {
            lemma_one_settled(s.ops[m as int], s.intents, targets, now);
            let after = settling(ops, intents, targets, now, n);
            assert forall|id: Seq<char>|
                !owned(ops, id) && intents.contains_key(id) implies after.intents[id]
                == #[trigger] intents[id] by {
                assert(ops[m as int].record.command_id != id);
                assert(s.intents[id] == intents[id]);
                assert(s.intents.contains_key(id));
            }
        }
    }
}

proof fn lemma_settling_rests(
    ops: Seq<OperationView>,
    intents: Intents,
    targets: Seq<TargetTables>,
    now: Seq<char>,
    n: nat,
)
    requires
        n <= ops.len(),
        forall|k: int| 0 <= k < ops.len() ==> at_rest(#[trigger] ops[k]),
    ensures
        ({
            let s = settling(ops, intents, targets, now, n);
            &&& s.ops == ops
            &&& s.intents == intents
            &&& s.problem is None
            &&& s.counts.completed == 0
            &&& s.counts.needs_you == 0
            &&& s.counts.not_accepted == 0
        }),
    decreases n,
{
    if n > 0 {
        lemma_settling_rests(ops, intents, targets, now, (n - 1) as nat);
        assert(ops.update(n - 1, ops[n - 1]) =~= ops);
    }
}

proof fn lemma_same_place(a: Seq<TargetTables>, b: Seq<TargetTables>, key: Seq<char>, from: int)
    requires
        a.len() == b.len(),
        0 <= from,
        forall|i: int| 0 <= i < a.len() ==> (#[trigger] a[i]).store_key == b[i].store_key,
    ensures
        target_at(a, key, from) == target_at(b, key, from),
    decreases a.len() - from,
{
    if from < a.len() {
        assert(a[from].store_key == b[from].store_key);
        lemma_same_place(a, b, key, from + 1);
    }
}

proof fn lemma_none_waited(targets: Seq<TargetTables>, n: nat)
    requires
        n <= targets.len(),
        forall|i: int|
            0 <= i < targets.len() ==> pending((#[trigger] targets[i]).outbox) == Seq::<
                JsonView,
            >::empty(),
    ensures
        outbox_counts(targets, n) == Seq::<(Seq<char>, nat)>::empty(),
    decreases n,
{
    if n > 0 {
        lemma_none_waited(targets, (n - 1) as nat);
        assert(pending(targets[n - 1].outbox).len() == 0);
    }
}

/// A restart that came to its end has nothing left to do: another one, at any later
/// moment, changes no command, no operation and no store, and ends nothing.
pub proof fn law_a_restart_is_repeatable(
    intents: Intents,
    ops: Seq<OperationView>,
    targets: Seq<TargetTables>,
    now: Seq<char>,
    later: Seq<char>,
)
    requires
        restart_view(intents, ops, targets, now).answer is Ok,
    ensures
        ({
            let first = restart_view(intents, ops, targets, now);
            let second = restart_view(first.intents, first.ops, first.targets, later);
            &&& second.intents == first.intents
            &&& second.ops == first.ops
            &&& second.targets == first.targets
            &&& second.answer matches Ok(report) && {
                &&& report.intents_revoked == 0
                &&& report.intents_applied == 0
                &&& report.operations_completed == 0
                &&& report.operations_needs_you == 0
                &&& report.operations_not_accepted == 0
                &&& report.outbox_reconciled.len() == 0
            }
        }),
{
    let first = restart_view(intents, ops, targets, now);
    let second = restart_view(first.intents, first.ops, first.targets, later);
    let settled = settled_intents(intents, ops, targets, now);
    let marked = ops.map_values(|op: OperationView| reconciling(op, now));
    assert forall|k: int| 0 <= k < marked.len() implies (#[trigger] marked[k]).record.state.terminal()
        || marked[k].record.state is Reconciling by {
        assert(marked[k] == reconciling(ops[k], now));
    }
    lemma_settled_so_far(marked, settled, targets, now, marked.len());
    assert forall|id: Seq<char>| owned(first.ops, id) == owned(ops, id) && owned(marked, id)
        == owned(ops, id) by {
        if owned(ops, id) {
            let i = choose|i: int| 0 <= i < ops.len() && (#[trigger] ops[i]).record.command_id == id;
            assert(marked[i].record.command_id == id);
            assert(first.ops[i].record.command_id == id);
        }
        if owned(first.ops, id) {
            let i = choose|i: int|
                0 <= i < first.ops.len() && (#[trigger] first.ops[i]).record.command_id == id;
            assert(marked[i].record.command_id == id);
            assert(ops[i].record.command_id == id);
        }
        if owned(marked, id) {
            let i = choose|i: int|
                0 <= i < marked.len() && (#[trigger] marked[i]).record.command_id == id;
            assert(ops[i].record.command_id == id);
        }
    }
    assert forall|i: int| 0 <= i < targets.len() implies (#[trigger] first.targets[i]).store_key
        == targets[i].store_key && first.targets[i].receipts == targets[i].receipts && pending(
        first.targets[i].outbox,
    ) == Seq::<JsonView>::empty() && given_up(first.targets[i], later) == first.targets[i] by {
        let mark = OUTBOX_RECONCILED_PREFIX@ + now;
        law_nothing_waits_once_closed_off(targets[i].outbox, mark);
        assert(closed_off(first.targets[i].outbox, OUTBOX_RECONCILED_PREFIX@ + later)
            =~= first.targets[i].outbox);
    }
    assert forall|id: Seq<char>| first.intents.contains_key(id) implies {
        let fate = #[trigger] intent_fate(id, first.intents[id], first.ops, first.targets);
        fate is Left || fate is Skipped
    } by {
        if !owned(ops, id) {
            assert(settled.contains_key(id));
            assert(first.intents[id] == settled[id]);
            lemma_same_place(first.targets, targets, first.intents[id].target_store, 0);
            lemma_target_at(targets, first.intents[id].target_store, 0);
        }
    }
    assert(settled_intents(first.intents, first.ops, first.targets, later) =~= first.intents);
    let again = first.ops.map_values(|op: OperationView| reconciling(op, later));
    assert(again =~= first.ops);
    lemma_settling_rests(first.ops, first.intents, first.targets, later, first.ops.len());
    assert(second.targets =~= first.targets);
    lemma_none_waited(first.targets, first.targets.len());
    assert(with_fate(first.intents, first.ops, first.targets, IntentFate::Revoked)
        =~= Set::empty());
    assert(with_fate(first.intents, first.ops, first.targets, IntentFate::Applied)
        =~= Set::empty());
}

/// What happened, for the record.
#[derive(Debug)]
pub struct AuditRow {
    pub created_at: String,
    pub summary: String,
}

/// What happened, as a value.
pub ghost struct AuditView {
    pub created_at: Seq<char>,
    pub summary: Seq<char>,
}

impl View for AuditRow {
    type V = AuditView;

    open spec fn view(&self) -> AuditView {
        AuditView { created_at: self.created_at@, summary: self.summary@ }
    }
}

/// Audit rows as values.
pub open spec fn audit_view(v: Seq<AuditRow>) -> Seq<AuditView> {
    v.map_values(|a: AuditRow| a@)
}

/// Whether the record names an id: in quotes, so that a part of a longer one does
/// not count.
pub open spec fn referenced(audit: Seq<AuditView>, id: Seq<char>) -> bool {
    exists|i: int| 0 <= i < audit.len() && occurs("\""@ + id + "\""@, (#[trigger] audit[i]).summary)
}

fn audit_references(audit: &Vec<AuditRow>, id: &str) -> (r: bool)
    ensures
        r == referenced(audit_view(audit@), id@),
{
    let quoted: String = cat3("\"", id, "\"");
    let ghost all = audit_view(audit@);
    let mut i: usize = 0;
    while i < audit.len()
        invariant
            i <= audit@.len(),
            all == audit_view(audit@),
            quoted@ == "\""@ + id@ + "\""@,
            forall|k: int| 0 <= k < i ==> !occurs(quoted@, (#[trigger] all[k]).summary),
        decreases audit@.len() - i,
    {
        assert(all[i as int] == audit@[i as int]@);
        if contains(audit[i].summary.as_str(), quoted.as_str()) {
            assert(occurs("\""@ + id@ + "\""@, all[i as int].summary));
            return true;
        }
        i = i + 1;
    }
    false
}

/// What has to stay whatever its age: a caller says so after it has looked at what
/// is active and what is pinned.
#[derive(Debug)]
pub struct GcProtection {
    receipt_ids: Vec<String>,
    operation_handles: Vec<String>,
}

/// What has to stay whatever its age, as a value.
pub ghost struct ProtectionView {
    pub receipt_ids: Set<Seq<char>>,
    pub operation_handles: Set<Seq<char>>,
}

impl View for GcProtection {
    type V = ProtectionView;

    closed spec fn view(&self) -> ProtectionView {
        ProtectionView {
            receipt_ids: texts(self.receipt_ids@).to_set(),
            operation_handles: texts(self.operation_handles@).to_set(),
        }
    }
}

proof fn lemma_pushed(v: Seq<String>, s: String)
    ensures
        texts(v.push(s)).to_set() == texts(v).to_set().insert(s@),
{
    let after = texts(v.push(s));
    assert(after =~= texts(v).push(s@));
    assert forall|x: Seq<char>| #[trigger]
        after.to_set().contains(x) <==> texts(v).to_set().insert(s@).contains(x) by {
        if after.contains(x) {
            let k = choose|k: int| 0 <= k < after.len() && after[k] == x;
            if k < v.len() {
                assert(texts(v)[k] == x);
            }
        }
        if texts(v).contains(x) {
            let k = choose|k: int| 0 <= k < v.len() && texts(v)[k] == x;
            assert(after[k] == x);
        }
        if x == s@ {
            assert(after[v.len() as int] == x);
        }
    }
    assert(after.to_set() =~= texts(v).to_set().insert(s@));
}

impl GcProtection {
    /// Nothing has to stay: the caller has looked, and found nothing.
    pub fn confirmed_empty() -> (r: Self)
        ensures
            r@.receipt_ids == Set::<Seq<char>>::empty(),
            r@.operation_handles == Set::<Seq<char>>::empty(),
    {
        let r: GcProtection = GcProtection {
            receipt_ids: Vec::new(),
            operation_handles: Vec::new(),
        };
        assert(r@.receipt_ids =~= Set::empty());
        assert(r@.operation_handles =~= Set::empty());
        r
    }

    /// A command has to stay.
    pub fn protect_command(self, command_id: &CommandId) -> (r: Self)
        ensures
            r@ == (ProtectionView {
                receipt_ids: self@.receipt_ids.insert(command_id@),
                ..self@
            }),
    {
        let id: String = command_id.as_str().to_owned();
        let mut receipt_ids: Vec<String> = self.receipt_ids;
        proof {
            lemma_pushed(receipt_ids@, id);
        }
        receipt_ids.push(id);
        GcProtection { receipt_ids, operation_handles: self.operation_handles }
    }

    /// A step has to stay.
    pub fn protect_step(self, step_id: &StepId) -> (r: Self)
        ensures
            r@ == (ProtectionView { receipt_ids: self@.receipt_ids.insert(step_id@), ..self@ }),
    {
        let id: String = step_id.as_str().to_owned();
        let mut receipt_ids: Vec<String> = self.receipt_ids;
        proof {
            lemma_pushed(receipt_ids@, id);
        }
        receipt_ids.push(id);
        GcProtection { receipt_ids, operation_handles: self.operation_handles }
    }

    /// An operation has to stay.
    pub fn protect_operation(self, handle: &OperationHandle) -> (r: Self)
        ensures
            r@ == (ProtectionView {
                operation_handles: self@.operation_handles.insert(handle@),
                ..self@
            }),
    {
        let id: String = handle.as_str().to_owned();
        let mut operation_handles: Vec<String> = self.operation_handles;
        proof {
            lemma_pushed(operation_handles@, id);
        }
        operation_handles.push(id);
        GcProtection { receipt_ids: self.receipt_ids, operation_handles }
    }

    fn has_receipt(&self, id: &str) -> (r: bool)
        ensures
            r == self@.receipt_ids.contains(id@),
    {
        list_has(&self.receipt_ids, id)
    }

    fn has_operation(&self, handle: &str) -> (r: bool)
        ensures
            r == self@.operation_handles.contains(handle@),
    {
        list_has(&self.operation_handles, handle)
    }
}

/// What one round of cleaning took out.
#[derive(Debug)]
pub struct GcReport {
    pub operations_deleted: usize,
    pub intents_deleted: usize,
    pub receipts_deleted: Vec<(String, usize)>,
    pub audit_deleted: usize,
}

/// Whether an operation may go: it has ended, is old enough, and neither the caller
/// nor the record holds on to it.
pub open spec fn operation_expendable(
    op: OperationView,
    audit: Seq<AuditView>,
    protection: ProtectionView,
    cutoff: Seq<char>,
) -> bool {
    &&& op.record.state.terminal()
    &&& before(op.record.updated_at, cutoff)
    &&& !protection.operation_handles.contains(op.record.operation_handle)
    &&& !protection.receipt_ids.contains(op.record.command_id)
    &&& !referenced(audit, op.record.operation_handle)
    &&& !referenced(audit, op.record.command_id)
}

/// The operations that stay.
pub open spec fn kept_operations(
    ops: Seq<OperationView>,
    audit: Seq<AuditView>,
    protection: ProtectionView,
    cutoff: Seq<char>,
) -> Seq<OperationView>
    decreases ops.len(),
{
    if ops.len() == 0 {
        seq![]
    } else {
        let rest = kept_operations(ops.drop_last(), audit, protection, cutoff);
        if operation_expendable(ops.last(), audit, protection, cutoff) {
            rest
        } else {
            rest.push(ops.last())
        }
    }
}

fn gc_operations(
    operations: &mut Vec<OperationRow>,
    audit: &Vec<AuditRow>,
    protection: &GcProtection,
    cutoff: &str,
) -> (r: usize)
    ensures
        operations_view(final(operations)@) == kept_operations(
            operations_view(old(operations)@),
            audit_view(audit@),
            protection@,
            cutoff@,
        ),
        r == old(operations)@.len() - final(operations)@.len(),
{
    let ghost start = operations_view(operations@);
    let ghost trail = audit_view(audit@);
    let ghost mut done: int = 0;
    let mut deleted: usize = 0;
    let mut i: usize = 0;
    assert(start.take(0) =~= seq![]);
    assert(start.len() == operations.len());
    assert(operations_view(operations@) =~= seq![] + start.skip(0));
    while i < operations.len()
        invariant
            trail == audit_view(audit@),
            0 <= done <= start.len() <= usize::MAX,
            i == kept_operations(start.take(done), trail, protection@, cutoff@).len(),
            operations_view(operations@) == kept_operations(
                start.take(done),
                trail,
                protection@,
                cutoff@,
            ) + start.skip(done),
            deleted == done - i,
        decreases start.len() - done,
    {
        let ghost had = operations@;
        let ghost op = start[done];
        assert(start.take(done + 1).drop_last() =~= start.take(done));
        assert(start.take(done + 1).last() == op);
        assert(operations_view(had)[i as int] == op);
        assert(had[i as int]@ == op);
        let record = &operations[i].record;
        let expendable: bool = record.state.is_terminal() && less(
            record.updated_at.as_str(),
            cutoff,
        ) && !protection.has_operation(record.operation_handle.as_str())
            && !protection.has_receipt(record.command_id.as_str()) && !audit_references(
            audit,
            record.operation_handle.as_str(),
        ) && !audit_references(audit, record.command_id.as_str());
        assert(expendable == operation_expendable(op, trail, protection@, cutoff@));
        if expendable {
            operations.remove(i);
            assert(operations_view(operations@) =~= operations_view(had).remove(i as int));
            assert(operations_view(operations@) =~= kept_operations(
                start.take(done + 1),
                trail,
                protection@,
                cutoff@,
            ) + start.skip(done + 1));
            deleted = deleted + 1;
        } else {
            assert(operations_view(operations@) =~= kept_operations(
                start.take(done + 1),
                trail,
                protection@,
                cutoff@,
            ) + start.skip(done + 1));
            i = i + 1;
        }
        proof {
            done = done + 1;
        }
    }
    assert(done == start.len());
    assert(start.take(done) =~= start);
    assert(operations_view(operations@) =~= kept_operations(start, trail, protection@, cutoff@));
    deleted
}

/// Whether a command may go: it is closed and old enough, no operation is its own,
/// and neither the caller nor the record holds on to it.
pub open spec fn intent_expendable(
    id: Seq<char>,
    intent: IntentView,
    ops: Seq<OperationView>,
    audit: Seq<AuditView>,
    protection: ProtectionView,
    cutoff: Seq<char>,
) -> bool {
    &&& !(intent.state is Reserved)
    &&& intent.resolved_at matches Some(at) && before(at, cutoff)
    &&& !owned(ops, id)
    &&& !protection.receipt_ids.contains(id)
    &&& !referenced(audit, id)
}

/// The commands that stay.
pub open spec fn kept_intents(
    intents: Intents,
    ops: Seq<OperationView>,
    audit: Seq<AuditView>,
    protection: ProtectionView,
    cutoff: Seq<char>,
) -> Intents {
    Map::new(
        |id: Seq<char>|
            intents.contains_key(id) && !intent_expendable(
                id,
                intents[id],
                ops,
                audit,
                protection,
                cutoff,
            ),
        |id: Seq<char>| intents[id],
    )
}

fn gc_intents(
    intents: &mut Table<IntentRow>,
    operations: &Vec<OperationRow>,
    audit: &Vec<AuditRow>,
    protection: &GcProtection,
    cutoff: &str,
) -> (r: usize)
    requires
        old(intents).wf(),
    ensures
        final(intents).wf(),
        final(intents)@ == kept_intents(
            old(intents)@,
            operations_view(operations@),
            audit_view(audit@),
            protection@,
            cutoff@,
        ),
        r == old(intents)@.dom().filter(
            |id: Seq<char>|
                intent_expendable(
                    id,
                    old(intents)@[id],
                    operations_view(operations@),
                    audit_view(audit@),
                    protection@,
                    cutoff@,
                ),
        ).len(),
{
    let ghost start = intents@;
    let ghost ops = operations_view(operations@);
    let ghost trail = audit_view(audit@);
    let ghost goes = |id: Seq<char>|
        intent_expendable(id, start[id], ops, trail, protection@, cutoff@);
    let keys: Vec<String> = intents.keys();
    let ghost ids = texts(keys@);
    let mut deleted: usize = 0;
    let mut i: usize = 0;
    assert(ids.take(0) =~= seq![]);
    while i < keys.len()
        invariant
            intents.wf(),
            ops == operations_view(operations@),
            trail == audit_view(audit@),
            goes == (|id: Seq<char>|
                intent_expendable(id, start[id], ops, trail, protection@, cutoff@)),
            i <= keys@.len(),
            ids == texts(keys@),
            ids.no_duplicates(),
            forall|id: Seq<char>| #[trigger] start.contains_key(id) <==> ids.contains(id),
            forall|id: Seq<char>| #[trigger]
                intents@.contains_key(id) ==> start.contains_key(id) && intents@[id] == start[id],
            forall|k: int|
                0 <= k < i ==> intents@.contains_key(#[trigger] ids[k]) == !intent_expendable(
                    ids[k],
                    start[ids[k]],
                    ops,
                    trail,
                    protection@,
                    cutoff@,
                ),
            forall|k: int| i <= k < ids.len() ==> intents@.contains_key(#[trigger] ids[k]),
            deleted == tally(ids.take(i as int), goes),
            deleted <= i,
        decreases keys@.len() - i,
    {
        let ghost id = ids[i as int];
        let ghost had = intents@;
        assert(id == keys@[i as int]@);
        assert(had.contains_key(id));
        assert(ids.take(i + 1).drop_last() =~= ids.take(i as int));
        assert(ids.take(i + 1).last() == id);
        let expendable: bool = match intents.get(keys[i].as_str()) {
            Some(row) => {
                let old_enough: bool = match &row.resolved_at {
                    Some(at) => less(at.as_str(), cutoff),
                    None => false,
                };
                !matches!(row.state, IntentState::Reserved) && old_enough && !is_owned(
                    operations,
                    keys[i].as_str(),
                ) && !protection.has_receipt(keys[i].as_str()) && !audit_references(
                    audit,
                    keys[i].as_str(),
                )
            },
            None => false,
        };
        assert(expendable == goes(id));
        if expendable {
            intents.remove(keys[i].as_str());
            deleted = deleted + 1;
        }
        assert forall|k: int| 0 <= k < i + 1 implies intents@.contains_key(#[trigger] ids[k])
            == !intent_expendable(ids[k], start[ids[k]], ops, trail, protection@, cutoff@) by {
            if k < i {
                assert(ids[k] != ids[i as int]);
            }
        }
        assert forall|k: int| i + 1 <= k < ids.len() implies intents@.contains_key(
            #[trigger] ids[k],
        ) by {
            assert(ids[k] != ids[i as int]);
        }
        i = i + 1;
    }
    proof {
        assert(ids.take(i as int) =~= ids);
        let kept = kept_intents(start, ops, trail, protection@, cutoff@);
        assert forall|id: Seq<char>| #[trigger] intents@.contains_key(id)
            == kept.contains_key(id) by {
            if start.contains_key(id) {
                assert(ids.contains(id));
                let k = choose|k: int| 0 <= k < ids.len() && ids[k] == id;
                assert(intents@.contains_key(ids[k]) == !goes(ids[k]));
            }
        }
        assert(intents@ =~= kept);
        lemma_tally(ids, goes);
        assert(ids.to_set() =~= start.dom());
        assert(start.dom().filter(goes) =~= start.dom().filter(
            |id: Seq<char>|
                intent_expendable(id, start[id], ops, trail, protection@, cutoff@),
        ));
    }
    deleted
}

/// The receipts that an operation still needs: that of its acceptance and those of
/// its steps, while it is open.
pub open spec fn held_by(op: OperationView, id: Seq<char>) -> bool {
    &&& !op.record.state.terminal()
    &&& op.record.command_id == id || exists|k: int|
        0 <= k < op.steps.len() && (#[trigger] op.steps[k]).step_id == id
}

/// Whether an open operation still needs a receipt.
pub open spec fn held_open(ops: Seq<OperationView>, id: Seq<char>) -> bool {
    exists|i: int| 0 <= i < ops.len() && held_by(#[trigger] ops[i], id)
}

fn is_held_by(op: &OperationRow, id: &str) -> (r: bool)
    ensures
        r == held_by(op@, id@),
{
    if op.record.state.is_terminal() {
        return false;
    }
    if same(op.record.command_id.as_str(), id) {
        return true;
    }
    let ghost all = op@.steps;
    let mut k: usize = 0;
    while k < op.steps.len()
        invariant
            k <= op.steps@.len(),
            all == op@.steps,
            forall|m: int| 0 <= m < k ==> (#[trigger] all[m]).step_id != id@,
            !op@.record.state.terminal(),
        decreases op.steps@.len() - k,
    {
        assert(all[k as int] == op.steps@[k as int]@);
        if same(op.steps[k].step_id.as_str(), id) {
            assert(op@.steps[k as int].step_id == id@);
            return true;
        }
        k = k + 1;
    }
    false
}

fn is_held_open(ops: &Vec<OperationRow>, id: &str) -> (r: bool)
    ensures
        r == held_open(operations_view(ops@), id@),
{
    let ghost all = operations_view(ops@);
    let mut i: usize = 0;
    while i < ops.len()
        invariant
            i <= ops@.len(),
            all == operations_view(ops@),
            forall|k: int| 0 <= k < i ==> !held_by(#[trigger] all[k], id@),
        decreases ops@.len() - i,
    {
        assert(all[i as int] == ops@[i as int]@);
        if is_held_by(&ops[i], id) {
            assert(held_by(all[i as int], id@));
            return true;
        }
        i = i + 1;
    }
    false
}

/// Whether a receipt may go at all: it is final, no open operation needs it, and
/// neither the caller nor the record holds on to it.
pub open spec fn receipt_free(
    id: Seq<char>,
    row: ReceiptView,
    ops: Seq<OperationView>,
    audit: Seq<AuditView>,
    protection: ProtectionView,
) -> bool {
    &&& row.state == "applied"@
    &&& row.finalized_at is Some
    &&& !held_open(ops, id)
    &&& !protection.receipt_ids.contains(id)
    &&& !referenced(audit, id)
}

/// The receipts that stay by their age.
pub open spec fn young_receipts(
    receipts: Receipts,
    ops: Seq<OperationView>,
    audit: Seq<AuditView>,
    protection: ProtectionView,
    cutoff: Seq<char>,
) -> Receipts {
    Map::new(
        |id: Seq<char>|
            receipts.contains_key(id) && !(receipt_free(id, receipts[id], ops, audit, protection)
                && before(receipts[id].finalized_at->0, cutoff)),
        |id: Seq<char>| receipts[id],
    )
}

/// Whether `after` is `had` without the oldest receipts that may go: as many as are
/// over the bound, or all that may go where there are fewer.
pub open spec fn capped(
    had: Receipts,
    after: Receipts,
    max_rows: u64,
    ops: Seq<OperationView>,
    audit: Seq<AuditView>,
    protection: ProtectionView,
) -> bool {
    &&& after.dom().finite()
    &&& forall|id: Seq<char>| #[trigger]
        after.contains_key(id) ==> had.contains_key(id) && after[id] == had[id]
    &&& forall|id: Seq<char>| #[trigger]
        had.contains_key(id) && !after.contains_key(id) ==> receipt_free(
            id,
            had[id],
            ops,
            audit,
            protection,
        )
    &&& forall|gone: Seq<char>, kept: Seq<char>|
        #![trigger had.contains_key(gone), after.contains_key(kept)]
        had.contains_key(gone) && !after.contains_key(gone) && after.contains_key(kept)
            && receipt_free(kept, had[kept], ops, audit, protection) ==> !before(
            had[kept].finalized_at->0,
            had[gone].finalized_at->0,
        )
    &&& had.dom().len() <= max_rows ==> after == had
    &&& had.dom().len() > max_rows ==> {
        ||| after.dom().len() == max_rows
        ||| after.dom().len() > max_rows && forall|id: Seq<char>| #[trigger]
            after.contains_key(id) ==> !receipt_free(id, had[id], ops, audit, protection)
    }
}

/// Whether of receipts that became final at one moment those went first that were
/// written first.
pub open spec fn first_written_first(
    order: Seq<Seq<char>>,
    had: Receipts,
    after: Receipts,
    ops: Seq<OperationView>,
    audit: Seq<AuditView>,
    protection: ProtectionView,
) -> bool {
    forall|gone: Seq<char>, kept: Seq<char>|
        #![trigger had.contains_key(gone), after.contains_key(kept)]
        had.contains_key(gone) && !after.contains_key(gone) && after.contains_key(kept)
            && receipt_free(kept, had[kept], ops, audit, protection) && had[kept].finalized_at
            == had[gone].finalized_at ==> earlier(order, gone, kept)
}

/// What cleaning does to the receipts of a target.
pub open spec fn receipts_cleaned(
    had: TargetTables,
    after: TargetTables,
    cutoff: Seq<char>,
    max_rows: u64,
    ops: Seq<OperationView>,
    audit: Seq<AuditView>,
    protection: ProtectionView,
) -> bool {
    &&& after == (TargetTables { receipts: after.receipts, ..had })
    &&& capped(
        young_receipts(had.receipts, ops, audit, protection, cutoff),
        after.receipts,
        max_rows,
        ops,
        audit,
        protection,
    )
}

fn is_receipt_free(
    row: &ReceiptRow,
    id: &str,
    operations: &Vec<OperationRow>,
    audit: &Vec<AuditRow>,
    protection: &GcProtection,
) -> (r: bool)
    ensures
        r == receipt_free(
            id@,
            row@,
            operations_view(operations@),
            audit_view(audit@),
            protection@,
        ),
{
    same(row.state.as_str(), "applied") && row.finalized_at.is_some() && !is_held_open(
        operations,
        id,
    ) && !protection.has_receipt(id) && !audit_references(audit, id)
}

fn drop_aged_receipts(
    target: &mut TargetDatabase,
    cutoff: &str,
    operations: &Vec<OperationRow>,
    audit: &Vec<AuditRow>,
    protection: &GcProtection,
) -> (r: usize)
    requires
        old(target).wf(),
    ensures
        final(target).wf(),
        final(target)@ == (TargetTables {
            receipts: young_receipts(
                old(target)@.receipts,
                operations_view(operations@),
                audit_view(audit@),
                protection@,
                cutoff@,
            ),
            ..old(target)@
        }),
        final(target)@.receipts.dom().finite(),
        in_order_of(final(target).receipt_order(), old(target).receipt_order()),
        r == old(target)@.receipts.dom().len() - final(target)@.receipts.dom().len(),
{
    let ghost start = target@;
    let ghost order = target.receipt_order();
    let ghost ops = operations_view(operations@);
    let ghost trail = audit_view(audit@);
    let ghost kept = young_receipts(start.receipts, ops, trail, protection@, cutoff@);
    let keys: Vec<String> = target.receipt_ids();
    let ghost ids = texts(keys@);
    let mut deleted: usize = 0;
    let mut i: usize = 0;
    while i < keys.len()
        invariant
            target.wf(),
            ops == operations_view(operations@),
            trail == audit_view(audit@),
            kept == young_receipts(start.receipts, ops, trail, protection@, cutoff@),
            i <= keys@.len(),
            ids == texts(keys@),
            ids.no_duplicates(),
            target@ == (TargetTables { receipts: target@.receipts, ..start }),
            in_order_of(target.receipt_order(), order),
            target@.receipts.dom().finite(),
            deleted == start.receipts.dom().len() - target@.receipts.dom().len(),
            deleted <= i,
            forall|id: Seq<char>| #[trigger] start.receipts.contains_key(id) <==> ids.contains(id),
            forall|id: Seq<char>| #[trigger]
                target@.receipts.contains_key(id) ==> start.receipts.contains_key(id)
                    && target@.receipts[id] == start.receipts[id],
            forall|k: int|
                0 <= k < i ==> target@.receipts.contains_key(#[trigger] ids[k])
                    == kept.contains_key(ids[k]),
            forall|k: int| i <= k < ids.len() ==> target@.receipts.contains_key(#[trigger] ids[k]),
        decreases keys@.len() - i,
    {
        let ghost id = ids[i as int];
        let ghost had = target@.receipts;
        assert(id == keys@[i as int]@);
        assert(had.contains_key(id));
        let aged: bool = match target.receipt_row(keys[i].as_str()) {
            Some(row) => {
                let old_enough: bool = match &row.finalized_at {
                    Some(at) => less(at.as_str(), cutoff),
                    None => false,
                };
                old_enough && is_receipt_free(
                    row,
                    keys[i].as_str(),
                    operations,
                    audit,
                    protection,
                )
            },
            None => false,
        };
        assert(aged == !kept.contains_key(id));
        if aged {
            target.drop_receipt(keys[i].as_str());
            assert(target@.receipts.dom() =~= had.dom().remove(id));
            deleted = deleted + 1;
        }
        assert forall|k: int| 0 <= k < i + 1 implies target@.receipts.contains_key(
            #[trigger] ids[k],
        ) == kept.contains_key(ids[k]) by {
            if k < i {
                assert(ids[k] != ids[i as int]);
            }
        }
        assert forall|k: int| i + 1 <= k < ids.len() implies target@.receipts.contains_key(
            #[trigger] ids[k],
        ) by {
            assert(ids[k] != ids[i as int]);
        }
        i = i + 1;
    }
    proof {
        assert forall|id: Seq<char>| #[trigger] target@.receipts.contains_key(id)
            == kept.contains_key(id) by {
            if start.receipts.contains_key(id) {
                assert(ids.contains(id));
                let k = choose|k: int| 0 <= k < ids.len() && ids[k] == id;
                assert(target@.receipts.contains_key(ids[k]) == kept.contains_key(ids[k]));
            }
        }
        assert(target@.receipts =~= kept);
    }
    deleted
}

/// The oldest receipt that may go, if one may; of several the first that was written.
fn oldest_free_receipt(
    target: &TargetDatabase,
    operations: &Vec<OperationRow>,
    audit: &Vec<AuditRow>,
    protection: &GcProtection,
) -> (r: Option<String>)
    requires
        target.wf(),
    ensures
        ({
            let ops = operations_view(operations@);
            let trail = audit_view(audit@);
            match r {
                Some(id) => {
                    &&& target@.receipts.contains_key(id@)
                    &&& receipt_free(id@, target@.receipts[id@], ops, trail, protection@)
                    &&& forall|k: Seq<char>| #[trigger]
                        target@.receipts.contains_key(k) && receipt_free(
                            k,
                            target@.receipts[k],
                            ops,
                            trail,
                            protection@,
                        ) ==> !before(
                            target@.receipts[k].finalized_at->0,
                            target@.receipts[id@].finalized_at->0,
                        ) && (k != id@ && target@.receipts[k].finalized_at
                            == target@.receipts[id@].finalized_at ==> earlier(
                            target.receipt_order(),
                            id@,
                            k,
                        ))
                },
                None => forall|k: Seq<char>| #[trigger]
                    target@.receipts.contains_key(k) ==> !receipt_free(
                        k,
                        target@.receipts[k],
                        ops,
                        trail,
                        protection@,
                    ),
            }
        }),
{
    let ghost ops = operations_view(operations@);
    let ghost trail = audit_view(audit@);
    let ghost rows = target@.receipts;
    let keys: Vec<String> = target.receipt_ids();
    let ghost ids = texts(keys@);
    let mut best: Option<(String, String)> = None;
    let ghost mut stood: int = 0;
    let mut i: usize = 0;
    while i < keys.len()
        invariant
            target.wf(),
            rows == target@.receipts,
            ops == operations_view(operations@),
            trail == audit_view(audit@),
            i <= keys@.len(),
            ids == texts(keys@),
            ids == target.receipt_order(),
            forall|id: Seq<char>| #[trigger] rows.contains_key(id) <==> ids.contains(id),
            best is Some ==> 0 <= stood < i && ids[stood] == best->Some_0.0@,
            match best {
                Some((id, at)) => {
                    &&& rows.contains_key(id@)
                    &&& receipt_free(id@, rows[id@], ops, trail, protection@)
                    &&& rows[id@].finalized_at == Some(at@)
                    &&& forall|k: int|
                        0 <= k < i && receipt_free(
                            #[trigger] ids[k],
                            rows[ids[k]],
                            ops,
                            trail,
                            protection@,
                        ) ==> !before(rows[ids[k]].finalized_at->0, at@) && (k < stood
                            ==> rows[ids[k]].finalized_at != Some(at@))
                },
                None => forall|k: int|
                    0 <= k < i ==> !receipt_free(
                        #[trigger] ids[k],
                        rows[ids[k]],
                        ops,
                        trail,
                        protection@,
                    ),
            },
        decreases keys@.len() - i,
    {
        let ghost id = ids[i as int];
        assert(id == keys@[i as int]@);
        assert(ids.contains(id));
        assert(rows.contains_key(id));
        let key: &str = keys[i].as_str();
        let ghost last_best = best;
        match target.receipt_row(key) {
            Some(row) => {
                if is_receipt_free(row, key, operations, audit, protection) {
                    match &row.finalized_at {
                        Some(at) => {
                            let better: bool = match &best {
                                Some((_, held)) => less(at.as_str(), held.as_str()),
                                None => true,
                            };
                            proof {
                                lemma_before_total(at@, at@);
                                if last_best is Some && better {
                                    let pair = last_best->Some_0;
                                    let held = pair.1@;
                                    assert forall|k: int| 0 <= k < i && receipt_free(
                                        #[trigger] ids[k],
                                        rows[ids[k]],
                                        ops,
                                        trail,
                                        protection@,
                                    ) implies !before(rows[ids[k]].finalized_at->0, at@)
                                        && rows[ids[k]].finalized_at != Some(at@) by {
                                        if before(rows[ids[k]].finalized_at->0, at@) {
                                            lemma_before_transitive(
                                                rows[ids[k]].finalized_at->0,
                                                at@,
                                                held,
                                            );
                                        }
                                    }
                                }
                            }
                            if better {
                                proof {
                                    stood = i as int;
                                }
                                best = Some((key.to_owned(), at.clone()));
                            }
                        },
                        None => {},
                    }
                }
            },
            None => {},
        }
        i = i + 1;
    }
    proof {
        assert forall|k: Seq<char>| #[trigger] rows.contains_key(k) implies exists|n: int|
            0 <= n < ids.len() && #[trigger] ids[n] == k by {
            assert(ids.contains(k));
        }
        if best is Some {
            let id = best->Some_0.0@;
            assert forall|k: Seq<char>| #[trigger]
                rows.contains_key(k) && receipt_free(k, rows[k], ops, trail, protection@) && k != id
                    && rows[k].finalized_at == rows[id].finalized_at implies earlier(ids, id, k) by {
                let n = choose|n: int| 0 <= n < ids.len() && #[trigger] ids[n] == k;
                assert(stood < n);
                assert(ids[stood] == id && ids[n] == k);
            }
        }
    }
    match best {
        Some((id, _)) => Some(id),
        None => None,
    }
}

fn drop_excess_receipts(
    target: &mut TargetDatabase,
    max_rows: u64,
    operations: &Vec<OperationRow>,
    audit: &Vec<AuditRow>,
    protection: &GcProtection,
) -> (r: usize)
    requires
        old(target).wf(),
    ensures
        final(target).wf(),
        final(target)@ == (TargetTables { receipts: final(target)@.receipts, ..old(target)@ }),
        capped(
            old(target)@.receipts,
            final(target)@.receipts,
            max_rows,
            operations_view(operations@),
            audit_view(audit@),
            protection@,
        ),
        first_written_first(
            old(target).receipt_order(),
            old(target)@.receipts,
            final(target)@.receipts,
            operations_view(operations@),
            audit_view(audit@),
            protection@,
        ),
        r == old(target)@.receipts.dom().len() - final(target)@.receipts.dom().len(),
{
    let ghost had = target@;
    let ghost order = target.receipt_order();
    let ghost ops = operations_view(operations@);
    let ghost trail = audit_view(audit@);
    let total: usize = target.receipt_ids().len();
    let mut removed: usize = 0;
    if total as u64 <= max_rows {
        return 0;
    }
    let excess: u64 = total as u64 - max_rows;
    while (removed as u64) < excess
        invariant
            target.wf(),
            had == old(target)@,
            ops == operations_view(operations@),
            trail == audit_view(audit@),
            target@ == (TargetTables { receipts: target@.receipts, ..had }),
            target@.receipts.dom().finite(),
            had.receipts.dom().len() == total,
            excess == total - max_rows,
            total > max_rows,
            target@.receipts.dom().len() == total - removed,
            removed <= excess,
            forall|id: Seq<char>| #[trigger]
                target@.receipts.contains_key(id) ==> had.receipts.contains_key(id)
                    && target@.receipts[id] == had.receipts[id],
            forall|id: Seq<char>| #[trigger]
                had.receipts.contains_key(id) && !target@.receipts.contains_key(id)
                    ==> receipt_free(id, had.receipts[id], ops, trail, protection@),
            forall|gone: Seq<char>, kept: Seq<char>|
                #![trigger had.receipts.contains_key(gone), target@.receipts.contains_key(kept)]
                had.receipts.contains_key(gone) && !target@.receipts.contains_key(gone)
                    && target@.receipts.contains_key(kept) && receipt_free(
                    kept,
                    had.receipts[kept],
                    ops,
                    trail,
                    protection@,
                ) ==> !before(
                    had.receipts[kept].finalized_at->0,
                    had.receipts[gone].finalized_at->0,
                ),
            order == old(target).receipt_order(),
            in_order_of(target.receipt_order(), order),
            first_written_first(order, had.receipts, target@.receipts, ops, trail, protection@),
        decreases excess - removed,
    {
        let ghost now_there = target@.receipts;
        match oldest_free_receipt(target, operations, audit, protection) {
            None => {
                return removed;
            },
            Some(id) => {
                target.drop_receipt(id.as_str());
                assert(target@.receipts.dom() =~= now_there.dom().remove(id@));
                removed = removed + 1;
            },
        }
    }
    removed
}

fn gc_receipts(
    target: &mut TargetDatabase,
    cutoff: &str,
    max_rows: u64,
    operations: &Vec<OperationRow>,
    audit: &Vec<AuditRow>,
    protection: &GcProtection,
) -> (r: usize)
    requires
        old(target).wf(),
    ensures
        final(target).wf(),
        receipts_cleaned(
            old(target)@,
            final(target)@,
            cutoff@,
            max_rows,
            operations_view(operations@),
            audit_view(audit@),
            protection@,
        ),
        first_written_first(
            old(target).receipt_order(),
            young_receipts(
                old(target)@.receipts,
                operations_view(operations@),
                audit_view(audit@),
                protection@,
                cutoff@,
            ),
            final(target)@.receipts,
            operations_view(operations@),
            audit_view(audit@),
            protection@,
        ),
        r == old(target)@.receipts.dom().len() - final(target)@.receipts.dom().len(),
{
    let total: usize = target.receipt_ids().len();
    let aged: usize = drop_aged_receipts(target, cutoff, operations, audit, protection);
    let excess: usize = drop_excess_receipts(target, max_rows, operations, audit, protection);
    aged + excess
}

/// The text of the moment some days before another.
pub open spec fn cutoff_text(now: Moment, days: u64) -> Option<Seq<char>> {
    match now.earlier(days) {
        Some(m) => moment_text(m.seconds, m.nanos),
        None => None,
    }
}

fn cutoff(now: &Moment, days: u64) -> (r: Result<String, CommandProblem>)
    ensures
        match r {
            Ok(s) => cutoff_text(*now, days) == Some(s@),
            Err(p) => cutoff_text(*now, days) is None && p@ == ProblemView::Internal(
                "retention days 溢出"@,
            ),
        },
{
    let text: Option<String> = match now.days_earlier(days) {
        Some(m) => m.text(),
        None => None,
    };
    match text {
        Some(s) => Ok(s),
        None => Err(CommandProblem::Internal("retention days 溢出".to_owned())),
    }
}

/// The record without what is too old.
pub open spec fn kept_audit(audit: Seq<AuditView>, cutoff: Seq<char>) -> Seq<AuditView>
    decreases audit.len(),
{
    if audit.len() == 0 {
        seq![]
    } else if before(audit.last().created_at, cutoff) {
        kept_audit(audit.drop_last(), cutoff)
    } else {
        kept_audit(audit.drop_last(), cutoff).push(audit.last())
    }
}

fn gc_audit(audit: &mut Vec<AuditRow>, cutoff: &str) -> (r: usize)
    ensures
        audit_view(final(audit)@) == kept_audit(audit_view(old(audit)@), cutoff@),
        r == old(audit)@.len() - final(audit)@.len(),
{
    let ghost start = audit_view(audit@);
    let ghost mut done: int = 0;
    let mut deleted: usize = 0;
    let mut i: usize = 0;
    assert(start.take(0) =~= seq![]);
    assert(start.len() == audit.len());
    assert(audit_view(audit@) =~= seq![] + start.skip(0));
    while i < audit.len()
        invariant
            0 <= done <= start.len() <= usize::MAX,
            i == kept_audit(start.take(done), cutoff@).len(),
            audit_view(audit@) == kept_audit(start.take(done), cutoff@) + start.skip(done),
            deleted == done - i,
        decreases start.len() - done,
    {
        let ghost had = audit@;
        let ghost row = start[done];
        assert(start.take(done + 1).drop_last() =~= start.take(done));
        assert(start.take(done + 1).last() == row);
        assert(audit_view(had)[i as int] == row);
        assert(had[i as int]@ == row);
        if less(audit[i].created_at.as_str(), cutoff) {
            audit.remove(i);
            assert(audit_view(audit@) =~= audit_view(had).remove(i as int));
            assert(audit_view(audit@) =~= kept_audit(start.take(done + 1), cutoff@) + start.skip(
                done + 1,
            ));
            deleted = deleted + 1;
        } else {
            assert(audit_view(audit@) =~= kept_audit(start.take(done + 1), cutoff@) + start.skip(
                done + 1,
            ));
            i = i + 1;
        }
        proof {
            done = done + 1;
        }
    }
    assert(done == start.len());
    assert(start.take(done) =~= start);
    assert(audit_view(audit@) =~= kept_audit(start, cutoff@));
    deleted
}

/// How many receipts were taken out, by store, over the first `n` targets; stores
/// that lost none are left out.
pub open spec fn receipt_counts(
    had: Seq<TargetTables>,
    after: Seq<TargetTables>,
    n: nat,
) -> Seq<(Seq<char>, nat)>
    decreases n,
{
    if n == 0 {
        seq![]
    } else {
        let rest = receipt_counts(had, after, (n - 1) as nat);
        let gone = had[n - 1].receipts.dom().len() - after[n - 1].receipts.dom().len();
        if gone > 0 {
            rest.push((had[n - 1].store_key, gone as nat))
        } else {
            rest
        }
    }
}

/// Everything that cleaning looks at.
pub ghost struct Records {
    pub intents: Intents,
    pub ops: Seq<OperationView>,
    pub audit: Seq<AuditView>,
    pub targets: Seq<TargetTables>,
}

/// The problem of a round of cleaning, if it has one: limits out of range, or a
/// moment that cannot be told.
pub open spec fn gc_problem(limits: RetentionLimits, now: Moment) -> Option<ProblemView> {
    match limits.problem() {
        Some(p) => Some(
            ProblemView::Internal(range_message(p.name, p.value, p.min, p.max, p.hard_cap)),
        ),
        None => if cutoff_text(now, limits.receipt_retention_days) is None || cutoff_text(
            now,
            limits.operation_retention_days,
        ) is None || cutoff_text(now, limits.audit_retention_days) is None {
            Some(ProblemView::Internal("retention days 溢出"@))
        } else {
            None
        },
    }
}

/// What a round of cleaning leaves of the records.
pub open spec fn cleaned(
    had: Records,
    after: Records,
    limits: RetentionLimits,
    protection: ProtectionView,
    now: Moment,
) -> bool {
    let receipt_cutoff = cutoff_text(now, limits.receipt_retention_days)->0;
    let operation_cutoff = cutoff_text(now, limits.operation_retention_days)->0;
    let audit_cutoff = cutoff_text(now, limits.audit_retention_days)->0;
    &&& after.ops == kept_operations(had.ops, had.audit, protection, operation_cutoff)
    &&& after.intents == kept_intents(
        had.intents,
        after.ops,
        had.audit,
        protection,
        receipt_cutoff,
    )
    &&& after.targets.len() == had.targets.len()
    &&& forall|i: int|
        0 <= i < had.targets.len() ==> #[trigger] receipts_cleaned(
            had.targets[i],
            after.targets[i],
            receipt_cutoff,
            limits.receipt_max_rows_per_store,
            after.ops,
            had.audit,
            protection,
        )
    &&& after.audit == kept_audit(had.audit, audit_cutoff)
}

/// One round of cleaning: operations that have ended, commands that are closed,
/// receipts that are final, and the record, each by its age, receipts also by their
/// number. What is open, protected or named by the record stays.
pub fn run_retention_gc(
    intents: &mut Table<IntentRow>,
    operations: &mut Vec<OperationRow>,
    audit: &mut Vec<AuditRow>,
    targets: &mut Vec<TargetDatabase>,
    limits: &RetentionLimits,
    protection: &GcProtection,
    now: &Moment,
) -> (r: Result<GcReport, CommandProblem>)
    requires
        old(intents).wf(),
        targets_wf(old(targets)@),
    ensures
        final(intents).wf(),
        targets_wf(final(targets)@),
        ({
            let had = Records {
                intents: old(intents)@,
                ops: operations_view(old(operations)@),
                audit: audit_view(old(audit)@),
                targets: tables(old(targets)@),
            };
            let after = Records {
                intents: final(intents)@,
                ops: operations_view(final(operations)@),
                audit: audit_view(final(audit)@),
                targets: tables(final(targets)@),
            };
            match r {
                Ok(report) => {
                    &&& gc_problem(*limits, *now) is None
                    &&& cleaned(had, after, *limits, protection@, *now)
                    &&& forall|i: int|
                        0 <= i < had.targets.len() ==> #[trigger] first_written_first(
                            old(targets)@[i].receipt_order(),
                            young_receipts(
                                had.targets[i].receipts,
                                after.ops,
                                had.audit,
                                protection@,
                                cutoff_text(*now, limits.receipt_retention_days)->0,
                            ),
                            after.targets[i].receipts,
                            after.ops,
                            had.audit,
                            protection@,
                        )
                    &&& report.operations_deleted == had.ops.len() - after.ops.len()
                    &&& report.intents_deleted == had.intents.dom().filter(
                        |id: Seq<char>|
                            intent_expendable(
                                id,
                                had.intents[id],
                                after.ops,
                                had.audit,
                                protection@,
                                cutoff_text(*now, limits.receipt_retention_days)->0,
                            ),
                    ).len()
                    &&& counted(report.receipts_deleted@) == receipt_counts(
                        had.targets,
                        after.targets,
                        had.targets.len(),
                    )
                    &&& report.audit_deleted == had.audit.len() - after.audit.len()
                },
                Err(p) => gc_problem(*limits, *now) == Some(p@) && after == had,
            }
        }),
{
    match limits.validate() {
        Ok(_) => {},
        Err(e) => {
            return Err(CommandProblem::Internal(e.message()));
        },
    }
    let receipt_cutoff: String = match cutoff(now, limits.receipt_retention_days) {
        Ok(s) => s,
        Err(p) => {
            return Err(p);
        },
    };
    let operation_cutoff: String = match cutoff(now, limits.operation_retention_days) {
        Ok(s) => s,
        Err(p) => {
            return Err(p);
        },
    };
    let audit_cutoff: String = match cutoff(now, limits.audit_retention_days) {
        Ok(s) => s,
        Err(p) => {
            return Err(p);
        },
    };
    let ghost trail = audit_view(audit@);
    let operations_deleted: usize = gc_operations(
        operations,
        audit,
        protection,
        operation_cutoff.as_str(),
    );
    let intents_deleted: usize = gc_intents(
        intents,
        operations,
        audit,
        protection,
        receipt_cutoff.as_str(),
    );
    let mut receipts_deleted: Vec<(String, usize)> = Vec::new();
    let ghost had = tables(targets@);
    let ghost all = targets@;
    let ghost ops = operations_view(operations@);
    let mut i: usize = 0;
    assert(counted(receipts_deleted@) =~= seq![]);
    while i < targets.len()
        invariant
            targets_wf(targets@),
            ops == operations_view(operations@),
            trail == audit_view(audit@),
            i <= targets@.len(),
            had.len() == targets@.len(),
            forall|k: int|
                0 <= k < i ==> #[trigger] receipts_cleaned(
                    had[k],
                    targets@[k]@,
                    receipt_cutoff@,
                    limits.receipt_max_rows_per_store,
                    ops,
                    trail,
                    protection@,
                ),
            all == old(targets)@,
            forall|k: int| 0 <= k < had.len() ==> had[k] == (#[trigger] all[k])@,
            all.len() == had.len(),
            forall|k: int|
                0 <= k < i ==> #[trigger] first_written_first(
                    all[k].receipt_order(),
                    young_receipts(had[k].receipts, ops, trail, protection@, receipt_cutoff@),
                    targets@[k]@.receipts,
                    ops,
                    trail,
                    protection@,
                ),
            forall|k: int|
                i <= k < had.len() ==> (#[trigger] targets@[k])@ == had[k] && targets@[k] == all[k],
            counted(receipts_deleted@) == receipt_counts(had, tables(targets@), i as nat),
        decreases targets@.len() - i,
    {
        let ghost stood = targets@;
        let ghost listed = receipts_deleted@;
        assert(stood[i as int]@ == had[i as int]);
        let deleted: usize = gc_receipts(
            &mut targets[i],
            receipt_cutoff.as_str(),
            limits.receipt_max_rows_per_store,
            operations,
            audit,
            protection,
        );
        assert(targets@ =~= stood.update(i as int, targets@[i as int]));
        proof {
            lemma_counts_before(had, tables(stood), tables(targets@), i as nat);
        }
        if deleted > 0 {
            let key: String = targets[i].store_key().to_owned();
            receipts_deleted.push((key, deleted));
            assert(counted(receipts_deleted@) =~= counted(listed).push((key@, deleted as nat)));
        }
        i = i + 1;
    }
    let audit_deleted: usize = gc_audit(audit, audit_cutoff.as_str());
    Ok(GcReport { operations_deleted, intents_deleted, receipts_deleted, audit_deleted })
}

proof fn lemma_counts_before(
    had: Seq<TargetTables>,
    a: Seq<TargetTables>,
    b: Seq<TargetTables>,
    n: nat,
)
    requires
        n <= a.len(),
        a.len() == b.len(),
        forall|k: int| 0 <= k < n ==> a[k] == b[k],
    ensures
        receipt_counts(had, a, n) == receipt_counts(had, b, n),
    decreases n,
{
    if n > 0 {
        lemma_counts_before(had, a, b, (n - 1) as nat);
    }
}

/// Cleaning takes nothing that is open: an open operation stays, and so do its
/// command, the receipt of its acceptance and those of its steps.
pub proof fn law_what_is_open_stays(
    had: Records,
    after: Records,
    limits: RetentionLimits,
    protection: ProtectionView,
    now: Moment,
    at: int,
)
    requires
        cleaned(had, after, limits, protection, now),
        0 <= at < had.ops.len(),
        !had.ops[at].record.state.terminal(),
    ensures
        after.ops.contains(had.ops[at]),
        had.intents.contains_key(had.ops[at].record.command_id) ==> after.intents.contains_key(
            had.ops[at].record.command_id,
        ),
        forall|i: int, id: Seq<char>|
            0 <= i < had.targets.len() && #[trigger] held_by(had.ops[at], id)
                && #[trigger] had.targets[i].receipts.contains_key(id)
                ==> after.targets[i].receipts.contains_key(id) && after.targets[i].receipts[id]
                == had.targets[i].receipts[id],
{
    let cutoff = cutoff_text(now, limits.operation_retention_days)->0;
    let receipt_cutoff = cutoff_text(now, limits.receipt_retention_days)->0;
    lemma_operation_kept(had.ops, had.audit, protection, cutoff, at);
    let k = choose|k: int| 0 <= k < after.ops.len() && after.ops[k] == had.ops[at];
    assert(after.ops[k].record.command_id == had.ops[at].record.command_id);
    assert forall|i: int, id: Seq<char>|
        0 <= i < had.targets.len() && #[trigger] held_by(had.ops[at], id)
            && #[trigger] had.targets[i].receipts.contains_key(
            id,
        ) implies after.targets[i].receipts.contains_key(id) && after.targets[i].receipts[id]
        == had.targets[i].receipts[id] by {
        assert(held_by(after.ops[k], id));
        assert(held_open(after.ops, id));
        assert(receipts_cleaned(
            had.targets[i],
            after.targets[i],
            receipt_cutoff,
            limits.receipt_max_rows_per_store,
            after.ops,
            had.audit,
            protection,
        ));
        let young = young_receipts(
            had.targets[i].receipts,
            after.ops,
            had.audit,
            protection,
            receipt_cutoff,
        );
        assert(young.contains_key(id));
        assert(after.targets[i].receipts.contains_key(id));
    }
}

proof fn lemma_operation_kept(
    ops: Seq<OperationView>,
    audit: Seq<AuditView>,
    protection: ProtectionView,
    cutoff: Seq<char>,
    at: int,
)
    requires
        0 <= at < ops.len(),
        !operation_expendable(ops[at], audit, protection, cutoff),
    ensures
        kept_operations(ops, audit, protection, cutoff).contains(ops[at]),
    decreases ops.len(),
{
    let all = kept_operations(ops, audit, protection, cutoff);
    let rest = kept_operations(ops.drop_last(), audit, protection, cutoff);
    if at < ops.len() - 1 {
        lemma_operation_kept(ops.drop_last(), audit, protection, cutoff, at);
        let k = choose|k: int| 0 <= k < rest.len() && rest[k] == ops[at];
        assert(all[k] == ops[at]);
    } else {
        assert(all[all.len() - 1] == ops[at]);
    }
}

/// Cleaning takes nothing that the caller or the record holds on to, and no command
/// that is open.
pub proof fn law_what_is_held_stays(
    had: Records,
    after: Records,
    limits: RetentionLimits,
    protection: ProtectionView,
    now: Moment,
    id: Seq<char>,
)
    requires
        cleaned(had, after, limits, protection, now),
    ensures
        had.intents.contains_key(id) && (had.intents[id].state is Reserved
            || protection.receipt_ids.contains(id) || referenced(had.audit, id))
            ==> after.intents.contains_key(id),
        protection.receipt_ids.contains(id) || referenced(had.audit, id) ==> forall|i: int|
            0 <= i < had.targets.len() && #[trigger] had.targets[i].receipts.contains_key(id)
                ==> after.targets[i].receipts.contains_key(id),
        protection.operation_handles.contains(id) || referenced(had.audit, id) ==> forall|k: int|
            0 <= k < had.ops.len() && (#[trigger] had.ops[k]).record.operation_handle == id
                ==> after.ops.contains(had.ops[k]),
{
    let cutoff = cutoff_text(now, limits.operation_retention_days)->0;
    let receipt_cutoff = cutoff_text(now, limits.receipt_retention_days)->0;
    if protection.receipt_ids.contains(id) || referenced(had.audit, id) {
        assert forall|i: int|
            0 <= i < had.targets.len() && #[trigger] had.targets[i].receipts.contains_key(
                id,
            ) implies after.targets[i].receipts.contains_key(id) by {
            assert(receipts_cleaned(
                had.targets[i],
                after.targets[i],
                receipt_cutoff,
                limits.receipt_max_rows_per_store,
                after.ops,
                had.audit,
                protection,
            ));
            let young = young_receipts(
                had.targets[i].receipts,
                after.ops,
                had.audit,
                protection,
                receipt_cutoff,
            );
            assert(young.contains_key(id));
        }
    }
    if protection.operation_handles.contains(id) || referenced(had.audit, id) {
        assert forall|k: int|
            0 <= k < had.ops.len() && (#[trigger] had.ops[k]).record.operation_handle
                == id implies after.ops.contains(had.ops[k]) by {
            lemma_operation_kept(had.ops, had.audit, protection, cutoff, k);
        }
    }
}

/// Whether an id is that of something in the records.
pub open spec fn on_record(r: Records, id: Seq<char>) -> bool {
    ||| r.intents.contains_key(id)
    ||| exists|k: int|
        0 <= k < r.ops.len() && ((#[trigger] r.ops[k]).record.operation_handle == id
            || r.ops[k].record.command_id == id)
    ||| exists|i: int| 0 <= i < r.targets.len() && (#[trigger] r.targets[i]).receipts.contains_key(id)
}

/// Cleaning a second time takes nothing more, as long as the first round did not take
/// the last words in the record on something that it left.
pub proof fn law_cleaning_is_repeatable(
    had: Records,
    once: Records,
    twice: Records,
    limits: RetentionLimits,
    protection: ProtectionView,
    now: Moment,
)
    requires
        cleaned(had, once, limits, protection, now),
        cleaned(once, twice, limits, protection, now),
        forall|id: Seq<char>| #[trigger]
            referenced(had.audit, id) && on_record(once, id) ==> referenced(once.audit, id),
    ensures
        twice == once,
{
    let cutoff = cutoff_text(now, limits.operation_retention_days)->0;
    let receipt_cutoff = cutoff_text(now, limits.receipt_retention_days)->0;
    let audit_cutoff = cutoff_text(now, limits.audit_retention_days)->0;
    assert forall|id: Seq<char>| #[trigger] on_record(once, id) implies referenced(had.audit, id)
        == referenced(once.audit, id) by {
        lemma_less_is_named(had.audit, audit_cutoff, id);
    }
    lemma_record_kept(had.audit, audit_cutoff);
    assert forall|k: int| 0 <= k < once.ops.len() implies !operation_expendable(
        #[trigger] once.ops[k],
        once.audit,
        protection,
        cutoff,
    ) by {
        lemma_only_kept(had.ops, had.audit, protection, cutoff, k);
        assert(on_record(once, once.ops[k].record.operation_handle));
        assert(on_record(once, once.ops[k].record.command_id));
    }
    lemma_all_kept(once.ops, once.audit, protection, cutoff);
    assert forall|id: Seq<char>| once.intents.contains_key(id) implies !intent_expendable(
        id,
        once.intents[id],
        once.ops,
        once.audit,
        protection,
        receipt_cutoff,
    ) by {
        assert(on_record(once, id));
    }
    assert(twice.intents =~= once.intents);
    assert forall|i: int| 0 <= i < once.targets.len() implies once.targets[i]
        == #[trigger] twice.targets[i] by {
        let max_rows = limits.receipt_max_rows_per_store;
        let was = had.targets[i];
        let now_has = once.targets[i];
        assert(receipts_cleaned(
            was,
            now_has,
            receipt_cutoff,
            max_rows,
            once.ops,
            had.audit,
            protection,
        ));
        assert(receipts_cleaned(
            now_has,
            twice.targets[i],
            receipt_cutoff,
            max_rows,
            once.ops,
            once.audit,
            protection,
        ));
        let first = young_receipts(was.receipts, once.ops, had.audit, protection, receipt_cutoff);
        assert forall|id: Seq<char>| now_has.receipts.contains_key(id) implies receipt_free(
            id,
            now_has.receipts[id],
            once.ops,
            once.audit,
            protection,
        ) == receipt_free(id, first[id], once.ops, had.audit, protection) && !(receipt_free(
            id,
            now_has.receipts[id],
            once.ops,
            once.audit,
            protection,
        ) && before(now_has.receipts[id].finalized_at->0, receipt_cutoff)) by {
            assert(on_record(once, id));
            assert(first.contains_key(id));
        }
        let second = young_receipts(
            now_has.receipts,
            once.ops,
            once.audit,
            protection,
            receipt_cutoff,
        );
        assert(second =~= now_has.receipts);
        if second.dom().len() > max_rows {
            assert forall|id: Seq<char>| second.contains_key(
                id,
            ) implies twice.targets[i].receipts.contains_key(id) by {
                assert(!receipt_free(id, second[id], once.ops, once.audit, protection));
            }
        }
        assert(twice.targets[i].receipts =~= now_has.receipts);
    }
    assert(twice.targets =~= once.targets);
}

proof fn lemma_less_is_named(audit: Seq<AuditView>, cutoff: Seq<char>, id: Seq<char>)
    ensures
        referenced(kept_audit(audit, cutoff), id) ==> referenced(audit, id),
    decreases audit.len(),
{
    if audit.len() > 0 {
        let rest = audit.drop_last();
        let all = kept_audit(audit, cutoff);
        lemma_less_is_named(rest, cutoff, id);
        if referenced(all, id) {
            let quoted = "\""@ + id + "\""@;
            let k = choose|k: int| 0 <= k < all.len() && occurs(quoted, (#[trigger] all[k]).summary);
            if k < kept_audit(rest, cutoff).len() {
                assert(kept_audit(rest, cutoff)[k] == all[k]);
                let m = choose|m: int|
                    0 <= m < rest.len() && occurs(quoted, (#[trigger] rest[m]).summary);
                assert(audit[m] == rest[m]);
            } else {
                assert(audit[audit.len() - 1] == all[k]);
            }
        }
    }
}

proof fn lemma_record_kept(audit: Seq<AuditView>, cutoff: Seq<char>)
    ensures
        kept_audit(kept_audit(audit, cutoff), cutoff) == kept_audit(audit, cutoff),
    decreases audit.len(),
{
    if audit.len() > 0 {
        let rest = kept_audit(audit.drop_last(), cutoff);
        lemma_record_kept(audit.drop_last(), cutoff);
        if !before(audit.last().created_at, cutoff) {
            assert(rest.push(audit.last()).drop_last() =~= rest);
        }
    }
}

proof fn lemma_only_kept(
    ops: Seq<OperationView>,
    audit: Seq<AuditView>,
    protection: ProtectionView,
    cutoff: Seq<char>,
    k: int,
)
    requires
        0 <= k < kept_operations(ops, audit, protection, cutoff).len(),
    ensures
        !operation_expendable(
            kept_operations(ops, audit, protection, cutoff)[k],
            audit,
            protection,
            cutoff,
        ),
    decreases ops.len(),
{
    let rest = kept_operations(ops.drop_last(), audit, protection, cutoff);
    if k < rest.len() {
        lemma_only_kept(ops.drop_last(), audit, protection, cutoff, k);
    }
}

proof fn lemma_all_kept(
    ops: Seq<OperationView>,
    audit: Seq<AuditView>,
    protection: ProtectionView,
    cutoff: Seq<char>,
)
    requires
        forall|k: int|
            0 <= k < ops.len() ==> !operation_expendable(
                #[trigger] ops[k],
                audit,
                protection,
                cutoff,
            ),
    ensures
        kept_operations(ops, audit, protection, cutoff) == ops,
    decreases ops.len(),
{
    if ops.len() > 0 {
        let rest = ops.drop_last();
        assert forall|k: int| 0 <= k < rest.len() implies !operation_expendable(
            #[trigger] rest[k],
            audit,
            protection,
            cutoff,
        ) by {
            assert(rest[k] == ops[k]);
        }
        lemma_all_kept(rest, audit, protection, cutoff);
        assert(ops[ops.len() - 1] == ops.last());
        assert(rest.push(ops.last()) =~= ops);
    }
}

} // verus!
