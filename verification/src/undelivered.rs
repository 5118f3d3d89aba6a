//! What a store leaves to do is never lost: no event is marked as done while it still
//! carries something to do.

use crate::command::{CommandProblem, EnvelopeView, ProblemView};
use crate::dispatch::{
    change_event, change_events, closed_off, dispatch_view, dispatched, AppliedView, EffectOutput,
    EffectView, FaultPoint, Intents, OutboxView, ProjectionChange, TargetTables,
};
use crate::handles::outcome;
use crate::journal::{
    aborted, entry_view, given_up, publication_plan, publish_view, recover_view, JournalView,
    RotationReason,
};
use crate::json::{law_sorting_keeps_the_fields, lemma_field_in, sorted_view, JsonView};
use crate::lease::CommandAuthorizer;
use crate::operation::{
    accept_view, acceptance_event, compensate_view, compensating, forward_view, identity_of,
    lemma_target_at, run_problem, run_view, step_event, step_target_view, step_view, target_at,
    undo_list, Answers, IdentityView, OperationAcceptFaultPoint, OperationFaultPoint, OperationView,
    PlanView, RecordView, StepOutputView, StepPlanView,
};
use crate::problem::{KernelProblem, KernelProblemView};
use crate::run_actions::{
    actions_of, delivery_failed, done_up_to, drained, has_actions,
    law_nothing_is_left_after_draining, waits_with_actions, RunActionDelivery,
};
use crate::workflow_start::{stays, without_acceptance};
use vstd::prelude::*;
use vstd::string::*;

verus! {

/// Whether no event was marked as done that carries something to do: every such event
/// stood there before, just so.
pub open spec fn closes_no_actions(a: Seq<OutboxView>, b: Seq<OutboxView>) -> bool {
    forall|r: int|
        0 <= r < b.len() && (#[trigger] b[r]).published_at is Some && has_actions(b[r].event)
            ==> a.contains(b[r])
}

/// Whether every event that waits and carries something to do still does.
pub open spec fn keeps_actions(a: Seq<OutboxView>, b: Seq<OutboxView>) -> bool {
    forall|r: int|
        0 <= r < a.len() && (#[trigger] a[r]).published_at is None && has_actions(a[r].event)
            ==> b.contains(a[r])
}

/// Whether events were only added, and wait.
pub open spec fn grown(a: Seq<OutboxView>, b: Seq<OutboxView>) -> bool {
    &&& a.len() <= b.len()
    &&& forall|r: int| 0 <= r < a.len() ==> #[trigger] b[r] == a[r]
    &&& forall|r: int| a.len() <= r < b.len() ==> (#[trigger] b[r]).published_at is None
}

/// Whether some stores are the same ones, and none of them has marked an event as done
/// that carries something to do.
pub open spec fn never_closed(a: Seq<TargetTables>, b: Seq<TargetTables>) -> bool {
    &&& a.len() == b.len()
    &&& forall|i: int|
        0 <= i < a.len() ==> (#[trigger] b[i]).store_key == a[i].store_key && closes_no_actions(
            a[i].outbox,
            b[i].outbox,
        )
}

/// Whether, besides that, everything that is left to do is still there to be done.
pub open spec fn never_lost(a: Seq<TargetTables>, b: Seq<TargetTables>) -> bool {
    &&& never_closed(a, b)
    &&& forall|i: int|
        0 <= i < a.len() ==> keeps_actions((#[trigger] a[i]).outbox, b[i].outbox)
}

/// Whether no store leaves something to do that it did not leave before.
pub open spec fn leaves_no_more(a: Seq<TargetTables>, b: Seq<TargetTables>) -> bool {
    &&& a.len() == b.len()
    &&& forall|i: int|
        0 <= i < a.len() && waits_with_actions((#[trigger] b[i]).outbox) ==> waits_with_actions(
            a[i].outbox,
        )
}

/// Whether no store that has to be recovered leaves something to do.
pub open spec fn recoverable(j: JournalView, targets: Seq<TargetTables>) -> bool {
    forall|i: int|
        0 <= i < targets.len() && waits_with_actions((#[trigger] targets[i]).outbox)
            ==> !j.poisoned.contains(targets[i].store_key)
}

/// Whether an effect leaves nothing to do.
pub open spec fn leaves_nothing(o: EffectView) -> bool {
    forall|k: int| 0 <= k < o.projections.len() ==> (#[trigger] o.projections[k]).run_actions.len()
        == 0
}

/// Whether whatever an effect hands back leaves nothing to do.
pub open spec fn leaves_nothing_to_do<F: FnOnce() -> Result<EffectOutput, CommandProblem>>(
    effect: F,
) -> bool {
    forall|o: EffectOutput| #[trigger] effect.ensures((), Ok(o)) ==> leaves_nothing(o@)
}

pub proof fn lemma_grown(a: Seq<OutboxView>, b: Seq<OutboxView>)
    requires
        grown(a, b),
    ensures
        closes_no_actions(a, b),
        keeps_actions(a, b),
{
    assert forall|r: int|
        0 <= r < b.len() && (#[trigger] b[r]).published_at is Some && has_actions(
            b[r].event,
        ) implies a.contains(b[r]) by {
        assert(b[r] == a[r]);
    }
    assert forall|r: int|
        0 <= r < a.len() && (#[trigger] a[r]).published_at is None && has_actions(
            a[r].event,
        ) implies b.contains(a[r]) by {
        assert(b[r] == a[r]);
    }
}

pub proof fn lemma_never_closed_on(
    a: Seq<TargetTables>,
    b: Seq<TargetTables>,
    c: Seq<TargetTables>,
)
    requires
        never_closed(a, b),
        never_closed(b, c),
    ensures
        never_closed(a, c),
{
    assert forall|i: int| 0 <= i < a.len() implies (#[trigger] c[i]).store_key == a[i].store_key
        && closes_no_actions(a[i].outbox, c[i].outbox) by {
        assert(b[i].store_key == a[i].store_key);
        lemma_closes_on(a[i].outbox, b[i].outbox, c[i].outbox);
    }
}

/// One store changes among others.
pub proof fn lemma_one_changes(a: Seq<TargetTables>, at: int, t: TargetTables)
    requires
        0 <= at < a.len(),
        t.store_key == a[at].store_key,
        closes_no_actions(a[at].outbox, t.outbox),
    ensures
        never_closed(a, a.update(at, t)),
{
    let b = a.update(at, t);
    assert forall|i: int| 0 <= i < a.len() implies (#[trigger] b[i]).store_key == a[i].store_key
        && closes_no_actions(a[i].outbox, b[i].outbox) by {
        lemma_same_rows(a[i].outbox);
    }
}

pub proof fn lemma_same_rows(a: Seq<OutboxView>)
    ensures
        closes_no_actions(a, a),
        keeps_actions(a, a),
{
    assert(grown(a, a));
    lemma_grown(a, a);
}

pub proof fn lemma_same_stores(a: Seq<TargetTables>)
    ensures
        never_lost(a, a),
        leaves_no_more(a, a),
{
    assert forall|i: int| 0 <= i < a.len() implies closes_no_actions(
        (#[trigger] a[i]).outbox,
        a[i].outbox,
    ) && keeps_actions(a[i].outbox, a[i].outbox) by {
        lemma_same_rows(a[i].outbox);
    }
}

proof fn lemma_plain_event(e: EnvelopeView, c: ProjectionChange)
    requires
        c.run_actions.len() == 0,
    ensures
        !has_actions(sorted_view(change_event(e, c))),
{
    reveal_strlit("type");
    reveal_strlit("aggregate");
    reveal_strlit("caused_by_command_id");
    reveal_strlit("projection_critical");
    reveal_strlit("projection");
    reveal_strlit("run_actions");
    assert("type"@.len() == 4);
    assert("aggregate"@.len() == 9);
    assert("caused_by_command_id"@.len() == 20);
    assert("projection_critical"@.len() == 19);
    assert("projection"@.len() == 10);
    assert("run_actions"@.len() == 11);
    let f = change_event(e, c)->Object_0;
    lemma_field_in(f, "run_actions"@);
    law_sorting_keeps_the_fields(f, "run_actions"@);
}

proof fn lemma_acceptance_event(e: EnvelopeView, handle: Seq<char>)
    ensures
        !has_actions(sorted_view(acceptance_event(e, handle))),
{
    reveal_strlit("type");
    reveal_strlit("aggregate");
    reveal_strlit("caused_by_command_id");
    reveal_strlit("operation");
    reveal_strlit("run_actions");
    assert("type"@.len() == 4);
    assert("aggregate"@.len() == 9);
    assert("caused_by_command_id"@.len() == 20);
    assert("operation"@.len() == 9);
    assert("run_actions"@.len() == 11);
    let f = acceptance_event(e, handle)->Object_0;
    lemma_field_in(f, "run_actions"@);
    law_sorting_keeps_the_fields(f, "run_actions"@);
}

proof fn lemma_step_event(op: RecordView, index: int, s: StepPlanView, projection: JsonView)
    ensures
        !has_actions(sorted_view(step_event(op, index, s, projection))),
{
    reveal_strlit("type");
    reveal_strlit("aggregate");
    reveal_strlit("caused_by_command_id");
    reveal_strlit("operation");
    reveal_strlit("projection");
    reveal_strlit("run_actions");
    assert("type"@.len() == 4);
    assert("aggregate"@.len() == 9);
    assert("caused_by_command_id"@.len() == 20);
    assert("operation"@.len() == 9);
    assert("projection"@.len() == 10);
    assert("run_actions"@.len() == 11);
    let f = step_event(op, index, s, projection)->Object_0;
    lemma_field_in(f, "run_actions"@);
    law_sorting_keeps_the_fields(f, "run_actions"@);
}

proof fn lemma_dispatch_grows(
    intents: Intents,
    t: TargetTables,
    e: EnvelopeView,
    digest: Result<Seq<char>, ProblemView>,
    admission: Result<(), ProblemView>,
    expectation: Result<(), ProblemView>,
    effect: Option<Result<EffectView, ProblemView>>,
    fault: Option<FaultPoint>,
    now: Seq<char>,
)
    ensures
        ({
            let after = dispatch_view(
                intents,
                t,
                e,
                digest,
                admission,
                expectation,
                effect,
                fault,
                now,
            );
            &&& after.1.store_key == t.store_key
            &&& grown(t.outbox, after.1.outbox)
            &&& after.2 is Err && fault is None ==> after.1 == t
            &&& (effect matches Some(Ok(o)) ==> leaves_nothing(o)) && waits_with_actions(
                after.1.outbox,
            ) ==> waits_with_actions(t.outbox)
        }),
{
    let after = dispatch_view(
        intents,
        t,
        e,
        digest,
        admission,
        expectation,
        effect,
        fault,
        now,
    );
    if after.1.outbox != t.outbox {
        let o = effect->0->Ok_0;
        let added = change_events(e, o.projections);
        assert(after.1.outbox == t.outbox + added);
        if leaves_nothing(o) && waits_with_actions(after.1.outbox) {
            let b = after.1.outbox;
            let r = choose|r: int|
                0 <= r < b.len() && (#[trigger] b[r]).published_at is None && has_actions(
                    b[r].event,
                );
            if r >= t.outbox.len() {
                let k = r - t.outbox.len();
                assert(b[r] == added[k]);
                lemma_plain_event(e, o.projections[k]);
            } else {
                assert(b[r] == t.outbox[r]);
            }
        }
    }
}

/// A command adds events and takes none away; where it is refused it adds none, and where
/// its effect leaves nothing to do no event does.
pub proof fn lemma_dispatched<F: FnOnce() -> Result<EffectOutput, CommandProblem>>(
    intents: Intents,
    t: TargetTables,
    e: EnvelopeView,
    digest: Result<Seq<char>, ProblemView>,
    admission: Result<(), ProblemView>,
    expectation: Result<(), ProblemView>,
    effect: F,
    fault: Option<FaultPoint>,
    now: Seq<char>,
    after: (Intents, TargetTables, Result<AppliedView, ProblemView>),
)
    requires
        dispatched(intents, t, e, digest, admission, expectation, effect, fault, now, after),
    ensures
        after.1.store_key == t.store_key,
        grown(t.outbox, after.1.outbox),
        closes_no_actions(t.outbox, after.1.outbox),
        after.2 is Err && fault is None ==> after.1 == t,
        leaves_nothing_to_do(effect) && waits_with_actions(after.1.outbox) ==> waits_with_actions(
            t.outbox,
        ),
{
    if after == dispatch_view(
        intents,
        t,
        e,
        digest,
        admission,
        expectation,
        None,
        fault,
        now,
    ) {
        lemma_dispatch_grows(intents, t, e, digest, admission, expectation, None, fault, now);
    } else {
        let out = choose|out: Result<EffectOutput, CommandProblem>|
            effect.ensures((), out) && after == #[trigger] dispatch_view(
                intents,
                t,
                e,
                digest,
                admission,
                expectation,
                Some(outcome(out)),
                fault,
                now,
            );
        lemma_dispatch_grows(
            intents,
            t,
            e,
            digest,
            admission,
            expectation,
            Some(outcome(out)),
            fault,
            now,
        );
        if let Ok(o) = out {
            assert(effect.ensures((), Ok(o)));
        }
    }
    lemma_grown(t.outbox, after.1.outbox);
}

/// An acceptance adds no event that leaves something to do.
pub proof fn lemma_accepted(
    intents: Intents,
    op: Option<OperationView>,
    t: TargetTables,
    e: EnvelopeView,
    digest: Result<Seq<char>, ProblemView>,
    plan: PlanView,
    fresh: Seq<char>,
    admission: Result<(), ProblemView>,
    expectation: Result<(), ProblemView>,
    fault: Option<OperationAcceptFaultPoint>,
    now: Seq<char>,
)
    ensures
        ({
            let after = accept_view(
                intents,
                op,
                t,
                e,
                digest,
                plan,
                fresh,
                admission,
                expectation,
                fault,
                now,
            ).2;
            &&& after.store_key == t.store_key
            &&& grown(t.outbox, after.outbox)
            &&& closes_no_actions(t.outbox, after.outbox)
            &&& waits_with_actions(after.outbox) ==> waits_with_actions(t.outbox)
        }),
{
    let after = accept_view(
        intents,
        op,
        t,
        e,
        digest,
        plan,
        fresh,
        admission,
        expectation,
        fault,
        now,
    ).2;
    if after.outbox != t.outbox {
        let handle = choose|handle: Seq<char>|
            after.outbox == t.outbox.push(
                OutboxView {
                    event: sorted_view(#[trigger] acceptance_event(e, handle)),
                    published_at: None,
                },
            );
        lemma_acceptance_event(e, handle);
        lemma_one_more(t.outbox, sorted_view(acceptance_event(e, handle)));
    }
    lemma_grown(t.outbox, after.outbox);
}

proof fn lemma_one_more(a: Seq<OutboxView>, event: JsonView)
    requires
        !has_actions(event),
    ensures
        waits_with_actions(a.push(OutboxView { event, published_at: None }))
            ==> waits_with_actions(a),
{
    let b = a.push(OutboxView { event, published_at: None });
    if waits_with_actions(b) {
        let r = choose|r: int|
            0 <= r < b.len() && (#[trigger] b[r]).published_at is None && has_actions(b[r].event);
        assert(r < a.len());
        assert(a[r] == b[r]);
    }
}

/// Whether some stores only gained events that leave nothing to do.
pub open spec fn only_told(a: Seq<TargetTables>, b: Seq<TargetTables>) -> bool {
    &&& a.len() == b.len()
    &&& forall|i: int|
        0 <= i < a.len() ==> (#[trigger] b[i]).store_key == a[i].store_key && grown(
            a[i].outbox,
            b[i].outbox,
        ) && (waits_with_actions(b[i].outbox) ==> waits_with_actions(a[i].outbox))
}

proof fn lemma_only_told_on(a: Seq<TargetTables>, b: Seq<TargetTables>, c: Seq<TargetTables>)
    requires
        only_told(a, b),
        only_told(b, c),
    ensures
        only_told(a, c),
{
    assert forall|i: int| 0 <= i < a.len() implies (#[trigger] c[i]).store_key == a[i].store_key
        && grown(a[i].outbox, c[i].outbox) && (waits_with_actions(c[i].outbox)
        ==> waits_with_actions(a[i].outbox)) by {
        let x = a[i].outbox;
        let y = b[i].outbox;
        let z = c[i].outbox;
        assert(b[i].store_key == a[i].store_key);
        assert(grown(x, y) && grown(y, z));
        assert forall|r: int| 0 <= r < x.len() implies #[trigger] z[r] == x[r] by {
            assert(y[r] == x[r]);
        }
        assert forall|r: int| x.len() <= r < z.len() implies (#[trigger] z[r]).published_at
            is None by {
            if r < y.len() {
                assert(z[r] == y[r]);
            }
        }
    }
}

pub proof fn lemma_only_told(a: Seq<TargetTables>, b: Seq<TargetTables>)
    requires
        only_told(a, b),
    ensures
        never_lost(a, b),
        leaves_no_more(a, b),
{
    assert forall|i: int| 0 <= i < a.len() implies closes_no_actions(
        a[i].outbox,
        (#[trigger] b[i]).outbox,
    ) && keeps_actions(a[i].outbox, b[i].outbox) by {
        lemma_grown(a[i].outbox, b[i].outbox);
    }
    assert forall|i: int| 0 <= i < a.len() implies keeps_actions(
        (#[trigger] a[i]).outbox,
        b[i].outbox,
    ) by {
        assert(b[i].store_key == a[i].store_key);
    }
}

proof fn lemma_step_tells(
    op: OperationView,
    targets: Seq<TargetTables>,
    index: int,
    s: StepPlanView,
    admission: Result<(), ProblemView>,
    expectation: Result<(), ProblemView>,
    effect: Result<StepOutputView, ProblemView>,
    fault: Option<OperationFaultPoint>,
    now: Seq<char>,
)
    ensures
        only_told(
            targets,
            step_view(op, targets, index, s, admission, expectation, effect, fault, now).1,
        ),
{
    let after = step_view(op, targets, index, s, admission, expectation, effect, fault, now).1;
    lemma_target_at(targets, s.target.store_key(), 0);
    if after != targets {
        let at = target_at(targets, s.target.store_key(), 0)->0;
        let t = targets[at];
        let u = step_target_view(
            t,
            op.record,
            index,
            s,
            admission,
            expectation,
            effect,
            now,
        ).0;
        assert(after == targets.update(at, u));
        if u != t {
            let event = sorted_view(step_event(op.record, index, s, effect->Ok_0.projection));
            lemma_step_event(op.record, index, s, effect->Ok_0.projection);
            lemma_one_more(t.outbox, event);
        }
    }
}

proof fn lemma_forward_tells<A: CommandAuthorizer>(
    op: OperationView,
    targets: Seq<TargetTables>,
    steps: Seq<StepPlanView>,
    id: IdentityView,
    authorizer: A,
    answers: Answers,
    fault: Option<OperationFaultPoint>,
    now: Seq<char>,
    i: int,
)
    ensures
        only_told(
            targets,
            forward_view(op, targets, steps, id, authorizer, answers, fault, now, i).1,
        ),
    decreases steps.len() - i,
{
    if i < steps.len() {
        if !(steps[i].role is Forward) {
            lemma_forward_tells(op, targets, steps, id, authorizer, answers, fault, now, i + 1);
        } else {
            let (op1, targets1, went) = step_view(
                op,
                targets,
                i,
                steps[i],
                authorizer.admission(crate::operation::step_lease(id, steps[i])),
                authorizer.expectation(crate::operation::step_lease(id, steps[i])),
                answers(i),
                fault,
                now,
            );
            lemma_step_tells(
                op,
                targets,
                i,
                steps[i],
                authorizer.admission(crate::operation::step_lease(id, steps[i])),
                authorizer.expectation(crate::operation::step_lease(id, steps[i])),
                answers(i),
                fault,
                now,
            );
            lemma_forward_tells(op1, targets1, steps, id, authorizer, answers, fault, now, i + 1);
            lemma_only_told_on(
                targets,
                targets1,
                forward_view(op1, targets1, steps, id, authorizer, answers, fault, now, i + 1).1,
            );
        }
    }
}

proof fn lemma_undoing_tells<A: CommandAuthorizer>(
    op: OperationView,
    targets: Seq<TargetTables>,
    steps: Seq<StepPlanView>,
    id: IdentityView,
    authorizer: A,
    answers: Answers,
    fault: Option<OperationFaultPoint>,
    now: Seq<char>,
    pending: Seq<usize>,
)
    ensures
        only_told(
            targets,
            compensate_view(op, targets, steps, id, authorizer, answers, fault, now, pending).1,
        ),
    decreases pending.len(),
{
    if pending.len() > 0 {
        let i = pending.last();
        let (op1, targets1, went) = step_view(
            op,
            targets,
            i as int,
            steps[i as int],
            authorizer.admission(crate::operation::step_lease(id, steps[i as int])),
            authorizer.expectation(crate::operation::step_lease(id, steps[i as int])),
            answers(i as int),
            fault,
            now,
        );
        lemma_step_tells(
            op,
            targets,
            i as int,
            steps[i as int],
            authorizer.admission(crate::operation::step_lease(id, steps[i as int])),
            authorizer.expectation(crate::operation::step_lease(id, steps[i as int])),
            answers(i as int),
            fault,
            now,
        );
        let rest = pending.drop_last();
        lemma_undoing_tells(op1, targets1, steps, id, authorizer, answers, fault, now, rest);
        lemma_only_told_on(
            targets,
            targets1,
            compensate_view(op1, targets1, steps, id, authorizer, answers, fault, now, rest).1,
        );
    }
}

/// Running an operation adds no event that leaves something to do, and takes none away.
pub proof fn lemma_run_tells<A: CommandAuthorizer>(
    op: OperationView,
    intents: Intents,
    targets: Seq<TargetTables>,
    plan: PlanView,
    authorizer: A,
    answers: Answers,
    effect_count: usize,
    fault: Option<OperationFaultPoint>,
    now: Seq<char>,
)
    ensures
        only_told(
            targets,
            run_view(
                op,
                intents,
                targets,
                plan,
                authorizer,
                answers,
                effect_count,
                fault,
                now,
            ).targets,
        ),
{
    if run_problem(op, intents, plan, effect_count) is None {
        let id = identity_of(intents[op.record.command_id])->Ok_0;
        let (op1, targets1, went) = forward_view(
            op,
            targets,
            plan.steps,
            id,
            authorizer,
            answers,
            fault,
            now,
            0,
        );
        lemma_forward_tells(op, targets, plan.steps, id, authorizer, answers, fault, now, 0);
        let list = undo_list(op1.steps);
        lemma_undoing_tells(
            compensating(op1, now),
            targets1,
            plan.steps,
            id,
            authorizer,
            answers,
            fault,
            now,
            list,
        );
        lemma_only_told_on(
            targets,
            targets1,
            compensate_view(
                compensating(op1, now),
                targets1,
                plan.steps,
                id,
                authorizer,
                answers,
                fault,
                now,
                list,
            ).1,
        );
    }
}

proof fn lemma_closed_off(rows: Seq<OutboxView>, mark: Seq<char>)
    requires
        !waits_with_actions(rows),
    ensures
        closes_no_actions(rows, closed_off(rows, mark)),
        keeps_actions(rows, closed_off(rows, mark)),
        !waits_with_actions(closed_off(rows, mark)),
{
    let b = closed_off(rows, mark);
    assert forall|r: int|
        0 <= r < b.len() && (#[trigger] b[r]).published_at is Some && has_actions(
            b[r].event,
        ) implies rows.contains(b[r]) by {
        assert(b[r].event == rows[r].event);
        assert(b[r] == rows[r]);
    }
}

/// Giving up everything that waits leaves nothing waiting.
pub proof fn lemma_given_up(t: TargetTables, now: Seq<char>)
    ensures
        given_up(t, now).store_key == t.store_key,
        !waits_with_actions(given_up(t, now).outbox),
        !waits_with_actions(t.outbox) ==> closes_no_actions(
            t.outbox,
            given_up(t, now).outbox,
        ),
{
    if !waits_with_actions(t.outbox) {
        lemma_closed_off(t.outbox, crate::journal::OUTBOX_RECONCILED_PREFIX@ + now);
    }
}

proof fn lemma_trimmed_keeps(j: JournalView, events: nat, bytes: nat, now: u64)
    ensures
        j.trimmed(events, bytes, now).0.blocked == j.blocked,
        j.trimmed(events, bytes, now).0.poisoned == j.poisoned,
    decreases j.entries.len(),
{
    if j.entries.len() > 0 {
        lemma_trimmed_keeps(j.evicted(), events, bytes, now);
    }
}

/// Giving up what waits, where none of it leaves something to do.
pub proof fn lemma_aborted(
    j: JournalView,
    t: TargetTables,
    reason: RotationReason,
    occurred_at: Seq<char>,
    reconciled: bool,
    fresh: Seq<char>,
)
    requires
        !waits_with_actions(t.outbox),
    ensures
        ({
            let end = aborted(j, t, reason, occurred_at, reconciled, fresh);
            &&& end.1.store_key == t.store_key
            &&& closes_no_actions(t.outbox, end.1.outbox)
            &&& keeps_actions(t.outbox, end.1.outbox)
            &&& !waits_with_actions(end.1.outbox)
            &&& end.0.blocked == j.blocked
            &&& forall|k: Seq<char>| #[trigger]
                end.0.poisoned.contains(k) ==> k == t.store_key || j.poisoned.contains(k)
        }),
{
    lemma_closed_off(t.outbox, crate::journal::OUTBOX_RECONCILED_PREFIX@ + occurred_at);
    lemma_same_rows(t.outbox);
}

/// Publishing what waits, where none of it leaves something to do.
pub proof fn lemma_publish(
    j: JournalView,
    t: TargetTables,
    occurred_at: Seq<char>,
    now: u64,
    marked: bool,
    reconciled: bool,
    fresh: Seq<char>,
)
    requires
        !waits_with_actions(t.outbox),
    ensures
        ({
            let end = publish_view(j, t, occurred_at, now, marked, reconciled, fresh);
            &&& end.1.store_key == t.store_key
            &&& closes_no_actions(t.outbox, end.1.outbox)
            &&& keeps_actions(t.outbox, end.1.outbox)
            &&& !waits_with_actions(end.1.outbox)
            &&& end.0.blocked == j.blocked
            &&& forall|k: Seq<char>| #[trigger]
                end.0.poisoned.contains(k) ==> k == t.store_key || j.poisoned.contains(k)
        }),
{
    lemma_same_rows(t.outbox);
    lemma_closed_off(t.outbox, occurred_at);
    let changes = crate::dispatch::pending(t.outbox);
    let (roomy, plan) = publication_plan(j, changes, occurred_at, now);
    assert(roomy.blocked == j.blocked && roomy.poisoned == j.poisoned) by {
        if let Ok(staged) = crate::journal::staged_entries(
            j,
            changes,
            changes.len(),
            occurred_at,
            now,
        ) {
            lemma_trimmed_keeps(j, staged.len(), crate::journal::total(staged), now);
        }
    }
    let done = TargetTables { outbox: closed_off(t.outbox, occurred_at), ..t };
    if let Err(reason) = plan {
        lemma_aborted(roomy, t, reason, occurred_at, reconciled, fresh);
    } else {
        lemma_aborted(roomy, t, RotationReason::Publication, occurred_at, reconciled, fresh);
        lemma_aborted(roomy, done, RotationReason::Publication, occurred_at, reconciled, fresh);
        let end = aborted(
            roomy,
            done,
            RotationReason::Publication,
            occurred_at,
            reconciled,
            fresh,
        ).1.outbox;
        assert forall|r: int|
            0 <= r < end.len() && (#[trigger] end[r]).published_at is Some && has_actions(
                end[r].event,
            ) implies t.outbox.contains(end[r]) by {
            let m = choose|m: int| 0 <= m < done.outbox.len() && done.outbox[m] == end[r];
            assert(t.outbox.contains(done.outbox[m]));
        }
    }
}

/// Whether no store that has to be recovered leaves something to do, but for the store at a
/// place.
pub open spec fn recoverable_but(j: JournalView, targets: Seq<TargetTables>, x: int) -> bool {
    forall|i: int|
        0 <= i < targets.len() && i != x && waits_with_actions((#[trigger] targets[i]).outbox)
            ==> !j.poisoned.contains(targets[i].store_key)
}

/// Whether nothing that is left to do was lost, and nothing was added to it, but for the
/// store at a place.
pub open spec fn never_lost_but(a: Seq<TargetTables>, b: Seq<TargetTables>, x: int) -> bool {
    &&& a.len() == b.len()
    &&& forall|i: int|
        0 <= i < a.len() ==> (#[trigger] b[i]).store_key == a[i].store_key && (i != x ==> {
            &&& closes_no_actions(a[i].outbox, b[i].outbox)
            &&& keeps_actions(a[i].outbox, b[i].outbox)
            &&& waits_with_actions(b[i].outbox) ==> waits_with_actions(a[i].outbox)
        })
}

/// Recovering stores that leave nothing to do touches nothing that is left to do.
pub proof fn lemma_recovery_but(
    j: JournalView,
    targets: Seq<TargetTables>,
    closed: Seq<bool>,
    occurred_at: Seq<char>,
    x: int,
)
    requires
        recoverable_but(j, targets, x),
    ensures
        ({
            let end = recover_view(j, targets, closed, occurred_at);
            &&& never_lost_but(targets, end.1, x)
            &&& recoverable_but(end.0, end.1, x)
            &&& end.0.blocked == j.blocked
            &&& end.2 is Ok ==> end.0.poisoned.len() == 0
            &&& forall|k: Seq<char>| #[trigger]
                end.0.poisoned.contains(k) ==> j.poisoned.contains(k)
        }),
    decreases j.poisoned.len(),
{
    lemma_same_stores(targets);
    if j.poisoned.len() > 0 {
        lemma_target_at(targets, j.poisoned[0], 0);
        if let Some(at) = target_at(targets, j.poisoned[0], 0) {
            if closed[at] {
                let next = JournalView { poisoned: j.poisoned.skip(1), ..j };
                let t = given_up(targets[at], occurred_at);
                let mid = targets.update(at, t);
                assert(j.poisoned.contains(j.poisoned[0]));
                if at != x {
                    assert(!waits_with_actions(targets[at].outbox));
                    lemma_closed_off(
                        targets[at].outbox,
                        crate::journal::OUTBOX_RECONCILED_PREFIX@ + occurred_at,
                    );
                }
                assert forall|k: Seq<char>| #[trigger] next.poisoned.contains(
                    k,
                ) implies j.poisoned.contains(k) by {
                    let m = choose|m: int|
                        0 <= m < next.poisoned.len() && next.poisoned[m] == k;
                    assert(j.poisoned[m + 1] == k);
                }
                assert forall|i: int|
                    0 <= i < mid.len() && i != x && waits_with_actions(
                        (#[trigger] mid[i]).outbox,
                    ) implies !next.poisoned.contains(mid[i].store_key) by {
                    assert(i != at);
                    assert(mid[i] == targets[i]);
                }
                lemma_recovery_but(next, mid, closed, occurred_at, x);
                let end = recover_view(next, mid, closed, occurred_at);
                assert forall|i: int| 0 <= i < targets.len() implies (
                #[trigger] end.1[i]).store_key == targets[i].store_key && (i != x ==> {
                    &&& closes_no_actions(targets[i].outbox, end.1[i].outbox)
                    &&& keeps_actions(targets[i].outbox, end.1[i].outbox)
                    &&& waits_with_actions(end.1[i].outbox) ==> waits_with_actions(
                        targets[i].outbox,
                    )
                }) by {
                    assert(end.1[i].store_key == mid[i].store_key);
                    if i != x {
                        if i != at {
                            assert(mid[i] == targets[i]);
                        } else {
                            lemma_closes_on(targets[i].outbox, mid[i].outbox, end.1[i].outbox);
                        }
                    }
                }
            }
        }
    }
}

pub proof fn lemma_closes_on(x: Seq<OutboxView>, y: Seq<OutboxView>, z: Seq<OutboxView>)
    requires
        closes_no_actions(x, y),
        closes_no_actions(y, z),
    ensures
        closes_no_actions(x, z),
{
    assert forall|r: int|
        0 <= r < z.len() && (#[trigger] z[r]).published_at is Some && has_actions(
            z[r].event,
        ) implies x.contains(z[r]) by {
        let m = choose|m: int| 0 <= m < y.len() && y[m] == z[r];
        assert(x.contains(y[m]));
    }
}

/// Recovering stores that leave nothing to do touches nothing that is left to do.
pub proof fn lemma_recovery(
    j: JournalView,
    targets: Seq<TargetTables>,
    closed: Seq<bool>,
    occurred_at: Seq<char>,
)
    requires
        recoverable(j, targets),
    ensures
        ({
            let end = recover_view(j, targets, closed, occurred_at);
            &&& never_lost(targets, end.1)
            &&& leaves_no_more(targets, end.1)
            &&& recoverable(end.0, end.1)
            &&& end.0.blocked == j.blocked
            &&& end.2 is Ok ==> end.0.poisoned.len() == 0
            &&& forall|k: Seq<char>| #[trigger]
                end.0.poisoned.contains(k) ==> j.poisoned.contains(k)
        }),
{
    lemma_recovery_but(j, targets, closed, occurred_at, -1);
    let end = recover_view(j, targets, closed, occurred_at);
    assert forall|i: int| 0 <= i < targets.len() implies keeps_actions(
        (#[trigger] targets[i]).outbox,
        end.1[i].outbox,
    ) by {
        assert(end.1[i].store_key == targets[i].store_key);
    }
}

/// The way in for what is left to do takes none of it away.
pub proof fn lemma_entry(
    j: JournalView,
    targets: Seq<TargetTables>,
    closed: Seq<bool>,
    occurred_at: Seq<char>,
)
    requires
        recoverable(j, targets),
    ensures
        ({
            let end = entry_view(j, targets, closed, occurred_at);
            &&& never_lost(targets, end.1)
            &&& leaves_no_more(targets, end.1)
            &&& recoverable(end.0, end.1)
            &&& end.0.blocked == j.blocked
            &&& end.2 is Ok ==> end.0.poisoned.len() == 0
            &&& forall|k: Seq<char>| #[trigger]
                end.0.poisoned.contains(k) ==> j.poisoned.contains(k)
        }),
{
    lemma_recovery(j, targets, closed, occurred_at);
    lemma_same_stores(targets);
}

/// Doing what a store leaves to do marks no event as done, and once all of it is done
/// nothing is left.
pub proof fn lemma_drained<D: Fn(&RunActionDelivery) -> Result<(), KernelProblem>>(
    start: TargetTables,
    deliver: D,
    end: TargetTables,
    answer: Result<(), KernelProblemView>,
)
    requires
        drained(start, deliver, end, answer),
    ensures
        end.store_key == start.store_key,
        closes_no_actions(start.outbox, end.outbox),
        waits_with_actions(end.outbox) == answer is Err,
{
    let rows = start.outbox;
    let n = if answer is Ok {
        rows.len()
    } else {
        choose|n: nat|
            n < rows.len() && #[trigger] done_up_to(start, deliver, end, n)
                && rows[n as int].published_at is None && (actions_of(rows[n as int].event)
                == Err::<Option<(Seq<char>, Seq<JsonView>)>, KernelProblemView>(answer->Err_0)
                || delivery_failed(deliver, rows, n as int, answer->Err_0))
    };
    assert(done_up_to(start, deliver, end, n));
    let b = end.outbox;
    assert forall|r: int|
        0 <= r < b.len() && (#[trigger] b[r]).published_at is Some && has_actions(
            b[r].event,
        ) implies rows.contains(b[r]) by {
        assert(b[r] == rows[r]);
    }
    law_nothing_is_left_after_draining(rows);
    if answer is Err {
        assert(b[n as int] == rows[n as int]);
        assert(has_actions(b[n as int].event));
    }
}

/// Taking an acceptance out adds nothing.
pub proof fn lemma_without_acceptance(
    rows: Seq<OutboxView>,
    name: Seq<char>,
    command_id: Seq<char>,
)
    ensures
        closes_no_actions(rows, without_acceptance(rows, name, command_id)),
        waits_with_actions(without_acceptance(rows, name, command_id)) ==> waits_with_actions(rows),
{
    let keep = |row: OutboxView| stays(row, name, command_id);
    let b = without_acceptance(rows, name, command_id);
    assert forall|r: int| 0 <= r < b.len() implies rows.contains(#[trigger] b[r]) by {
        assert(b.contains(b[r]));
        rows.lemma_filter_contains_rev(keep, b[r]);
    }
    if waits_with_actions(b) {
        let r = choose|r: int|
            0 <= r < b.len() && (#[trigger] b[r]).published_at is None && has_actions(b[r].event);
        let m = choose|m: int| 0 <= m < rows.len() && rows[m] == b[r];
        assert(has_actions(rows[m].event));
    }
}

} // verus!
