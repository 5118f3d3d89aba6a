//! What holds of every run of an operation, whatever its plan and its effects: which steps
//! ran, in which order, what they left behind, and how the run ended.

use crate::command::ProblemView;
use crate::dispatch::{Intents, TargetTables};
use crate::json::{distinct_names, field_of, sorted_view, JsonView};
use crate::lease::{CommandAuthorizer, LeaseView};
use crate::operation::{
    all_forward_done, compensate_view, compensating, first_mismatch, first_step_problem,
    forward_view, identity_of, law_what_to_undo_is_in_order, lemma_found_undoes,
    lemma_needed_in_range, lemma_pending_in_range, lemma_pending_listed, lemma_roles_match,
    lemma_undo_list_is_of_undoing_steps, open_of, run_problem, run_view, same_step, step_event,
    step_lease, step_view, target_at, undo_list, undone_by, Answers, EndView, IdentityView,
    OperationFaultPoint, OperationProblemView, OperationView, PlanView, StepExecution,
    StepOutputView, StepPlanView, StepView,
};
use crate::publication::{lemma_sorted_aggregate, lemma_sorted_field};
use vstd::prelude::*;
use vstd::string::*;

verus! {

/// Whether some stores are the same ones with nothing taken away: every receipt is as it
/// was, and what was to be told still is.
#[verifier::opaque]
spec fn only_more(a: Seq<TargetTables>, b: Seq<TargetTables>) -> bool {
    &&& a.len() == b.len()
    &&& forall|t: int| #![trigger a[t]] #![trigger b[t]]
        0 <= t < a.len() ==> {
            &&& b[t].store_key == a[t].store_key
            &&& b[t].kind == a[t].kind
            &&& a[t].outbox.is_prefix_of(b[t].outbox)
            &&& forall|id: Seq<char>| #[trigger]
                a[t].receipts.contains_key(id) ==> b[t].receipts.contains_key(id)
                    && b[t].receipts[id] == a[t].receipts[id]
        }
}

proof fn lemma_only_more_on(a: Seq<TargetTables>, b: Seq<TargetTables>, c: Seq<TargetTables>)
    requires
        only_more(a, b),
        only_more(b, c),
    ensures
        only_more(a, c),
{
    reveal(only_more);
    assert forall|t: int| 0 <= t < a.len() implies {
        &&& c[t].store_key == a[t].store_key
        &&& c[t].kind == a[t].kind
        &&& #[trigger] a[t].outbox.is_prefix_of(c[t].outbox)
        &&& forall|id: Seq<char>| #[trigger]
            a[t].receipts.contains_key(id) ==> c[t].receipts.contains_key(id) && c[t].receipts[id]
                == a[t].receipts[id]
    } by {
        assert(b[t].store_key == a[t].store_key);
        assert(c[t].store_key == b[t].store_key);
        assert(a[t].outbox.is_prefix_of(b[t].outbox));
        assert(b[t].outbox.is_prefix_of(c[t].outbox));
        assert(c[t].outbox.take(a[t].outbox.len() as int) =~= a[t].outbox);
    }
}

/// Whether a store gained a receipt.
#[verifier::opaque]
spec fn gained(a: Seq<TargetTables>, b: Seq<TargetTables>, t: int, id: Seq<char>) -> bool {
    0 <= t < a.len() && b[t].receipts.contains_key(id) && !a[t].receipts.contains_key(id)
}

/// Whether the store of a step holds its receipt, of this very step and final.
#[verifier::opaque]
spec fn holds_receipt(targets: Seq<TargetTables>, s: StepPlanView) -> bool {
    exists|t: int|
        {
            &&& 0 <= t < targets.len()
            &&& (#[trigger] targets[t]).store_key == s.target.store_key()
            &&& targets[t].receipts.contains_key(s.step_id)
            &&& targets[t].receipts[s.step_id].semantic_digest == s.semantic_digest
            &&& targets[t].receipts[s.step_id].aggregate_handle == s.target.aggregate.handle
            &&& targets[t].receipts[s.step_id].state == "applied"@
            &&& targets[t].receipts[s.step_id].finalized_at is Some
        }
}

/// A receipt is gained on the first part of a way or on the second.
proof fn lemma_gained_on(
    a: Seq<TargetTables>,
    b: Seq<TargetTables>,
    c: Seq<TargetTables>,
    t: int,
    id: Seq<char>,
)
    requires
        only_more(a, b),
        gained(a, c, t, id),
    ensures
        gained(a, b, t, id) || gained(b, c, t, id),
        b[t].store_key == a[t].store_key,
{
    reveal(only_more);
    reveal(gained);
    assert(a[t].store_key == b[t].store_key);
}

proof fn lemma_receipt_stays(a: Seq<TargetTables>, b: Seq<TargetTables>, s: StepPlanView)
    requires
        only_more(a, b),
        holds_receipt(a, s),
    ensures
        holds_receipt(b, s),
{
    reveal(only_more);
    reveal(holds_receipt);
    let t = choose|t: int|
        {
            &&& 0 <= t < a.len()
            &&& (#[trigger] a[t]).store_key == s.target.store_key()
            &&& a[t].receipts.contains_key(s.step_id)
            &&& a[t].receipts[s.step_id].semantic_digest == s.semantic_digest
            &&& a[t].receipts[s.step_id].aggregate_handle == s.target.aggregate.handle
            &&& a[t].receipts[s.step_id].state == "applied"@
            &&& a[t].receipts[s.step_id].finalized_at is Some
        };
    assert(b[t].store_key == a[t].store_key);
}

proof fn lemma_target(targets: Seq<TargetTables>, key: Seq<char>, from: int)
    requires
        0 <= from,
    ensures
        match target_at(targets, key, from) {
            Some(t) => from <= t < targets.len() && targets[t].store_key == key && forall|k: int|
                from <= k < t ==> (#[trigger] targets[k]).store_key != key,
            None => forall|k: int|
                from <= k < targets.len() ==> (#[trigger] targets[k]).store_key != key,
        },
    decreases targets.len() - from,
{
    if from < targets.len() {
        lemma_target(targets, key, from + 1);
    }
}

/// What one step does, whatever its effect hands back.
proof fn lemma_step(
    op: OperationView,
    targets: Seq<TargetTables>,
    index: int,
    s: StepPlanView,
    admission: Result<(), ProblemView>,
    expectation: Result<(), ProblemView>,
    effect: Result<StepOutputView, ProblemView>,
    fault: Option<OperationFaultPoint>,
    now: Seq<char>,
)
    requires
        op.wf(),
        0 <= index,
    ensures
        ({
            let (op1, targets1, went) = step_view(
                op,
                targets,
                index,
                s,
                admission,
                expectation,
                effect,
                fault,
                now,
            );
            &&& op1.wf()
            &&& op1.steps.len() == op.steps.len()
            &&& op1.record.command_id == op.record.command_id
            &&& op1.record.operation_handle == op.record.operation_handle
            &&& forall|k: int|
                0 <= k < op.steps.len() ==> same_step(#[trigger] op1.steps[k], op.steps[k])
            &&& forall|k: int|
                0 <= k < op.steps.len() && k != index ==> #[trigger] op1.steps[k] == op.steps[k]
            &&& only_more(targets, targets1)
            &&& forall|t: int, id: Seq<char>| #[trigger]
                gained(targets, targets1, t, id) ==> id == s.step_id && index < op.steps.len()
                    && op.steps[index].state is Pending && admission is Ok && expectation is Ok
                    && effect is Ok && targets[t].store_key == s.target.store_key()
            &&& went == Ok::<StepExecution, OperationProblemView>(StepExecution::Failed)
                ==> targets1 == targets && index < op.steps.len() && op.steps[index].state
                is Pending && (op1.steps[index].state is Failed || op1.steps[index].state
                is Revoked)
            &&& went == Ok::<StepExecution, OperationProblemView>(StepExecution::Succeeded)
                ==> index < op.steps.len() && op1.steps[index].state is Succeeded
            &&& went == Ok::<StepExecution, OperationProblemView>(StepExecution::Succeeded)
                && op.steps[index].state is Pending ==> admission is Ok && holds_receipt(
                targets1,
                s,
            )
            &&& went is Err ==> op1.steps == op.steps
            &&& index < op.steps.len() && op1.steps[index] != op.steps[index] ==> op.steps[
            index].state is Pending && went is Ok
            &&& went is Ok && s.role is Compensate ==> op.record.state is Compensating
        }),
{
    reveal(only_more);
    reveal(holds_receipt);
    reveal(gained);
    lemma_target(targets, s.target.store_key(), 0);
    let (op1, targets1, went) = step_view(
        op,
        targets,
        index,
        s,
        admission,
        expectation,
        effect,
        fault,
        now,
    );
    match target_at(targets, s.target.store_key(), 0) {
        Some(at) => {
            assert(targets1[at].store_key == s.target.store_key());
            assert forall|t: int| 0 <= t < targets.len() implies #[trigger] targets[
            t].outbox.is_prefix_of(targets1[t].outbox) by {
                assert(targets1[t].outbox.take(targets[t].outbox.len() as int)
                    =~= targets[t].outbox);
            }
        },
        None => {
            assert forall|t: int| 0 <= t < targets.len() implies #[trigger] targets[
            t].outbox.is_prefix_of(targets1[t].outbox) by {
                assert(targets1[t].outbox.take(targets[t].outbox.len() as int)
                    =~= targets[t].outbox);
            }
        },
    }
}

/// Whether a step took an end that is not the one it was meant for.
spec fn refused(s: StepView) -> bool {
    s.state is Failed || s.state is Revoked
}

/// Whether no two steps have the same id.
spec fn ids_differ(steps: Seq<StepPlanView>) -> bool {
    forall|a: int, b: int|
        0 <= a < b < steps.len() ==> (#[trigger] steps[a]).step_id != (#[trigger] steps[b]).step_id
}

/// What asking for a step takes: the sender is let in, what it expects is so, and the effect
/// goes through.
#[verifier::opaque]
spec fn let_through<A: CommandAuthorizer>(
    authorizer: A,
    id: IdentityView,
    s: StepPlanView,
    answer: Result<StepOutputView, ProblemView>,
) -> bool {
    authorizer.admission(step_lease(id, s)) is Ok && authorizer.expectation(step_lease(id, s))
        is Ok && answer is Ok
}

/// Whether a receipt that was gained is that of a forward step that was run in its turn.
#[verifier::opaque]
spec fn gained_forward<A: CommandAuthorizer>(
    before: OperationView,
    after: OperationView,
    steps: Seq<StepPlanView>,
    targets: Seq<TargetTables>,
    id: IdentityView,
    authorizer: A,
    answers: Answers,
    i: int,
    t: int,
    receipt: Seq<char>,
) -> bool {
    exists|k: int|
        {
            &&& i <= k < steps.len()
            &&& (#[trigger] steps[k]).role is Forward
            &&& steps[k].step_id == receipt
            &&& before.steps[k].state is Pending
            &&& let_through(authorizer, id, steps[k], answers(k))
            &&& targets[t].store_key == steps[k].target.store_key()
            &&& forall|a: int|
                i <= a < k && (#[trigger] steps[a]).role is Forward ==> after.steps[a].state
                    is Succeeded
        }
}

type Stepped = (OperationView, Seq<TargetTables>, Result<StepExecution, OperationProblemView>);

type Forwarded = (OperationView, Seq<TargetTables>, Result<(), OperationProblemView>);

type Undone = (OperationView, Seq<TargetTables>, Result<Option<usize>, OperationProblemView>);

#[verifier::opaque]
spec fn stepped<A: CommandAuthorizer>(
    op: OperationView,
    targets: Seq<TargetTables>,
    steps: Seq<StepPlanView>,
    id: IdentityView,
    authorizer: A,
    answers: Answers,
    fault: Option<OperationFaultPoint>,
    now: Seq<char>,
    i: int,
) -> Stepped {
    step_view(
        op,
        targets,
        i,
        steps[i],
        authorizer.admission(step_lease(id, steps[i])),
        authorizer.expectation(step_lease(id, steps[i])),
        answers(i),
        fault,
        now,
    )
}

#[verifier::opaque]
spec fn forwarded<A: CommandAuthorizer>(
    op: OperationView,
    targets: Seq<TargetTables>,
    steps: Seq<StepPlanView>,
    id: IdentityView,
    authorizer: A,
    answers: Answers,
    fault: Option<OperationFaultPoint>,
    now: Seq<char>,
    i: int,
) -> Forwarded {
    forward_view(op, targets, steps, id, authorizer, answers, fault, now, i)
}

#[verifier::opaque]
spec fn undoing<A: CommandAuthorizer>(
    op: OperationView,
    targets: Seq<TargetTables>,
    steps: Seq<StepPlanView>,
    id: IdentityView,
    authorizer: A,
    answers: Answers,
    fault: Option<OperationFaultPoint>,
    now: Seq<char>,
    pending: Seq<usize>,
) -> Undone {
    compensate_view(op, targets, steps, id, authorizer, answers, fault, now, pending)
}

/// What one step of a plan does.
#[verifier::opaque]
spec fn step_facts<A: CommandAuthorizer>(
    op: OperationView,
    targets: Seq<TargetTables>,
    steps: Seq<StepPlanView>,
    id: IdentityView,
    authorizer: A,
    answers: Answers,
    i: int,
    end: Stepped,
) -> bool {
    let (op1, targets1, went) = end;
    &&& op1.wf()
    &&& op1.steps.len() == op.steps.len()
    &&& op1.record.command_id == op.record.command_id
    &&& op1.record.operation_handle == op.record.operation_handle
    &&& forall|k: int| 0 <= k < op.steps.len() ==> same_step(#[trigger] op1.steps[k], op.steps[k])
    &&& forall|k: int|
        0 <= k < op.steps.len() && k != i ==> #[trigger] op1.steps[k] == op.steps[k]
    &&& only_more(targets, targets1)
    &&& forall|t: int, r: Seq<char>| #[trigger]
        gained(targets, targets1, t, r) ==> r == steps[i].step_id && op.steps[i].state is Pending
            && let_through(authorizer, id, steps[i], answers(i)) && targets[t].store_key
            == steps[i].target.store_key()
    &&& match went {
        Ok(StepExecution::Failed) => targets1 == targets && refused(op1.steps[i]),
        Ok(StepExecution::Succeeded) => op1.steps[i].state is Succeeded && (op.steps[i].state
            is Pending ==> holds_receipt(targets1, steps[i])),
        Err(_) => op1.steps == op.steps,
    }
    &&& op1.steps[i] != op.steps[i] ==> op.steps[i].state is Pending && went is Ok
    &&& went is Ok && steps[i].role is Compensate ==> op.record.state is Compensating
}

proof fn lemma_stepped<A: CommandAuthorizer>(
    op: OperationView,
    targets: Seq<TargetTables>,
    steps: Seq<StepPlanView>,
    id: IdentityView,
    authorizer: A,
    answers: Answers,
    fault: Option<OperationFaultPoint>,
    now: Seq<char>,
    i: int,
)
    requires
        op.wf(),
        0 <= i < steps.len(),
        op.steps.len() == steps.len(),
    ensures
        step_facts(
            op,
            targets,
            steps,
            id,
            authorizer,
            answers,
            i,
            stepped(op, targets, steps, id, authorizer, answers, fault, now, i),
        ),
{
    reveal(stepped);
    reveal(step_facts);
    reveal(let_through);
    let s = steps[i];
    lemma_step(
        op,
        targets,
        i,
        s,
        authorizer.admission(step_lease(id, s)),
        authorizer.expectation(step_lease(id, s)),
        answers(i),
        fault,
        now,
    );
}

proof fn lemma_forward_unfolds<A: CommandAuthorizer>(
    op: OperationView,
    targets: Seq<TargetTables>,
    steps: Seq<StepPlanView>,
    id: IdentityView,
    authorizer: A,
    answers: Answers,
    fault: Option<OperationFaultPoint>,
    now: Seq<char>,
    i: int,
)
    ensures
        ({
            let all = forwarded(op, targets, steps, id, authorizer, answers, fault, now, i);
            if i >= steps.len() {
                all == (op, targets, Ok::<(), OperationProblemView>(()))
            } else if !(steps[i].role is Forward) {
                all == forwarded(op, targets, steps, id, authorizer, answers, fault, now, i + 1)
            } else {
                let (opm, targetsm, went) = stepped(
                    op,
                    targets,
                    steps,
                    id,
                    authorizer,
                    answers,
                    fault,
                    now,
                    i,
                );
                match went {
                    Err(_) => all.0 == opm && all.1 == targetsm && all.2 is Err,
                    Ok(StepExecution::Failed) => all.0 == opm && all.1 == targetsm,
                    Ok(StepExecution::Succeeded) => (all.0 == opm && all.1 == targetsm && all.2
                        is Err) || all == forwarded(
                        opm,
                        targetsm,
                        steps,
                        id,
                        authorizer,
                        answers,
                        fault,
                        now,
                        i + 1,
                    ),
                }
            }
        }),
{
    reveal(forwarded);
    reveal(stepped);
}

/// What running the forward steps from one on does to the steps.
spec fn forward_places(
    op: OperationView,
    op1: OperationView,
    steps: Seq<StepPlanView>,
    i: int,
    through: bool,
) -> bool {
    &&& op1.wf()
    &&& op1.steps.len() == op.steps.len()
    &&& op1.record.command_id == op.record.command_id
    &&& op1.record.operation_handle == op.record.operation_handle
    &&& forall|k: int| 0 <= k < op.steps.len() ==> same_step(#[trigger] op1.steps[k], op.steps[k])
    &&& forall|k: int|
        0 <= k < steps.len() && (k < i || !(steps[k].role is Forward)) ==> #[trigger] op1.steps[k]
            == op.steps[k]
    &&& forall|k: int|
        0 <= k < steps.len() && #[trigger] op1.steps[k] != op.steps[k] ==> op.steps[k].state
            is Pending
    &&& forall|a: int, b: int|
        i <= a < b < steps.len() && steps[a].role is Forward && (#[trigger] op1.steps[b])
            != op.steps[b] ==> (#[trigger] op1.steps[a]).state is Succeeded
    &&& through ==> (forall|k: int|
        i <= k < steps.len() && steps[k].role is Forward ==> (#[trigger] op1.steps[k]).state
            is Succeeded) || exists|k: int|
        i <= k < steps.len() && steps[k].role is Forward && refused(#[trigger] op1.steps[k])
}

/// What running the forward steps from one on does to the stores.
spec fn forward_stores<A: CommandAuthorizer>(
    op: OperationView,
    targets: Seq<TargetTables>,
    steps: Seq<StepPlanView>,
    id: IdentityView,
    authorizer: A,
    answers: Answers,
    i: int,
    op1: OperationView,
    targets1: Seq<TargetTables>,
) -> bool {
    &&& only_more(targets, targets1)
    &&& forall|t: int, r: Seq<char>| #[trigger]
        gained(targets, targets1, t, r) ==> gained_forward(
            op,
            op1,
            steps,
            targets,
            id,
            authorizer,
            answers,
            i,
            t,
            r,
        )
    &&& forall|k: int|
        i <= k < steps.len() && steps[k].role is Forward && op.steps[k].state is Pending && (
        #[trigger] op1.steps[k]).state is Succeeded ==> holds_receipt(targets1, steps[k])
}

/// What running the forward steps from one on does.
#[verifier::opaque]
spec fn forward_facts<A: CommandAuthorizer>(
    op: OperationView,
    targets: Seq<TargetTables>,
    steps: Seq<StepPlanView>,
    id: IdentityView,
    authorizer: A,
    answers: Answers,
    i: int,
    end: Forwarded,
) -> bool {
    &&& forward_places(op, end.0, steps, i, end.2 is Ok)
    &&& forward_stores(op, targets, steps, id, authorizer, answers, i, end.0, end.1)
}

proof fn lemma_forward_stops<A: CommandAuthorizer>(
    op: OperationView,
    targets: Seq<TargetTables>,
    steps: Seq<StepPlanView>,
    id: IdentityView,
    authorizer: A,
    answers: Answers,
    i: int,
    mid: Stepped,
    end: Forwarded,
)
    requires
        op.wf(),
        0 <= i < steps.len(),
        op.steps.len() == steps.len(),
        steps[i].role is Forward,
        step_facts(op, targets, steps, id, authorizer, answers, i, mid),
        end.0 == mid.0,
        end.1 == mid.1,
        end.2 is Ok ==> mid.2 is Ok && mid.2->Ok_0 is Failed,
    ensures
        forward_facts(op, targets, steps, id, authorizer, answers, i, end),
{
    reveal(step_facts);
    reveal(forward_facts);
    let (op1, targets1, went) = end;
    assert forall|t: int, r: Seq<char>| #[trigger] gained(targets, targets1, t, r) implies
        gained_forward(op, op1, steps, targets, id, authorizer, answers, i, t, r) by {
        reveal(gained_forward);
        assert(steps[i].role is Forward);
    }
    assert forall|k: int| 0 <= k < steps.len() && k != i implies #[trigger] op1.steps[k]
        == op.steps[k] by {}
    if went is Ok {
        assert(refused(op1.steps[i]));
    }
}

proof fn lemma_places_go_on(
    op: OperationView,
    opm: OperationView,
    op1: OperationView,
    steps: Seq<StepPlanView>,
    i: int,
    through: bool,
)
    requires
        op.wf(),
        0 <= i < steps.len(),
        op.steps.len() == steps.len(),
        opm.steps.len() == op.steps.len(),
        opm.record.command_id == op.record.command_id,
        opm.record.operation_handle == op.record.operation_handle,
        steps[i].role is Forward,
        forall|k: int|
            0 <= k < op.steps.len() ==> same_step(#[trigger] opm.steps[k], op.steps[k]),
        forall|k: int|
            0 <= k < op.steps.len() && k != i ==> #[trigger] opm.steps[k] == op.steps[k],
        opm.steps[i] != op.steps[i] ==> op.steps[i].state is Pending,
        opm.steps[i].state is Succeeded,
        forward_places(opm, op1, steps, i + 1, through),
    ensures
        forward_places(op, op1, steps, i, through),
{
    assert(op1.steps[i] == opm.steps[i]);
    assert forall|k: int| 0 <= k < op.steps.len() implies same_step(
        #[trigger] op1.steps[k],
        op.steps[k],
    ) by {
        assert(same_step(op1.steps[k], opm.steps[k]));
        assert(same_step(opm.steps[k], op.steps[k]));
    }
    assert forall|k: int|
        0 <= k < steps.len() && (k < i || !(steps[k].role is Forward)) implies #[trigger] op1.steps[
    k] == op.steps[k] by {
        assert(opm.steps[k] == op.steps[k]);
    }
    assert forall|k: int| 0 <= k < steps.len() && #[trigger] op1.steps[k] != op.steps[k] implies
        op.steps[k].state is Pending by {
        if k != i {
            assert(opm.steps[k] == op.steps[k]);
        }
    }
    assert forall|a: int, b: int|
        i <= a < b < steps.len() && steps[a].role is Forward && (#[trigger] op1.steps[b])
            != op.steps[b] implies (#[trigger] op1.steps[a]).state is Succeeded by {
        assert(opm.steps[b] == op.steps[b]);
    }
    if through {
        if forall|k: int|
            i + 1 <= k < steps.len() && steps[k].role is Forward ==> (
            #[trigger] op1.steps[k]).state is Succeeded {
            assert forall|k: int| i <= k < steps.len() && steps[k].role is Forward implies (
            #[trigger] op1.steps[k]).state is Succeeded by {}
        } else {
            let k = choose|k: int|
                i + 1 <= k < steps.len() && steps[k].role is Forward && refused(
                    #[trigger] op1.steps[k],
                );
            assert(refused(op1.steps[k]));
        }
    }
}

proof fn lemma_stores_go_on<A: CommandAuthorizer>(
    op: OperationView,
    targets: Seq<TargetTables>,
    steps: Seq<StepPlanView>,
    id: IdentityView,
    authorizer: A,
    answers: Answers,
    i: int,
    opm: OperationView,
    targetsm: Seq<TargetTables>,
    op1: OperationView,
    targets1: Seq<TargetTables>,
)
    requires
        0 <= i < steps.len(),
        op.steps.len() == steps.len(),
        opm.steps.len() == op.steps.len(),
        steps[i].role is Forward,
        forall|k: int|
            0 <= k < op.steps.len() && k != i ==> #[trigger] opm.steps[k] == op.steps[k],
        op1.steps[i].state is Succeeded,
        op.steps[i].state is Pending ==> holds_receipt(targetsm, steps[i]),
        only_more(targets, targetsm),
        forall|t: int, r: Seq<char>| #[trigger]
            gained(targets, targetsm, t, r) ==> r == steps[i].step_id && op.steps[i].state
                is Pending && let_through(authorizer, id, steps[i], answers(i))
                && targets[t].store_key == steps[i].target.store_key(),
        forward_stores(opm, targetsm, steps, id, authorizer, answers, i + 1, op1, targets1),
    ensures
        forward_stores(op, targets, steps, id, authorizer, answers, i, op1, targets1),
{
    lemma_only_more_on(targets, targetsm, targets1);
    assert forall|t: int, r: Seq<char>| #[trigger] gained(targets, targets1, t, r) implies
        gained_forward(op, op1, steps, targets, id, authorizer, answers, i, t, r) by {
        reveal(gained_forward);
        lemma_gained_on(targets, targetsm, targets1, t, r);
        if gained(targets, targetsm, t, r) {
            assert(steps[i].role is Forward);
        } else {
            let k = choose|k: int|
                {
                    &&& i + 1 <= k < steps.len()
                    &&& (#[trigger] steps[k]).role is Forward
                    &&& steps[k].step_id == r
                    &&& opm.steps[k].state is Pending
                    &&& let_through(authorizer, id, steps[k], answers(k))
                    &&& targetsm[t].store_key == steps[k].target.store_key()
                    &&& forall|a: int|
                        i + 1 <= a < k && (#[trigger] steps[a]).role is Forward
                            ==> op1.steps[a].state is Succeeded
                };
            assert(opm.steps[k] == op.steps[k]);
            assert(steps[k].role is Forward);
        }
    }
    assert forall|k: int|
        i <= k < steps.len() && steps[k].role is Forward && op.steps[k].state is Pending && (
        #[trigger] op1.steps[k]).state is Succeeded implies holds_receipt(targets1, steps[k]) by {
        if k == i {
            lemma_receipt_stays(targetsm, targets1, steps[k]);
        } else {
            assert(opm.steps[k] == op.steps[k]);
        }
    }
}

proof fn lemma_forward_goes_on<A: CommandAuthorizer>(
    op: OperationView,
    targets: Seq<TargetTables>,
    steps: Seq<StepPlanView>,
    id: IdentityView,
    authorizer: A,
    answers: Answers,
    i: int,
    mid: Stepped,
    end: Forwarded,
)
    requires
        op.wf(),
        0 <= i < steps.len(),
        op.steps.len() == steps.len(),
        steps[i].role is Forward,
        step_facts(op, targets, steps, id, authorizer, answers, i, mid),
        mid.2 is Ok && mid.2->Ok_0 is Succeeded,
        forward_facts(mid.0, mid.1, steps, id, authorizer, answers, i + 1, end),
    ensures
        forward_facts(op, targets, steps, id, authorizer, answers, i, end),
{
    reveal(step_facts);
    reveal(forward_facts);
    lemma_places_go_on(op, mid.0, end.0, steps, i, end.2 is Ok);
    assert(end.0.steps[i] == mid.0.steps[i]);
    lemma_stores_go_on(
        op,
        targets,
        steps,
        id,
        authorizer,
        answers,
        i,
        mid.0,
        mid.1,
        end.0,
        end.1,
    );
}

/// What running the forward steps from one on does.
proof fn lemma_forward<A: CommandAuthorizer>(
    op: OperationView,
    targets: Seq<TargetTables>,
    steps: Seq<StepPlanView>,
    id: IdentityView,
    authorizer: A,
    answers: Answers,
    fault: Option<OperationFaultPoint>,
    now: Seq<char>,
    i: int,
)
    requires
        op.wf(),
        0 <= i,
        op.steps.len() == steps.len(),
    ensures
        forward_facts(
            op,
            targets,
            steps,
            id,
            authorizer,
            answers,
            i,
            forwarded(op, targets, steps, id, authorizer, answers, fault, now, i),
        ),
    decreases steps.len() - i,
{
    let end = forwarded(op, targets, steps, id, authorizer, answers, fault, now, i);
    lemma_forward_unfolds(op, targets, steps, id, authorizer, answers, fault, now, i);
    if i >= steps.len() {
        reveal(forward_facts);
        lemma_same(targets);
    } else if !(steps[i].role is Forward) {
        lemma_forward(op, targets, steps, id, authorizer, answers, fault, now, i + 1);
        lemma_skips(op, targets, steps, id, authorizer, answers, i, end);
    } else {
        lemma_stepped(op, targets, steps, id, authorizer, answers, fault, now, i);
        let mid = stepped(op, targets, steps, id, authorizer, answers, fault, now, i);
        if mid.2 is Ok && mid.2->Ok_0 is Succeeded && !(end.0 == mid.0 && end.1 == mid.1 && end.2
            is Err) {
            assert(mid.0.wf() && mid.0.steps.len() == steps.len()) by {
                reveal(step_facts);
            }
            lemma_forward(mid.0, mid.1, steps, id, authorizer, answers, fault, now, i + 1);
            lemma_forward_goes_on(op, targets, steps, id, authorizer, answers, i, mid, end);
        } else {
            lemma_forward_stops(op, targets, steps, id, authorizer, answers, i, mid, end);
        }
    }
}

proof fn lemma_places_skip(
    op: OperationView,
    op1: OperationView,
    steps: Seq<StepPlanView>,
    i: int,
    through: bool,
)
    requires
        op.steps.len() == steps.len(),
        0 <= i < steps.len(),
        !(steps[i].role is Forward),
        forward_places(op, op1, steps, i + 1, through),
    ensures
        forward_places(op, op1, steps, i, through),
{
    assert forall|a: int, b: int|
        i <= a < b < steps.len() && steps[a].role is Forward && (#[trigger] op1.steps[b])
            != op.steps[b] implies (#[trigger] op1.steps[a]).state is Succeeded by {
        assert(i + 1 <= a);
    }
    if through {
        if forall|k: int|
            i + 1 <= k < steps.len() && steps[k].role is Forward ==> (
            #[trigger] op1.steps[k]).state is Succeeded {
            assert forall|k: int| i <= k < steps.len() && steps[k].role is Forward implies (
            #[trigger] op1.steps[k]).state is Succeeded by {
                assert(i + 1 <= k);
            }
        } else {
            let k = choose|k: int|
                i + 1 <= k < steps.len() && steps[k].role is Forward && refused(
                    #[trigger] op1.steps[k],
                );
            assert(refused(op1.steps[k]));
        }
    }
}

proof fn lemma_skips<A: CommandAuthorizer>(
    op: OperationView,
    targets: Seq<TargetTables>,
    steps: Seq<StepPlanView>,
    id: IdentityView,
    authorizer: A,
    answers: Answers,
    i: int,
    end: Forwarded,
)
    requires
        op.steps.len() == steps.len(),
        0 <= i < steps.len(),
        !(steps[i].role is Forward),
        forward_facts(op, targets, steps, id, authorizer, answers, i + 1, end),
    ensures
        forward_facts(op, targets, steps, id, authorizer, answers, i, end),
{
    assert(forward_places(op, end.0, steps, i, end.2 is Ok)) by {
        reveal(forward_facts);
        lemma_places_skip(op, end.0, steps, i, end.2 is Ok);
    }
    assert(forward_stores(op, targets, steps, id, authorizer, answers, i, end.0, end.1)) by {
        reveal(forward_facts);
        assert forall|t: int, r: Seq<char>| #[trigger] gained(targets, end.1, t, r) implies
            gained_forward(op, end.0, steps, targets, id, authorizer, answers, i, t, r) by {
            lemma_gained_earlier(op, end.0, steps, targets, id, authorizer, answers, i, t, r);
        }
        assert forall|k: int|
            i <= k < steps.len() && steps[k].role is Forward && op.steps[k].state is Pending && (
            #[trigger] end.0.steps[k]).state is Succeeded implies holds_receipt(
            end.1,
            steps[k],
        ) by {
            assert(i + 1 <= k);
        }
    }
    reveal(forward_facts);
}

proof fn lemma_gained_earlier<A: CommandAuthorizer>(
    before: OperationView,
    after: OperationView,
    steps: Seq<StepPlanView>,
    targets: Seq<TargetTables>,
    id: IdentityView,
    authorizer: A,
    answers: Answers,
    i: int,
    t: int,
    r: Seq<char>,
)
    requires
        0 <= i < steps.len(),
        !(steps[i].role is Forward),
        gained_forward(before, after, steps, targets, id, authorizer, answers, i + 1, t, r),
    ensures
        gained_forward(before, after, steps, targets, id, authorizer, answers, i, t, r),
{
    reveal(gained_forward);
    let k = choose|k: int|
        {
            &&& i + 1 <= k < steps.len()
            &&& (#[trigger] steps[k]).role is Forward
            &&& steps[k].step_id == r
            &&& before.steps[k].state is Pending
            &&& let_through(authorizer, id, steps[k], answers(k))
            &&& targets[t].store_key == steps[k].target.store_key()
            &&& forall|a: int|
                i + 1 <= a < k && (#[trigger] steps[a]).role is Forward ==> after.steps[a].state
                    is Succeeded
        };
    assert forall|a: int| i <= a < k && (#[trigger] steps[a]).role is Forward implies after.steps[
    a].state is Succeeded by {
        assert(i + 1 <= a);
    }
    assert(steps[k].role is Forward);
}

proof fn lemma_same(targets: Seq<TargetTables>)
    ensures
        only_more(targets, targets),
        forall|t: int, r: Seq<char>| !(#[trigger] gained(targets, targets, t, r)),
{
    reveal(only_more);
    reveal(gained);
    assert forall|t: int| 0 <= t < targets.len() implies #[trigger] targets[t].outbox.is_prefix_of(
        targets[t].outbox,
    ) by {
        assert(targets[t].outbox.take(targets[t].outbox.len() as int) =~= targets[t].outbox);
    }
}

proof fn lemma_undoing_unfolds<A: CommandAuthorizer>(
    op: OperationView,
    targets: Seq<TargetTables>,
    steps: Seq<StepPlanView>,
    id: IdentityView,
    authorizer: A,
    answers: Answers,
    fault: Option<OperationFaultPoint>,
    now: Seq<char>,
    list: Seq<usize>,
)
    ensures
        ({
            let all = undoing(op, targets, steps, id, authorizer, answers, fault, now, list);
            if list.len() == 0 {
                all == (op, targets, Ok::<Option<usize>, OperationProblemView>(None))
            } else {
                let i = list.last() as int;
                let (opm, targetsm, went) = stepped(
                    op,
                    targets,
                    steps,
                    id,
                    authorizer,
                    answers,
                    fault,
                    now,
                    i,
                );
                match went {
                    Err(_) => all.0 == opm && all.1 == targetsm && all.2 is Err,
                    Ok(StepExecution::Failed) => all.0 == opm && all.1 == targetsm && (all.2 is Err
                        || all.2 == Ok::<Option<usize>, OperationProblemView>(Some(list.last()))),
                    Ok(StepExecution::Succeeded) => (all.0 == opm && all.1 == targetsm && all.2
                        is Err) || all == undoing(
                        opm,
                        targetsm,
                        steps,
                        id,
                        authorizer,
                        answers,
                        fault,
                        now,
                        list.drop_last(),
                    ),
                }
            }
        }),
{
    reveal(undoing);
    reveal(stepped);
}

/// What undoing does to the steps.
spec fn undo_places(
    op: OperationView,
    op1: OperationView,
    list: Seq<usize>,
    went: Result<Option<usize>, OperationProblemView>,
) -> bool {
    &&& op1.wf()
    &&& op1.steps.len() == op.steps.len()
    &&& op1.record.command_id == op.record.command_id
    &&& op1.record.operation_handle == op.record.operation_handle
    &&& forall|k: int| 0 <= k < op.steps.len() ==> same_step(#[trigger] op1.steps[k], op.steps[k])
    &&& forall|k: int|
        0 <= k < op.steps.len() && !list.contains(k as usize) ==> #[trigger] op1.steps[k]
            == op.steps[k]
    &&& forall|k: int|
        0 <= k < op.steps.len() && #[trigger] op1.steps[k] != op.steps[k] ==> op.steps[k].state
            is Pending
    &&& forall|m: int, n: int|
        0 <= m < n < list.len() && op1.steps[(#[trigger] list[m]) as int]
            != op.steps[list[m] as int] ==> op1.steps[(#[trigger] list[n]) as int].state
            is Succeeded
    &&& match went {
        Ok(None) => forall|m: int|
            0 <= m < list.len() ==> op1.steps[(#[trigger] list[m]) as int].state is Succeeded,
        Ok(Some(i)) => list.contains(i) && refused(op1.steps[i as int]),
        Err(_) => true,
    }
}

/// Whether a receipt that was gained is that of an undoing step that was run in its turn.
#[verifier::opaque]
spec fn gained_undoing<A: CommandAuthorizer>(
    before: OperationView,
    after: OperationView,
    steps: Seq<StepPlanView>,
    targets: Seq<TargetTables>,
    id: IdentityView,
    authorizer: A,
    answers: Answers,
    list: Seq<usize>,
    t: int,
    receipt: Seq<char>,
) -> bool {
    exists|m: int|
        {
            let k = (#[trigger] list[m]) as int;
            &&& 0 <= m < list.len()
            &&& steps[k].step_id == receipt
            &&& before.steps[k].state is Pending
            &&& let_through(authorizer, id, steps[k], answers(k))
            &&& targets[t].store_key == steps[k].target.store_key()
            &&& forall|n: int|
                m < n < list.len() ==> after.steps[(#[trigger] list[n]) as int].state is Succeeded
        }
}

/// What undoing does to the stores.
spec fn undo_stores<A: CommandAuthorizer>(
    op: OperationView,
    targets: Seq<TargetTables>,
    steps: Seq<StepPlanView>,
    id: IdentityView,
    authorizer: A,
    answers: Answers,
    list: Seq<usize>,
    op1: OperationView,
    targets1: Seq<TargetTables>,
) -> bool {
    &&& only_more(targets, targets1)
    &&& forall|t: int, r: Seq<char>| #[trigger]
        gained(targets, targets1, t, r) ==> gained_undoing(
            op,
            op1,
            steps,
            targets,
            id,
            authorizer,
            answers,
            list,
            t,
            r,
        )
    &&& forall|m: int|
        0 <= m < list.len() && op.steps[(#[trigger] list[m]) as int].state is Pending
            && op1.steps[list[m] as int].state is Succeeded ==> holds_receipt(
            targets1,
            steps[list[m] as int],
        )
}

/// What undoing does.
#[verifier::opaque]
spec fn undo_facts<A: CommandAuthorizer>(
    op: OperationView,
    targets: Seq<TargetTables>,
    steps: Seq<StepPlanView>,
    id: IdentityView,
    authorizer: A,
    answers: Answers,
    list: Seq<usize>,
    end: Undone,
) -> bool {
    &&& undo_places(op, end.0, list, end.2)
    &&& undo_stores(op, targets, steps, id, authorizer, answers, list, end.0, end.1)
}

/// Whether a list names steps of a plan, each once.
spec fn names_steps(list: Seq<usize>, n: int) -> bool {
    &&& forall|m: int| 0 <= m < list.len() ==> (#[trigger] list[m]) < n
    &&& forall|a: int, b: int|
        0 <= a < b < list.len() ==> (#[trigger] list[a]) != (#[trigger] list[b])
}

proof fn lemma_undo_stops<A: CommandAuthorizer>(
    op: OperationView,
    targets: Seq<TargetTables>,
    steps: Seq<StepPlanView>,
    id: IdentityView,
    authorizer: A,
    answers: Answers,
    list: Seq<usize>,
    mid: Stepped,
    end: Undone,
)
    requires
        op.wf(),
        list.len() > 0,
        names_steps(list, steps.len() as int),
        op.steps.len() == steps.len(),
        step_facts(op, targets, steps, id, authorizer, answers, list.last() as int, mid),
        end.0 == mid.0,
        end.1 == mid.1,
        end.2 is Ok ==> mid.2 is Ok && mid.2->Ok_0 is Failed && end.2->Ok_0 == Some(list.last()),
    ensures
        undo_facts(op, targets, steps, id, authorizer, answers, list, end),
{
    reveal(step_facts);
    reveal(undo_facts);
    let last = list.len() - 1;
    let i = list[last] as int;
    assert(list.last() == list[last]);
    let (op1, targets1, went) = end;
    assert forall|t: int, r: Seq<char>| #[trigger] gained(targets, targets1, t, r) implies
        gained_undoing(op, op1, steps, targets, id, authorizer, answers, list, t, r) by {
        reveal(gained_undoing);
        assert(steps[list[last] as int].step_id == r);
    }
    assert forall|k: int| 0 <= k < op.steps.len() && !list.contains(k as usize) implies
        #[trigger] op1.steps[k] == op.steps[k] by {
        assert(list.contains(list[last]));
    }
}

proof fn lemma_undo_places_go_on(
    op: OperationView,
    opm: OperationView,
    op1: OperationView,
    list: Seq<usize>,
    went: Result<Option<usize>, OperationProblemView>,
)
    requires
        op.wf(),
        list.len() > 0,
        names_steps(list, op.steps.len() as int),
        opm.steps.len() == op.steps.len(),
        opm.record.command_id == op.record.command_id,
        opm.record.operation_handle == op.record.operation_handle,
        forall|k: int|
            0 <= k < op.steps.len() ==> same_step(#[trigger] opm.steps[k], op.steps[k]),
        forall|k: int|
            0 <= k < op.steps.len() && k != list.last() ==> #[trigger] opm.steps[k]
                == op.steps[k],
        opm.steps[list.last() as int] != op.steps[list.last() as int] ==> op.steps[
        list.last() as int].state is Pending,
        opm.steps[list.last() as int].state is Succeeded,
        undo_places(opm, op1, list.drop_last(), went),
    ensures
        undo_places(op, op1, list, went),
{
    let rest = list.drop_last();
    let last = list.len() - 1;
    let i = list.last() as int;
    assert(list[last] == list.last());
    assert(!rest.contains(list.last())) by {
        if rest.contains(list.last()) {
            let m = choose|m: int| 0 <= m < rest.len() && rest[m] == list.last();
            assert(list[m] != list[last]);
        }
    }
    assert(i as usize == list.last());
    assert(op1.steps[i] == opm.steps[i]);
    assert forall|k: int| 0 <= k < op.steps.len() implies same_step(
        #[trigger] op1.steps[k],
        op.steps[k],
    ) by {
        assert(same_step(op1.steps[k], opm.steps[k]));
        assert(same_step(opm.steps[k], op.steps[k]));
    }
    assert forall|k: int| 0 <= k < op.steps.len() && !list.contains(k as usize) implies
        #[trigger] op1.steps[k] == op.steps[k] by {
        if rest.contains(k as usize) {
            let m = choose|m: int| 0 <= m < rest.len() && rest[m] == k as usize;
            assert(list[m] == k as usize);
        }
        if k == i {
            assert(list[last] == k as usize);
        }
        assert(opm.steps[k] == op.steps[k]);
    }
    assert forall|k: int| 0 <= k < op.steps.len() && #[trigger] op1.steps[k] != op.steps[k] implies
        op.steps[k].state is Pending by {
        if k != i {
            assert(opm.steps[k] == op.steps[k]);
        }
    }
    assert forall|m: int, n: int|
        0 <= m < n < list.len() && op1.steps[(#[trigger] list[m]) as int]
            != op.steps[list[m] as int] implies op1.steps[(#[trigger] list[n]) as int].state
        is Succeeded by {
        if n < last {
            assert(rest[m] == list[m] && rest[n] == list[n]);
            assert(list[m] != list[last]);
            assert(opm.steps[list[m] as int] == op.steps[list[m] as int]);
        }
    }
    match went {
        Ok(None) => {
            assert forall|m: int| 0 <= m < list.len() implies op1.steps[(
            #[trigger] list[m]) as int].state is Succeeded by {
                if m < last {
                    assert(rest[m] == list[m]);
                }
            }
        },
        Ok(Some(x)) => {
            let m = choose|m: int| 0 <= m < rest.len() && rest[m] == x;
            assert(list[m] == x);
        },
        Err(_) => {},
    }
}

proof fn lemma_gained_before_last<A: CommandAuthorizer>(
    op: OperationView,
    opm: OperationView,
    op1: OperationView,
    steps: Seq<StepPlanView>,
    targets: Seq<TargetTables>,
    targetsm: Seq<TargetTables>,
    id: IdentityView,
    authorizer: A,
    answers: Answers,
    list: Seq<usize>,
    t: int,
    r: Seq<char>,
)
    requires
        list.len() > 0,
        names_steps(list, op.steps.len() as int),
        forall|k: int|
            0 <= k < op.steps.len() && k != list.last() ==> #[trigger] opm.steps[k]
                == op.steps[k],
        op1.steps[list.last() as int].state is Succeeded,
        targetsm[t].store_key == targets[t].store_key,
        gained_undoing(
            opm,
            op1,
            steps,
            targetsm,
            id,
            authorizer,
            answers,
            list.drop_last(),
            t,
            r,
        ),
    ensures
        gained_undoing(op, op1, steps, targets, id, authorizer, answers, list, t, r),
{
    reveal(gained_undoing);
    let rest = list.drop_last();
    let last = list.len() - 1;
    assert(list[last] == list.last());
    let m = choose|m: int|
        {
            let k = (#[trigger] rest[m]) as int;
            &&& 0 <= m < rest.len()
            &&& steps[k].step_id == r
            &&& opm.steps[k].state is Pending
            &&& let_through(authorizer, id, steps[k], answers(k))
            &&& targetsm[t].store_key == steps[k].target.store_key()
            &&& forall|n: int|
                m < n < rest.len() ==> op1.steps[(#[trigger] rest[n]) as int].state is Succeeded
        };
    assert(list[m] == rest[m]);
    assert(list[m] != list[last]);
    assert(opm.steps[list[m] as int] == op.steps[list[m] as int]);
    assert forall|n: int| m < n < list.len() implies op1.steps[(#[trigger] list[n]) as int].state
        is Succeeded by {
        if n < last {
            assert(rest[n] == list[n]);
        }
    }
}

proof fn lemma_undo_stores_go_on<A: CommandAuthorizer>(
    op: OperationView,
    targets: Seq<TargetTables>,
    steps: Seq<StepPlanView>,
    id: IdentityView,
    authorizer: A,
    answers: Answers,
    list: Seq<usize>,
    opm: OperationView,
    targetsm: Seq<TargetTables>,
    op1: OperationView,
    targets1: Seq<TargetTables>,
)
    requires
        list.len() > 0,
        names_steps(list, op.steps.len() as int),
        op.steps.len() == steps.len(),
        opm.steps.len() == op.steps.len(),
        forall|k: int|
            0 <= k < op.steps.len() && k != list.last() ==> #[trigger] opm.steps[k]
                == op.steps[k],
        op1.steps[list.last() as int].state is Succeeded,
        op.steps[list.last() as int].state is Pending ==> holds_receipt(
            targetsm,
            steps[list.last() as int],
        ),
        only_more(targets, targetsm),
        forall|t: int, r: Seq<char>| #[trigger]
            gained(targets, targetsm, t, r) ==> r == steps[list.last() as int].step_id
                && op.steps[list.last() as int].state is Pending && let_through(
                authorizer,
                id,
                steps[list.last() as int],
                answers(list.last() as int),
            ) && targets[t].store_key == steps[list.last() as int].target.store_key(),
        undo_stores(
            opm,
            targetsm,
            steps,
            id,
            authorizer,
            answers,
            list.drop_last(),
            op1,
            targets1,
        ),
    ensures
        undo_stores(op, targets, steps, id, authorizer, answers, list, op1, targets1),
{
    let rest = list.drop_last();
    let last = list.len() - 1;
    assert(list[last] == list.last());
    lemma_only_more_on(targets, targetsm, targets1);
    assert forall|t: int, r: Seq<char>| #[trigger] gained(targets, targets1, t, r) implies
        gained_undoing(op, op1, steps, targets, id, authorizer, answers, list, t, r) by {
        lemma_gained_on(targets, targetsm, targets1, t, r);
        if gained(targets, targetsm, t, r) {
            reveal(gained_undoing);
            assert(steps[list[last] as int].step_id == r);
        } else {
            lemma_gained_before_last(
                op,
                opm,
                op1,
                steps,
                targets,
                targetsm,
                id,
                authorizer,
                answers,
                list,
                t,
                r,
            );
        }
    }
    assert forall|m: int|
        0 <= m < list.len() && op.steps[(#[trigger] list[m]) as int].state is Pending
            && op1.steps[list[m] as int].state is Succeeded implies holds_receipt(
        targets1,
        steps[list[m] as int],
    ) by {
        if m == last {
            lemma_receipt_stays(targetsm, targets1, steps[list[m] as int]);
        } else {
            assert(rest[m] == list[m]);
            assert(list[m] != list[last]);
            assert(opm.steps[list[m] as int] == op.steps[list[m] as int]);
        }
    }
}

/// What undoing does.
proof fn lemma_undo<A: CommandAuthorizer>(
    op: OperationView,
    targets: Seq<TargetTables>,
    steps: Seq<StepPlanView>,
    id: IdentityView,
    authorizer: A,
    answers: Answers,
    fault: Option<OperationFaultPoint>,
    now: Seq<char>,
    list: Seq<usize>,
)
    requires
        op.wf(),
        op.steps.len() == steps.len(),
        names_steps(list, steps.len() as int),
    ensures
        undo_facts(
            op,
            targets,
            steps,
            id,
            authorizer,
            answers,
            list,
            undoing(op, targets, steps, id, authorizer, answers, fault, now, list),
        ),
    decreases list.len(),
{
    let end = undoing(op, targets, steps, id, authorizer, answers, fault, now, list);
    lemma_undoing_unfolds(op, targets, steps, id, authorizer, answers, fault, now, list);
    if list.len() == 0 {
        reveal(undo_facts);
        lemma_same(targets);
    } else {
        let i = list.last() as int;
        let rest = list.drop_last();
        assert(list[list.len() - 1] == list.last());
        assert(names_steps(rest, steps.len() as int)) by {
            assert forall|m: int| 0 <= m < rest.len() implies (#[trigger] rest[m]) < steps.len() by {
                assert(rest[m] == list[m]);
            }
            assert forall|a: int, b: int| 0 <= a < b < rest.len() implies (#[trigger] rest[a]) != (
            #[trigger] rest[b]) by {
                assert(list[a] != list[b]);
            }
        }
        lemma_stepped(op, targets, steps, id, authorizer, answers, fault, now, i);
        let mid = stepped(op, targets, steps, id, authorizer, answers, fault, now, i);
        if mid.2 is Ok && mid.2->Ok_0 is Succeeded && !(end.0 == mid.0 && end.1 == mid.1 && end.2
            is Err) {
            assert(mid.0.wf() && mid.0.steps.len() == steps.len()) by {
                reveal(step_facts);
            }
            lemma_undo(mid.0, mid.1, steps, id, authorizer, answers, fault, now, rest);
            assert(undo_places(op, end.0, list, end.2)) by {
                reveal(step_facts);
                reveal(undo_facts);
                lemma_undo_places_go_on(op, mid.0, end.0, list, end.2);
            }
            assert(end.0.steps[i].state is Succeeded) by {
                reveal(step_facts);
                reveal(undo_facts);
                if rest.contains(i as usize) {
                    let m = choose|m: int| 0 <= m < rest.len() && rest[m] == i as usize;
                    assert(list[m] != list[list.len() - 1]);
                }
                assert(end.0.steps[i] == mid.0.steps[i]);
            }
            assert(undo_stores(op, targets, steps, id, authorizer, answers, list, end.0, end.1)) by {
                reveal(step_facts);
                reveal(undo_facts);
                lemma_undo_stores_go_on(
                    op,
                    targets,
                    steps,
                    id,
                    authorizer,
                    answers,
                    list,
                    mid.0,
                    mid.1,
                    end.0,
                    end.1,
                );
            }
            reveal(undo_facts);
        } else {
            lemma_undo_stops(op, targets, steps, id, authorizer, answers, list, mid, end);
        }
    }
}

proof fn lemma_ids_differ(steps: Seq<StepPlanView>, i: int)
    requires
        0 <= i,
        first_step_problem(steps, i) is None,
    ensures
        forall|a: int, b: int|
            0 <= a < b < steps.len() && i <= b ==> (#[trigger] steps[a]).step_id != (
            #[trigger] steps[b]).step_id,
    decreases steps.len() - i,
{
    if i < steps.len() {
        lemma_ids_differ(steps, i + 1);
        assert forall|a: int, b: int| 0 <= a < b < steps.len() && i <= b implies (
        #[trigger] steps[a]).step_id != (#[trigger] steps[b]).step_id by {
            if b == i && steps[a].step_id == steps[b].step_id {
                assert(exists|k: int| 0 <= k < i && (#[trigger] steps[k]).step_id == steps[i].step_id);
            }
        }
    }
}

proof fn lemma_undo_list_named(steps: Seq<StepView>)
    requires
        forall|i: int| 0 <= i < steps.len() ==> (#[trigger] steps[i]).step_index == i,
    ensures
        names_steps(undo_list(steps), steps.len() as int),
        forall|m: int|
            0 <= m < undo_list(steps).len() ==> steps[(
            #[trigger] undo_list(steps)[m]) as int].role is Compensate,
{
    lemma_undo_list_is_of_undoing_steps(steps);
    lemma_needed_in_range(steps, steps.len() as int);
    lemma_pending_in_range(steps, open_of(steps, steps.len() as int).needed);
}

/// Where a run goes: nowhere; through its forward steps; or through them and back.
spec fn run_course<A: CommandAuthorizer>(
    op: OperationView,
    intents: Intents,
    targets: Seq<TargetTables>,
    plan: PlanView,
    authorizer: A,
    answers: Answers,
    effect_count: usize,
    fault: Option<OperationFaultPoint>,
    now: Seq<char>,
) -> bool {
    let run = run_view(op, intents, targets, plan, authorizer, answers, effect_count, fault, now);
    if run_problem(op, intents, plan, effect_count) is Some {
        run.op == op && run.intents == intents && run.targets == targets && run.answer is Err
    } else {
        let id = identity_of(intents[op.record.command_id])->Ok_0;
        let mid = forwarded(op, targets, plan.steps, id, authorizer, answers, fault, now, 0);
        let list = undo_list(mid.0.steps);
        let back = undoing(
            compensating(mid.0, now),
            mid.1,
            plan.steps,
            id,
            authorizer,
            answers,
            fault,
            now,
            list,
        );
        ||| run.op.steps == mid.0.steps && run.targets == mid.1
        ||| mid.2 is Ok && list.len() > 0 && run.op.steps == back.0.steps && run.targets == back.1
    }
}

proof fn lemma_run_course<A: CommandAuthorizer>(
    op: OperationView,
    intents: Intents,
    targets: Seq<TargetTables>,
    plan: PlanView,
    authorizer: A,
    answers: Answers,
    effect_count: usize,
    fault: Option<OperationFaultPoint>,
    now: Seq<char>,
)
    ensures
        run_course(op, intents, targets, plan, authorizer, answers, effect_count, fault, now),
{
    reveal(forwarded);
    reveal(undoing);
}

/// What a run did, seen from its middle: the forward steps stand as they did there, and what
/// was gained is the receipt of a step that had its turn.
#[verifier::opaque]
spec fn run_says<A: CommandAuthorizer>(
    op: OperationView,
    targets: Seq<TargetTables>,
    steps: Seq<StepPlanView>,
    id: IdentityView,
    authorizer: A,
    answers: Answers,
    mid: Forwarded,
    after: OperationView,
    targets1: Seq<TargetTables>,
) -> bool {
    let list = undo_list(mid.0.steps);
    &&& after.steps.len() == op.steps.len()
    &&& only_more(targets, targets1)
    &&& forall|k: int|
        0 <= k < steps.len() && steps[k].role is Forward ==> #[trigger] after.steps[k]
            == mid.0.steps[k]
    &&& forall|k: int| 0 <= k < steps.len() ==> same_step(#[trigger] after.steps[k], op.steps[k])
    &&& forall|k: int|
        0 <= k < steps.len() && #[trigger] after.steps[k] != op.steps[k] ==> op.steps[k].state
            is Pending
    &&& forall|k: int|
        0 <= k < steps.len() && !(steps[k].role is Forward) && #[trigger] after.steps[k]
            != op.steps[k] ==> mid.2 is Ok && list.contains(k as usize)
    &&& forall|m: int, n: int|
        0 <= m < n < list.len() && after.steps[(#[trigger] list[m]) as int]
            != op.steps[list[m] as int] ==> after.steps[(#[trigger] list[n]) as int].state
            is Succeeded
    &&& forall|t: int, r: Seq<char>| #[trigger]
        gained(targets, targets1, t, r) ==> gained_forward(
            op,
            mid.0,
            steps,
            targets,
            id,
            authorizer,
            answers,
            0,
            t,
            r,
        ) || (mid.2 is Ok && gained_undoing(
            op,
            after,
            steps,
            targets,
            id,
            authorizer,
            answers,
            list,
            t,
            r,
        ))
    &&& forall|k: int|
        0 <= k < steps.len() && op.steps[k].state is Pending && (#[trigger] after.steps[k]).state
            is Succeeded ==> holds_receipt(targets1, steps[k])
}

proof fn lemma_says_there<A: CommandAuthorizer>(
    op: OperationView,
    targets: Seq<TargetTables>,
    steps: Seq<StepPlanView>,
    id: IdentityView,
    authorizer: A,
    answers: Answers,
    mid: Forwarded,
)
    requires
        op.wf(),
        op.steps.len() == steps.len(),
        forward_facts(op, targets, steps, id, authorizer, answers, 0, mid),
        names_steps(undo_list(mid.0.steps), op.steps.len() as int),
        forall|m: int|
            0 <= m < undo_list(mid.0.steps).len() ==> steps[(
            #[trigger] undo_list(mid.0.steps)[m]) as int].role is Compensate,
    ensures
        run_says(op, targets, steps, id, authorizer, answers, mid, mid.0, mid.1),
{
    reveal(run_says);
    reveal(forward_facts);
    let list = undo_list(mid.0.steps);
    assert forall|m: int, n: int|
        0 <= m < n < list.len() && mid.0.steps[(#[trigger] list[m]) as int]
            != op.steps[list[m] as int] implies mid.0.steps[(#[trigger] list[n]) as int].state
        is Succeeded by {
        assert(steps[list[m] as int].role is Compensate);
    }
    assert forall|k: int|
        0 <= k < steps.len() && op.steps[k].state is Pending && (#[trigger] mid.0.steps[k]).state
            is Succeeded implies holds_receipt(mid.1, steps[k]) by {
        assert(mid.0.steps[k] != op.steps[k]);
    }
}

proof fn lemma_says_back<A: CommandAuthorizer>(
    op: OperationView,
    targets: Seq<TargetTables>,
    steps: Seq<StepPlanView>,
    id: IdentityView,
    authorizer: A,
    answers: Answers,
    mid: Forwarded,
    from: OperationView,
    back: Undone,
)
    requires
        op.wf(),
        op.steps.len() == steps.len(),
        mid.2 is Ok,
        from.steps == mid.0.steps,
        forward_facts(op, targets, steps, id, authorizer, answers, 0, mid),
        undo_facts(
            from,
            mid.1,
            steps,
            id,
            authorizer,
            answers,
            undo_list(mid.0.steps),
            back,
        ),
        names_steps(undo_list(mid.0.steps), op.steps.len() as int),
        forall|m: int|
            0 <= m < undo_list(mid.0.steps).len() ==> steps[(
            #[trigger] undo_list(mid.0.steps)[m]) as int].role is Compensate,
    ensures
        run_says(op, targets, steps, id, authorizer, answers, mid, back.0, back.1),
{
    reveal(forward_facts);
    reveal(undo_facts);
    let list = undo_list(mid.0.steps);
    let after = back.0;
    lemma_only_more_on(targets, mid.1, back.1);
    assert forall|k: int| 0 <= k < steps.len() && steps[k].role is Forward implies
        #[trigger] after.steps[k] == mid.0.steps[k] by {
        if list.contains(k as usize) {
            let m = choose|m: int| 0 <= m < list.len() && list[m] == k as usize;
            assert(steps[list[m] as int].role is Compensate);
        }
    }
    assert forall|k: int| 0 <= k < steps.len() implies same_step(
        #[trigger] after.steps[k],
        op.steps[k],
    ) by {
        assert(same_step(after.steps[k], from.steps[k]));
        assert(same_step(mid.0.steps[k], op.steps[k]));
    }
    assert forall|k: int| 0 <= k < steps.len() && !(steps[k].role is Forward) implies
        #[trigger] mid.0.steps[k] == op.steps[k] by {}
    assert forall|k: int| 0 <= k < steps.len() && #[trigger] after.steps[k] != op.steps[k] implies
        op.steps[k].state is Pending by {
        if steps[k].role is Forward {
            assert(after.steps[k] == mid.0.steps[k]);
        } else {
            assert(mid.0.steps[k] == op.steps[k]);
            assert(from.steps[k] == op.steps[k]);
        }
    }
    assert forall|k: int|
        0 <= k < steps.len() && !(steps[k].role is Forward) && #[trigger] after.steps[k]
            != op.steps[k] implies mid.2 is Ok && list.contains(k as usize) by {
        assert(mid.0.steps[k] == op.steps[k]);
        assert(from.steps[k] == op.steps[k]);
    }
    assert forall|m: int, n: int|
        0 <= m < n < list.len() && after.steps[(#[trigger] list[m]) as int]
            != op.steps[list[m] as int] implies after.steps[(#[trigger] list[n]) as int].state
        is Succeeded by {
        assert(steps[list[m] as int].role is Compensate);
        assert(mid.0.steps[list[m] as int] == op.steps[list[m] as int]);
    }
    assert forall|k: int|
        0 <= k < steps.len() && op.steps[k].state is Pending && (#[trigger] after.steps[k]).state
            is Succeeded implies holds_receipt(back.1, steps[k]) by {
        if steps[k].role is Forward {
            assert(after.steps[k] == mid.0.steps[k]);
            lemma_receipt_stays(mid.1, back.1, steps[k]);
        } else {
            assert(mid.0.steps[k] == op.steps[k]);
            assert(after.steps[k] != from.steps[k]);
            let m = choose|m: int| 0 <= m < list.len() && list[m] == k as usize;
            assert(from.steps[list[m] as int].state is Pending);
        }
    }
    lemma_says_gained(op, targets, steps, id, authorizer, answers, mid, from, back);
    reveal(run_says);
}

proof fn lemma_says_gained<A: CommandAuthorizer>(
    op: OperationView,
    targets: Seq<TargetTables>,
    steps: Seq<StepPlanView>,
    id: IdentityView,
    authorizer: A,
    answers: Answers,
    mid: Forwarded,
    from: OperationView,
    back: Undone,
)
    requires
        op.steps.len() == steps.len(),
        from.steps == mid.0.steps,
        forward_facts(op, targets, steps, id, authorizer, answers, 0, mid),
        undo_facts(
            from,
            mid.1,
            steps,
            id,
            authorizer,
            answers,
            undo_list(mid.0.steps),
            back,
        ),
        names_steps(undo_list(mid.0.steps), op.steps.len() as int),
        forall|m: int|
            0 <= m < undo_list(mid.0.steps).len() ==> steps[(
            #[trigger] undo_list(mid.0.steps)[m]) as int].role is Compensate,
    ensures
        forall|t: int, r: Seq<char>| #[trigger]
            gained(targets, back.1, t, r) ==> gained_forward(
                op,
                mid.0,
                steps,
                targets,
                id,
                authorizer,
                answers,
                0,
                t,
                r,
            ) || gained_undoing(
                op,
                back.0,
                steps,
                targets,
                id,
                authorizer,
                answers,
                undo_list(mid.0.steps),
                t,
                r,
            ),
{
    let list = undo_list(mid.0.steps);
    assert forall|t: int, r: Seq<char>| #[trigger] gained(targets, back.1, t, r) implies
        gained_forward(op, mid.0, steps, targets, id, authorizer, answers, 0, t, r)
        || gained_undoing(op, back.0, steps, targets, id, authorizer, answers, list, t, r) by {
        assert(only_more(targets, mid.1)) by {
            reveal(forward_facts);
        }
        lemma_gained_on(targets, mid.1, back.1, t, r);
        if gained(targets, mid.1, t, r) {
            reveal(forward_facts);
        } else {
            assert(gained_undoing(
                from,
                back.0,
                steps,
                mid.1,
                id,
                authorizer,
                answers,
                list,
                t,
                r,
            )) by {
                reveal(undo_facts);
            }
            lemma_gained_back(
                op,
                from,
                back.0,
                steps,
                targets,
                mid.1,
                id,
                authorizer,
                answers,
                list,
                t,
                r,
                mid,
            );
        }
    }
}

proof fn lemma_gained_back<A: CommandAuthorizer>(
    op: OperationView,
    from: OperationView,
    after: OperationView,
    steps: Seq<StepPlanView>,
    targets: Seq<TargetTables>,
    targetsm: Seq<TargetTables>,
    id: IdentityView,
    authorizer: A,
    answers: Answers,
    list: Seq<usize>,
    t: int,
    r: Seq<char>,
    mid: Forwarded,
)
    requires
        op.steps.len() == steps.len(),
        from.steps == mid.0.steps,
        forward_facts(op, targets, steps, id, authorizer, answers, 0, mid),
        names_steps(list, op.steps.len() as int),
        forall|m: int|
            0 <= m < list.len() ==> steps[(#[trigger] list[m]) as int].role is Compensate,
        targetsm[t].store_key == targets[t].store_key,
        gained_undoing(
            from,
            after,
            steps,
            targetsm,
            id,
            authorizer,
            answers,
            list,
            t,
            r,
        ),
    ensures
        gained_undoing(op, after, steps, targets, id, authorizer, answers, list, t, r),
{
    assert forall|m: int| 0 <= m < list.len() implies from.steps[(#[trigger] list[m]) as int]
        == op.steps[list[m] as int] by {
        reveal(forward_facts);
        assert(steps[list[m] as int].role is Compensate);
        assert(mid.0.steps[list[m] as int] == op.steps[list[m] as int]);
    }
    reveal(gained_undoing);
    let m = choose|m: int|
        {
            let k = (#[trigger] list[m]) as int;
            &&& 0 <= m < list.len()
            &&& steps[k].step_id == r
            &&& from.steps[k].state is Pending
            &&& let_through(authorizer, id, steps[k], answers(k))
            &&& targetsm[t].store_key == steps[k].target.store_key()
            &&& forall|n: int|
                m < n < list.len() ==> after.steps[(#[trigger] list[n]) as int].state is Succeeded
        };
    assert(steps[list[m] as int].step_id == r);
}

/// What a run does to the steps and the stores, in one place for the laws below.
proof fn lemma_run<A: CommandAuthorizer>(
    op: OperationView,
    intents: Intents,
    targets: Seq<TargetTables>,
    plan: PlanView,
    authorizer: A,
    answers: Answers,
    effect_count: usize,
    fault: Option<OperationFaultPoint>,
    now: Seq<char>,
) -> (mid: Forwarded)
    requires
        op.wf(),
    ensures
        run_problem(op, intents, plan, effect_count) is None ==> {
            let run = run_view(op, intents, targets, plan, authorizer, answers, effect_count, fault, now);
            let id = identity_of(intents[op.record.command_id])->Ok_0;
            let list = undo_list(mid.0.steps);
            &&& mid == forwarded(
                op,
                targets,
                plan.steps,
                id,
                authorizer,
                answers,
                fault,
                now,
                0,
            )
            &&& op.steps.len() == plan.steps.len()
            &&& ids_differ(plan.steps)
            &&& forall|k: int|
                0 <= k < plan.steps.len() ==> (#[trigger] plan.steps[k]).role == op.steps[k].role
            &&& forward_facts(op, targets, plan.steps, id, authorizer, answers, 0, mid)
            &&& mid.0.wf()
            &&& mid.0.steps.len() == op.steps.len()
            &&& names_steps(list, op.steps.len() as int)
            &&& forall|m: int|
                0 <= m < list.len() ==> plan.steps[(#[trigger] list[m]) as int].role is Compensate
            &&& run_says(
                op,
                targets,
                plan.steps,
                id,
                authorizer,
                answers,
                mid,
                run.op,
                run.targets,
            )
        },
        run_problem(op, intents, plan, effect_count) is Some ==> {
            let run = run_view(op, intents, targets, plan, authorizer, answers, effect_count, fault, now);
            run.op == op && run.targets == targets && run.answer is Err
        },
{
    lemma_run_course(op, intents, targets, plan, authorizer, answers, effect_count, fault, now);
    let run = run_view(op, intents, targets, plan, authorizer, answers, effect_count, fault, now);
    let id = identity_of(intents[op.record.command_id])->Ok_0;
    let mid = forwarded(op, targets, plan.steps, id, authorizer, answers, fault, now, 0);
    if run_problem(op, intents, plan, effect_count) is None {
        let list = undo_list(mid.0.steps);
        let from = compensating(mid.0, now);
        lemma_roles_match(op.steps, plan.steps, 0);
        lemma_ids_differ(plan.steps, 0);
        lemma_forward(op, targets, plan.steps, id, authorizer, answers, fault, now, 0);
        assert(mid.0.wf() && mid.0.steps.len() == op.steps.len()) by {
            reveal(forward_facts);
        }
        lemma_undo_list_named(mid.0.steps);
        assert forall|m: int| 0 <= m < list.len() implies plan.steps[(
        #[trigger] list[m]) as int].role is Compensate by {
            reveal(forward_facts);
            assert(same_step(mid.0.steps[list[m] as int], op.steps[list[m] as int]));
            assert(plan.steps[list[m] as int].role == op.steps[list[m] as int].role);
        }
        lemma_undo(from, mid.1, plan.steps, id, authorizer, answers, fault, now, list);
        let back = undoing(from, mid.1, plan.steps, id, authorizer, answers, fault, now, list);
        if run.op.steps == mid.0.steps && run.targets == mid.1 {
            lemma_says_there(op, targets, plan.steps, id, authorizer, answers, mid);
            lemma_says_steps(
                op,
                targets,
                plan.steps,
                id,
                authorizer,
                answers,
                mid,
                mid.0,
                run.op,
                mid.1,
            );
        } else {
            lemma_says_back(op, targets, plan.steps, id, authorizer, answers, mid, from, back);
            lemma_says_steps(
                op,
                targets,
                plan.steps,
                id,
                authorizer,
                answers,
                mid,
                back.0,
                run.op,
                back.1,
            );
        }
    }
    mid
}

proof fn lemma_says_steps<A: CommandAuthorizer>(
    op: OperationView,
    targets: Seq<TargetTables>,
    steps: Seq<StepPlanView>,
    id: IdentityView,
    authorizer: A,
    answers: Answers,
    mid: Forwarded,
    after: OperationView,
    other: OperationView,
    targets1: Seq<TargetTables>,
)
    requires
        run_says(op, targets, steps, id, authorizer, answers, mid, after, targets1),
        other.steps == after.steps,
    ensures
        run_says(op, targets, steps, id, authorizer, answers, mid, other, targets1),
{
    reveal(run_says);
    reveal(gained_undoing);
}

/// Whether it is the turn of a step: of a forward step once all before it took effect, of an
/// undoing one once all that come first are done.
spec fn had_its_turn(
    steps: Seq<StepPlanView>,
    mid: Forwarded,
    after: OperationView,
    k: int,
) -> bool {
    let list = undo_list(mid.0.steps);
    &&& steps[k].role is Forward ==> forall|a: int|
        0 <= a < k && (#[trigger] steps[a]).role is Forward ==> after.steps[a].state is Succeeded
    &&& steps[k].role is Compensate ==> mid.2 is Ok && exists|m: int|
        0 <= m < list.len() && (#[trigger] list[m]) == k && forall|n: int|
            m < n < list.len() ==> after.steps[(#[trigger] list[n]) as int].state is Succeeded
}

/// Whose receipt it is that a run left.
proof fn lemma_whose_receipt<A: CommandAuthorizer>(
    op: OperationView,
    targets: Seq<TargetTables>,
    steps: Seq<StepPlanView>,
    id: IdentityView,
    authorizer: A,
    answers: Answers,
    mid: Forwarded,
    after: OperationView,
    targets1: Seq<TargetTables>,
    t: int,
    r: Seq<char>,
) -> (k: int)
    requires
        op.steps.len() == steps.len(),
        names_steps(undo_list(mid.0.steps), op.steps.len() as int),
        forall|m: int|
            0 <= m < undo_list(mid.0.steps).len() ==> steps[(
            #[trigger] undo_list(mid.0.steps)[m]) as int].role is Compensate,
        run_says(op, targets, steps, id, authorizer, answers, mid, after, targets1),
        gained(targets, targets1, t, r),
    ensures
        0 <= k < steps.len(),
        steps[k].step_id == r,
        op.steps[k].state is Pending,
        let_through(authorizer, id, steps[k], answers(k)),
        targets[t].store_key == steps[k].target.store_key(),
        had_its_turn(steps, mid, after, k),
{
    let list = undo_list(mid.0.steps);
    assert(gained_forward(op, mid.0, steps, targets, id, authorizer, answers, 0, t, r) || (mid.2
        is Ok && gained_undoing(
        op,
        after,
        steps,
        targets,
        id,
        authorizer,
        answers,
        list,
        t,
        r,
    ))) by {
        reveal(run_says);
    }
    if gained_forward(op, mid.0, steps, targets, id, authorizer, answers, 0, t, r) {
        assert forall|a: int| 0 <= a < steps.len() && (#[trigger] steps[a]).role is Forward implies
            after.steps[a] == mid.0.steps[a] by {
            reveal(run_says);
        }
        lemma_whose_forward(op, mid.0, after, steps, targets, id, authorizer, answers, t, r)
    } else {
        lemma_whose_undoing(op, after, steps, targets, id, authorizer, answers, list, t, r)
    }
}

proof fn lemma_whose_forward<A: CommandAuthorizer>(
    op: OperationView,
    middle: OperationView,
    after: OperationView,
    steps: Seq<StepPlanView>,
    targets: Seq<TargetTables>,
    id: IdentityView,
    authorizer: A,
    answers: Answers,
    t: int,
    r: Seq<char>,
) -> (k: int)
    requires
        gained_forward(op, middle, steps, targets, id, authorizer, answers, 0, t, r),
        forall|a: int|
            0 <= a < steps.len() && (#[trigger] steps[a]).role is Forward ==> after.steps[a]
                == middle.steps[a],
    ensures
        0 <= k < steps.len(),
        steps[k].step_id == r,
        steps[k].role is Forward,
        op.steps[k].state is Pending,
        let_through(authorizer, id, steps[k], answers(k)),
        targets[t].store_key == steps[k].target.store_key(),
        forall|a: int|
            0 <= a < k && (#[trigger] steps[a]).role is Forward ==> after.steps[a].state
                is Succeeded,
{
    reveal(gained_forward);
    choose|k: int|
        {
            &&& 0 <= k < steps.len()
            &&& (#[trigger] steps[k]).role is Forward
            &&& steps[k].step_id == r
            &&& op.steps[k].state is Pending
            &&& let_through(authorizer, id, steps[k], answers(k))
            &&& targets[t].store_key == steps[k].target.store_key()
            &&& forall|a: int|
                0 <= a < k && (#[trigger] steps[a]).role is Forward ==> middle.steps[a].state
                    is Succeeded
        }
}

proof fn lemma_whose_undoing<A: CommandAuthorizer>(
    op: OperationView,
    after: OperationView,
    steps: Seq<StepPlanView>,
    targets: Seq<TargetTables>,
    id: IdentityView,
    authorizer: A,
    answers: Answers,
    list: Seq<usize>,
    t: int,
    r: Seq<char>,
) -> (k: int)
    requires
        names_steps(list, steps.len() as int),
        forall|m: int|
            0 <= m < list.len() ==> steps[(#[trigger] list[m]) as int].role is Compensate,
        gained_undoing(op, after, steps, targets, id, authorizer, answers, list, t, r),
    ensures
        0 <= k < steps.len(),
        steps[k].step_id == r,
        steps[k].role is Compensate,
        op.steps[k].state is Pending,
        let_through(authorizer, id, steps[k], answers(k)),
        targets[t].store_key == steps[k].target.store_key(),
        exists|m: int|
            0 <= m < list.len() && (#[trigger] list[m]) == k && forall|n: int|
                m < n < list.len() ==> after.steps[(#[trigger] list[n]) as int].state is Succeeded,
{
    reveal(gained_undoing);
    let m = choose|m: int|
        {
            let k = (#[trigger] list[m]) as int;
            &&& 0 <= m < list.len()
            &&& steps[k].step_id == r
            &&& op.steps[k].state is Pending
            &&& let_through(authorizer, id, steps[k], answers(k))
            &&& targets[t].store_key == steps[k].target.store_key()
            &&& forall|n: int|
                m < n < list.len() ==> after.steps[(#[trigger] list[n]) as int].state is Succeeded
        };
    list[m] as int
}

/// A step that is refused stops the run: no later forward step is run, so it stands as it
/// did, and no store holds a receipt for it that it did not hold before.
pub proof fn law_a_refused_step_stops_the_run<A: CommandAuthorizer>(
    op: OperationView,
    intents: Intents,
    targets: Seq<TargetTables>,
    plan: PlanView,
    authorizer: A,
    answers: Answers,
    effect_count: usize,
    fault: Option<OperationFaultPoint>,
    now: Seq<char>,
    i: int,
    j: int,
)
    requires
        op.wf(),
        0 <= i < j < op.steps.len(),
        op.steps[i].role is Forward,
        op.steps[j].role is Forward,
        ({
            let run = run_view(op, intents, targets, plan, authorizer, answers, effect_count, fault, now);
            run.op.steps[i].state is Failed || run.op.steps[i].state is Revoked
        }),
    ensures
        ({
            let run = run_view(op, intents, targets, plan, authorizer, answers, effect_count, fault, now);
            &&& run.op.steps[j] == op.steps[j]
            &&& forall|t: int|
                0 <= t < targets.len() && run.targets[t].receipts.contains_key(
                    plan.steps[j].step_id,
                ) ==> (#[trigger] targets[t]).receipts.contains_key(plan.steps[j].step_id)
        }),
{
    let run = run_view(op, intents, targets, plan, authorizer, answers, effect_count, fault, now);
    let mid = lemma_run(op, intents, targets, plan, authorizer, answers, effect_count, fault, now);
    if run_problem(op, intents, plan, effect_count) is None {
        let steps = plan.steps;
        let r = steps[j].step_id;
        assert(steps[i].role is Forward && steps[j].role is Forward);
        assert(run.op.steps[j] == op.steps[j]) by {
            reveal(forward_facts);
            reveal(run_says);
            assert(mid.0.steps[i] == run.op.steps[i]);
            assert(mid.0.steps[j] == run.op.steps[j]);
        }
        assert forall|t: int|
            0 <= t < targets.len() && run.targets[t].receipts.contains_key(r) implies (
        #[trigger] targets[t]).receipts.contains_key(r) by {
            if !targets[t].receipts.contains_key(r) {
                assert(gained(targets, run.targets, t, r)) by {
                    reveal(gained);
                }
                let id = identity_of(intents[op.record.command_id])->Ok_0;
                let k = lemma_whose_receipt(
                    op,
                    targets,
                    steps,
                    id,
                    authorizer,
                    answers,
                    mid,
                    run.op,
                    run.targets,
                    t,
                    r,
                );
                assert(k == j) by {
                    if k < j {
                        assert(steps[k].step_id != steps[j].step_id);
                    } else if k > j {
                        assert(steps[j].step_id != steps[k].step_id);
                    }
                }
                assert(run.op.steps[i].state is Succeeded);
            }
        }
    }
}

/// Forward steps run in the order of the plan: whatever was run, or left a receipt, comes
/// behind forward steps that all took effect.
pub proof fn law_forward_steps_run_in_order<A: CommandAuthorizer>(
    op: OperationView,
    intents: Intents,
    targets: Seq<TargetTables>,
    plan: PlanView,
    authorizer: A,
    answers: Answers,
    effect_count: usize,
    fault: Option<OperationFaultPoint>,
    now: Seq<char>,
    i: int,
    j: int,
    t: int,
)
    requires
        op.wf(),
        0 <= i < j < op.steps.len(),
        op.steps[i].role is Forward,
        op.steps[j].role is Forward,
        0 <= t < targets.len(),
        ({
            let run = run_view(op, intents, targets, plan, authorizer, answers, effect_count, fault, now);
            run.op.steps[j] != op.steps[j] || (run.targets[t].receipts.contains_key(
                plan.steps[j].step_id,
            ) && !targets[t].receipts.contains_key(plan.steps[j].step_id))
        }),
    ensures
        run_view(op, intents, targets, plan, authorizer, answers, effect_count, fault, now).op.steps[i].state is Succeeded,
{
    let run = run_view(op, intents, targets, plan, authorizer, answers, effect_count, fault, now);
    let mid = lemma_run(op, intents, targets, plan, authorizer, answers, effect_count, fault, now);
    let steps = plan.steps;
    let r = steps[j].step_id;
    assert(steps[i].role is Forward && steps[j].role is Forward);
    if run.op.steps[j] != op.steps[j] {
        reveal(forward_facts);
        reveal(run_says);
        assert(mid.0.steps[i] == run.op.steps[i]);
        assert(mid.0.steps[j] == run.op.steps[j]);
    } else {
        assert(gained(targets, run.targets, t, r)) by {
            reveal(gained);
        }
        let id = identity_of(intents[op.record.command_id])->Ok_0;
        let k = lemma_whose_receipt(
            op,
            targets,
            steps,
            id,
            authorizer,
            answers,
            mid,
            run.op,
            run.targets,
            t,
            r,
        );
        assert(k == j) by {
            if k < j {
                assert(steps[k].step_id != steps[j].step_id);
            } else if k > j {
                assert(steps[j].step_id != steps[k].step_id);
            }
        }
    }
}

/// A run takes nothing away: every receipt and every event that a store had it still has, as
/// it was, and no step that had come to an end changes.
pub proof fn law_a_run_takes_nothing_away<A: CommandAuthorizer>(
    op: OperationView,
    intents: Intents,
    targets: Seq<TargetTables>,
    plan: PlanView,
    authorizer: A,
    answers: Answers,
    effect_count: usize,
    fault: Option<OperationFaultPoint>,
    now: Seq<char>,
    t: int,
    k: int,
)
    requires
        op.wf(),
        0 <= t < targets.len(),
        0 <= k < op.steps.len(),
    ensures
        ({
            let run = run_view(op, intents, targets, plan, authorizer, answers, effect_count, fault, now);
            &&& run.targets.len() == targets.len()
            &&& run.targets[t].store_key == targets[t].store_key
            &&& targets[t].outbox.is_prefix_of(run.targets[t].outbox)
            &&& forall|id: Seq<char>| #[trigger]
                targets[t].receipts.contains_key(id) ==> run.targets[t].receipts.contains_key(id)
                    && run.targets[t].receipts[id] == targets[t].receipts[id]
            &&& !(op.steps[k].state is Pending) ==> run.op.steps[k] == op.steps[k]
            &&& run.op.steps.len() == op.steps.len()
        }),
{
    let run = run_view(op, intents, targets, plan, authorizer, answers, effect_count, fault, now);
    let mid = lemma_run(op, intents, targets, plan, authorizer, answers, effect_count, fault, now);
    lemma_same(targets);
    reveal(only_more);
    reveal(run_says);
    assert(run.targets.len() == targets.len());
    assert(targets[t].store_key == run.targets[t].store_key);
}

/// A step leaves a receipt only where the sender of the operation is let in, what the step
/// expects is so, and its effect went through; and it leaves it in its own store.
pub proof fn law_a_step_acts_for_the_sender<A: CommandAuthorizer>(
    op: OperationView,
    intents: Intents,
    targets: Seq<TargetTables>,
    plan: PlanView,
    authorizer: A,
    answers: Answers,
    effect_count: usize,
    fault: Option<OperationFaultPoint>,
    now: Seq<char>,
    t: int,
    receipt: Seq<char>,
)
    requires
        op.wf(),
        0 <= t < targets.len(),
        run_view(op, intents, targets, plan, authorizer, answers, effect_count, fault, now).targets[t].receipts.contains_key(receipt),
        !targets[t].receipts.contains_key(receipt),
    ensures
        ({
            let intent = intents[op.record.command_id];
            exists|k: int|
                {
                    let s = #[trigger] plan.steps[k];
                    let asks = LeaseView {
                        principal: intent.principal,
                        client_id: intent.client_id,
                        controller_epoch: intent.controller_epoch as u64,
                        root_epoch: match intent.root_epoch {
                            Some(n) => Some(n as u64),
                            None => None,
                        },
                        command_type: s.command_type,
                        target: s.target,
                        expected: s.expected,
                    };
                    &&& 0 <= k < plan.steps.len()
                    &&& s.step_id == receipt
                    &&& op.steps[k].state is Pending
                    &&& authorizer.admission(asks) is Ok
                    &&& authorizer.expectation(asks) is Ok
                    &&& answers(k) is Ok
                    &&& targets[t].store_key == s.target.store_key()
                }
        }),
{
    let run = run_view(op, intents, targets, plan, authorizer, answers, effect_count, fault, now);
    let mid = lemma_run(op, intents, targets, plan, authorizer, answers, effect_count, fault, now);
    assert(gained(targets, run.targets, t, receipt)) by {
        reveal(gained);
    }
    let id = identity_of(intents[op.record.command_id])->Ok_0;
    let k = lemma_whose_receipt(
        op,
        targets,
        plan.steps,
        id,
        authorizer,
        answers,
        mid,
        run.op,
        run.targets,
        t,
        receipt,
    );
    reveal(let_through);
    assert(plan.steps[k].step_id == receipt);
}

/// A step that took effect in a run is proved by a receipt in its store: of this step, with
/// its meaning, and final.
pub proof fn law_an_effect_is_proved_by_a_receipt<A: CommandAuthorizer>(
    op: OperationView,
    intents: Intents,
    targets: Seq<TargetTables>,
    plan: PlanView,
    authorizer: A,
    answers: Answers,
    effect_count: usize,
    fault: Option<OperationFaultPoint>,
    now: Seq<char>,
    k: int,
)
    requires
        op.wf(),
        0 <= k < op.steps.len(),
        op.steps[k].state is Pending,
        run_view(op, intents, targets, plan, authorizer, answers, effect_count, fault, now).op.steps[k].state is Succeeded,
    ensures
        ({
            let run = run_view(op, intents, targets, plan, authorizer, answers, effect_count, fault, now);
            let s = plan.steps[k];
            exists|t: int|
                {
                    &&& 0 <= t < run.targets.len()
                    &&& (#[trigger] run.targets[t]).store_key == s.target.store_key()
                    &&& run.targets[t].receipts.contains_key(s.step_id)
                    &&& run.targets[t].receipts[s.step_id].semantic_digest == s.semantic_digest
                    &&& run.targets[t].receipts[s.step_id].aggregate_handle
                        == s.target.aggregate.handle
                    &&& run.targets[t].receipts[s.step_id].state == "applied"@
                    &&& run.targets[t].receipts[s.step_id].finalized_at is Some
                }
        }),
{
    let run = run_view(op, intents, targets, plan, authorizer, answers, effect_count, fault, now);
    let mid = lemma_run(op, intents, targets, plan, authorizer, answers, effect_count, fault, now);
    reveal(run_says);
    assert(holds_receipt(run.targets, plan.steps[k]));
    reveal(holds_receipt);
}

proof fn lemma_needed_has(steps: Seq<StepView>, n: int, g: int)
    requires
        forall|i: int| 0 <= i < steps.len() ==> (#[trigger] steps[i]).step_index == i,
        0 <= g < n <= steps.len(),
        steps[g].role is Forward,
        steps[g].state is Succeeded,
        open_of(steps, n).missing is None,
    ensures
        undone_by(steps, g as usize, 0) is Some,
        open_of(steps, n).needed.contains(undone_by(steps, g as usize, 0)->0 as usize),
    decreases n,
{
    lemma_found_undoes(steps, steps[n - 1].step_index, 0);
    let all = open_of(steps, n).needed;
    let before = open_of(steps, n - 1).needed;
    if g == n - 1 {
        let c = undone_by(steps, g as usize, 0)->0;
        assert(steps[c].step_index == c);
        assert(all.last() == c as usize);
        assert(all[all.len() - 1] == c as usize);
    } else {
        lemma_needed_has(steps, n - 1, g);
        let c = undone_by(steps, g as usize, 0)->0 as usize;
        let m = choose|m: int| 0 <= m < before.len() && before[m] == c;
        assert(all[m] == c);
    }
}

proof fn lemma_first_undoes(steps: Seq<StepView>, g: usize, d: int, from: int)
    requires
        0 <= from <= d < steps.len(),
        steps[d].role is Compensate,
        steps[d].compensates == Some(g),
        forall|e: int|
            from <= e < d ==> !((#[trigger] steps[e]).role is Compensate && steps[e].compensates
                == Some(g)),
    ensures
        undone_by(steps, g, from) == Some(d),
    decreases d - from,
{
    if from < d {
        lemma_first_undoes(steps, g, d, from + 1);
    }
}

/// Only what took effect is undone, and only where the goal was missed: a step that undoes
/// was run, or left a receipt, only where its forward step took effect and another forward
/// step did not. What took effect last is undone first: by then nothing that took effect
/// later still waits to be undone.
pub proof fn law_what_took_effect_last_is_undone_first<A: CommandAuthorizer>(
    op: OperationView,
    intents: Intents,
    targets: Seq<TargetTables>,
    plan: PlanView,
    authorizer: A,
    answers: Answers,
    effect_count: usize,
    fault: Option<OperationFaultPoint>,
    now: Seq<char>,
    c: int,
    t: int,
    g: int,
    d: int,
)
    requires
        op.wf(),
        0 <= c < op.steps.len(),
        op.steps[c].role is Compensate,
        0 <= t < targets.len(),
        ({
            let run = run_view(op, intents, targets, plan, authorizer, answers, effect_count, fault, now);
            run.op.steps[c] != op.steps[c] || (run.targets[t].receipts.contains_key(
                plan.steps[c].step_id,
            ) && !targets[t].receipts.contains_key(plan.steps[c].step_id))
        }),
    ensures
        ({
            let run = run_view(op, intents, targets, plan, authorizer, answers, effect_count, fault, now);
            &&& op.steps[c].compensates is Some
            &&& op.steps[c].compensates->0 < op.steps.len()
            &&& op.steps[op.steps[c].compensates->0 as int].role is Forward
            &&& run.op.steps[op.steps[c].compensates->0 as int].state is Succeeded
            &&& exists|x: int|
                0 <= x < op.steps.len() && op.steps[x].role is Forward && !((
                #[trigger] run.op.steps[x]).state is Succeeded)
            &&& 0 <= g < op.steps.len() && 0 <= d < op.steps.len() && g
                > op.steps[c].compensates->0 && op.steps[g].role is Forward
                && run.op.steps[g].state is Succeeded && op.steps[d].role is Compensate
                && op.steps[d].compensates == Some(g as usize) && (forall|e: int|
                0 <= e < d ==> !((#[trigger] op.steps[e]).role is Compensate
                    && op.steps[e].compensates == Some(g as usize))) ==> !(run.op.steps[d].state
                is Pending)
        }),
{
    let run = run_view(op, intents, targets, plan, authorizer, answers, effect_count, fault, now);
    let mid = lemma_run(op, intents, targets, plan, authorizer, answers, effect_count, fault, now);
    let steps = plan.steps;
    let list = undo_list(mid.0.steps);
    let r = steps[c].step_id;
    assert(steps[c].role is Compensate);
    let m = lemma_place_in_list(op, intents, targets, plan, authorizer, answers, effect_count, fault, now, mid, c, t);
    let ms = mid.0.steps;
    law_what_to_undo_is_in_order(ms);
    assert(same_step(ms[c], op.steps[c]) && forall|k: int|
        0 <= k < steps.len() ==> same_step(#[trigger] ms[k], op.steps[k])) by {
        reveal(forward_facts);
        assert(same_step(ms[c], op.steps[c]));
    }
    let f = op.steps[c].compensates->0 as int;
    assert(ms[list[m] as int].compensates is Some);
    assert(same_step(ms[f], op.steps[f]));
    assert(steps[f].role is Forward);
    assert(run.op.steps[f] == ms[f]) by {
        reveal(run_says);
    }
    let x = choose|x: int|
        0 <= x < ms.len() && (#[trigger] ms[x]).role is Forward && !(ms[x].state is Succeeded);
    assert(same_step(ms[x], op.steps[x]));
    assert(steps[x].role is Forward);
    assert(run.op.steps[x] == ms[x]) by {
        reveal(run_says);
    }
    if 0 <= g < op.steps.len() && 0 <= d < op.steps.len() && g > f && op.steps[g].role is Forward
        && run.op.steps[g].state is Succeeded && op.steps[d].role is Compensate
        && op.steps[d].compensates == Some(g as usize) && (forall|e: int|
        0 <= e < d ==> !((#[trigger] op.steps[e]).role is Compensate && op.steps[e].compensates
            == Some(g as usize))) {
        assert(same_step(ms[g], op.steps[g]) && same_step(ms[d], op.steps[d]));
        assert(steps[g].role is Forward);
        assert(run.op.steps[g] == ms[g]) by {
            reveal(run_says);
        }
        assert forall|e: int| 0 <= e < d implies !((#[trigger] ms[e]).role is Compensate
            && ms[e].compensates == Some(g as usize)) by {
            assert(same_step(ms[e], op.steps[e]));
        }
        lemma_first_undoes(ms, g as usize, d, 0);
        lemma_needed_has(ms, ms.len() as int, g);
        let needed = open_of(ms, ms.len() as int).needed;
        lemma_pending_listed(ms, needed);
        let q = choose|q: int| 0 <= q < needed.len() && needed[q] == d as usize;
        assert(steps[d].role is Compensate);
        assert(ms[d] == op.steps[d]) by {
            reveal(forward_facts);
        }
        if ms[needed[q] as int].state is Pending {
            assert(list.contains(d as usize));
            let n = choose|n: int| 0 <= n < list.len() && list[n] == d as usize;
            assert(m < n) by {
                if n < m {
                    assert(ms[list[n] as int].compensates->0 < ms[list[m] as int].compensates->0);
                } else if n == m {
                }
            }
            lemma_later_done(op, intents, targets, plan, authorizer, answers, effect_count, fault, now, mid, c, t, m, n);
        } else {
            assert(run.op.steps[d] == op.steps[d]) by {
                reveal(run_says);
            }
        }
    }
}

/// Where an undoing step that was run stands in the list of those to run.
proof fn lemma_place_in_list<A: CommandAuthorizer>(
    op: OperationView,
    intents: Intents,
    targets: Seq<TargetTables>,
    plan: PlanView,
    authorizer: A,
    answers: Answers,
    effect_count: usize,
    fault: Option<OperationFaultPoint>,
    now: Seq<char>,
    mid: Forwarded,
    c: int,
    t: int,
) -> (m: int)
    requires
        ran_back(op, intents, targets, plan, authorizer, answers, effect_count, fault, now, mid, c, t),
    ensures
        0 <= m < undo_list(mid.0.steps).len(),
        undo_list(mid.0.steps)[m] == c,
        mid.2 is Ok,
{
    let run = run_view(op, intents, targets, plan, authorizer, answers, effect_count, fault, now);
    let steps = plan.steps;
    let list = undo_list(mid.0.steps);
    let r = steps[c].step_id;
    if run.op.steps[c] != op.steps[c] {
        assert(mid.2 is Ok && list.contains(c as usize)) by {
            reveal(run_says);
        }
        choose|m: int| 0 <= m < list.len() && list[m] == c as usize
    } else {
        let k = lemma_which_back(op, intents, targets, plan, authorizer, answers, effect_count, fault, now, mid, c, t);
        choose|m: int| 0 <= m < list.len() && (#[trigger] list[m]) == c
    }
}

spec fn ran_back<A: CommandAuthorizer>(
    op: OperationView,
    intents: Intents,
    targets: Seq<TargetTables>,
    plan: PlanView,
    authorizer: A,
    answers: Answers,
    effect_count: usize,
    fault: Option<OperationFaultPoint>,
    now: Seq<char>,
    mid: Forwarded,
    c: int,
    t: int,
) -> bool {
    let run = run_view(op, intents, targets, plan, authorizer, answers, effect_count, fault, now);
    let id = identity_of(intents[op.record.command_id])->Ok_0;
    let list = undo_list(mid.0.steps);
    &&& 0 <= t < targets.len()
    &&& 0 <= c < plan.steps.len()
    &&& op.steps.len() == plan.steps.len()
    &&& plan.steps[c].role is Compensate
    &&& ids_differ(plan.steps)
    &&& names_steps(list, op.steps.len() as int)
    &&& forall|m: int|
        0 <= m < list.len() ==> plan.steps[(#[trigger] list[m]) as int].role is Compensate
    &&& run_says(op, targets, plan.steps, id, authorizer, answers, mid, run.op, run.targets)
    &&& run.op.steps[c] != op.steps[c] || (run.targets[t].receipts.contains_key(
        plan.steps[c].step_id,
    ) && !targets[t].receipts.contains_key(plan.steps[c].step_id))
}

proof fn lemma_which_back<A: CommandAuthorizer>(
    op: OperationView,
    intents: Intents,
    targets: Seq<TargetTables>,
    plan: PlanView,
    authorizer: A,
    answers: Answers,
    effect_count: usize,
    fault: Option<OperationFaultPoint>,
    now: Seq<char>,
    mid: Forwarded,
    c: int,
    t: int,
) -> (k: int)
    requires
        ran_back(op, intents, targets, plan, authorizer, answers, effect_count, fault, now, mid, c, t),
        run_view(op, intents, targets, plan, authorizer, answers, effect_count, fault, now).op.steps[c] == op.steps[c],
    ensures
        k == c,
        had_its_turn(
            plan.steps,
            mid,
            run_view(op, intents, targets, plan, authorizer, answers, effect_count, fault, now).op,
            c,
        ),
{
    let run = run_view(op, intents, targets, plan, authorizer, answers, effect_count, fault, now);
    let steps = plan.steps;
    let r = steps[c].step_id;
    assert(gained(targets, run.targets, t, r)) by {
        reveal(gained);
    }
    let id = identity_of(intents[op.record.command_id])->Ok_0;
    let k = lemma_whose_receipt(
        op,
        targets,
        steps,
        id,
        authorizer,
        answers,
        mid,
        run.op,
        run.targets,
        t,
        r,
    );
    assert(k == c) by {
        if k < c {
            assert(steps[k].step_id != steps[c].step_id);
        } else if k > c {
            assert(steps[c].step_id != steps[k].step_id);
        }
    }
    k
}

#[verifier::spinoff_prover]
proof fn lemma_later_done<A: CommandAuthorizer>(
    op: OperationView,
    intents: Intents,
    targets: Seq<TargetTables>,
    plan: PlanView,
    authorizer: A,
    answers: Answers,
    effect_count: usize,
    fault: Option<OperationFaultPoint>,
    now: Seq<char>,
    mid: Forwarded,
    c: int,
    t: int,
    m: int,
    n: int,
)
    requires
        ran_back(op, intents, targets, plan, authorizer, answers, effect_count, fault, now, mid, c, t),
        0 <= m < n < undo_list(mid.0.steps).len(),
        undo_list(mid.0.steps)[m] == c,
    ensures
        run_view(op, intents, targets, plan, authorizer, answers, effect_count, fault, now).op.steps[undo_list(mid.0.steps)[n] as int].state is Succeeded,
{
    let run = run_view(op, intents, targets, plan, authorizer, answers, effect_count, fault, now);
    let list = undo_list(mid.0.steps);
    if run.op.steps[c] != op.steps[c] {
        reveal(run_says);
        assert(run.op.steps[list[m] as int] != op.steps[list[m] as int]);
        assert(run.op.steps[list[n] as int].state is Succeeded);
    } else {
        let k = lemma_which_back(op, intents, targets, plan, authorizer, answers, effect_count, fault, now, mid, c, t);
        let q = choose|q: int|
            0 <= q < list.len() && (#[trigger] list[q]) == c && forall|z: int|
                q < z < list.len() ==> run.op.steps[(#[trigger] list[z]) as int].state
                    is Succeeded;
        assert(q == m) by {
            if q < m {
                assert(list[q] != list[m]);
            } else if m < q {
                assert(list[m] != list[q]);
            }
        }
        assert(run.op.steps[list[n] as int].state is Succeeded);
    }
}

/// Whether everything that took effect was undone, by the first step that undoes it.
pub open spec fn undone_in_full(steps: Seq<StepView>) -> bool {
    forall|k: int|
        0 <= k < steps.len() && (#[trigger] steps[k]).role is Forward && steps[k].state is Succeeded
            ==> exists|c: int|
            0 <= c < steps.len() && (#[trigger] steps[c]).role is Compensate && steps[c].compensates
                == Some(k as usize) && steps[c].state is Succeeded
}

proof fn lemma_undone_in_full(steps: Seq<StepView>)
    requires
        forall|i: int| 0 <= i < steps.len() ==> (#[trigger] steps[i]).step_index == i,
        open_of(steps, steps.len() as int).missing is None,
        forall|k: int|
            0 <= k < open_of(steps, steps.len() as int).needed.len() ==> steps[(
            #[trigger] open_of(steps, steps.len() as int).needed[k]) as int].state is Succeeded,
    ensures
        undone_in_full(steps),
{
    let n = steps.len() as int;
    let needed = open_of(steps, n).needed;
    assert forall|k: int|
        0 <= k < steps.len() && (#[trigger] steps[k]).role is Forward && steps[k].state
            is Succeeded implies exists|c: int|
        0 <= c < steps.len() && (#[trigger] steps[c]).role is Compensate && steps[c].compensates
            == Some(k as usize) && steps[c].state is Succeeded by {
        lemma_needed_has(steps, n, k);
        let c = undone_by(steps, k as usize, 0)->0;
        lemma_found_undoes(steps, k as usize, 0);
        lemma_found_role(steps, k as usize, 0);
        let m = choose|m: int| 0 <= m < needed.len() && needed[m] == c as usize;
        assert(steps[needed[m] as int].state is Succeeded);
        assert(steps[c].role is Compensate);
    }
}

proof fn lemma_found_role(steps: Seq<StepView>, g: usize, from: int)
    requires
        0 <= from,
    ensures
        undone_by(steps, g, from) matches Some(c) ==> 0 <= c < steps.len() && steps[c].role
            is Compensate,
    decreases steps.len() - from,
{
    if from < steps.len() {
        lemma_found_role(steps, g, from + 1);
    }
}

/// Done means done: a run answers that the task is done exactly where every forward step took
/// effect.
#[verifier::spinoff_prover]
pub proof fn law_done_means_that_every_step_took_effect<A: CommandAuthorizer>(
    op: OperationView,
    intents: Intents,
    targets: Seq<TargetTables>,
    plan: PlanView,
    authorizer: A,
    answers: Answers,
    effect_count: usize,
    fault: Option<OperationFaultPoint>,
    now: Seq<char>,
)
    requires
        op.wf(),
        run_view(op, intents, targets, plan, authorizer, answers, effect_count, fault, now).answer is Ok,
    ensures
        ({
            let run = run_view(op, intents, targets, plan, authorizer, answers, effect_count, fault, now);
            let steps = run.op.steps;
            run.answer == Ok::<EndView, OperationProblemView>(
                EndView::Completed { compensated: false },
            ) <==> forall|k: int|
                0 <= k < steps.len() && (#[trigger] steps[k]).role is Forward ==> steps[k].state
                    is Succeeded
        }),
{
    let run = run_view(op, intents, targets, plan, authorizer, answers, effect_count, fault, now);
    let mid = lemma_run(op, intents, targets, plan, authorizer, answers, effect_count, fault, now);
    let id = identity_of(intents[op.record.command_id])->Ok_0;
    let ms = mid.0.steps;
    assert(run.op.steps.len() == ms.len()) by {
        reveal(run_says);
    }
    assert forall|k: int| 0 <= k < ms.len() && (#[trigger] ms[k]).role is Forward implies run.op.steps[
    k] == ms[k] && run.op.steps[k].role is Forward by {
        reveal(forward_facts);
        reveal(run_says);
        assert(same_step(ms[k], op.steps[k]));
        assert(plan.steps[k].role is Forward);
    }
    assert forall|k: int| 0 <= k < ms.len() && run.op.steps[k].role is Forward implies (
    #[trigger] ms[k]).role is Forward by {
        reveal(forward_facts);
        reveal(run_says);
        assert(same_step(ms[k], op.steps[k]));
        assert(same_step(run.op.steps[k], op.steps[k]));
    }
    lemma_done(op, intents, targets, plan, authorizer, answers, effect_count, fault, now, mid);
    if all_forward_done(ms) {
        assert forall|k: int|
            0 <= k < run.op.steps.len() && (#[trigger] run.op.steps[k]).role is Forward implies run.op.steps[
        k].state is Succeeded by {
            assert(ms[k].role is Forward);
        }
    } else {
        let x = choose|x: int|
            0 <= x < ms.len() && (#[trigger] ms[x]).role is Forward && !(ms[x].state is Succeeded);
        assert(run.op.steps[x].role is Forward && !(run.op.steps[x].state is Succeeded));
    }
}

#[verifier::spinoff_prover]
proof fn lemma_done<A: CommandAuthorizer>(
    op: OperationView,
    intents: Intents,
    targets: Seq<TargetTables>,
    plan: PlanView,
    authorizer: A,
    answers: Answers,
    effect_count: usize,
    fault: Option<OperationFaultPoint>,
    now: Seq<char>,
    mid: Forwarded,
)
    requires
        run_problem(op, intents, plan, effect_count) is None,
        mid == forwarded(
            op,
            targets,
            plan.steps,
            identity_of(intents[op.record.command_id])->Ok_0,
            authorizer,
            answers,
            fault,
            now,
            0,
        ),
        run_view(op, intents, targets, plan, authorizer, answers, effect_count, fault, now).answer is Ok,
        run_view(op, intents, targets, plan, authorizer, answers, effect_count, fault, now).op.steps.len() == mid.0.steps.len(),
        forall|k: int|
            0 <= k < mid.0.steps.len() && (#[trigger] mid.0.steps[k]).role is Forward ==> run_view(
                op,
                intents,
                targets,
                plan,
                authorizer,
                answers,
                effect_count,
                fault,
                now,
            ).op.steps[k] == mid.0.steps[k],
    ensures
        run_view(op, intents, targets, plan, authorizer, answers, effect_count, fault, now).answer == Ok::<EndView, OperationProblemView>(
            EndView::Completed { compensated: false },
        ) <==> all_forward_done(mid.0.steps),
{
    reveal(forwarded);
    let run = run_view(op, intents, targets, plan, authorizer, answers, effect_count, fault, now);
    if !all_forward_done(mid.0.steps) {
        let x = choose|x: int|
            0 <= x < mid.0.steps.len() && (#[trigger] mid.0.steps[x]).role is Forward && !(
            mid.0.steps[x].state is Succeeded);
        assert(run.op.steps[x] == mid.0.steps[x]);
        assert(!all_forward_done(run.op.steps));
    }
}

/// Undone means undone: a run that answers so left a forward step without its effect, and
/// for each that took effect a step that undoes it took effect as well.
#[verifier::spinoff_prover]
pub proof fn law_undone_means_that_nothing_is_left<A: CommandAuthorizer>(
    op: OperationView,
    intents: Intents,
    targets: Seq<TargetTables>,
    plan: PlanView,
    authorizer: A,
    answers: Answers,
    effect_count: usize,
    fault: Option<OperationFaultPoint>,
    now: Seq<char>,
)
    requires
        op.wf(),
        run_view(op, intents, targets, plan, authorizer, answers, effect_count, fault, now).answer == Ok::<EndView, OperationProblemView>(
            EndView::Completed { compensated: true },
        ),
    ensures
        ({
            let steps = run_view(op, intents, targets, plan, authorizer, answers, effect_count, fault, now).op.steps;
            &&& undone_in_full(steps)
            &&& exists|x: int|
                0 <= x < steps.len() && (#[trigger] steps[x]).role is Forward && !(steps[x].state
                    is Succeeded)
        }),
{
    let run = run_view(op, intents, targets, plan, authorizer, answers, effect_count, fault, now);
    let mid = lemma_run(op, intents, targets, plan, authorizer, answers, effect_count, fault, now);
    assert(run.op.wf()) by {
        reveal(run_says);
        assert forall|k: int| 0 <= k < run.op.steps.len() implies (
        #[trigger] run.op.steps[k]).step_index == k by {
            assert(same_step(run.op.steps[k], op.steps[k]));
        }
    }
    lemma_undone_answer(op, intents, targets, plan, authorizer, answers, effect_count, fault, now);
    lemma_undone_in_full(run.op.steps);
    let steps = run.op.steps;
    let x = choose|x: int|
        0 <= x < steps.len() && (#[trigger] steps[x]).role is Forward && !(steps[x].state
            is Succeeded);
    assert(steps[x].role is Forward);
}

#[verifier::spinoff_prover]
proof fn lemma_undone_answer<A: CommandAuthorizer>(
    op: OperationView,
    intents: Intents,
    targets: Seq<TargetTables>,
    plan: PlanView,
    authorizer: A,
    answers: Answers,
    effect_count: usize,
    fault: Option<OperationFaultPoint>,
    now: Seq<char>,
)
    requires
        run_view(op, intents, targets, plan, authorizer, answers, effect_count, fault, now).answer == Ok::<EndView, OperationProblemView>(
            EndView::Completed { compensated: true },
        ),
    ensures
        ({
            let steps = run_view(op, intents, targets, plan, authorizer, answers, effect_count, fault, now).op.steps;
            let open = open_of(steps, steps.len() as int);
            &&& !all_forward_done(steps)
            &&& open.missing is None
            &&& forall|k: int|
                0 <= k < open.needed.len() ==> steps[(#[trigger] open.needed[k]) as int].state
                    is Succeeded
        }),
{
}

/// The end of a run is kept as it was answered: the operation is stored as ended, the command
/// counts as applied exactly where the task is done and as failed otherwise, and the record
/// says how many forward steps took effect.
#[verifier::spinoff_prover]
pub proof fn law_the_end_of_a_run_is_kept<A: CommandAuthorizer>(
    op: OperationView,
    intents: Intents,
    targets: Seq<TargetTables>,
    plan: PlanView,
    authorizer: A,
    answers: Answers,
    effect_count: usize,
    fault: Option<OperationFaultPoint>,
    now: Seq<char>,
)
    requires
        op.wf(),
        !op.record.state.terminal(),
        run_view(op, intents, targets, plan, authorizer, answers, effect_count, fault, now).answer is Ok,
    ensures
        ({
            let run = run_view(op, intents, targets, plan, authorizer, answers, effect_count, fault, now);
            let intent = run.intents[op.record.command_id];
            let done = run.answer == Ok::<EndView, OperationProblemView>(
                EndView::Completed { compensated: false },
            );
            &&& run.answer->Ok_0 is NeedsYou ==> run.op.record.state is NeedsYou
                && run.op.record.progress.problem is Some
                && run.op.record.progress.problem->0.code == run.answer->Ok_0->NeedsYou_problem_code
            &&& run.answer->Ok_0 is Completed ==> run.op.record.state is Completed
            &&& !(run.answer->Ok_0 is NotAccepted)
            &&& intents.contains_key(op.record.command_id)
            &&& intents[op.record.command_id].state is Reserved ==> (intent.state is Applied
                <==> done) && (intent.state is Failed <==> !done) && intent.resolved_at == Some(
                now,
            ) && intent.semantic_digest == intents[op.record.command_id].semantic_digest
            &&& forall|other: Seq<char>|
                other != op.record.command_id && #[trigger] intents.contains_key(other)
                    ==> run.intents.contains_key(other) && run.intents[other] == intents[other]
            &&& run.op.record.progress.forward_succeeded == run.op.steps.filter(
                |s: StepView| s.role is Forward && s.state is Succeeded,
            ).len() as usize
            &&& run.op.record.command_id == op.record.command_id
            &&& run.op.record.operation_handle == op.record.operation_handle
        }),
{
    let run = run_view(op, intents, targets, plan, authorizer, answers, effect_count, fault, now);
    let id = identity_of(intents[op.record.command_id])->Ok_0;
    let end = forward_view(op, targets, plan.steps, id, authorizer, answers, fault, now, 0);
    lemma_not_terminal(op, targets, plan.steps, id, authorizer, answers, fault, now, 0);
    lemma_not_terminal_back(
        compensating(end.0, now),
        end.1,
        plan.steps,
        id,
        authorizer,
        answers,
        fault,
        now,
        undo_list(end.0.steps),
    );
    lemma_count(run.op.steps);
}

proof fn lemma_count(steps: Seq<StepView>)
    ensures
        crate::operation::succeeded_count(steps) == steps.filter(
            |s: StepView| s.role is Forward && s.state is Succeeded,
        ).len(),
    decreases steps.len(),
{
    reveal(Seq::filter);
    if steps.len() > 0 {
        lemma_count(steps.drop_last());
    }
}

proof fn lemma_not_terminal<A: CommandAuthorizer>(
    op: OperationView,
    targets: Seq<TargetTables>,
    steps: Seq<StepPlanView>,
    id: IdentityView,
    authorizer: A,
    answers: Answers,
    fault: Option<OperationFaultPoint>,
    now: Seq<char>,
    i: int,
)
    requires
        !op.record.state.terminal(),
    ensures
        ({
            let record = forward_view(
                op,
                targets,
                steps,
                id,
                authorizer,
                answers,
                fault,
                now,
                i,
            ).0.record;
            !record.state.terminal() && record.command_id == op.record.command_id
                && record.operation_handle == op.record.operation_handle
        }),
    decreases steps.len() - i,
{
    if i < steps.len() {
        let (op1, targets1, _) = step_view(
            op,
            targets,
            i,
            steps[i],
            authorizer.admission(step_lease(id, steps[i])),
            authorizer.expectation(step_lease(id, steps[i])),
            answers(i),
            fault,
            now,
        );
        lemma_not_terminal(op, targets, steps, id, authorizer, answers, fault, now, i + 1);
        lemma_not_terminal(op1, targets1, steps, id, authorizer, answers, fault, now, i + 1);
    }
}

proof fn lemma_not_terminal_back<A: CommandAuthorizer>(
    op: OperationView,
    targets: Seq<TargetTables>,
    steps: Seq<StepPlanView>,
    id: IdentityView,
    authorizer: A,
    answers: Answers,
    fault: Option<OperationFaultPoint>,
    now: Seq<char>,
    list: Seq<usize>,
)
    requires
        !op.record.state.terminal(),
    ensures
        ({
            let record = compensate_view(
                op,
                targets,
                steps,
                id,
                authorizer,
                answers,
                fault,
                now,
                list,
            ).0.record;
            !record.state.terminal() && record.command_id == op.record.command_id
                && record.operation_handle == op.record.operation_handle
        }),
    decreases list.len(),
{
    if list.len() > 0 {
        let i = list.last() as int;
        let (op1, targets1, _) = step_view(
            op,
            targets,
            i,
            steps[i],
            authorizer.admission(step_lease(id, steps[i])),
            authorizer.expectation(step_lease(id, steps[i])),
            answers(i),
            fault,
            now,
        );
        lemma_not_terminal_back(
            op1,
            targets1,
            steps,
            id,
            authorizer,
            answers,
            fault,
            now,
            list.drop_last(),
        );
    }
}

/// What a step that is carried out leaves: the receipt holds what its effect said of the
/// revisions, and there is one more event, which says what was done, to what, by which
/// command and which step, and what clients are to see.
pub proof fn law_a_step_tells_what_its_effect_said(
    op: OperationView,
    targets: Seq<TargetTables>,
    index: int,
    s: StepPlanView,
    output: StepOutputView,
    now: Seq<char>,
    t: int,
)
    requires
        op.wf(),
        0 <= index < op.steps.len(),
        op.steps[index].state is Pending,
        0 <= t < targets.len(),
        !targets[t].receipts.contains_key(s.step_id),
        ({
            let after = step_view(
                op,
                targets,
                index,
                s,
                Ok(()),
                Ok(()),
                Ok(output),
                None,
                now,
            );
            after.1[t].receipts.contains_key(s.step_id)
        }),
    ensures
        ({
            let (op1, targets1, went) = step_view(
                op,
                targets,
                index,
                s,
                Ok(()),
                Ok(()),
                Ok(output),
                None,
                now,
            );
            let receipt = targets1[t].receipts[s.step_id];
            let told = targets1[t].outbox.last();
            &&& went == Ok::<StepExecution, OperationProblemView>(StepExecution::Succeeded)
            &&& op1.steps[index].state is Succeeded
            &&& receipt.result == sorted_view(output.result_revisions)
            &&& receipt.command_id == s.step_id
            &&& receipt.finalized_at == Some(now)
            &&& targets1[t].outbox.drop_last() == targets[t].outbox
            &&& told.published_at is None
            &&& field_of(told.event, "projection"@) == Some(sorted_view(output.projection))
            &&& field_of(told.event, "type"@) == Some(
                JsonView::Text(s.command_type.name() + ".applied"@),
            )
            &&& field_of(told.event, "caused_by_command_id"@) == Some(
                JsonView::Text(op.record.command_id),
            )
            &&& field_of(field_of(told.event, "aggregate"@)->0, "handle"@) == Some(
                JsonView::Text(s.target.aggregate.handle),
            )
            &&& field_of(field_of(told.event, "operation"@)->0, "step_id"@) == Some(
                JsonView::Text(s.step_id),
            )
            &&& field_of(field_of(told.event, "operation"@)->0, "handle"@) == Some(
                JsonView::Text(op.record.operation_handle),
            )
        }),
{
    lemma_target(targets, s.target.store_key(), 0);
    let e = step_event(op.record, index, s, output.projection);
    let f = e->Object_0;
    reveal_strlit("type");
    reveal_strlit("aggregate");
    reveal_strlit("caused_by_command_id");
    reveal_strlit("operation");
    reveal_strlit("projection");
    reveal_strlit("handle");
    reveal_strlit("step_index");
    reveal_strlit("step_id");
    reveal_strlit("role");
    assert("type"@.len() == 4 && "aggregate"@.len() == 9 && "caused_by_command_id"@.len() == 20
        && "operation"@.len() == 9 && "projection"@.len() == 10 && "handle"@.len() == 6
        && "step_index"@.len() == 10 && "step_id"@.len() == 7 && "role"@.len() == 4);
    assert("aggregate"@[0] != "operation"@[0]);
    assert(distinct_names(f));
    lemma_sorted_field(f, 0);
    lemma_sorted_field(f, 1);
    lemma_sorted_field(f, 2);
    lemma_sorted_field(f, 3);
    lemma_sorted_field(f, 4);
    lemma_sorted_aggregate(s.target.aggregate);
    let link = f[3].1->Object_0;
    assert(distinct_names(link));
    lemma_sorted_field(link, 0);
    lemma_sorted_field(link, 2);
}

/// An operation is run only as it was accepted: with as many effects as steps, under a plan
/// whose steps are the stored ones, and for a command that is on record. Else nothing
/// happens at all.
pub proof fn law_another_plan_is_not_run<A: CommandAuthorizer>(
    op: OperationView,
    intents: Intents,
    targets: Seq<TargetTables>,
    plan: PlanView,
    authorizer: A,
    answers: Answers,
    effect_count: usize,
    fault: Option<OperationFaultPoint>,
    now: Seq<char>,
)
    requires
        plan.steps.len() != op.steps.len() || effect_count != plan.steps.len()
            || !intents.contains_key(op.record.command_id) || exists|k: int|
            0 <= k < plan.steps.len() && ((#[trigger] plan.steps[k]).step_id != op.steps[k].step_id
                || plan.steps[k].role != op.steps[k].role || plan.steps[k].semantic_digest
                != op.steps[k].semantic_digest || plan.steps[k].target.aggregate.handle
                != op.steps[k].aggregate || plan.steps[k].target.store_key()
                != op.steps[k].target_store),
    ensures
        ({
            let run = run_view(op, intents, targets, plan, authorizer, answers, effect_count, fault, now);
            run.answer is Err && run.op == op && run.intents == intents && run.targets == targets
        }),
{
    if plan.steps.len() == op.steps.len() {
        if first_mismatch(op.steps, plan.steps, 0) is None {
            lemma_steps_match(op.steps, plan.steps, 0);
        }
    }
}

proof fn lemma_steps_match(stored: Seq<StepView>, steps: Seq<StepPlanView>, i: int)
    requires
        0 <= i,
        stored.len() == steps.len(),
        first_mismatch(stored, steps, i) is None,
    ensures
        forall|k: int|
            i <= k < steps.len() ==> (#[trigger] steps[k]).step_id == stored[k].step_id
                && steps[k].role == stored[k].role && steps[k].semantic_digest
                == stored[k].semantic_digest && steps[k].target.aggregate.handle
                == stored[k].aggregate && steps[k].target.store_key() == stored[k].target_store,
    decreases steps.len() - i,
{
    if i < steps.len() {
        lemma_steps_match(stored, steps, i + 1);
    }
}

} // verus!
