//! Cancellations that a restart finds under way: each is read back from where it was kept,
//! its agent runs are stopped, and it is finished, whoever holds the lease now.

use crate::command::{CommandProblem, EnvelopeView, ProblemView};
use crate::dispatch::{
    dispatch_runs_effect, dispatch_view, dispatched, AppliedView, CommandOutcome, EffectOutput,
    Intents, TargetTables,
};
use crate::handles::{outcome, AgentRunHandle, ProjectStoreHandle};
use crate::json::Json;
use crate::kernel::{
    delivered, held_back, let_in, kernel_result, let_through, opt_close, readable, Carrying,
    InProcessCoreKernel, KernelView,
};
use crate::problem::{kernel_of_command, KernelProblem, KernelProblemView};
use crate::project_rows::{ProjectRows, RowsView};
use crate::run_actions::RunActionDelivery;
use crate::run_command::WorkflowRunCommand;
use crate::run_dispatch::{
    drive_cancel_targets, outcome_of_stop, recovered, refused_after, stop_refused, stopped_as,
    thaw_cancel, thawed_cancel, CancelFenceTargetState, CloseView, FencedTarget, ProjectCloseToken,
};
use crate::run_effects::{stops_view, PreparedRunStop, RunStopOutcome, StopView};
use crate::undelivered::{lemma_never_closed_on, lemma_same_stores, never_closed};
use vstd::prelude::*;

verus! {

/// A cancellation that is under way, as it was kept when it began, and the agent runs
/// that it stops.
#[derive(Debug)]
pub struct CancelFence {
    pub command_id: String,
    pub task_id: i64,
    pub expected: Json,
    pub targets: Vec<FencedTarget>,
}

/// Whether a stop came out as the fence says or, where it has yet to happen, as it was
/// answered and recorded for that fence.
pub open spec fn stopped_in<
    C: Fn(usize, i64) -> Result<bool, CommandProblem>,
    S: Fn(usize, &AgentRunHandle) -> Option<RunStopOutcome>,
    W: Fn(usize, i64, RunStopOutcome) -> Result<(), CommandProblem>,
>(i: usize, target: FencedTarget, claim: C, stop: S, record: W, stopped: StopView) -> bool {
    &&& stopped.agent_run == target.run_handle@
    &&& match target.state {
        CancelFenceTargetState::Confirmed => stopped.outcome is Confirmed,
        CancelFenceTargetState::Unconfirmed => stopped.outcome is Unconfirmed,
        _ => {
            &&& target.state is Pending ==> claim.ensures((i, target.run_id), Ok(true))
            &&& exists|answer: Option<RunStopOutcome>|
                #[trigger] stop.ensures((i, &target.run_handle), answer) && stopped.outcome
                    == outcome_of_stop(answer)
            &&& exists|kept: Result<(), CommandProblem>|
                kept is Ok && #[trigger] record.ensures((i, target.run_id, stopped.outcome), kept)
        },
    }
}

/// Whether the stop of an agent run was refused, for that fence.
pub open spec fn refused_in<
    C: Fn(usize, i64) -> Result<bool, CommandProblem>,
    S: Fn(usize, &AgentRunHandle) -> Option<RunStopOutcome>,
    W: Fn(usize, i64, RunStopOutcome) -> Result<(), CommandProblem>,
>(i: usize, target: FencedTarget, claim: C, stop: S, record: W, p: KernelProblemView) -> bool {
    ||| target.state is Pending && p is CommandInProgress && claim.ensures(
        (i, target.run_id),
        Ok(false),
    )
    ||| target.state is Pending && exists|q: CommandProblem|
        #[trigger] claim.ensures((i, target.run_id), Err(q)) && p == kernel_of_command(q@)
    ||| {
        &&& target.state is Pending || target.state is Stopping
        &&& target.state is Pending ==> claim.ensures((i, target.run_id), Ok(true))
        &&& exists|answer: Option<RunStopOutcome>, q: CommandProblem|
            {
                &&& #[trigger] stop.ensures((i, &target.run_handle), answer)
                &&& #[trigger] record.ensures((i, target.run_id, outcome_of_stop(answer)), Err(q))
                &&& p == kernel_of_command(q@)
            }
    }
}

/// Whether agent runs behind a fence were stopped in order up to one whose stop was
/// refused.
pub open spec fn refused_after_in<
    C: Fn(usize, i64) -> Result<bool, CommandProblem>,
    S: Fn(usize, &AgentRunHandle) -> Option<RunStopOutcome>,
    W: Fn(usize, i64, RunStopOutcome) -> Result<(), CommandProblem>,
>(
    i: usize,
    targets: Seq<FencedTarget>,
    claim: C,
    stop: S,
    record: W,
    done: Seq<StopView>,
    p: KernelProblemView,
) -> bool {
    &&& done.len() < targets.len()
    &&& forall|k: int|
        0 <= k < done.len() ==> stopped_in(i, #[trigger] targets[k], claim, stop, record, done[k])
    &&& refused_in(i, targets[done.len() as int], claim, stop, record, p)
}

/// What holds between the agent runs behind a fence and what came of stopping them.
pub open spec fn driven_in<
    C: Fn(usize, i64) -> Result<bool, CommandProblem>,
    S: Fn(usize, &AgentRunHandle) -> Option<RunStopOutcome>,
    W: Fn(usize, i64, RunStopOutcome) -> Result<(), CommandProblem>,
>(
    i: usize,
    targets: Seq<FencedTarget>,
    claim: C,
    stop: S,
    record: W,
    driven: Result<Seq<StopView>, KernelProblemView>,
) -> bool {
    match driven {
        Ok(v) => v.len() == targets.len() && forall|k: int|
            0 <= k < targets.len() ==> stopped_in(
                i,
                #[trigger] targets[k],
                claim,
                stop,
                record,
                v[k],
            ),
        Err(p) => exists|done: Seq<StopView>| #[trigger]
            refused_after_in(i, targets, claim, stop, record, done, p),
    }
}

/// What came of stopping agent runs, as a value.
pub open spec fn driven_view(r: Result<Vec<PreparedRunStop>, KernelProblem>) -> Result<
    Seq<StopView>,
    KernelProblemView,
> {
    match r {
        Ok(v) => Ok(stops_view(v@)),
        Err(p) => Err(p@),
    }
}

/// Whether something was done, as a value.
pub open spec fn done_view(r: Result<CommandOutcome, KernelProblem>) -> Result<
    (),
    KernelProblemView,
> {
    match r {
        Ok(_) => Ok(()),
        Err(p) => Err(p@),
    }
}

/// What holds between a cancellation and its end in the store, with the effect of that
/// fence.
pub open spec fn dispatched_in<
    E: Fn(usize, &WorkflowRunCommand, &Vec<PreparedRunStop>) -> Result<
        EffectOutput,
        CommandProblem,
    >,
>(
    intents: Intents,
    t: TargetTables,
    e: EnvelopeView,
    digest: Result<Seq<char>, ProblemView>,
    admission: Result<(), ProblemView>,
    effect: E,
    i: usize,
    command: WorkflowRunCommand,
    run_stops: Vec<PreparedRunStop>,
    now: Seq<char>,
    done: (Intents, TargetTables, Result<AppliedView, ProblemView>),
) -> bool {
    if dispatch_runs_effect(intents, t, e, digest, admission, Ok(()), None, now) {
        exists|out: Result<EffectOutput, CommandProblem>|
            effect.ensures((i, &command, &run_stops), out) && done == #[trigger] dispatch_view(
                intents,
                t,
                e,
                digest,
                admission,
                Ok(()),
                Some(outcome(out)),
                None,
                now,
            )
    } else {
        done == dispatch_view(intents, t, e, digest, admission, Ok(()), None, None, now)
    }
}

/// What holds between a cancellation whose agent runs are stopped and its end.
pub open spec fn finished_in<
    E: Fn(usize, &WorkflowRunCommand, &Vec<PreparedRunStop>) -> Result<
        EffectOutput,
        CommandProblem,
    >,
>(
    k: KernelView,
    at: int,
    e: EnvelopeView,
    fence: CancelFence,
    rows: RowsView,
    effect: E,
    i: usize,
    command: WorkflowRunCommand,
    run_stops: Vec<PreparedRunStop>,
    now: Seq<char>,
    end: KernelView,
    answer: Result<(), KernelProblemView>,
) -> bool {
    exists|done: (Intents, TargetTables, Result<AppliedView, ProblemView>)|
        #[trigger] dispatched_in(
            k.intents,
            k.targets[at],
            e,
            e.digest(k.key),
            let_through(rows, fence.command_id@, fence.task_id),
            effect,
            i,
            command,
            run_stops,
            now,
            done,
        ) && end == k.carried(
            at,
            (Carrying { intents: done.0, target: done.1, journal: held_back(k.journal, done.1) }),
        ) && (match done.2 {
            Ok(_) => answer is Ok,
            Err(p) => answer == Err::<(), KernelProblemView>(kernel_of_command(p)),
        })
}

/// What holds between a cancellation that is under way and its end.
pub open spec fn recovered_in<
    C: Fn(usize, i64) -> Result<bool, CommandProblem>,
    S: Fn(usize, &AgentRunHandle) -> Option<RunStopOutcome>,
    W: Fn(usize, i64, RunStopOutcome) -> Result<(), CommandProblem>,
    E: Fn(usize, &WorkflowRunCommand, &Vec<PreparedRunStop>) -> Result<
        EffectOutput,
        CommandProblem,
    >,
>(
    k: KernelView,
    at: int,
    project: Seq<char>,
    i: usize,
    fence: CancelFence,
    rows: RowsView,
    claim: C,
    stop: S,
    record: W,
    effect: E,
    now: Seq<char>,
    end: KernelView,
    answer: Result<(), KernelProblemView>,
) -> bool {
    match thawed_cancel(project, fence.command_id@, fence.expected@) {
        Err(p) => end == k && answer == Err::<(), KernelProblemView>(p),
        Ok((id, c)) => exists|driven: Result<Seq<StopView>, KernelProblemView>|
            #[trigger] driven_in(i, fence.targets@, claim, stop, record, driven) && match driven {
                Err(p) => end == k && answer == Err::<(), KernelProblemView>(p),
                Ok(v) => match recovered(id, c) {
                    Err(p) => end == k && answer == Err::<(), KernelProblemView>(p),
                    Ok(e) => exists|command: WorkflowRunCommand, run_stops: Vec<PreparedRunStop>|
                        command@ == c && stops_view(run_stops@) == v && #[trigger] finished_in(
                            k,
                            at,
                            e,
                            fence,
                            rows,
                            effect,
                            i,
                            command,
                            run_stops,
                            now,
                            end,
                            answer,
                        ),
                },
            },
    }
}

/// Whether cancellations are finished along a path, in order, up to the first that cannot
/// be.
pub open spec fn recovered_along<
    C: Fn(usize, i64) -> Result<bool, CommandProblem>,
    S: Fn(usize, &AgentRunHandle) -> Option<RunStopOutcome>,
    W: Fn(usize, i64, RunStopOutcome) -> Result<(), CommandProblem>,
    E: Fn(usize, &WorkflowRunCommand, &Vec<PreparedRunStop>) -> Result<
        EffectOutput,
        CommandProblem,
    >,
>(
    path: Seq<KernelView>,
    answers: Seq<Result<(), KernelProblemView>>,
    at: int,
    project: Seq<char>,
    fences: Seq<CancelFence>,
    rows: RowsView,
    claim: C,
    stop: S,
    record: W,
    effect: E,
    now: Seq<char>,
    answer: Result<(), KernelProblemView>,
) -> bool {
    &&& path.len() == answers.len() + 1
    &&& answers.len() <= fences.len()
    &&& forall|i: int|
        0 <= i < answers.len() ==> recovered_in(
            path[i],
            at,
            project,
            i as usize,
            fences[i],
            rows,
            claim,
            stop,
            record,
            effect,
            now,
            path[i + 1],
            #[trigger] answers[i],
        )
    &&& forall|i: int| 0 <= i < answers.len() - 1 ==> (#[trigger] answers[i]) is Ok
    &&& match answer {
        Ok(_) => answers.len() == fences.len() && (fences.len() > 0 ==> answers.last() is Ok),
        Err(p) => answers.len() > 0 && answers.last() == Err::<(), KernelProblemView>(p),
    }
}

/// What holds between cancellations that are under way and their ends.
pub open spec fn all_recovered<
    C: Fn(usize, i64) -> Result<bool, CommandProblem>,
    S: Fn(usize, &AgentRunHandle) -> Option<RunStopOutcome>,
    W: Fn(usize, i64, RunStopOutcome) -> Result<(), CommandProblem>,
    E: Fn(usize, &WorkflowRunCommand, &Vec<PreparedRunStop>) -> Result<
        EffectOutput,
        CommandProblem,
    >,
>(
    k: KernelView,
    at: int,
    project: Seq<char>,
    fences: Seq<CancelFence>,
    rows: RowsView,
    claim: C,
    stop: S,
    record: W,
    effect: E,
    now: Seq<char>,
    end: KernelView,
    answer: Result<(), KernelProblemView>,
) -> bool {
    exists|path: Seq<KernelView>, answers: Seq<Result<(), KernelProblemView>>|
        #[trigger] recovered_along(
            path,
            answers,
            at,
            project,
            fences,
            rows,
            claim,
            stop,
            record,
            effect,
            now,
            answer,
        ) && path[0] == k && path.last() == end
}

/// Finishes one cancellation that is under way.
fn recover_one<
    C: Fn(usize, i64) -> Result<bool, CommandProblem>,
    S: Fn(usize, &AgentRunHandle) -> Option<RunStopOutcome>,
    W: Fn(usize, i64, RunStopOutcome) -> Result<(), CommandProblem>,
    E: Fn(usize, &WorkflowRunCommand, &Vec<PreparedRunStop>) -> Result<
        EffectOutput,
        CommandProblem,
    >,
>(
    kernel: &mut InProcessCoreKernel,
    at: usize,
    project: &ProjectStoreHandle,
    i: usize,
    fence: &CancelFence,
    rows: &ProjectRows,
    claim: &C,
    stop: &S,
    record: &W,
    effect: &E,
    now: &str,
) -> (r: Result<(), KernelProblem>)
    requires
        old(kernel).wf(),
        at < old(kernel)@.targets.len(),
        old(kernel)@.journal.poisoned.len() == 0,
        forall|id: i64| #[trigger] claim.requires((i, id)),
        forall|h: AgentRunHandle| #[trigger] stop.requires((i, &h)),
        forall|id: i64, o: RunStopOutcome| #[trigger] record.requires((i, id, o)),
        forall|c: WorkflowRunCommand, v: Vec<PreparedRunStop>| #[trigger]
            effect.requires((i, &c, &v)),
    ensures
        final(kernel).wf(),
        final(kernel)@.targets.len() == old(kernel)@.targets.len(),
        final(kernel)@.journal.poisoned.len() == 0,
        never_closed(old(kernel)@.targets, final(kernel)@.targets),
        recovered_in(
            old(kernel)@,
            at as int,
            project@,
            i,
            *fence,
            rows@,
            *claim,
            *stop,
            *record,
            *effect,
            now@,
            final(kernel)@,
            outcome(r),
        ),
{
    let ghost start = kernel@;
    proof {
        lemma_same_stores(start.targets);
    }
    let (id, command) = match thaw_cancel(project, fence.command_id.as_str(), &fence.expected) {
        Ok(pair) => pair,
        Err(p) => {
            return Err(p);
        },
    };
    let claim_one = |run_id: i64| -> (r: Result<bool, CommandProblem>)
        requires
            claim.requires((i, run_id)),
        ensures
            claim.ensures((i, run_id), r),
        { claim(i, run_id) };
    let stop_one = |run: &AgentRunHandle| -> (r: Option<RunStopOutcome>)
        requires
            stop.requires((i, run)),
        ensures
            stop.ensures((i, run), r),
        { stop(i, run) };
    let record_one = |run_id: i64, o: RunStopOutcome| -> (r: Result<(), CommandProblem>)
        requires
            record.requires((i, run_id, o)),
        ensures
            record.ensures((i, run_id, o), r),
        { record(i, run_id, o) };
    let driven: Result<Vec<PreparedRunStop>, KernelProblem> = drive_cancel_targets(
        &fence.targets,
        &claim_one,
        &stop_one,
        &record_one,
    );
    let ghost way = driven_view(driven);
    proof {
        if driven is Ok {
            let v = driven->Ok_0;
            assert forall|k: int| 0 <= k < fence.targets@.len() implies stopped_in(
                i,
                #[trigger] fence.targets@[k],
                *claim,
                *stop,
                *record,
                stops_view(v@)[k],
            ) by {
                let t = fence.targets@[k];
                let s = v@[k]@;
                assert(stopped_as(t, claim_one, stop_one, record_one, s));
                if t.state is Pending || t.state is Stopping {
                    let answer = choose|answer: Option<RunStopOutcome>|
                        #[trigger] stop_one.ensures((&t.run_handle,), answer) && s.outcome
                            == outcome_of_stop(answer);
                    assert(stop.ensures((i, &t.run_handle), answer));
                    let kept = choose|kept: Result<(), CommandProblem>|
                        kept is Ok && #[trigger] record_one.ensures((t.run_id, s.outcome), kept);
                    assert(record.ensures((i, t.run_id, s.outcome), kept));
                }
            }
        } else {
            let p = driven->Err_0;
            let ended = choose|ended: Seq<StopView>| #[trigger]
                refused_after(fence.targets@, claim_one, stop_one, record_one, ended, p@);
            assert forall|k: int| 0 <= k < ended.len() implies stopped_in(
                i,
                #[trigger] fence.targets@[k],
                *claim,
                *stop,
                *record,
                ended[k],
            ) by {
                let t = fence.targets@[k];
                let s = ended[k];
                assert(stopped_as(t, claim_one, stop_one, record_one, s));
                if t.state is Pending || t.state is Stopping {
                    let answer = choose|answer: Option<RunStopOutcome>|
                        #[trigger] stop_one.ensures((&t.run_handle,), answer) && s.outcome
                            == outcome_of_stop(answer);
                    assert(stop.ensures((i, &t.run_handle), answer));
                    let kept = choose|kept: Result<(), CommandProblem>|
                        kept is Ok && #[trigger] record_one.ensures((t.run_id, s.outcome), kept);
                    assert(record.ensures((i, t.run_id, s.outcome), kept));
                }
            }
            let t = fence.targets@[ended.len() as int];
            assert(stop_refused(t, claim_one, stop_one, record_one, p@));
            assert(refused_in(i, t, *claim, *stop, *record, p@)) by {
                if t.state is Pending && exists|q: CommandProblem|
                    #[trigger] claim_one.ensures((t.run_id,), Err(q)) && p@ == kernel_of_command(
                        q@,
                    ) {
                    let q = choose|q: CommandProblem|
                        #[trigger] claim_one.ensures((t.run_id,), Err(q)) && p@
                            == kernel_of_command(q@);
                    assert(claim.ensures((i, t.run_id), Err(q)));
                } else if exists|answer: Option<RunStopOutcome>, q: CommandProblem|
                    {
                        &&& #[trigger] stop_one.ensures((&t.run_handle,), answer)
                        &&& #[trigger] record_one.ensures(
                            (t.run_id, outcome_of_stop(answer)),
                            Err(q),
                        )
                        &&& p@ == kernel_of_command(q@)
                    } {
                    let (answer, q) = choose|answer: Option<RunStopOutcome>, q: CommandProblem|
                        {
                            &&& #[trigger] stop_one.ensures((&t.run_handle,), answer)
                            &&& #[trigger] record_one.ensures(
                                (t.run_id, outcome_of_stop(answer)),
                                Err(q),
                            )
                            &&& p@ == kernel_of_command(q@)
                        };
                    assert(stop.ensures((i, &t.run_handle), answer));
                    assert(record.ensures((i, t.run_id, outcome_of_stop(answer)), Err(q)));
                }
            }
            assert(refused_after_in(i, fence.targets@, *claim, *stop, *record, ended, p@));
        }
        assert(driven_in(i, fence.targets@, *claim, *stop, *record, way));
    }
    let run_stops: Vec<PreparedRunStop> = match driven {
        Ok(v) => v,
        Err(p) => {
            return Err(p);
        },
    };
    let effect_one = || -> (r: Result<EffectOutput, CommandProblem>)
        requires
            effect.requires((i, &command, &run_stops)),
        ensures
            effect.ensures((i, &command, &run_stops), r),
        { effect(i, &command, &run_stops) };
    let ghost asked = recovered(id@, command@);
    let done: Result<CommandOutcome, KernelProblem> = kernel.finish_cancel(
        at,
        id,
        &command,
        fence.command_id.as_str(),
        fence.task_id,
        rows,
        effect_one,
        now,
    );
    let ghost answer = done_view(done);
    proof {
        if let Ok(e) = asked {
            let end = choose|end: (Intents, TargetTables, Result<AppliedView, ProblemView>)|
                #[trigger] dispatched(
                    start.intents,
                    start.targets[at as int],
                    e,
                    e.digest(start.key),
                    let_through(rows@, fence.command_id@, fence.task_id),
                    Ok(()),
                    effect_one,
                    None,
                    now@,
                    end,
                ) && kernel@ == start.carried(
                    at as int,
                    (Carrying {
                        intents: end.0,
                        target: end.1,
                        journal: held_back(start.journal, end.1),
                    }),
                ) && kernel_result(done) == (match end.2 {
                    Ok(a) => Ok::<AppliedView, KernelProblemView>(a),
                    Err(p) => Err(kernel_of_command(p)),
                });
            assert(dispatched_in(
                start.intents,
                start.targets[at as int],
                e,
                e.digest(start.key),
                let_through(rows@, fence.command_id@, fence.task_id),
                *effect,
                i,
                command,
                run_stops,
                now@,
                end,
            ));
            assert(finished_in(
                start,
                at as int,
                e,
                *fence,
                rows@,
                *effect,
                i,
                command,
                run_stops,
                now@,
                kernel@,
                answer,
            ));
        }
        assert(driven_in(i, fence.targets@, *claim, *stop, *record, way));
    }
    match done {
        Ok(_) => {
            let r: Result<(), KernelProblem> = Ok(());
            assert(outcome(r) is Ok);
            r
        },
        Err(p) => Err(p),
    }
}

/// Finishes the cancellations of a project that are under way, in order, up to the first
/// that cannot be.
pub fn recover_cancel_fences<
    C: Fn(usize, i64) -> Result<bool, CommandProblem>,
    S: Fn(usize, &AgentRunHandle) -> Option<RunStopOutcome>,
    W: Fn(usize, i64, RunStopOutcome) -> Result<(), CommandProblem>,
    E: Fn(usize, &WorkflowRunCommand, &Vec<PreparedRunStop>) -> Result<
        EffectOutput,
        CommandProblem,
    >,
>(
    kernel: &mut InProcessCoreKernel,
    at: usize,
    project: &ProjectStoreHandle,
    fences: &Vec<CancelFence>,
    rows: &ProjectRows,
    claim: &C,
    stop: &S,
    record: &W,
    effect: &E,
    now: &str,
) -> (r: Result<(), KernelProblem>)
    requires
        old(kernel).wf(),
        at < old(kernel)@.targets.len(),
        old(kernel)@.journal.poisoned.len() == 0,
        forall|i: usize, id: i64| #[trigger] claim.requires((i, id)),
        forall|i: usize, h: AgentRunHandle| #[trigger] stop.requires((i, &h)),
        forall|i: usize, id: i64, o: RunStopOutcome| #[trigger] record.requires((i, id, o)),
        forall|i: usize, c: WorkflowRunCommand, v: Vec<PreparedRunStop>| #[trigger]
            effect.requires((i, &c, &v)),
    ensures
        final(kernel).wf(),
        final(kernel)@.targets.len() == old(kernel)@.targets.len(),
        final(kernel)@.journal.poisoned.len() == 0,
        never_closed(old(kernel)@.targets, final(kernel)@.targets),
        all_recovered(
            old(kernel)@,
            at as int,
            project@,
            fences@,
            rows@,
            *claim,
            *stop,
            *record,
            *effect,
            now@,
            final(kernel)@,
            outcome(r),
        ),
{
    let ghost start = kernel@;
    proof {
        lemma_same_stores(start.targets);
    }
    let ghost mut path: Seq<KernelView> = seq![start];
    let ghost mut answers: Seq<Result<(), KernelProblemView>> = seq![];
    let mut i: usize = 0;
    while i < fences.len()
        invariant
            i <= fences@.len(),
            kernel.wf(),
            start == old(kernel)@,
            at < kernel@.targets.len(),
            kernel@.targets.len() == start.targets.len(),
            kernel@.journal.poisoned.len() == 0,
            never_closed(start.targets, kernel@.targets),
            forall|i: usize, id: i64| #[trigger] claim.requires((i, id)),
            forall|i: usize, h: AgentRunHandle| #[trigger] stop.requires((i, &h)),
            forall|i: usize, id: i64, o: RunStopOutcome| #[trigger] record.requires((i, id, o)),
            forall|i: usize, c: WorkflowRunCommand, v: Vec<PreparedRunStop>| #[trigger]
                effect.requires((i, &c, &v)),
            path.len() == i + 1,
            answers.len() == i,
            path[0] == start,
            path.last() == kernel@,
            forall|k: int|
                0 <= k < i ==> recovered_in(
                    path[k],
                    at as int,
                    project@,
                    k as usize,
                    fences@[k],
                    rows@,
                    *claim,
                    *stop,
                    *record,
                    *effect,
                    now@,
                    path[k + 1],
                    #[trigger] answers[k],
                ),
            forall|k: int| 0 <= k < i ==> (#[trigger] answers[k]) is Ok,
        decreases fences@.len() - i,
    {
        let ghost was = kernel@;
        let done: Result<(), KernelProblem> = recover_one(
            kernel,
            at,
            project,
            i,
            &fences[i],
            rows,
            claim,
            stop,
            record,
            effect,
            now,
        );
        proof {
            lemma_never_closed_on(start.targets, was.targets, kernel@.targets);
            let before = path;
            let said = answers;
            path = path.push(kernel@);
            answers = answers.push(outcome(done));
            assert forall|k: int| 0 <= k < answers.len() implies recovered_in(
                path[k],
                at as int,
                project@,
                k as usize,
                fences@[k],
                rows@,
                *claim,
                *stop,
                *record,
                *effect,
                now@,
                path[k + 1],
                #[trigger] answers[k],
            ) by {
                if k < said.len() {
                    assert(answers[k] == said[k]);
                    assert(path[k] == before[k] && path[k + 1] == before[k + 1]);
                } else {
                    assert(path[k] == before.last());
                }
            }
        }
        match done {
            Ok(_) => {},
            Err(p) => {
                assert(recovered_along(
                    path,
                    answers,
                    at as int,
                    project@,
                    fences@,
                    rows@,
                    *claim,
                    *stop,
                    *record,
                    *effect,
                    now@,
                    Err::<(), KernelProblemView>(p@),
                ));
                return Err(p);
            },
        }
        i = i + 1;
    }
    let r: Result<(), KernelProblem> = Ok(());
    assert(recovered_along(
        path,
        answers,
        at as int,
        project@,
        fences@,
        rows@,
        *claim,
        *stop,
        *record,
        *effect,
        now@,
        outcome(r),
    ));
    r
}

/// What holds between a project whose runs are brought up and the kernel that takes
/// commands on them: the cancellations that are under way are finished, what its store
/// leaves to do is done, and what it has to tell is told.
pub open spec fn runs_brought_up<
    C: Fn(usize, i64) -> Result<bool, CommandProblem>,
    S: Fn(usize, &AgentRunHandle) -> Option<RunStopOutcome>,
    W: Fn(usize, i64, RunStopOutcome) -> Result<(), CommandProblem>,
    E: Fn(usize, &WorkflowRunCommand, &Vec<PreparedRunStop>) -> Result<
        EffectOutput,
        CommandProblem,
    >,
    D: Fn(&RunActionDelivery) -> Result<(), KernelProblem>,
    M: FnOnce() -> bool,
    R: FnOnce() -> bool,
>(
    k: KernelView,
    project: Seq<char>,
    close: Option<CloseView>,
    closed: Seq<bool>,
    fences: Seq<CancelFence>,
    rows: RowsView,
    claim: C,
    stop: S,
    record: W,
    effect: E,
    deliver: D,
    now: Seq<char>,
    nanos: u64,
    mark: M,
    reconcile: R,
    end: KernelView,
    answer: Result<(), KernelProblemView>,
) -> bool {
    let (ready, gate) = let_in(k, closed, now);
    match (readable(k.projects, project, close), gate) {
        (Err(p), _) => end == k && answer == Err::<(), KernelProblemView>(p),
        (Ok(_), Err(p)) => end == ready && answer == Err::<(), KernelProblemView>(p),
        (Ok(at), Ok(_)) => exists|mid: KernelView, first: Result<(), KernelProblemView>|
            #[trigger] all_recovered(
                ready,
                at,
                project,
                fences,
                rows,
                claim,
                stop,
                record,
                effect,
                now,
                mid,
                first,
            ) && match first {
                Err(p) => end == mid && answer == Err::<(), KernelProblemView>(p),
                Ok(_) => delivered(mid, at, deliver, now, nanos, mark, reconcile, end, answer),
            },
    }
}

impl InProcessCoreKernel {
    /// Brings the runs of a project up: nothing that was under way is left when it takes
    /// its first command on a run.
    pub fn register_run_lifecycle_port<
        C: Fn(usize, i64) -> Result<bool, CommandProblem>,
        S: Fn(usize, &AgentRunHandle) -> Option<RunStopOutcome>,
        W: Fn(usize, i64, RunStopOutcome) -> Result<(), CommandProblem>,
        E: Fn(usize, &WorkflowRunCommand, &Vec<PreparedRunStop>) -> Result<
            EffectOutput,
            CommandProblem,
        >,
        D: Fn(&RunActionDelivery) -> Result<(), KernelProblem>,
        M: FnOnce() -> bool,
        R: FnOnce() -> bool,
    >(
        &mut self,
        project: &ProjectStoreHandle,
        close: Option<&ProjectCloseToken>,
        closed: &Vec<bool>,
        fences: &Vec<CancelFence>,
        rows: &ProjectRows,
        claim: &C,
        stop: &S,
        record: &W,
        effect: &E,
        deliver: &D,
        now: &str,
        nanos: u64,
        mark: M,
        reconcile: R,
    ) -> (r: Result<(), KernelProblem>)
        requires
            old(self).wf(),
            closed@.len() == old(self)@.projects.len(),
            forall|i: usize, id: i64| #[trigger] claim.requires((i, id)),
            forall|i: usize, h: AgentRunHandle| #[trigger] stop.requires((i, &h)),
            forall|i: usize, id: i64, o: RunStopOutcome| #[trigger] record.requires((i, id, o)),
            forall|i: usize, c: WorkflowRunCommand, v: Vec<PreparedRunStop>| #[trigger]
                effect.requires((i, &c, &v)),
            forall|d: RunActionDelivery| #[trigger] deliver.requires((&d,)),
            mark.requires(()),
            reconcile.requires(()),
        ensures
            final(self).wf(),
            never_closed(old(self)@.targets, final(self)@.targets),
            runs_brought_up(
                old(self)@,
                project@,
                opt_close(close),
                closed@,
                fences@,
                rows@,
                *claim,
                *stop,
                *record,
                *effect,
                *deliver,
                now@,
                nanos,
                mark,
                reconcile,
                final(self)@,
                outcome(r),
            ),
    {
        let at: usize = match self.ready_project(project, close, closed, now) {
            Ok(at) => at,
            Err(p) => {
                return Err(p);
            },
        };
        let ghost ready = self@;
        let first: Result<(), KernelProblem> = recover_cancel_fences(
            self,
            at,
            project,
            fences,
            rows,
            claim,
            stop,
            record,
            effect,
            now,
        );
        let ghost mid = self@;
        let ghost said = outcome(first);
        proof {
            lemma_never_closed_on(old(self)@.targets, ready.targets, mid.targets);
        }
        assert(all_recovered(
            ready,
            at as int,
            project@,
            fences@,
            rows@,
            *claim,
            *stop,
            *record,
            *effect,
            now@,
            mid,
            said,
        ));
        match first {
            Err(p) => {
                assert(said == Err::<(), KernelProblemView>(p@));
                Err(p)
            },
            Ok(_) => {
                assert(said is Ok);
                let r: Result<(), KernelProblem> = self.deliver(
                    at,
                    deliver,
                    now,
                    nanos,
                    mark,
                    reconcile,
                );
                proof {
                    lemma_never_closed_on(old(self)@.targets, mid.targets, self@.targets);
                }
                r
            },
        }
    }
}

} // verus!
