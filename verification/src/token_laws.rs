//! What holds of every token of an agent run: what it stands for, how it ends, and what an
//! agent can do with it.

use crate::json::{distinct_names, field_of, JsonView};
use crate::project_registry::{
    ended_project, ended_token, pair_at, register_view, resolved, status_of, token_at, CapView,
    CapabilityView, ProjectView, RegistrationView, ResolutionView, RunCapabilityState, StoreView,
};
use crate::project_rows::{
    agent_run_by_handle, step_by_id, task_by_id, AgentRunView, RowsView, RunStepView, TaskView,
};
use crate::publication::lemma_field_at;
use crate::run_control::{
    authority_view, begun_control, control_refusal, located, run_refusal, HitView, LocationView,
    TokenProblemView,
};
use crate::run_effects::ControlView;
use vstd::prelude::*;
use vstd::string::*;

verus! {

proof fn lemma_token_at(caps: Seq<CapView>, token: Seq<char>, from: int)
    requires
        0 <= from,
    ensures
        match token_at(caps, token, from) {
            Some(i) => from <= i < caps.len() && caps[i].token_hmac == token && forall|k: int|
                from <= k < i ==> (#[trigger] caps[k]).token_hmac != token,
            None => forall|k: int|
                from <= k < caps.len() ==> (#[trigger] caps[k]).token_hmac != token,
        },
    decreases caps.len() - from,
{
    if from < caps.len() && caps[from].token_hmac != token {
        lemma_token_at(caps, token, from + 1);
    }
}

proof fn lemma_pair_at(caps: Seq<CapView>, project: Seq<char>, run: Seq<char>, from: int)
    requires
        0 <= from,
    ensures
        match pair_at(caps, project, run, from) {
            Some(i) => from <= i < caps.len() && caps[i].capability.project == project
                && caps[i].capability.agent_run == run,
            None => forall|k: int|
                from <= k < caps.len() ==> (#[trigger] caps[k]).capability.project != project
                    || caps[k].capability.agent_run != run,
        },
    decreases caps.len() - from,
{
    if from < caps.len() && !(caps[from].capability.project == project
        && caps[from].capability.agent_run == run) {
        lemma_pair_at(caps, project, run, from + 1);
    }
}

proof fn lemma_status(projects: Seq<ProjectView>, handle: Seq<char>, from: int)
    requires
        0 <= from,
    ensures
        match status_of(projects, handle, from) {
            Some(status) => exists|i: int|
                from <= i < projects.len() && (#[trigger] projects[i]).project_handle == handle
                    && projects[i].status == status,
            None => forall|i: int|
                from <= i < projects.len() ==> (#[trigger] projects[i]).project_handle != handle,
        },
    decreases projects.len() - from,
{
    if from < projects.len() && projects[from].project_handle != handle {
        lemma_status(projects, handle, from + 1);
    }
}

/// A token resolves to a row under that token, and to no row that is in doubt.
pub proof fn law_a_token_resolves_to_its_own_row(caps: Seq<CapView>, token: Seq<char>)
    ensures
        match resolved(caps, token) {
            ResolutionView::Zero => forall|i: int|
                0 <= i < caps.len() ==> (#[trigger] caps[i]).token_hmac != token,
            ResolutionView::One(c) => exists|i: int|
                0 <= i < caps.len() && (#[trigger] caps[i]).token_hmac == token
                    && caps[i].capability == c && !(c.state is Quarantined),
            ResolutionView::Many => exists|i: int|
                0 <= i < caps.len() && (#[trigger] caps[i]).token_hmac == token
                    && caps[i].capability.state is Quarantined,
        },
{
    lemma_token_at(caps, token, 0);
    if let Some(i) = token_at(caps, token, 0) {
        assert(caps[i].token_hmac == token);
    }
}

/// A token that is registered stands for the run that it was registered for, in a project
/// that takes work, and can be used at once; no other row changes. A project that does not
/// take work gets no token.
pub proof fn law_a_token_stands_for_its_run(
    s: StoreView,
    token: Seq<char>,
    project: Seq<char>,
    run: Seq<char>,
    now: Seq<char>,
)
    ensures
        ({
            let (after, answer) = register_view(s, token, project, run, now);
            &&& answer matches Ok(RegistrationView::Registered(c)) ==> {
                &&& c.project == project
                &&& c.agent_run == run
                &&& !(c.state is Quarantined)
                &&& resolved(after.capabilities, token) == ResolutionView::One(c)
                &&& after == s || {
                    &&& after.capabilities.len() == s.capabilities.len() + 1
                    &&& after.capabilities.drop_last() == s.capabilities
                    &&& after.capabilities.last().token_hmac == token
                    &&& after.capabilities.last().capability == c
                    &&& c.state is Active
                    &&& c.issued_at == now
                    &&& c.revoked_at is None
                }
            }
            &&& answer is Ok ==> exists|i: int|
                0 <= i < s.projects.len() && (#[trigger] s.projects[i]).project_handle == project
                    && s.projects[i].status is Registered
            &&& answer is Err ==> after == s && forall|i: int|
                0 <= i < s.projects.len() && (#[trigger] s.projects[i]).project_handle == project
                    && s.projects[i].status is Registered ==> exists|k: int|
                    0 <= k < i && (#[trigger] s.projects[k]).project_handle == project
            &&& answer is Ok ==> after.projects == s.projects && after.markers == s.markers
        }),
{
    let caps = s.capabilities;
    let (after, answer) = register_view(s, token, project, run, now);
    lemma_status(s.projects, project, 0);
    lemma_token_at(caps, token, 0);
    lemma_pair_at(caps, project, run, 0);
    lemma_first(s.projects, project, 0);
    if answer matches Ok(RegistrationView::Registered(c)) && after != s {
        assert(after.capabilities.drop_last() =~= caps);
        lemma_token_at(after.capabilities, token, 0);
        let last = after.capabilities.len() - 1;
        assert(after.capabilities[last].token_hmac == token);
        let i = token_at(after.capabilities, token, 0)->0;
        if i < last {
            assert(caps[i].token_hmac == token);
        }
    }
}

proof fn lemma_first(projects: Seq<ProjectView>, handle: Seq<char>, from: int)
    requires
        0 <= from,
    ensures
        forall|i: int|
            from <= i < projects.len() && (#[trigger] projects[i]).project_handle == handle
                && Some(projects[i].status) != status_of(projects, handle, from) ==> exists|k: int|
                from <= k < i && (#[trigger] projects[k]).project_handle == handle,
    decreases projects.len() - from,
{
    if from < projects.len() && projects[from].project_handle != handle {
        lemma_first(projects, handle, from + 1);
    } else if from < projects.len() {
        assert(projects[from].project_handle == handle);
    }
}

/// The end of a token changes the good rows under that token, to that end and at that moment;
/// what they stand for stays, and every other row does.
pub proof fn law_the_end_of_a_token_changes_nothing_else(
    caps: Seq<CapView>,
    token: Seq<char>,
    end: RunCapabilityState,
    now: Seq<char>,
    i: int,
)
    requires
        0 <= i < caps.len(),
    ensures
        ended_token(caps, token, end, now).len() == caps.len(),
        ({
            let was = caps[i];
            let is = ended_token(caps, token, end, now)[i];
            &&& was.token_hmac != token || !(was.capability.state is Active) ==> is == was
            &&& was.token_hmac == token && was.capability.state is Active ==> {
                &&& is.token_hmac == token
                &&& is.capability.state == end
                &&& is.capability.revoked_at == Some(now)
                &&& is.capability.project == was.capability.project
                &&& is.capability.agent_run == was.capability.agent_run
                &&& is.capability.issued_at == was.capability.issued_at
            }
        }),
{
}

/// The end of a project revokes its good tokens and no other.
pub proof fn law_the_end_of_a_project_revokes_its_tokens(
    caps: Seq<CapView>,
    project: Seq<char>,
    now: Seq<char>,
    i: int,
)
    requires
        0 <= i < caps.len(),
    ensures
        ended_project(caps, project, now).len() == caps.len(),
        ({
            let was = caps[i];
            let is = ended_project(caps, project, now)[i];
            &&& was.capability.project != project || !(was.capability.state is Active) ==> is == was
            &&& was.capability.project == project && was.capability.state is Active ==> {
                &&& is.token_hmac == was.token_hmac
                &&& is.capability.state is Revoked
                &&& is.capability.revoked_at == Some(now)
                &&& is.capability.project == project
                &&& is.capability.agent_run == was.capability.agent_run
                &&& is.capability.issued_at == was.capability.issued_at
            }
        }),
{
}

/// What a token is let in for is what it stands for: a row under it that is not in doubt, or
/// the only run that carries it.
pub proof fn law_a_token_is_let_in_for_what_it_stands_for(
    s: StoreView,
    code: Seq<char>,
    hits: Seq<HitView>,
    now: Seq<char>,
)
    requires
        authority_view(s, code, hits, now).1 is Ok,
    ensures
        ({
            let (after, answer) = authority_view(s, code, hits, now);
            let c = answer->Ok_0;
            &&& !(c.state is Quarantined)
            &&& hits.len() <= 1
            &&& hits.len() == 1 ==> c.project == hits[0].project && c.agent_run
                == hits[0].agent_run
            &&& hits.len() == 0 ==> after == s && exists|i: int|
                0 <= i < s.capabilities.len() && (#[trigger] s.capabilities[i]).token_hmac == code
                    && s.capabilities[i].capability == c
            &&& resolved(after.capabilities, code) == ResolutionView::One(c)
        }),
{
    law_a_token_resolves_to_its_own_row(s.capabilities, code);
    if hits.len() == 1 {
        law_a_token_stands_for_its_run(s, code, hits[0].project, hits[0].agent_run, now);
    }
}

/// An end that an agent sends is taken while its run is under way, and again where the run
/// came to that same end; another end is a conflict that names both. Anything else is taken
/// only while the run is under way and has no end.
pub proof fn law_an_agent_is_heard_while_its_run_goes_on(at: LocationView, c: ControlView)
    ensures
        match c {
            ControlView::Settle(said) => match at.outcome {
                Some(end) => run_refusal(at, c) is None <==> end == said.kind,
                None => run_refusal(at, c) is None <==> at.status == "running"@ || at.status
                    == "awaiting-outcome"@ || at.status == "interrupted"@,
            },
            _ => run_refusal(at, c) is None <==> at.outcome is None && (at.status == "running"@
                || at.status == "awaiting-outcome"@ || at.status == "interrupted"@),
        },
        at.outcome matches Some(end) && c matches ControlView::Settle(said) && end != said.kind
            ==> run_refusal(at, c) == Some(
            TokenProblemView::Conflict { existing: at.outcome->0, attempted: c->Settle_0.kind },
        ),
{
}

proof fn lemma_agent_run(v: Seq<AgentRunView>, handle: Seq<char>, from: int)
    requires
        0 <= from,
    ensures
        agent_run_by_handle(v, handle, from) matches Some(row) ==> row.public_handle == handle
            && v.contains(row),
    decreases v.len() - from,
{
    if from < v.len() && v[from].public_handle != handle {
        lemma_agent_run(v, handle, from + 1);
    }
}

proof fn lemma_task(v: Seq<TaskView>, id: i64, from: int)
    requires
        0 <= from,
    ensures
        task_by_id(v, id, from) matches Some(row) ==> row.id == id && v.contains(row),
    decreases v.len() - from,
{
    if from < v.len() && v[from].id != id {
        lemma_task(v, id, from + 1);
    }
}

proof fn lemma_step(v: Seq<RunStepView>, id: i64, from: int)
    requires
        0 <= from,
    ensures
        step_by_id(v, id, from) matches Some(row) ==> row.id == id && v.contains(row),
    decreases v.len() - from,
{
    if from < v.len() && v[from].id != id {
        lemma_step(v, id, from + 1);
    }
}

/// A token leads to the run that carries it, and to its step and task: what an agent's command
/// relies on are these three, as they stand.
pub proof fn law_a_token_leads_to_the_run_that_carries_it(
    rows: RowsView,
    agent_run: Seq<char>,
    token: Seq<char>,
)
    requires
        located(rows, agent_run, token) is Ok,
    ensures
        ({
            let at = located(rows, agent_run, token)->Ok_0;
            exists|run: AgentRunView, task: TaskView, step: RunStepView|
                {
                    &&& #[trigger] rows.agent_runs.contains(run)
                    &&& #[trigger] rows.tasks.contains(task)
                    &&& #[trigger] rows.steps.contains(step)
                    &&& run.public_handle == agent_run
                    &&& run.capability_token == token
                    &&& run.task_id == task.id
                    &&& run.step_id == step.id
                    &&& step.task_id == task.id
                    &&& at.workflow_run == task.public_handle
                    &&& at.step == step.public_handle
                    &&& at.run_id == run.id
                    &&& at.task_id == task.id
                    &&& at.status == run.status
                    &&& at.outcome == run.outcome
                    &&& at.expected.workflow_run_revision == task.revision
                    &&& at.expected.steps.len() == 1
                    &&& at.expected.steps[0].handle == step.public_handle
                    &&& at.expected.steps[0].revision == step.revision
                    &&& at.expected.agent_runs.len() == 1
                    &&& at.expected.agent_runs[0].handle == agent_run
                    &&& at.expected.agent_runs[0].revision == run.revision
                }
        }),
{
    lemma_agent_run(rows.agent_runs, agent_run, 0);
    let run = agent_run_by_handle(rows.agent_runs, agent_run, 0)->0;
    lemma_task(rows.tasks, run.task_id, 0);
    lemma_step(rows.steps, run.step_id, 0);
    let task = task_by_id(rows.tasks, run.task_id, 0)->0;
    let step = step_by_id(rows.steps, run.step_id, 0)->0;
    assert(rows.agent_runs.contains(run) && rows.tasks.contains(task) && rows.steps.contains(step));
}

/// What an agent sets out to do is for the run that its token stands for: in that project, on
/// that agent run, or on the run of the workflow where it proposes how to go on; and only
/// while the project takes work and the token is good.
pub proof fn law_an_agent_acts_on_its_own_run(
    capability: CapabilityView,
    closing: Option<bool>,
    rows: RowsView,
    token: Seq<char>,
    c: ControlView,
    command_id: Seq<char>,
    has_port: bool,
)
    requires
        begun_control(capability, closing, rows, token, c, command_id, has_port) is Ok,
    ensures
        ({
            let (at, e) = begun_control(
                capability,
                closing,
                rows,
                token,
                c,
                command_id,
                has_port,
            )->Ok_0;
            &&& closing == Some(false)
            &&& has_port
            &&& capability.state is Active || (capability.state is Settled && c is Settle)
            &&& located(rows, capability.agent_run, token) == Ok::<
                LocationView,
                TokenProblemView,
            >(at)
            &&& e.command_id == command_id
            &&& e.target.store is Project
            &&& e.target.store_handle == capability.project
            &&& c is ProposePipeline ==> e.target.aggregate.kind is WorkflowRun
                && e.target.aggregate.handle == at.workflow_run
            &&& !(c is ProposePipeline) ==> e.target.aggregate.kind is AgentRun
                && e.target.aggregate.handle == capability.agent_run
            &&& e.expected.len() == 1 + at.expected.steps.len() + at.expected.agent_runs.len()
                + at.expected.agent_sessions.len()
            &&& e.payload is Plain
            &&& field_of(e.payload->Plain_0, "agent_run"@) == Some(
                JsonView::Text(capability.agent_run),
            )
            &&& field_of(e.payload->Plain_0, "workflow_run"@) == Some(
                JsonView::Text(at.workflow_run),
            )
            &&& field_of(e.payload->Plain_0, "method"@) == Some(
                JsonView::Text(
                    match c {
                        ControlView::Settle(_) => "settle"@,
                        ControlView::ReportState(_) => "report_state"@,
                        ControlView::ProposePipeline(_) => "propose_pipeline"@,
                    },
                ),
            )
        }),
{
    let (at, e) = begun_control(
        capability,
        closing,
        rows,
        token,
        c,
        command_id,
        has_port,
    )->Ok_0;
    let f = e.payload->Plain_0->Object_0;
    reveal_strlit("method");
    reveal_strlit("workflow_run");
    reveal_strlit("agent_run");
    assert("method"@.len() == 6 && "workflow_run"@.len() == 12 && "agent_run"@.len() == 9);
    assert(distinct_names(f));
    lemma_field_at(f, 0);
    lemma_field_at(f, 1);
    lemma_field_at(f, 2);
}

/// Without a token nothing is taken, and nothing is taken that says the token: the state and
/// the texts that an agent sends are free of it.
pub proof fn law_a_token_is_never_said(token: Seq<char>, c: ControlView)
    requires
        control_refusal(token, c) is None,
    ensures
        token.len() > 0,
        c matches ControlView::ReportState(said) ==> !crate::text::occurs(token, said),
        c matches ControlView::Settle(said) && said.body is Text ==> !crate::text::occurs(
            token,
            c->Settle_0.body->Text_0,
        ),
        c matches ControlView::ProposePipeline(JsonView::Text(said)) ==> !crate::text::occurs(
            token,
            said,
        ),
{
}

} // verus!
