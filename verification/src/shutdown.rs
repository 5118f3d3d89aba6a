//! Whether the core may be shut down. Whatever still runs, waits or is under way stands
//! in the way, and is named.

use crate::dispatch::{IntentRow, IntentState, Intents};
use crate::table::Table;
use crate::text::{cat, cat3, decimal, decimal_text, texts};
use vstd::prelude::*;
use vstd::string::*;

verus! {

/// What a shutdown would break off.
#[derive(Debug)]
pub struct ShutdownAssessment {
    pub safe_to_proceed: bool,
    pub active_workflow_runs: usize,
    pub pending_outbox_events: usize,
    pub unfinished_intents: usize,
    pub blockers: Vec<String>,
}

/// What a shutdown would break off, as a value.
pub ghost struct AssessmentView {
    pub safe_to_proceed: bool,
    pub active_workflow_runs: nat,
    pub pending_outbox_events: nat,
    pub unfinished_intents: nat,
    pub blockers: Seq<Seq<char>>,
}

impl View for ShutdownAssessment {
    type V = AssessmentView;

    open spec fn view(&self) -> AssessmentView {
        AssessmentView {
            safe_to_proceed: self.safe_to_proceed,
            active_workflow_runs: self.active_workflow_runs as nat,
            pending_outbox_events: self.pending_outbox_events as nat,
            unfinished_intents: self.unfinished_intents as nat,
            blockers: texts(self.blockers@),
        }
    }
}

/// What is known of one project: how many of its runs are active, and how many of its
/// events wait to be published; or why that could not be read.
#[derive(Debug)]
pub struct ProjectActivity {
    pub project: String,
    pub running: Result<usize, String>,
    pub pending: Result<usize, String>,
}

/// What is known of one project, as a value.
pub ghost struct ActivityView {
    pub project: Seq<char>,
    pub running: Result<nat, Seq<char>>,
    pub pending: Result<nat, Seq<char>>,
}

/// A number that was read, or why it could not be, as a value.
pub open spec fn reading(r: Result<usize, String>) -> Result<nat, Seq<char>> {
    match r {
        Ok(n) => Ok(n as nat),
        Err(m) => Err(m@),
    }
}

impl View for ProjectActivity {
    type V = ActivityView;

    open spec fn view(&self) -> ActivityView {
        ActivityView {
            project: self.project@,
            running: reading(self.running),
            pending: reading(self.pending),
        }
    }
}

/// What is known of the projects, as values.
pub open spec fn activities(v: Seq<ProjectActivity>) -> Seq<ActivityView> {
    v.map_values(|a: ProjectActivity| a@)
}

/// The number that was read; nothing counts where nothing could be read.
pub open spec fn counted(r: Result<nat, Seq<char>>) -> nat {
    match r {
        Ok(n) => n,
        Err(_) => 0,
    }
}

/// A sum that stops at the largest number.
pub open spec fn capped(a: nat, b: nat) -> nat {
    if a + b > usize::MAX {
        usize::MAX as nat
    } else {
        a + b
    }
}

/// What is said of a project.
pub open spec fn project_line(project: Seq<char>, what: Seq<char>) -> Seq<char> {
    "项目 "@ + project + ":"@ + what
}

fn say_project(project: &str, what: &str) -> (r: String)
    ensures
        r@ == project_line(project@, what@),
{
    cat(cat3("项目 ", project, ":").as_str(), what)
}

/// What stands in the way, given a number that was read: nothing if it is zero.
pub open spec fn blocker(
    r: Result<nat, Seq<char>>,
    unit: Seq<char>,
    unread: Seq<char>,
) -> Option<Seq<char>> {
    match r {
        Ok(n) => if n > 0 {
            Some(decimal_text(n) + unit)
        } else {
            None
        },
        Err(m) => Some(unread + m),
    }
}

fn find_blocker(r: &Result<usize, String>, unit: &str, unread: &str) -> (found: Option<String>)
    ensures
        (match found {
            Some(m) => Some(m@),
            None => None,
        }) == blocker(reading(*r), unit@, unread@),
{
    match r {
        Ok(n) => if *n > 0 {
            Some(cat(decimal(*n as u64).as_str(), unit))
        } else {
            None
        },
        Err(m) => Some(cat(unread, m.as_str())),
    }
}

/// The lines with one more, if there is one.
pub open spec fn noted(lines: Seq<Seq<char>>, project: Seq<char>, what: Option<Seq<char>>) -> Seq<
    Seq<char>,
> {
    match what {
        Some(m) => lines.push(project_line(project, m)),
        None => lines,
    }
}

/// What stands in the way on account of the first `n` projects.
pub open spec fn assessed(v: Seq<ActivityView>, n: nat) -> AssessmentView
    decreases n,
{
    if n == 0 {
        AssessmentView {
            safe_to_proceed: false,
            active_workflow_runs: 0,
            pending_outbox_events: 0,
            unfinished_intents: 0,
            blockers: seq![],
        }
    } else {
        let before = assessed(v, (n - 1) as nat);
        let a = v[n - 1];
        AssessmentView {
            active_workflow_runs: capped(before.active_workflow_runs, counted(a.running)),
            pending_outbox_events: capped(before.pending_outbox_events, counted(a.pending)),
            blockers: noted(
                noted(
                    before.blockers,
                    a.project,
                    blocker(a.running, " 个活动 Workflow Run"@, "活动运行读取失败:"@),
                ),
                a.project,
                blocker(a.pending, " 个事件待发布"@, "待发布事件读取失败:"@),
            ),
            ..before
        }
    }
}

/// What a shutdown would break off: the projects one by one, then the commands that are
/// under way. It is safe if nothing stands in the way.
pub open spec fn assessment(
    v: Seq<ActivityView>,
    unfinished: Result<nat, Seq<char>>,
) -> AssessmentView {
    let projects = assessed(v, v.len());
    let blockers = match blocker(
        unfinished,
        " 个未终结 command intent"@,
        "command intent 读取失败:"@,
    ) {
        Some(m) => projects.blockers.push(m),
        None => projects.blockers,
    };
    AssessmentView {
        safe_to_proceed: blockers.len() == 0,
        unfinished_intents: counted(unfinished),
        blockers,
        ..projects
    }
}

fn note(lines: &mut Vec<String>, project: &str, what: Option<String>)
    ensures
        texts(final(lines)@) == noted(
            texts(old(lines)@),
            project@,
            match what {
                Some(m) => Some(m@),
                None => None,
            },
        ),
{
    let ghost had = lines@;
    if let Some(m) = what {
        lines.push(say_project(project, m.as_str()));
        assert(texts(lines@) =~= texts(had).push(project_line(project@, m@)));
    }
}

fn count(r: &Result<usize, String>) -> (n: usize)
    ensures
        n == counted(reading(*r)),
{
    match r {
        Ok(n) => *n,
        Err(_) => 0,
    }
}

/// What a shutdown would break off.
pub fn assess(projects: &Vec<ProjectActivity>, unfinished: &Result<usize, String>) -> (r:
    ShutdownAssessment)
    ensures
        r@ == assessment(activities(projects@), reading(*unfinished)),
{
    let ghost all = activities(projects@);
    let mut active_workflow_runs: usize = 0;
    let mut pending_outbox_events: usize = 0;
    let mut blockers: Vec<String> = Vec::new();
    let mut i: usize = 0;
    assert(texts(blockers@) =~= seq![]);
    while i < projects.len()
        invariant
            i <= projects@.len(),
            all == activities(projects@),
            assessed(all, i as nat) == (AssessmentView {
                safe_to_proceed: false,
                active_workflow_runs: active_workflow_runs as nat,
                pending_outbox_events: pending_outbox_events as nat,
                unfinished_intents: 0,
                blockers: texts(blockers@),
            }),
        decreases projects@.len() - i,
    {
        let a: &ProjectActivity = &projects[i];
        assert(all[i as int] == a@);
        active_workflow_runs = active_workflow_runs.saturating_add(count(&a.running));
        pending_outbox_events = pending_outbox_events.saturating_add(count(&a.pending));
        note(
            &mut blockers,
            a.project.as_str(),
            find_blocker(&a.running, " 个活动 Workflow Run", "活动运行读取失败:"),
        );
        note(
            &mut blockers,
            a.project.as_str(),
            find_blocker(&a.pending, " 个事件待发布", "待发布事件读取失败:"),
        );
        i = i + 1;
    }
    let ghost had = blockers@;
    if let Some(m) = find_blocker(
        unfinished,
        " 个未终结 command intent",
        "command intent 读取失败:",
    ) {
        blockers.push(m);
        assert(texts(blockers@) =~= texts(had).push(m@));
    }
    ShutdownAssessment {
        safe_to_proceed: blockers.len() == 0,
        active_workflow_runs,
        pending_outbox_events,
        unfinished_intents: count(unfinished),
        blockers,
    }
}

/// What a shutdown would break off, on account of the sessions that are alive.
pub open spec fn session_assessment(alive: nat) -> AssessmentView {
    AssessmentView {
        safe_to_proceed: alive == 0,
        active_workflow_runs: 0,
        pending_outbox_events: 0,
        unfinished_intents: 0,
        blockers: if alive > 0 {
            seq![decimal_text(alive) + " 个存活 Agent Session"@]
        } else {
            seq![]
        },
    }
}

/// What a shutdown would break off, on account of the sessions that are alive.
pub fn assess_sessions(alive: usize) -> (r: ShutdownAssessment)
    ensures
        r@ == session_assessment(alive as nat),
{
    let mut blockers: Vec<String> = Vec::new();
    if alive > 0 {
        blockers.push(cat(decimal(alive as u64).as_str(), " 个存活 Agent Session"));
    }
    assert(texts(blockers@) =~= session_assessment(alive as nat).blockers);
    ShutdownAssessment {
        safe_to_proceed: blockers.len() == 0,
        active_workflow_runs: 0,
        pending_outbox_events: 0,
        unfinished_intents: 0,
        blockers,
    }
}

/// The commands that are under way.
pub open spec fn under_way(intents: Intents) -> Set<Seq<char>> {
    intents.dom().filter(|id: Seq<char>| intents[id].state is Reserved)
}

/// How many commands are under way.
pub fn count_under_way(intents: &Table<IntentRow>) -> (r: usize)
    requires
        intents.wf(),
    ensures
        r == under_way(intents@).len(),
{
    let keys: Vec<String> = intents.keys();
    let ghost all = texts(keys@);
    let ghost open = |id: Seq<char>| intents@[id].state is Reserved;
    let mut n: usize = 0;
    let mut i: usize = 0;
    assert(all.take(0).to_set().filter(open) =~= Set::empty());
    while i < keys.len()
        invariant
            intents.wf(),
            i <= keys@.len(),
            n <= i,
            all == texts(keys@),
            all.no_duplicates(),
            forall|key: Seq<char>| #[trigger]
                intents@.contains_key(key) <==> all.contains(key),
            open == (|id: Seq<char>| intents@[id].state is Reserved),
            all.take(i as int).to_set().filter(open).finite(),
            n == all.take(i as int).to_set().filter(open).len(),
        decreases keys@.len() - i,
    {
        let ghost key = all[i as int];
        let ghost had = all.take(i as int).to_set().filter(open);
        assert(all.contains(key));
        assert(key == keys@[i as int]@);
        assert(!all.take(i as int).contains(key));
        assert(all.take(i + 1) =~= all.take(i as int).push(key));
        let waits: bool = match intents.get(keys[i].as_str()) {
            Some(row) => matches!(row.state, IntentState::Reserved),
            None => false,
        };
        let ghost more = all.take(i + 1);
        assert(more.to_set() =~= all.take(i as int).to_set().insert(key)) by {
            assert forall|k: Seq<char>| more.contains(k) == (all.take(i as int).contains(k) || k
                == key) by {
                if all.take(i as int).contains(k) {
                    let j = choose|j: int| 0 <= j < i && all.take(i as int)[j] == k;
                    assert(more[j] == k);
                }
                assert(more[i as int] == key);
                if more.contains(k) && k != key {
                    let j = choose|j: int| 0 <= j < more.len() && more[j] == k;
                    assert(all.take(i as int)[j] == k);
                }
            }
        }
        if waits {
            assert(all.take(i + 1).to_set().filter(open) =~= had.insert(key));
            n = n + 1;
        } else {
            assert(all.take(i + 1).to_set().filter(open) =~= had);
        }
        i = i + 1;
    }
    assert(all.take(i as int) =~= all);
    assert(all.to_set() =~= intents@.dom());
    assert(all.to_set().filter(open) =~= under_way(intents@));
    n
}

proof fn lemma_assessed(v: Seq<ActivityView>, n: nat)
    requires
        n <= v.len(),
    ensures
        assessed(v, n).blockers.len() == 0 <==> forall|i: int|
            0 <= i < n ==> (#[trigger] v[i]).running == Ok::<nat, Seq<char>>(0) && v[i].pending
                == Ok::<nat, Seq<char>>(0),
    decreases n,
{
    if n > 0 {
        lemma_assessed(v, (n - 1) as nat);
    }
}

/// A shutdown is safe exactly if it is known that no run is active, no event waits and no
/// command is under way: what could not be read stands in the way too.
pub proof fn law_only_what_is_known_to_rest_is_safe(
    v: Seq<ActivityView>,
    unfinished: Result<nat, Seq<char>>,
)
    ensures
        assessment(v, unfinished).safe_to_proceed <==> unfinished == Ok::<nat, Seq<char>>(0)
            && forall|i: int|
            0 <= i < v.len() ==> (#[trigger] v[i]).running == Ok::<nat, Seq<char>>(0)
                && v[i].pending == Ok::<nat, Seq<char>>(0),
{
    lemma_assessed(v, v.len());
}

} // verus!
