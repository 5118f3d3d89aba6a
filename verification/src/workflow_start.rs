//! Starting a run in the background: what an acceptance leaves in the outbox, which
//! operations are taken up again, and how often one is tried.

use crate::dispatch::{OutboxView, TargetDatabase, TargetTables};
use crate::json::{as_text_view, field_of, JsonView};
use crate::operation::{
    OperationHandle, OperationOutcome, OperationRow, OperationView, StepRecord, StepView,
};
use crate::reconcile::operations_view;
use crate::text::{cat, same};
use vstd::prelude::*;
use vstd::string::*;

verus! {

/// Whether an event tells of the acceptance of a command.
pub open spec fn tells_acceptance(event: JsonView, name: Seq<char>, command_id: Seq<char>) -> bool {
    &&& as_text_view(field_of(event, "type"@)) == Some(name + ".accepted"@)
    &&& as_text_view(field_of(event, "caused_by_command_id"@)) == Some(command_id)
}

/// Whether an event stays when the acceptance of a command is taken out: all but those
/// that wait and tell of it.
pub open spec fn stays(row: OutboxView, name: Seq<char>, command_id: Seq<char>) -> bool {
    !(row.published_at is None && tells_acceptance(row.event, name, command_id))
}

/// The events without those that wait and tell of the acceptance of a command.
pub open spec fn without_acceptance(
    rows: Seq<OutboxView>,
    name: Seq<char>,
    command_id: Seq<char>,
) -> Seq<OutboxView> {
    rows.filter(|row: OutboxView| stays(row, name, command_id))
}

/// Takes the acceptance of a command out of what waits: its proof is its receipt, and
/// clients are told of the run when it is there.
pub fn drop_acceptance(target: &mut TargetDatabase, name: &str, command_id: &str)
    requires
        old(target).wf(),
    ensures
        final(target).wf(),
        final(target)@ == (TargetTables {
            outbox: without_acceptance(old(target)@.outbox, name@, command_id@),
            ..old(target)@
        }),
{
    let accepted: String = cat(name, ".accepted");
    let ghost start = target@;
    let ghost all = start.outbox;
    let ghost mut done: int = 0;
    let mut at: usize = 0;
    proof {
        reveal(Seq::filter);
        assert(target@.outbox =~= without_acceptance(all.take(0), name@, command_id@) + all.skip(
            0,
        ));
    }
    while at < target.outbox().len()
        invariant
            target.wf(),
            accepted@ == name@ + ".accepted"@,
            all == start.outbox,
            0 <= done <= all.len(),
            at == without_acceptance(all.take(done), name@, command_id@).len(),
            target@ == (TargetTables {
                outbox: without_acceptance(all.take(done), name@, command_id@) + all.skip(done),
                ..start
            }),
        decreases all.len() - done,
    {
        let ghost kept = without_acceptance(all.take(done), name@, command_id@);
        let ghost now = target@.outbox;
        proof {
            reveal(Seq::filter);
            assert(target@.outbox.len() == kept.len() + all.len() - done);
            assert(done < all.len());
            assert(target@.outbox[at as int] == all[done]);
            assert(all.take(done + 1).drop_last() =~= all.take(done));
            assert(all.take(done + 1).last() == all[done]);
        }
        let gone: bool = {
            let row = &target.outbox()[at];
            row.published_at.is_none() && match row.event.get_str("type") {
                Some(t) => same(t, accepted.as_str()),
                None => false,
            } && match row.event.get_str("caused_by_command_id") {
                Some(id) => same(id, command_id),
                None => false,
            }
        };
        assert(gone == !stays(all[done], name@, command_id@));
        if gone {
            target.drop_event(at);
            proof {
                assert(without_acceptance(all.take(done + 1), name@, command_id@) == kept);
                assert(now.remove(at as int) =~= kept + all.skip(done + 1));
            }
        } else {
            proof {
                assert(without_acceptance(all.take(done + 1), name@, command_id@) == kept.push(
                    all[done],
                ));
                assert(now =~= kept.push(all[done]) + all.skip(done + 1));
            }
            at = at + 1;
        }
        proof {
            done = done + 1;
        }
    }
    proof {
        assert(target@.outbox.len() == at + all.len() - done);
        assert(all.take(done) =~= all);
        assert(target@.outbox =~= without_acceptance(all, name@, command_id@));
    }
}

/// Whether one of the steps is in a store.
pub open spec fn works_on(steps: Seq<StepView>, store: Seq<char>) -> bool {
    exists|i: int| 0 <= i < steps.len() && (#[trigger] steps[i]).target_store == store
}

/// Whether an operation is taken up again when a project is opened: it is of the kind, it
/// has not ended, and one of its steps is in the store of the project.
pub open spec fn taken_up(o: OperationView, kind: Seq<char>, project: Seq<char>) -> bool {
    &&& !o.record.state.terminal()
    &&& o.record.kind == kind
    &&& works_on(o.steps, "project:"@ + project)
}

/// The operations that are taken up again when a project is opened.
pub open spec fn resumed(v: Seq<OperationView>, kind: Seq<char>, project: Seq<char>) -> Seq<
    Seq<char>,
> {
    v.filter(|o: OperationView| taken_up(o, kind, project)).map_values(
        |o: OperationView| o.record.operation_handle,
    )
}

/// Handles of operations, as texts.
pub open spec fn handles_view(v: Seq<OperationHandle>) -> Seq<Seq<char>> {
    v.map_values(|h: OperationHandle| h@)
}

fn is_working_on(steps: &Vec<StepRecord>, store: &str) -> (r: bool)
    ensures
        r == works_on(crate::operation::steps_view(steps@), store@),
{
    let ghost all = crate::operation::steps_view(steps@);
    let mut i: usize = 0;
    while i < steps.len()
        invariant
            i <= steps@.len(),
            all == crate::operation::steps_view(steps@),
            forall|k: int| 0 <= k < i ==> (#[trigger] all[k]).target_store != store@,
        decreases steps@.len() - i,
    {
        assert(all[i as int] == steps@[i as int]@);
        if same(steps[i].target_store.as_str(), store) {
            assert(all[i as int].target_store == store@);
            return true;
        }
        i = i + 1;
    }
    false
}

/// The operations that are taken up again when a project is opened, in the order they are
/// stored.
pub fn resume_workflow_start_operations(
    operations: &Vec<OperationRow>,
    kind: &str,
    project: &str,
) -> (r: Vec<OperationHandle>)
    ensures
        handles_view(r@) == resumed(operations_view(operations@), kind@, project@),
{
    let store: String = cat("project:", project);
    let ghost all = operations_view(operations@);
    let mut out: Vec<OperationHandle> = Vec::new();
    let mut i: usize = 0;
    proof {
        reveal(Seq::filter);
        assert(handles_view(out@) =~= resumed(all.take(0), kind@, project@));
    }
    while i < operations.len()
        invariant
            store@ == "project:"@ + project@,
            i <= operations@.len(),
            all == operations_view(operations@),
            handles_view(out@) == resumed(all.take(i as int), kind@, project@),
        decreases operations@.len() - i,
    {
        let ghost had = out@;
        let o: &OperationRow = &operations[i];
        proof {
            reveal(Seq::filter);
            assert(all.take(i + 1).drop_last() =~= all.take(i as int));
            assert(all.take(i + 1).last() == o@);
        }
        if !o.record.state.is_terminal() && same(o.record.kind.as_str(), kind) && is_working_on(
            &o.steps,
            store.as_str(),
        ) {
            out.push(o.record.operation_handle.clone());
            assert(handles_view(out@) =~= handles_view(had).push(o@.record.operation_handle));
        }
        assert(handles_view(out@) =~= resumed(all.take(i + 1), kind@, project@));
        i = i + 1;
    }
    assert(all.take(i as int) =~= all);
    out
}

/// What follows an attempt that failed: the next attempt and the pause before it in
/// milliseconds, or nothing after the third. The operation stays where it is stored, and
/// is taken up again when its project is opened.
pub fn retry_after(attempt: u8) -> (r: Option<(u8, u64)>)
    ensures
        r == (if attempt >= 2 {
            None
        } else {
            Some(((attempt + 1) as u8, (50 * (attempt + 1)) as u64))
        }),
{
    if attempt >= 2 {
        return None;
    }
    let next: u8 = attempt + 1;
    Some((next, 50 * (next as u64)))
}

/// Whether what a start had pinned is let go: the operation was rolled back in full, and
/// its run never began.
pub fn lets_go(outcome: &OperationOutcome) -> (r: bool)
    ensures
        r == (*outcome == OperationOutcome::Completed { compensated: true }),
{
    match outcome {
        OperationOutcome::Completed { compensated } => *compensated,
        _ => false,
    }
}

proof fn lemma_filter_passes<T>(v: Seq<T>, p: spec_fn(T) -> bool, k: int)
    requires
        0 <= k < v.filter(p).len(),
    ensures
        p(v.filter(p)[k]),
        v.contains(v.filter(p)[k]),
    decreases v.len(),
{
    reveal(Seq::filter);
    if v.len() > 0 {
        let w = v.drop_last();
        if k < w.filter(p).len() {
            lemma_filter_passes(w, p, k);
            let i = choose|i: int| 0 <= i < w.len() && w[i] == w.filter(p)[k];
            assert(v[i] == v.filter(p)[k]);
        } else {
            assert(v[v.len() - 1] == v.filter(p)[k]);
        }
    }
}

/// An operation that has ended is not taken up again.
pub proof fn law_what_ended_is_not_taken_up(
    v: Seq<OperationView>,
    kind: Seq<char>,
    project: Seq<char>,
    k: int,
)
    requires
        0 <= k < resumed(v, kind, project).len(),
    ensures
        exists|i: int|
            0 <= i < v.len() && !(#[trigger] v[i]).record.state.terminal()
                && v[i].record.operation_handle == resumed(v, kind, project)[k],
{
    let p = |o: OperationView| taken_up(o, kind, project);
    lemma_filter_passes(v, p, k);
    let o = v.filter(p)[k];
    let i = choose|i: int| 0 <= i < v.len() && v[i] == o;
    assert(!v[i].record.state.terminal());
}

/// Clients are never told of an acceptance that was taken out.
pub proof fn law_no_acceptance_is_left(
    rows: Seq<OutboxView>,
    name: Seq<char>,
    command_id: Seq<char>,
    k: int,
)
    requires
        0 <= k < without_acceptance(rows, name, command_id).len(),
        without_acceptance(rows, name, command_id)[k].published_at is None,
    ensures
        !tells_acceptance(without_acceptance(rows, name, command_id)[k].event, name, command_id),
{
    lemma_filter_passes(rows, |row: OutboxView| stays(row, name, command_id), k);
}

} // verus!
