//! What is still to be done after a command on a run. It is stored with the command's
//! event, handed out in order, and taken off the event once it is done.

use crate::dispatch::{
    OutboxRow, OutboxView, TargetDatabase, TargetTables, DURABLE_RUN_ACTIONS_SCHEMA, events,
};
use crate::handles::{outcome, CommandId};
use crate::json::{
    as_text_view, field_in, field_of, fields_view, items_view, law_sorting_keeps_the_fields,
    lemma_array_view, lemma_field_in, lemma_field_in_push, lemma_object_view, sorted_json,
    sorted_view, Json, JsonView, object,
};
use crate::problem::{KernelProblem, KernelProblemView};
use crate::text::same;
use vstd::prelude::*;
use vstd::string::*;

verus! {

/// What is asked for: that a thing to do is read, or that it is done.
#[derive(Debug, Clone, Copy, PartialEq, Eq, Structural)]
pub enum DeliveryStage {
    Read,
    Do,
}

/// One thing to do after a command: what is asked for, the place of its event, its command,
/// and its place among what that command left to do.
pub struct RunActionDelivery {
    pub stage: DeliveryStage,
    pub outbox_index: usize,
    pub command_id: CommandId,
    pub action_index: usize,
    pub action: Json,
}

/// One thing to do after a command, as a value.
pub ghost struct DeliveryView {
    pub stage: DeliveryStage,
    pub outbox_index: int,
    pub command_id: Seq<char>,
    pub action_index: int,
    pub action: JsonView,
}

impl View for RunActionDelivery {
    type V = DeliveryView;

    open spec fn view(&self) -> DeliveryView {
        DeliveryView {
            stage: self.stage,
            outbox_index: self.outbox_index as int,
            command_id: self.command_id@,
            action_index: self.action_index as int,
            action: self.action@,
        }
    }
}

/// What an event leaves to do: nothing, or a command's list.
pub open spec fn actions_of(event: JsonView) -> Result<
    Option<(Seq<char>, Seq<JsonView>)>,
    KernelProblemView,
> {
    match field_of(event, "run_actions"@) {
        None => Ok(None),
        Some(private) => if as_text_view(field_of(private, "schema"@)) != Some(
            DURABLE_RUN_ACTIONS_SCHEMA@,
        ) {
            Err(KernelProblemView::ServiceUnavailable("unsupported_run_actions_schema"@))
        } else {
            match as_text_view(field_of(event, "caused_by_command_id"@)) {
                None => Err(
                    KernelProblemView::Internal("run action outbox 缺少 command id"@),
                ),
                Some(raw) => match crate::handles::command_id_of(raw) {
                    Err(m) => Err(KernelProblemView::Internal(m)),
                    Ok(id) => match field_of(private, "actions"@) {
                        None => Err(
                            KernelProblemView::Internal("run action outbox 缺少 actions"@),
                        ),
                        Some(JsonView::Array(list)) => Ok(Some((id, list))),
                        Some(_) => Err(
                            KernelProblemView::Internal("run action outbox 的 actions 损坏"@),
                        ),
                    },
                },
            }
        },
    }
}

/// The view of what an event leaves to do.
pub open spec fn left_to_do(r: Result<Option<(CommandId, Vec<Json>)>, KernelProblem>) -> Result<
    Option<(Seq<char>, Seq<JsonView>)>,
    KernelProblemView,
> {
    match r {
        Ok(Some((id, v))) => Ok(Some((id@, items_view(v@)))),
        Ok(None) => Ok(None),
        Err(p) => Err(p@),
    }
}

fn copy_items(v: &Vec<Json>) -> (r: Vec<Json>)
    ensures
        items_view(r@) == items_view(v@),
{
    let ghost all = items_view(v@);
    let mut out: Vec<Json> = Vec::new();
    let mut i: usize = 0;
    assert(items_view(out@) =~= all.take(0));
    while i < v.len()
        invariant
            i <= v@.len(),
            all == items_view(v@),
            items_view(out@) == all.take(i as int),
        decreases v@.len() - i,
    {
        let ghost had = out@;
        out.push(v[i].copy());
        assert(items_view(out@) =~= items_view(had).push(all[i as int]));
        assert(all.take(i + 1) =~= all.take(i as int).push(all[i as int]));
        i = i + 1;
    }
    assert(all.take(i as int) =~= all);
    out
}

/// What an event leaves to do: nothing, or a command's list.
pub fn read_actions(event: &Json) -> (r: Result<Option<(CommandId, Vec<Json>)>, KernelProblem>)
    ensures
        left_to_do(r) == actions_of(event@),
{
    let private: &Json = match event.get("run_actions") {
        Some(p) => p,
        None => {
            return Ok(None);
        },
    };
    let known: bool = match private.get_str("schema") {
        Some(s) => same(s, DURABLE_RUN_ACTIONS_SCHEMA),
        None => false,
    };
    if !known {
        return Err(KernelProblem::unavailable("unsupported_run_actions_schema"));
    }
    let id: CommandId = match event.get_str("caused_by_command_id") {
        None => {
            return Err(KernelProblem::internal("run action outbox 缺少 command id"));
        },
        Some(raw) => match CommandId::parse(raw) {
            Ok(id) => id,
            Err(p) => {
                return Err(KernelProblem::internal(p.message()));
            },
        },
    };
    match private.get("actions") {
        None => Err(KernelProblem::internal("run action outbox 缺少 actions")),
        Some(Json::Array(v)) => {
            proof {
                lemma_array_view(*v);
            }
            Ok(Some((id, copy_items(v))))
        },
        Some(_) => Err(KernelProblem::internal("run action outbox 的 actions 损坏")),
    }
}

/// Whether an event leaves something to do.
pub open spec fn has_actions(event: JsonView) -> bool {
    field_of(event, "run_actions"@) is Some
}

/// Whether an event that waits leaves something to do.
pub open spec fn waits_with_actions(rows: Seq<OutboxView>) -> bool {
    exists|i: int|
        0 <= i < rows.len() && (#[trigger] rows[i]).published_at is None && has_actions(
            rows[i].event,
        )
}

/// Whether an event of a target that waits leaves something to do.
pub fn target_has_pending_run_actions(target: &TargetDatabase) -> (r: bool)
    ensures
        r == waits_with_actions(target@.outbox),
{
    let rows: &Vec<OutboxRow> = target.outbox();
    let ghost all = target@.outbox;
    let mut i: usize = 0;
    while i < rows.len()
        invariant
            i <= rows@.len(),
            all == events(rows@),
            all == target@.outbox,
            forall|k: int|
                0 <= k < i ==> !((#[trigger] all[k]).published_at is None && has_actions(
                    all[k].event,
                )),
        decreases rows@.len() - i,
    {
        assert(all[i as int] == rows@[i as int]@);
        if rows[i].published_at.is_none() && rows[i].event.get("run_actions").is_some() {
            assert(all[i as int].published_at is None);
            return true;
        }
        i = i + 1;
    }
    false
}

/// The first `n` fields without those of a name.
pub open spec fn without_field(
    f: Seq<(Seq<char>, JsonView)>,
    name: Seq<char>,
    n: nat,
) -> Seq<(Seq<char>, JsonView)>
    decreases n,
{
    if n == 0 {
        seq![]
    } else if f[n - 1].0 == name {
        without_field(f, name, (n - 1) as nat)
    } else {
        without_field(f, name, (n - 1) as nat).push(f[n - 1])
    }
}

/// An event with nothing left to do.
pub open spec fn done_event(event: JsonView) -> JsonView {
    match event {
        JsonView::Object(f) => sorted_view(
            JsonView::Object(without_field(f, "run_actions"@, f.len())),
        ),
        other => other,
    }
}

fn take_actions_off(event: &Json) -> (r: Json)
    ensures
        r@ == done_event(event@),
{
    match event {
        Json::Object(f) => {
            proof {
                lemma_object_view(*f);
            }
            let ghost all = fields_view(f@);
            let mut out: Vec<(String, Json)> = Vec::new();
            let mut i: usize = 0;
            assert(fields_view(out@) =~= seq![]);
            while i < f.len()
                invariant
                    i <= f@.len(),
                    all == fields_view(f@),
                    fields_view(out@) == without_field(all, "run_actions"@, i as nat),
                decreases f@.len() - i,
            {
                let ghost had = out@;
                assert(all[i as int] == (f@[i as int].0@, f@[i as int].1@));
                if !same(f[i].0.as_str(), "run_actions") {
                    out.push((f[i].0.clone(), f[i].1.copy()));
                    assert(fields_view(out@) =~= fields_view(had).push(all[i as int]));
                }
                i = i + 1;
            }
            let rest: Json = object(out);
            sorted_json(&rest)
        },
        other => other.copy(),
    }
}

/// The events with nothing left to do among the first `n` that wait.
pub open spec fn done_events(rows: Seq<OutboxView>, n: nat) -> Seq<OutboxView> {
    Seq::new(
        rows.len(),
        |i: int|
            if i < n && rows[i].published_at is None && has_actions(rows[i].event) {
                OutboxView { event: done_event(rows[i].event), ..rows[i] }
            } else {
                rows[i]
            },
    )
}

/// Why the first of the first `n` events that waits and cannot be read cannot be.
pub open spec fn first_unreadable(rows: Seq<OutboxView>, n: nat) -> Option<KernelProblemView>
    decreases n,
{
    if n == 0 {
        None
    } else {
        match first_unreadable(rows, (n - 1) as nat) {
            Some(p) => Some(p),
            None => if rows[n - 1].published_at is None {
                match actions_of(rows[n - 1].event) {
                    Err(p) => Some(p),
                    Ok(_) => None,
                }
            } else {
                None
            },
        }
    }
}

/// Whether what was asked for of one thing to do came about.
pub open spec fn delivered<D: Fn(&RunActionDelivery) -> Result<(), KernelProblem>>(
    deliver: D,
    d: DeliveryView,
) -> bool {
    exists|given: RunActionDelivery, answer: Result<(), KernelProblem>|
        given@ == d && answer is Ok && #[trigger] deliver.ensures((&given,), answer)
}

/// Whether what was asked for of one thing to do failed.
pub open spec fn failed<D: Fn(&RunActionDelivery) -> Result<(), KernelProblem>>(
    deliver: D,
    d: DeliveryView,
    p: KernelProblemView,
) -> bool {
    exists|given: RunActionDelivery, q: KernelProblem|
        given@ == d && q@ == p && #[trigger] deliver.ensures((&given,), Err(q))
}

/// One of the things that an event leaves to do.
pub open spec fn one_of(
    stage: DeliveryStage,
    i: int,
    id: Seq<char>,
    list: Seq<JsonView>,
    k: int,
) -> DeliveryView {
    DeliveryView { stage, outbox_index: i, command_id: id, action_index: k, action: list[k] }
}

/// Whether what was asked for of the first things that an event leaves to do came about.
pub open spec fn gone_through<D: Fn(&RunActionDelivery) -> Result<(), KernelProblem>>(
    deliver: D,
    stage: DeliveryStage,
    i: int,
    id: Seq<char>,
    list: Seq<JsonView>,
    n: int,
) -> bool {
    forall|k: int| 0 <= k < n ==> delivered(deliver, #[trigger] one_of(stage, i, id, list, k))
}

/// Whether what was asked for of one thing to do failed, after those before it came about.
pub open spec fn broken_off<D: Fn(&RunActionDelivery) -> Result<(), KernelProblem>>(
    deliver: D,
    stage: DeliveryStage,
    i: int,
    id: Seq<char>,
    list: Seq<JsonView>,
    p: KernelProblemView,
) -> bool {
    exists|k: int|
        0 <= k < list.len() && failed(deliver, #[trigger] one_of(stage, i, id, list, k), p)
            && gone_through(deliver, stage, i, id, list, k)
}

/// Whether everything that an event leaves to do was read, and was done.
pub open spec fn all_delivered<D: Fn(&RunActionDelivery) -> Result<(), KernelProblem>>(
    deliver: D,
    rows: Seq<OutboxView>,
    i: int,
) -> bool {
    actions_of(rows[i].event) matches Ok(Some((id, list))) ==> gone_through(
        deliver,
        DeliveryStage::Read,
        i,
        id,
        list,
        list.len() as int,
    ) && gone_through(deliver, DeliveryStage::Do, i, id, list, list.len() as int)
}

/// Whether the events before a place have nothing left to do: what they left was done,
/// and taken off them.
pub open spec fn done_up_to<D: Fn(&RunActionDelivery) -> Result<(), KernelProblem>>(
    start: TargetTables,
    deliver: D,
    end: TargetTables,
    n: nat,
) -> bool {
    let rows = start.outbox;
    &&& end == (TargetTables { outbox: done_events(rows, n), ..start })
    &&& first_unreadable(rows, n) is None
    &&& forall|i: int|
        0 <= i < n && (#[trigger] rows[i]).published_at is None ==> all_delivered(
            deliver,
            rows,
            i,
        )
}

/// Whether something that an event leaves to do could not be read, so that nothing of it
/// was done; or failed, after all of it was read and what comes before was done.
pub open spec fn delivery_failed<D: Fn(&RunActionDelivery) -> Result<(), KernelProblem>>(
    deliver: D,
    rows: Seq<OutboxView>,
    i: int,
    p: KernelProblemView,
) -> bool {
    actions_of(rows[i].event) matches Ok(Some((id, list))) && (broken_off(
        deliver,
        DeliveryStage::Read,
        i,
        id,
        list,
        p,
    ) || gone_through(deliver, DeliveryStage::Read, i, id, list, list.len() as int) && broken_off(
        deliver,
        DeliveryStage::Do,
        i,
        id,
        list,
        p,
    ))
}

/// What holds between a target and itself after what its events left to do was tried.
pub open spec fn drained<D: Fn(&RunActionDelivery) -> Result<(), KernelProblem>>(
    start: TargetTables,
    deliver: D,
    end: TargetTables,
    answer: Result<(), KernelProblemView>,
) -> bool {
    match answer {
        Ok(_) => done_up_to(start, deliver, end, start.outbox.len()),
        Err(p) => exists|n: nat|
            n < start.outbox.len() && #[trigger] done_up_to(start, deliver, end, n)
                && start.outbox[n as int].published_at is None && (actions_of(
                start.outbox[n as int].event,
            ) == Err::<Option<(Seq<char>, Seq<JsonView>)>, KernelProblemView>(p)
                || delivery_failed(deliver, start.outbox, n as int, p)),
    }
}

/// Goes through what an event leaves to do, in order, up to the first failure.
fn go_through<D: Fn(&RunActionDelivery) -> Result<(), KernelProblem>>(
    deliver: &D,
    stage: DeliveryStage,
    i: usize,
    id: &CommandId,
    list: &Vec<Json>,
) -> (r: Result<(), KernelProblem>)
    requires
        forall|d: RunActionDelivery| #[trigger] deliver.requires((&d,)),
    ensures
        match r {
            Ok(_) => gone_through(
                *deliver,
                stage,
                i as int,
                id@,
                items_view(list@),
                list@.len() as int,
            ),
            Err(p) => broken_off(*deliver, stage, i as int, id@, items_view(list@), p@),
        },
{
    let ghost all = items_view(list@);
    let mut k: usize = 0;
    while k < list.len()
        invariant
            k <= list@.len(),
            all == items_view(list@),
            forall|d: RunActionDelivery| #[trigger] deliver.requires((&d,)),
            gone_through(*deliver, stage, i as int, id@, all, k as int),
        decreases list@.len() - k,
    {
        let delivery: RunActionDelivery = RunActionDelivery {
            stage,
            outbox_index: i,
            command_id: id.clone(),
            action_index: k,
            action: list[k].copy(),
        };
        assert(all[k as int] == list@[k as int]@);
        let ghost one = one_of(stage, i as int, id@, all, k as int);
        assert(delivery@ == one);
        let done: Result<(), KernelProblem> = deliver(&delivery);
        let ghost answer = done;
        match done {
            Ok(_) => {
                assert(deliver.ensures((&delivery,), answer));
                assert(delivered(*deliver, one));
            },
            Err(p) => {
                assert(deliver.ensures((&delivery,), Err(p)));
                assert(failed(*deliver, one, p@));
                return Err(p);
            },
        }
        k = k + 1;
    }
    Ok(())
}

/// Does what the events of a target leave to do, event by event in order, and takes it
/// off each event once all of it is done. What one event leaves is read as a whole before
/// any of it is done. It ends at the first event that cannot be read and at the first thing
/// that fails; the events before keep their state.
pub fn drain_run_action_outbox<D: Fn(&RunActionDelivery) -> Result<(), KernelProblem>>(
    target: &mut TargetDatabase,
    deliver: &D,
) -> (r: Result<(), KernelProblem>)
    requires
        old(target).wf(),
        forall|d: RunActionDelivery| #[trigger] deliver.requires((&d,)),
    ensures
        final(target).wf(),
        drained(old(target)@, *deliver, final(target)@, outcome(r)),
{
    let ghost rows = target@.outbox;
    let ghost start = target@;
    let waiting: &Vec<OutboxRow> = target.outbox();
    let count: usize = waiting.len();
    assert(events(waiting@).len() == count);
    let mut i: usize = 0;
    assert(done_events(rows, 0) =~= rows);
    while i < count
        invariant
            target.wf(),
            start == old(target)@,
            rows == start.outbox,
            count == rows.len(),
            i <= count,
            target@ == (TargetTables { outbox: done_events(rows, i as nat), ..start }),
            first_unreadable(rows, i as nat) is None,
            forall|d: RunActionDelivery| #[trigger] deliver.requires((&d,)),
            forall|k: int|
                0 <= k < i && (#[trigger] rows[k]).published_at is None ==> all_delivered(
                    *deliver,
                    rows,
                    k,
                ),
        decreases count - i,
    {
        let ghost now_there = target@.outbox;
        assert(now_there[i as int] == rows[i as int]);
        let waiting: &Vec<OutboxRow> = target.outbox();
        assert(events(waiting@).len() == waiting@.len());
        assert(events(waiting@)[i as int] == waiting@[i as int]@);
        let pending: bool = waiting[i].published_at.is_none();
        assert(pending == (rows[i as int].published_at is None));
        if pending {
            match read_actions(&waiting[i].event) {
                Err(p) => {
                    assert(done_up_to(start, *deliver, target@, i as nat));
                    return Err(p);
                },
                Ok(None) => {},
                Ok(Some((id, list))) => {
                    let read: Result<(), KernelProblem> = go_through(
                        deliver,
                        DeliveryStage::Read,
                        i,
                        &id,
                        &list,
                    );
                    let done: Result<(), KernelProblem> = match read {
                        Err(p) => Err(p),
                        Ok(_) => go_through(deliver, DeliveryStage::Do, i, &id, &list),
                    };
                    if let Err(p) = done {
                        assert(done_up_to(start, *deliver, target@, i as nat));
                        assert(delivery_failed(*deliver, rows, i as int, p@));
                        return Err(p);
                    }
                    let left: &Vec<OutboxRow> = target.outbox();
                    assert(events(left@).len() == left@.len());
                    assert(events(left@)[i as int] == left@[i as int]@);
                    let event: Json = take_actions_off(&left[i].event);
                    target.replace_event(i, event);
                },
            }
        }
        assert(target@.outbox =~= done_events(rows, (i + 1) as nat));
        i = i + 1;
    }
    assert(done_up_to(start, *deliver, target@, rows.len()));
    Ok(())
}

/// Once everything is done nothing that waits leaves something to do.
pub proof fn law_nothing_is_left_after_draining(rows: Seq<OutboxView>)
    ensures
        forall|i: int|
            0 <= i < rows.len() && (#[trigger] done_events(rows, rows.len())[i]).published_at
                is None ==> !has_actions(done_events(rows, rows.len())[i].event),
{
    assert forall|i: int|
        0 <= i < rows.len() && (#[trigger] done_events(rows, rows.len())[i]).published_at
            is None implies !has_actions(done_events(rows, rows.len())[i].event) by {
        if has_actions(rows[i].event) {
            let f = rows[i].event->Object_0;
            let rest = without_field(f, "run_actions"@, f.len());
            lemma_field_gone(f, "run_actions"@, f.len());
            law_sorting_keeps_the_fields(rest, "run_actions"@);
            lemma_field_in(rest, "run_actions"@);
        }
    }
}

/// A field that is not there is not there without another one.
pub proof fn lemma_absent_stays(
    f: Seq<(Seq<char>, JsonView)>,
    name: Seq<char>,
    k: Seq<char>,
    n: nat,
)
    requires
        n <= f.len(),
        field_in(f, k) is None,
    ensures
        field_in(without_field(f, name, n), k) is None,
    decreases n,
{
    if n > 0 {
        lemma_absent_stays(f, name, k, (n - 1) as nat);
        lemma_field_in(f, k);
        lemma_field_in_push(without_field(f, name, (n - 1) as nat), f[n - 1], k);
        assert(f[n - 1].0 != k);
    }
}

proof fn lemma_field_gone(f: Seq<(Seq<char>, JsonView)>, name: Seq<char>, n: nat)
    requires
        n <= f.len(),
    ensures
        forall|i: int|
            0 <= i < without_field(f, name, n).len() ==> (#[trigger] without_field(
                f,
                name,
                n,
            )[i]).0 != name,
    decreases n,
{
    if n > 0 {
        lemma_field_gone(f, name, (n - 1) as nat);
        let rest = without_field(f, name, (n - 1) as nat);
        let all = without_field(f, name, n);
        assert forall|i: int| 0 <= i < all.len() implies (#[trigger] all[i]).0 != name by {
            if i < rest.len() {
                assert(all[i] == rest[i]);
            }
        }
    }
}

} // verus!
