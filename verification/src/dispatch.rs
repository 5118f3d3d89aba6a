//! The coordinator of the command chain: an intent in the service store, then the
//! effect with its receipt and events in the target store, then the end of the
//! intent. What is durable decides: a receipt means that the effect took place.

use crate::command::{
    aggregate_json, aggregate_value, CommandEnvelope, CommandProblem, EnvelopeView, ProblemView,
    ServiceIdempotencyKey,
};
use crate::handles::{outcome, AggregateRef, AggregateView, CommandId, TargetStoreKind};
use crate::json::{
    array, fields, has_sensitive, holds_text, items_view, object, put, sorted_json, sorted_view,
    txt, value_contains, value_has_sensitive_field, Json, JsonView,
};
use crate::lease::CommandAuthorizer;
use crate::table::{in_order_of, Row, Table};
use crate::text::{begins, cat, copy_opt, has_prefix, opt_view, same, same_opt, texts};
use vstd::prelude::*;
use vstd::string::*;

verus! {

/// Where an intent stands. Every state but `Reserved` is final.
#[derive(Debug, Clone, Copy, PartialEq, Eq, Structural)]
pub enum IntentState {
    Reserved,
    Applied,
    Failed,
    Cancelled,
    Revoked,
}

impl IntentState {
    /// The stored name of a state.
    pub open spec fn name(self) -> Seq<char> {
        match self {
            IntentState::Reserved => "reserved"@,
            IntentState::Applied => "applied"@,
            IntentState::Failed => "failed"@,
            IntentState::Cancelled => "cancelled"@,
            IntentState::Revoked => "revoked"@,
        }
    }

    /// The stored name of a state.
    pub fn as_str(self) -> (r: &'static str)
        ensures
            r@ == self.name(),
    {
        match self {
            IntentState::Reserved => "reserved",
            IntentState::Applied => "applied",
            IntentState::Failed => "failed",
            IntentState::Cancelled => "cancelled",
            IntentState::Revoked => "revoked",
        }
    }

    /// The state of a stored name.
    pub open spec fn named(value: Seq<char>) -> Result<IntentState, ProblemView> {
        if value == "reserved"@ {
            Ok(IntentState::Reserved)
        } else if value == "applied"@ {
            Ok(IntentState::Applied)
        } else if value == "failed"@ {
            Ok(IntentState::Failed)
        } else if value == "cancelled"@ {
            Ok(IntentState::Cancelled)
        } else if value == "revoked"@ {
            Ok(IntentState::Revoked)
        } else {
            Err(ProblemView::Internal("未知 command_intent.state:"@ + value))
        }
    }

    /// Reads a stored state; an unknown name is refused.
    pub fn parse(value: &str) -> (r: Result<IntentState, CommandProblem>)
        ensures
            match r {
                Ok(state) => IntentState::named(value@) == Ok::<IntentState, ProblemView>(state),
                Err(p) => IntentState::named(value@) == Err::<IntentState, ProblemView>(p@),
            },
    {
        if same(value, "reserved") {
            Ok(IntentState::Reserved)
        } else if same(value, "applied") {
            Ok(IntentState::Applied)
        } else if same(value, "failed") {
            Ok(IntentState::Failed)
        } else if same(value, "cancelled") {
            Ok(IntentState::Cancelled)
        } else if same(value, "revoked") {
            Ok(IntentState::Revoked)
        } else {
            Err(CommandProblem::Internal(cat("未知 command_intent.state:", value)))
        }
    }
}

/// Reading the stored name of a state gives the state back.
pub proof fn law_intent_state_round_trip(state: IntentState)
    ensures
        IntentState::named(state.name()) == Ok::<IntentState, ProblemView>(state),
{
    reveal_strlit("reserved");
    reveal_strlit("applied");
    reveal_strlit("failed");
    reveal_strlit("cancelled");
    reveal_strlit("revoked");
    assert("failed"@[0] == 'f');
    assert("applied"@[0] == 'a');
    assert("reserved"@[2] == 's');
    assert("revoked"@[2] == 'v');
    assert("cancelled"@[0] == 'c');
}

/// A stored intent.
#[derive(Debug)]
pub struct IntentRow {
    pub command_id: String,
    pub semantic_digest: String,
    pub target_store: String,
    pub aggregate: String,
    pub principal: String,
    pub client_id: String,
    pub controller_epoch: i64,
    pub root_epoch: Option<i64>,
    pub state: IntentState,
    pub created_at: String,
    pub resolved_at: Option<String>,
    pub problem_code: Option<String>,
}

/// A stored intent, as a value.
pub ghost struct IntentView {
    pub command_id: Seq<char>,
    pub semantic_digest: Seq<char>,
    pub target_store: Seq<char>,
    pub aggregate: Seq<char>,
    pub principal: Seq<char>,
    pub client_id: Seq<char>,
    pub controller_epoch: i64,
    pub root_epoch: Option<i64>,
    pub state: IntentState,
    pub created_at: Seq<char>,
    pub resolved_at: Option<Seq<char>>,
    pub problem_code: Option<Seq<char>>,
}

impl View for IntentRow {
    type V = IntentView;

    open spec fn view(&self) -> IntentView {
        IntentView {
            command_id: self.command_id@,
            semantic_digest: self.semantic_digest@,
            target_store: self.target_store@,
            aggregate: self.aggregate@,
            principal: self.principal@,
            client_id: self.client_id@,
            controller_epoch: self.controller_epoch,
            root_epoch: self.root_epoch,
            state: self.state,
            created_at: self.created_at@,
            resolved_at: opt_view(self.resolved_at),
            problem_code: opt_view(self.problem_code),
        }
    }
}

impl Row for IntentRow {
    open spec fn key_of(v: IntentView) -> Seq<char> {
        v.command_id
    }

    fn key(&self) -> (r: &str) {
        self.command_id.as_str()
    }
}

impl Clone for IntentRow {
    fn clone(&self) -> (r: Self)
        ensures
            r == *self,
    {
        IntentRow {
            command_id: self.command_id.clone(),
            semantic_digest: self.semantic_digest.clone(),
            target_store: self.target_store.clone(),
            aggregate: self.aggregate.clone(),
            principal: self.principal.clone(),
            client_id: self.client_id.clone(),
            controller_epoch: self.controller_epoch,
            root_epoch: self.root_epoch,
            state: self.state,
            created_at: self.created_at.clone(),
            resolved_at: copy_opt(&self.resolved_at),
            problem_code: copy_opt(&self.problem_code),
        }
    }
}

/// The intents by command id.
pub type Intents = Map<Seq<char>, IntentView>;

/// Where an intent came to when it was given a final state and a code.
pub open spec fn finish_intent_view(
    intents: Intents,
    id: Seq<char>,
    state: IntentState,
    code: Option<Seq<char>>,
    now: Seq<char>,
) -> (Intents, Result<(), ProblemView>) {
    if !intents.contains_key(id) {
        (intents, Err(ProblemView::Internal("command intent 消失"@)))
    } else if intents[id].state is Reserved {
        (
            intents.insert(
                id,
                IntentView { state, resolved_at: Some(now), problem_code: code, ..intents[id] },
            ),
            Ok(()),
        )
    } else if intents[id].state == state && intents[id].problem_code == code {
        (intents, Ok(()))
    } else {
        (
            intents,
            Err(
                ProblemView::Internal(
                    "command intent 终态冲突:current="@ + intents[id].state.name() + " attempted="@
                        + state.name(),
                ),
            ),
        )
    }
}

/// Gives an intent a final state and a code. Only a reserved intent changes; the
/// same end once more is accepted, another one is refused.
pub fn finish_intent(
    intents: &mut Table<IntentRow>,
    command_id: &str,
    state: IntentState,
    problem_code: Option<String>,
    now: &str,
) -> (r: Result<(), CommandProblem>)
    requires
        old(intents).wf(),
    ensures
        final(intents).wf(),
        (final(intents)@, outcome(r)) == finish_intent_view(
            old(intents)@,
            command_id@,
            state,
            opt_view(problem_code),
            now@,
        ),
{
    let mut row: IntentRow = match intents.get(command_id) {
        None => {
            return Err(CommandProblem::internal("command intent 消失"));
        },
        Some(row) => row.clone(),
    };
    if row.state == IntentState::Reserved {
        row.state = state;
        row.resolved_at = Some(now.to_owned());
        row.problem_code = problem_code;
        intents.put(row);
        return Ok(());
    }
    if row.state == state && same_opt(&row.problem_code, &problem_code) {
        Ok(())
    } else {
        let mut m: String = cat("command intent 终态冲突:current=", row.state.as_str());
        m.append(" attempted=");
        m.append(state.as_str());
        Err(CommandProblem::Internal(m))
    }
}

/// A stored receipt: the proof that an effect took place.
#[derive(Debug)]
pub struct ReceiptRow {
    pub command_id: String,
    pub semantic_digest: String,
    pub aggregate_handle: String,
    pub result: Json,
    pub state: String,
    pub created_at: String,
    pub finalized_at: Option<String>,
}

/// A stored receipt, as a value.
pub ghost struct ReceiptView {
    pub command_id: Seq<char>,
    pub semantic_digest: Seq<char>,
    pub aggregate_handle: Seq<char>,
    pub result: JsonView,
    pub state: Seq<char>,
    pub created_at: Seq<char>,
    pub finalized_at: Option<Seq<char>>,
}

impl View for ReceiptRow {
    type V = ReceiptView;

    open spec fn view(&self) -> ReceiptView {
        ReceiptView {
            command_id: self.command_id@,
            semantic_digest: self.semantic_digest@,
            aggregate_handle: self.aggregate_handle@,
            result: self.result@,
            state: self.state@,
            created_at: self.created_at@,
            finalized_at: opt_view(self.finalized_at),
        }
    }
}

impl Row for ReceiptRow {
    open spec fn key_of(v: ReceiptView) -> Seq<char> {
        v.command_id
    }

    fn key(&self) -> (r: &str) {
        self.command_id.as_str()
    }
}

/// The receipts by command id.
pub type Receipts = Map<Seq<char>, ReceiptView>;

/// What the receipt under an id proves of an effect with that digest on that
/// aggregate: nothing where there is none; a receipt of something else means the
/// id was used twice; one that is not final is still in progress.
pub open spec fn receipt_result(
    receipts: Receipts,
    id: Seq<char>,
    digest: Seq<char>,
    aggregate: Seq<char>,
) -> Result<Option<JsonView>, ProblemView> {
    if !receipts.contains_key(id) {
        Ok(None)
    } else if receipts[id].semantic_digest != digest || receipts[id].aggregate_handle
        != aggregate {
        Err(ProblemView::CommandIdReused)
    } else if receipts[id].state != "applied"@ || receipts[id].finalized_at is None {
        Err(ProblemView::CommandInProgress)
    } else {
        Ok(Some(receipts[id].result))
    }
}

/// The view of an optional value in a result.
pub open spec fn found<T: View>(r: Result<Option<T>, CommandProblem>) -> Result<
    Option<T::V>,
    ProblemView,
> {
    match r {
        Ok(Some(t)) => Ok(Some(t@)),
        Ok(None) => Ok(None),
        Err(p) => Err(p@),
    }
}

/// What the receipt under an id proves.
pub fn validated_receipt_result(
    receipts: &Table<ReceiptRow>,
    receipt_id: &str,
    semantic_digest: &str,
    aggregate_handle: &str,
) -> (r: Result<Option<Json>, CommandProblem>)
    requires
        receipts.wf(),
    ensures
        found(r) == receipt_result(
            receipts@,
            receipt_id@,
            semantic_digest@,
            aggregate_handle@,
        ),
{
    match receipts.get(receipt_id) {
        None => Ok(None),
        Some(row) => {
            if !same(row.semantic_digest.as_str(), semantic_digest) || !same(
                row.aggregate_handle.as_str(),
                aggregate_handle,
            ) {
                Err(CommandProblem::CommandIdReused)
            } else if !same(row.state.as_str(), "applied") || row.finalized_at.is_none() {
                Err(CommandProblem::CommandInProgress)
            } else {
                Ok(Some(row.result.copy()))
            }
        },
    }
}

/// An event that waits to be published, or was.
#[derive(Debug)]
pub struct OutboxRow {
    pub event: Json,
    pub published_at: Option<String>,
}

/// An event that waits to be published, or was, as a value.
pub ghost struct OutboxView {
    pub event: JsonView,
    pub published_at: Option<Seq<char>>,
}

impl View for OutboxRow {
    type V = OutboxView;

    open spec fn view(&self) -> OutboxView {
        OutboxView { event: self.event@, published_at: opt_view(self.published_at) }
    }
}

/// The events of a target in the order they were written.
pub open spec fn events(rows: Seq<OutboxRow>) -> Seq<OutboxView> {
    rows.map_values(|row: OutboxRow| row@)
}

/// The changes that wait to be published, in the order they were written.
pub open spec fn pending(rows: Seq<OutboxView>) -> Seq<JsonView>
    decreases rows.len(),
{
    if rows.len() == 0 {
        seq![]
    } else if rows.last().published_at is None {
        pending(rows.drop_last()).push(rows.last().event)
    } else {
        pending(rows.drop_last())
    }
}

/// The events with everything that waited marked as done.
pub open spec fn closed_off(rows: Seq<OutboxView>, mark: Seq<char>) -> Seq<OutboxView> {
    rows.map_values(
        |row: OutboxView|
            if row.published_at is None {
                OutboxView { published_at: Some(mark), ..row }
            } else {
                row
            },
    )
}

/// Nothing waits any more once everything is marked as done.
pub proof fn law_nothing_waits_once_closed_off(rows: Seq<OutboxView>, mark: Seq<char>)
    ensures
        pending(closed_off(rows, mark)) == Seq::<JsonView>::empty(),
        closed_off(closed_off(rows, mark), mark) == closed_off(rows, mark),
    decreases rows.len(),
{
    assert(closed_off(closed_off(rows, mark), mark) =~= closed_off(rows, mark));
    if rows.len() > 0 {
        law_nothing_waits_once_closed_off(rows.drop_last(), mark);
        assert(closed_off(rows, mark).drop_last() =~= closed_off(rows.drop_last(), mark));
    }
}

/// What a command layer keeps in a target store: receipts and events, beside the
/// data of the domain itself.
pub struct TargetDatabase {
    kind: TargetStoreKind,
    store_key: String,
    receipts: Table<ReceiptRow>,
    outbox: Vec<OutboxRow>,
}

/// A target store, as a value.
pub ghost struct TargetTables {
    pub kind: TargetStoreKind,
    pub store_key: Seq<char>,
    pub receipts: Receipts,
    pub outbox: Seq<OutboxView>,
}

impl View for TargetDatabase {
    type V = TargetTables;

    closed spec fn view(&self) -> TargetTables {
        TargetTables {
            kind: self.kind,
            store_key: self.store_key@,
            receipts: self.receipts@,
            outbox: events(self.outbox@),
        }
    }
}

impl TargetDatabase {
    /// The tables are well formed.
    pub closed spec fn wf(self) -> bool {
        self.receipts.wf()
    }

    /// The ids of the receipts, in the order they were written.
    pub closed spec fn receipt_order(self) -> Seq<Seq<char>> {
        self.receipts.order()
    }

    /// A project store with the receipts and events it holds.
    pub fn project(
        project_handle: &str,
        receipts: Table<ReceiptRow>,
        outbox: Vec<OutboxRow>,
    ) -> (r: Result<Self, CommandProblem>)
        requires
            receipts.wf(),
        ensures
            outcome(r) == (if !begins("proj_"@, project_handle@) {
                Err::<TargetTables, ProblemView>(
                    ProblemView::InvalidEnvelope("Project target store 必须是 proj_ handle"@),
                )
            } else {
                Ok(
                    TargetTables {
                        kind: TargetStoreKind::Project,
                        store_key: "project:"@ + project_handle@,
                        receipts: receipts@,
                        outbox: events(outbox@),
                    },
                )
            }),
            r matches Ok(t) ==> t.wf() && t.receipt_order() == receipts.order(),
    {
        if !has_prefix(project_handle, "proj_") {
            return Err(CommandProblem::invalid("Project target store 必须是 proj_ handle"));
        }
        Ok(
            TargetDatabase {
                kind: TargetStoreKind::Project,
                store_key: cat("project:", project_handle),
                receipts,
                outbox,
            },
        )
    }

    /// The catalog store with the receipts and events it holds.
    pub fn catalog(receipts: Table<ReceiptRow>, outbox: Vec<OutboxRow>) -> (r: Self)
        requires
            receipts.wf(),
        ensures
            r.wf(),
            r@ == (TargetTables {
                kind: TargetStoreKind::Catalog,
                store_key: "catalog"@,
                receipts: receipts@,
                outbox: events(outbox@),
            }),
            r.receipt_order() == receipts.order(),
    {
        TargetDatabase {
            kind: TargetStoreKind::Catalog,
            store_key: "catalog".to_owned(),
            receipts,
            outbox,
        }
    }

    pub fn kind(&self) -> (r: TargetStoreKind)
        ensures
            r == self@.kind,
    {
        self.kind
    }

    pub fn store_key(&self) -> (r: &str)
        ensures
            r@ == self@.store_key,
    {
        self.store_key.as_str()
    }

    /// Writes a receipt.
    pub fn write_receipt(&mut self, row: ReceiptRow)
        requires
            old(self).wf(),
        ensures
            final(self).wf(),
            final(self)@ == (TargetTables {
                receipts: old(self)@.receipts.insert(row@.command_id, row@),
                ..old(self)@
            }),
    {
        self.receipts.put(row);
    }

    /// Writes an event that waits to be published.
    pub fn write_event(&mut self, event: Json)
        requires
            old(self).wf(),
        ensures
            final(self).wf(),
            final(self)@ == (TargetTables {
                outbox: old(self)@.outbox.push(OutboxView { event: event@, published_at: None }),
                ..old(self)@
            }),
    {
        self.outbox.push(OutboxRow { event, published_at: None });
        assert(events(self.outbox@) =~= events(old(self).outbox@).push(
            OutboxView { event: event@, published_at: None },
        ));
    }

    /// The changes that wait to be published, in the order they were written.
    pub fn pending(&self) -> (r: Vec<Json>)
        ensures
            items_view(r@) == pending(self@.outbox),
    {
        let mut out: Vec<Json> = Vec::new();
        let mut i: usize = 0;
        proof {
            assert(items_view(out@) =~= pending(self@.outbox.take(0)));
        }
        while i < self.outbox.len()
            invariant
                i <= self.outbox@.len(),
                self@.outbox == events(self.outbox@),
                items_view(out@) == pending(self@.outbox.take(i as int)),
            decreases self.outbox@.len() - i,
        {
            let ghost before = out@;
            if self.outbox[i].published_at.is_none() {
                out.push(self.outbox[i].event.copy());
                assert(items_view(out@) =~= items_view(before).push(self.outbox@[i as int].event@));
            }
            assert(self@.outbox.take(i + 1).drop_last() =~= self@.outbox.take(i as int));
            i = i + 1;
        }
        assert(self@.outbox.take(i as int) =~= self@.outbox);
        out
    }

    /// Marks everything that waits as done.
    pub fn close_pending(&mut self, mark: &str)
        requires
            old(self).wf(),
        ensures
            final(self).wf(),
            final(self)@ == (TargetTables {
                outbox: closed_off(old(self)@.outbox, mark@),
                ..old(self)@
            }),
    {
        let mut i: usize = 0;
        while i < self.outbox.len()
            invariant
                self.wf(),
                i <= self.outbox@.len(),
                self.outbox@.len() == old(self).outbox@.len(),
                self.kind == old(self).kind,
                self.store_key == old(self).store_key,
                self.receipts == old(self).receipts,
                forall|k: int|
                    0 <= k < i ==> (#[trigger] self.outbox@[k])@ == closed_off(
                        events(old(self).outbox@),
                        mark@,
                    )[k],
                forall|k: int|
                    i <= k < self.outbox@.len() ==> (#[trigger] self.outbox@[k])
                        == old(self).outbox@[k],
            decreases self.outbox@.len() - i,
        {
            if self.outbox[i].published_at.is_none() {
                let row: OutboxRow = OutboxRow {
                    event: self.outbox[i].event.copy(),
                    published_at: Some(mark.to_owned()),
                };
                self.outbox.set(i, row);
            }
            i = i + 1;
        }
        assert(events(self.outbox@) =~= closed_off(events(old(self).outbox@), mark@));
    }

    /// Puts another event in the place of one, which stays as it is marked.
    pub fn replace_event(&mut self, at: usize, event: Json)
        requires
            old(self).wf(),
            at < old(self)@.outbox.len(),
        ensures
            final(self).wf(),
            final(self)@ == (TargetTables {
                outbox: old(self)@.outbox.update(
                    at as int,
                    OutboxView { event: event@, ..old(self)@.outbox[at as int] },
                ),
                ..old(self)@
            }),
    {
        let ghost had = self.outbox@;
        let row: OutboxRow = OutboxRow {
            event,
            published_at: copy_opt(&self.outbox[at].published_at),
        };
        self.outbox.set(at, row);
        assert(events(self.outbox@) =~= events(had).update(at as int, row@));
    }

    /// Takes an event out.
    pub fn drop_event(&mut self, at: usize)
        requires
            old(self).wf(),
            at < old(self)@.outbox.len(),
        ensures
            final(self).wf(),
            final(self)@ == (TargetTables {
                outbox: old(self)@.outbox.remove(at as int),
                ..old(self)@
            }),
    {
        let ghost had = self.outbox@;
        self.outbox.remove(at);
        assert(events(self.outbox@) =~= events(had).remove(at as int));
    }

    /// The ids of the receipts, in the order they were written.
    pub fn receipt_ids(&self) -> (r: Vec<String>)
        requires
            self.wf(),
        ensures
            texts(r@) == self.receipt_order(),
            texts(r@).no_duplicates(),
            texts(r@).to_set() == self@.receipts.dom(),
            self@.receipts.dom().finite(),
            self@.receipts.dom().len() == r@.len(),
            forall|id: Seq<char>| #[trigger]
                self@.receipts.contains_key(id) <==> texts(r@).contains(id),
    {
        self.receipts.keys()
    }

    /// Takes a receipt out.
    pub fn drop_receipt(&mut self, id: &str)
        requires
            old(self).wf(),
        ensures
            final(self).wf(),
            final(self)@ == (TargetTables {
                receipts: old(self)@.receipts.remove(id@),
                ..old(self)@
            }),
            in_order_of(final(self).receipt_order(), old(self).receipt_order()),
    {
        self.receipts.remove(id);
    }

    /// The events of a target, in the order they were written.
    pub fn outbox(&self) -> (r: &Vec<OutboxRow>)
        ensures
            events(r@) == self@.outbox,
    {
        &self.outbox
    }

    /// The receipt under an id, whatever it is of.
    pub fn receipt_row(&self, id: &str) -> (r: Option<&ReceiptRow>)
        requires
            self.wf(),
        ensures
            match r {
                Some(row) => self@.receipts.contains_key(id@) && self@.receipts[id@] == row@,
                None => !self@.receipts.contains_key(id@),
            },
    {
        self.receipts.get(id)
    }

    /// What the receipt under an id proves.
    pub fn receipt(&self, id: &str, digest: &str, aggregate: &str) -> (r: Result<
        Option<Json>,
        CommandProblem,
    >)
        requires
            self.wf(),
        ensures
            found(r) == receipt_result(self@.receipts, id@, digest@, aggregate@),
    {
        validated_receipt_result(&self.receipts, id, digest, aggregate)
    }
}

/// One change of a projection that an effect brings about.
#[derive(Debug)]
pub struct ProjectionEffect {
    /// The aggregate that changed; without one, the target of the command.
    pub aggregate: Option<AggregateRef>,
    /// The name of the event; without one, the name of the command.
    pub event_type: Option<String>,
    pub projection_critical: bool,
    pub payload: Json,
    /// Work that has to be handed out once the effect is durable.
    pub run_actions: Vec<Json>,
}

/// One change of a projection, as a value.
pub ghost struct ProjectionChange {
    pub aggregate: Option<AggregateView>,
    pub event_type: Option<Seq<char>>,
    pub projection_critical: bool,
    pub payload: JsonView,
    pub run_actions: Seq<JsonView>,
}

impl View for ProjectionEffect {
    type V = ProjectionChange;

    open spec fn view(&self) -> ProjectionChange {
        ProjectionChange {
            aggregate: match self.aggregate {
                Some(a) => Some(a@),
                None => None,
            },
            event_type: opt_view(self.event_type),
            projection_critical: self.projection_critical,
            payload: self.payload@,
            run_actions: items_view(self.run_actions@),
        }
    }
}

impl ProjectionEffect {
    /// A critical change of the command's own target under the command's name.
    pub fn primary(payload: Json) -> (r: Self)
        ensures
            r@ == (ProjectionChange {
                aggregate: None,
                event_type: None,
                projection_critical: true,
                payload: payload@,
                run_actions: Seq::empty(),
            }),
    {
        ProjectionEffect {
            aggregate: None,
            event_type: None,
            projection_critical: true,
            payload,
            run_actions: crate::json::items(),
        }
    }
}

/// The changes of a list.
pub open spec fn changes(v: Seq<ProjectionEffect>) -> Seq<ProjectionChange> {
    v.map_values(|p: ProjectionEffect| p@)
}

/// What an effect hands back: the revisions it led to and what changed. No change
/// means that there was nothing to do.
#[derive(Debug)]
pub struct EffectOutput {
    pub result_revisions: Json,
    pub projections: Vec<ProjectionEffect>,
}

/// What an effect hands back, as a value.
pub ghost struct EffectView {
    pub result_revisions: JsonView,
    pub projections: Seq<ProjectionChange>,
}

impl View for EffectOutput {
    type V = EffectView;

    open spec fn view(&self) -> EffectView {
        EffectView {
            result_revisions: self.result_revisions@,
            projections: changes(self.projections@),
        }
    }
}

impl EffectView {
    /// Whether a field name in the result or in an event announces a credential.
    pub open spec fn sensitive(self) -> bool {
        has_sensitive(self.result_revisions) || exists|i: int|
            0 <= i < self.projections.len() && has_sensitive(
                (#[trigger] self.projections[i]).payload,
            )
    }

    /// Whether the result or an event holds the secret.
    pub open spec fn reveals(self, secret: Seq<char>) -> bool {
        holds_text(self.result_revisions, secret) || exists|i: int|
            0 <= i < self.projections.len() && holds_text(
                (#[trigger] self.projections[i]).payload,
                secret,
            )
    }

    /// Whether the output of a command must not become durable.
    pub open spec fn leaks(self, secret: Option<Seq<char>>) -> bool {
        self.sensitive() || (secret matches Some(s) && self.reveals(s))
    }
}

impl EffectOutput {
    /// An output with one change of the command's own target.
    pub fn for_contract(result_revisions: Json, projection: Json) -> (r: Self)
        ensures
            r@.result_revisions == result_revisions@,
            r@.projections == seq![
                ProjectionChange {
                    aggregate: None,
                    event_type: None,
                    projection_critical: true,
                    payload: projection@,
                    run_actions: Seq::empty(),
                },
            ],
    {
        let mut projections: Vec<ProjectionEffect> = Vec::new();
        projections.push(ProjectionEffect::primary(projection));
        assert(changes(projections@) =~= seq![projections@[0]@]);
        EffectOutput { result_revisions, projections }
    }

    fn is_sensitive(&self) -> (r: bool)
        ensures
            r == self@.sensitive(),
    {
        if value_has_sensitive_field(&self.result_revisions) {
            return true;
        }
        let mut i: usize = 0;
        while i < self.projections.len()
            invariant
                i <= self.projections@.len(),
                !has_sensitive(self@.result_revisions),
                forall|k: int|
                    0 <= k < i ==> !has_sensitive((#[trigger] self@.projections[k]).payload),
            decreases self.projections@.len() - i,
        {
            assert(self@.projections[i as int] == self.projections@[i as int]@);
            if value_has_sensitive_field(&self.projections[i].payload) {
                return true;
            }
            i = i + 1;
        }
        false
    }

    fn holds_secret(&self, secret: &str) -> (r: bool)
        ensures
            r == self@.reveals(secret@),
    {
        if value_contains(&self.result_revisions, secret) {
            return true;
        }
        let mut i: usize = 0;
        while i < self.projections.len()
            invariant
                i <= self.projections@.len(),
                !holds_text(self@.result_revisions, secret@),
                forall|k: int|
                    0 <= k < i ==> !holds_text((#[trigger] self@.projections[k]).payload, secret@),
            decreases self.projections@.len() - i,
        {
            assert(self@.projections[i as int] == self.projections@[i as int]@);
            if value_contains(&self.projections[i].payload, secret) {
                return true;
            }
            i = i + 1;
        }
        false
    }

    /// Whether this output must not become durable.
    pub fn leaks(&self, secret: Option<&str>) -> (r: bool)
        ensures
            r == self@.leaks(
                match secret {
                    Some(s) => Some(s@),
                    None => None,
                },
            ),
    {
        self.is_sensitive() || match secret {
            Some(s) => self.holds_secret(s),
            None => false,
        }
    }
}

/// The schema name of the work that an event carries privately until it was
/// handed out.
pub const DURABLE_RUN_ACTIONS_SCHEMA: &'static str = "mf.run_actions.v1";

/// The event that a change is written to the outbox as, before its fields are put
/// in order.
pub open spec fn change_event(e: EnvelopeView, change: ProjectionChange) -> JsonView {
    let aggregate = match change.aggregate {
        Some(a) => a,
        None => e.target.aggregate,
    };
    let event_type = match change.event_type {
        Some(t) => t,
        None => e.command_type.name(),
    };
    let plain = seq![
        ("type"@, JsonView::Text(event_type + ".applied"@)),
        ("aggregate"@, aggregate_json(aggregate)),
        ("caused_by_command_id"@, JsonView::Text(e.command_id)),
        ("projection_critical"@, JsonView::Bool(change.projection_critical)),
        ("projection"@, change.payload),
    ];
    if change.run_actions.len() == 0 {
        JsonView::Object(plain)
    } else {
        JsonView::Object(
            plain.push(
                (
                    "run_actions"@,
                    JsonView::Object(
                        seq![
                            ("schema"@, JsonView::Text(DURABLE_RUN_ACTIONS_SCHEMA@)),
                            ("actions"@, JsonView::Array(change.run_actions)),
                        ],
                    ),
                ),
            ),
        )
    }
}

/// The events that the changes of an effect are written to the outbox as.
pub open spec fn change_events(e: EnvelopeView, list: Seq<ProjectionChange>) -> Seq<OutboxView> {
    list.map_values(
        |c: ProjectionChange| OutboxView { event: sorted_view(change_event(e, c)), published_at: None },
    )
}

fn change_value(envelope: &CommandEnvelope, change: ProjectionEffect) -> (r: Json)
    ensures
        r@ == sorted_view(change_event(envelope@, change@)),
{
    let aggregate: AggregateRef = match change.aggregate {
        Some(a) => a,
        None => envelope.target().aggregate.clone(),
    };
    let event_type: String = match change.event_type {
        Some(t) => t,
        None => envelope.command_type().as_str().to_owned(),
    };
    let mut f: Vec<(String, Json)> = fields();
    put(&mut f, "type", Json::Text(cat(event_type.as_str(), ".applied")));
    put(&mut f, "aggregate", aggregate_value(&aggregate));
    put(&mut f, "caused_by_command_id", txt(envelope.command_id().as_str()));
    put(&mut f, "projection_critical", Json::Bool(change.projection_critical));
    put(&mut f, "projection", change.payload);
    let ghost plain = crate::json::fields_view(f@);
    if change.run_actions.len() > 0 {
        let mut private: Vec<(String, Json)> = fields();
        put(&mut private, "schema", txt(DURABLE_RUN_ACTIONS_SCHEMA));
        put(&mut private, "actions", array(change.run_actions));
        let block: Json = object(private);
        assert(block@->Object_0 =~= seq![
            ("schema"@, JsonView::Text(DURABLE_RUN_ACTIONS_SCHEMA@)),
            ("actions"@, JsonView::Array(change@.run_actions)),
        ]);
        put(&mut f, "run_actions", block);
    }
    let whole: Json = object(f);
    assert(whole@->Object_0 =~= change_event(envelope@, change@)->Object_0);
    sorted_json(&whole)
}

/// What a command led to: the revisions, and whether they come from a receipt
/// that was there before.
#[derive(Debug)]
pub enum CommandOutcome {
    Applied { result_revisions: Json, replayed: bool },
}

/// What a command led to, as a value.
pub ghost struct AppliedView {
    pub result: JsonView,
    pub replayed: bool,
}

impl View for CommandOutcome {
    type V = AppliedView;

    open spec fn view(&self) -> AppliedView {
        match *self {
            CommandOutcome::Applied { result_revisions, replayed } => AppliedView {
                result: result_revisions@,
                replayed,
            },
        }
    }
}

/// Where a crash can be simulated.
#[derive(Debug, Clone, Copy, PartialEq, Eq, Structural)]
pub enum FaultPoint {
    AfterIntentReserve,
    AfterTargetCommit,
}

/// The refusal that a stored code stands for.
pub open spec fn problem_of_code(code: Seq<char>) -> Option<ProblemView> {
    if code == "controller_lease_expired"@ {
        Some(ProblemView::ControllerLeaseExpired)
    } else if code == "root_epoch_expired"@ {
        Some(ProblemView::RootEpochExpired)
    } else if code == "revision_conflict"@ {
        Some(ProblemView::RevisionConflict)
    } else if code == "resource_not_found"@ {
        Some(ProblemView::ResourceNotFound)
    } else if code == "invalid_envelope"@ {
        Some(ProblemView::InvalidEnvelope("previous command rejected"@))
    } else {
        None
    }
}

/// The refusal that a stored code stands for.
pub fn problem_for_terminal_code(code: &str) -> (r: Option<CommandProblem>)
    ensures
        match r {
            Some(p) => problem_of_code(code@) == Some(p@),
            None => problem_of_code(code@) is None,
        },
{
    if same(code, "controller_lease_expired") {
        Some(CommandProblem::ControllerLeaseExpired)
    } else if same(code, "root_epoch_expired") {
        Some(CommandProblem::RootEpochExpired)
    } else if same(code, "revision_conflict") {
        Some(CommandProblem::RevisionConflict)
    } else if same(code, "resource_not_found") {
        Some(CommandProblem::ResourceNotFound)
    } else if same(code, "invalid_envelope") {
        Some(CommandProblem::invalid("previous command rejected"))
    } else {
        None
    }
}

/// The refusal that an intent with a final state but without a receipt answers a
/// retry with.
pub open spec fn ended_problem(row: IntentView) -> ProblemView {
    let coded = match row.problem_code {
        Some(code) => problem_of_code(code),
        None => None,
    };
    match coded {
        Some(p) => p,
        None => match row.state {
            IntentState::Failed => ProblemView::PreviousCommandFailed,
            IntentState::Cancelled => ProblemView::PreviousCommandCancelled,
            _ => ProblemView::ControllerLeaseExpired,
        },
    }
}

fn problem_of_ended(row: &IntentRow) -> (r: CommandProblem)
    ensures
        r@ == ended_problem(row@),
{
    let coded: Option<CommandProblem> = match &row.problem_code {
        Some(code) => problem_for_terminal_code(code.as_str()),
        None => None,
    };
    match coded {
        Some(p) => p,
        None => match row.state {
            IntentState::Failed => CommandProblem::PreviousCommandFailed,
            IntentState::Cancelled => CommandProblem::PreviousCommandCancelled,
            _ => CommandProblem::ControllerLeaseExpired,
        },
    }
}

/// The final state that a refusal in the target store gives the intent; a passing
/// fault gives it none.
pub open spec fn refusal_state(p: ProblemView) -> Option<IntentState> {
    match p {
        ProblemView::ControllerLeaseExpired | ProblemView::RootEpochExpired => Some(
            IntentState::Revoked,
        ),
        ProblemView::RevisionConflict
        | ProblemView::InvalidEnvelope(_)
        | ProblemView::ResourceNotFound => Some(IntentState::Failed),
        _ => None,
    }
}

fn state_of_refusal(p: &CommandProblem) -> (r: Option<IntentState>)
    ensures
        r == refusal_state(p@),
{
    match p {
        CommandProblem::ControllerLeaseExpired => Some(IntentState::Revoked),
        CommandProblem::RootEpochExpired => Some(IntentState::Revoked),
        CommandProblem::RevisionConflict => Some(IntentState::Failed),
        CommandProblem::InvalidEnvelope(_) => Some(IntentState::Failed),
        CommandProblem::ResourceNotFound => Some(IntentState::Failed),
        _ => None,
    }
}

/// The intent that a command is reserved by.
pub open spec fn reserved_intent(e: EnvelopeView, digest: Seq<char>, now: Seq<char>) -> IntentView {
    IntentView {
        command_id: e.command_id,
        semantic_digest: digest,
        target_store: e.target.store_key(),
        aggregate: e.target.aggregate.handle,
        principal: e.principal,
        client_id: e.client_id,
        controller_epoch: e.controller_epoch as i64,
        root_epoch: match e.root_epoch {
            Some(n) => Some(n as i64),
            None => None,
        },
        state: IntentState::Reserved,
        created_at: now,
        resolved_at: None,
        problem_code: None,
    }
}

/// Whether a stored intent is that of the same command: same meaning, same
/// target.
pub open spec fn same_command(row: IntentView, e: EnvelopeView, digest: Seq<char>) -> bool {
    row.semantic_digest == digest && row.target_store == e.target.store_key() && row.aggregate
        == e.target.aggregate.handle
}

/// Why the epochs of a command cannot be stored, if they cannot.
pub open spec fn epoch_problem(e: EnvelopeView) -> Option<ProblemView> {
    if e.controller_epoch > i64::MAX {
        Some(ProblemView::InvalidEnvelope("controller epoch 越界"@))
    } else if e.root_epoch matches Some(n) && n > i64::MAX {
        Some(ProblemView::InvalidEnvelope("root epoch 越界"@))
    } else {
        None
    }
}

/// Reserving a command: the intents afterwards, and the intent of the command.
pub open spec fn reserve_view(
    intents: Intents,
    e: EnvelopeView,
    digest: Seq<char>,
    now: Seq<char>,
) -> Result<(Intents, IntentView), ProblemView> {
    if epoch_problem(e) is Some {
        Err(epoch_problem(e)->Some_0)
    } else if intents.contains_key(e.command_id) {
        if same_command(intents[e.command_id], e, digest) {
            Ok((intents, intents[e.command_id]))
        } else {
            Err(ProblemView::CommandIdReused)
        }
    } else {
        let row = reserved_intent(e, digest, now);
        Ok((intents.insert(e.command_id, row), row))
    }
}

/// A target's part of a command: what the tables hold afterwards and what it
/// answers. `effect` is what the effect handed back, where it was run.
pub open spec fn target_view(
    t: TargetTables,
    e: EnvelopeView,
    digest: Seq<char>,
    guard: IntentState,
    admission: Result<(), ProblemView>,
    expectation: Result<(), ProblemView>,
    effect: Option<Result<EffectView, ProblemView>>,
    now: Seq<char>,
) -> (TargetTables, Result<AppliedView, ProblemView>) {
    match (admission, receipt_result(t.receipts, e.command_id, digest, e.target.aggregate.handle)) {
        (Err(p), _) => (t, Err(p)),
        (Ok(_), Err(p)) => (t, Err(p)),
        (Ok(_), Ok(Some(result))) => (t, Ok(AppliedView { result, replayed: true })),
        (Ok(_), Ok(None)) => if guard is Applied {
            (t, Err(ProblemView::Internal("applied intent 缺少 target receipt"@)))
        } else {
            match (expectation, effect) {
                (Err(p), _) => (t, Err(p)),
                (Ok(_), Some(Err(p))) => (t, Err(p)),
                (Ok(_), Some(Ok(output))) => if output.leaks(e.payload.secret()) {
                    (
                        t,
                        Err(
                            ProblemView::InvalidEnvelope(
                                "Secret 明文或可复用引用进入 result/event"@,
                            ),
                        ),
                    )
                } else {
                    (
                        TargetTables {
                            receipts: t.receipts.insert(
                                e.command_id,
                                ReceiptView {
                                    command_id: e.command_id,
                                    semantic_digest: digest,
                                    aggregate_handle: e.target.aggregate.handle,
                                    result: sorted_view(output.result_revisions),
                                    state: "applied"@,
                                    created_at: now,
                                    finalized_at: Some(now),
                                },
                            ),
                            outbox: t.outbox + change_events(e, output.projections),
                            ..t
                        },
                        Ok(AppliedView { result: output.result_revisions, replayed: false }),
                    )
                },
                (Ok(_), None) => (t, Err(ProblemView::CommandInProgress)),
            }
        },
    }
}

/// Whether the target's part of a command runs the effect.
pub open spec fn target_runs_effect(
    t: TargetTables,
    e: EnvelopeView,
    digest: Seq<char>,
    guard: IntentState,
    admission: Result<(), ProblemView>,
    expectation: Result<(), ProblemView>,
) -> bool {
    &&& admission is Ok
    &&& receipt_result(t.receipts, e.command_id, digest, e.target.aggregate.handle) == Ok::<
        Option<JsonView>,
        ProblemView,
    >(None)
    &&& !(guard is Applied)
    &&& expectation is Ok
}

fn write_changes(
    target: &mut TargetDatabase,
    envelope: &CommandEnvelope,
    list: Vec<ProjectionEffect>,
)
    requires
        old(target).wf(),
    ensures
        final(target).wf(),
        final(target)@ == (TargetTables {
            outbox: old(target)@.outbox + change_events(envelope@, changes(list@)),
            ..old(target)@
        }),
{
    let ghost all = change_events(envelope@, changes(list@));
    let ghost start = target@.outbox;
    let mut rest: Vec<ProjectionEffect> = list;
    let ghost total = rest@;
    let mut i: usize = 0;
    let n: usize = rest.len();
    assert(start + all.take(0) =~= start);
    while rest.len() > 0
        invariant
            target.wf(),
            i + rest@.len() == n,
            n == total.len(),
            rest@ == total.skip(i as int),
            all == change_events(envelope@, changes(total)),
            target@ == (TargetTables { outbox: start + all.take(i as int), ..old(target)@ }),
        decreases rest@.len(),
    {
        let change: ProjectionEffect = rest.remove(0);
        assert(change == total[i as int]);
        assert(changes(total)[i as int] == change@);
        let event: Json = change_value(envelope, change);
        target.write_event(event);
        assert(all.take(i + 1) =~= all.take(i as int).push(all[i as int]));
        assert(start + all.take(i + 1) =~= (start + all.take(i as int)).push(all[i as int]));
        assert(rest@ =~= total.skip(i + 1));
        i = i + 1;
    }
    assert(all.take(n as int) =~= all);
}

/// The coordinator of the command chain.
pub struct CommandCoordinator {
    idempotency_key: ServiceIdempotencyKey,
}

impl CommandCoordinator {
    /// The key behind the codes of secrets.
    pub closed spec fn key(&self) -> Seq<u8> {
        self.idempotency_key@
    }

    pub fn new(idempotency_key: ServiceIdempotencyKey) -> (r: Self)
        ensures
            r.key() == idempotency_key@,
    {
        CommandCoordinator { idempotency_key }
    }

    /// Reserves a command: the first time by a new intent, later by the intent it
    /// has. The id of another command is refused.
    pub fn reserve_intent(
        &self,
        intents: &mut Table<IntentRow>,
        envelope: &CommandEnvelope,
        digest: &str,
        now: &str,
    ) -> (r: Result<IntentRow, CommandProblem>)
        requires
            old(intents).wf(),
        ensures
            final(intents).wf(),
            match reserve_view(old(intents)@, envelope@, digest@, now@) {
                Ok((after, row)) => r matches Ok(got) && got@ == row && final(intents)@ == after,
                Err(p) => r matches Err(e) && e@ == p && final(intents)@ == old(intents)@,
            },
    {
        let controller: u64 = envelope.controller_epoch();
        if controller > 9223372036854775807u64 {
            return Err(CommandProblem::invalid("controller epoch 越界"));
        }
        let root: Option<i64> = match envelope.root_epoch() {
            Some(n) => {
                if n > 9223372036854775807u64 {
                    return Err(CommandProblem::invalid("root epoch 越界"));
                }
                Some(n as i64)
            },
            None => None,
        };
        let id: &str = envelope.command_id().as_str();
        let store: String = envelope.target().store_key();
        match intents.get(id) {
            Some(row) => {
                if same(row.semantic_digest.as_str(), digest) && same(
                    row.target_store.as_str(),
                    store.as_str(),
                ) && same(row.aggregate.as_str(), envelope.target().aggregate.handle.as_str()) {
                    Ok(row.clone())
                } else {
                    Err(CommandProblem::CommandIdReused)
                }
            },
            None => {
                let row: IntentRow = IntentRow {
                    command_id: id.to_owned(),
                    semantic_digest: digest.to_owned(),
                    target_store: store,
                    aggregate: envelope.target().aggregate.handle.clone(),
                    principal: envelope.principal().as_str().to_owned(),
                    client_id: envelope.client_id().as_str().to_owned(),
                    controller_epoch: controller as i64,
                    root_epoch: root,
                    state: IntentState::Reserved,
                    created_at: now.to_owned(),
                    resolved_at: None,
                    problem_code: None,
                };
                intents.put(row.clone());
                Ok(row)
            },
        }
    }

    /// The target's part of a command. The lease comes before everything; a
    /// receipt answers a retry without the effect; the expected revisions bind a
    /// new effect only; and nothing that holds a credential becomes durable.
    pub fn apply_target<A: CommandAuthorizer, F: FnOnce() -> Result<EffectOutput, CommandProblem>>(
        &self,
        envelope: &CommandEnvelope,
        digest: &str,
        target: &mut TargetDatabase,
        authorizer: &A,
        guard: IntentState,
        effect: F,
        now: &str,
    ) -> (r: Result<CommandOutcome, CommandProblem>)
        requires
            old(target).wf(),
            effect.requires(()),
        ensures
            final(target).wf(),
            ({
                let admission = authorizer.admission(envelope@.lease());
                let expectation = authorizer.expectation(envelope@.lease());
                if target_runs_effect(
                    old(target)@,
                    envelope@,
                    digest@,
                    guard,
                    admission,
                    expectation,
                ) {
                    exists|out: Result<EffectOutput, CommandProblem>|
                        effect.ensures((), out) && #[trigger] target_view(
                            old(target)@,
                            envelope@,
                            digest@,
                            guard,
                            admission,
                            expectation,
                            Some(outcome(out)),
                            now@,
                        ) == (final(target)@, outcome(r))
                } else {
                    target_view(
                        old(target)@,
                        envelope@,
                        digest@,
                        guard,
                        admission,
                        expectation,
                        None,
                        now@,
                    ) == (final(target)@, outcome(r))
                }
            }),
    {
        let check = envelope.lease_check();
        match authorizer.acquire(&check) {
            Ok(_) => {},
            Err(p) => {
                return Err(p);
            },
        }
        let handle: &str = envelope.target().aggregate.handle.as_str();
        match target.receipt(envelope.command_id().as_str(), digest, handle) {
            Ok(None) => {},
            Ok(Some(result_revisions)) => {
                return Ok(CommandOutcome::Applied { result_revisions, replayed: true });
            },
            Err(p) => {
                return Err(p);
            },
        }
        if guard == IntentState::Applied {
            return Err(CommandProblem::internal("applied intent 缺少 target receipt"));
        }
        match authorizer.validate_expected(&check) {
            Ok(_) => {},
            Err(p) => {
                return Err(p);
            },
        }
        let handed: Result<EffectOutput, CommandProblem> = effect();
        let ghost staged = target_view(
            target@,
            envelope@,
            digest@,
            guard,
            authorizer.admission(envelope@.lease()),
            authorizer.expectation(envelope@.lease()),
            Some(outcome(handed)),
            now@,
        );
        let output: EffectOutput = match handed {
            Ok(output) => output,
            Err(p) => {
                assert(staged == (target@, Err::<AppliedView, ProblemView>(p@)));
                return Err(p);
            },
        };
        if output.leaks(envelope.secret_plaintext()) {
            assert(staged.0 == target@);
            return Err(CommandProblem::invalid("Secret 明文或可复用引用进入 result/event"));
        }
        let row: ReceiptRow = ReceiptRow {
            command_id: envelope.command_id().as_str().to_owned(),
            semantic_digest: digest.to_owned(),
            aggregate_handle: envelope.target().aggregate.handle.clone(),
            result: sorted_json(&output.result_revisions),
            state: "applied".to_owned(),
            created_at: now.to_owned(),
            finalized_at: Some(now.to_owned()),
        };
        target.write_receipt(row);
        write_changes(target, envelope, output.projections);
        assert(staged.0 == target@);
        Ok(CommandOutcome::Applied { result_revisions: output.result_revisions, replayed: false })
    }

    /// Runs a command whose digest is known: reserve, target, end of the intent.
    /// See [`dispatch_view`] for what each case leads to.
    pub fn dispatch_internal_with_digest<
        A: CommandAuthorizer,
        F: FnOnce() -> Result<EffectOutput, CommandProblem>,
    >(
        &self,
        intents: &mut Table<IntentRow>,
        envelope: &CommandEnvelope,
        digest: &str,
        target: &mut TargetDatabase,
        authorizer: &A,
        effect: F,
        fault: Option<FaultPoint>,
        now: &str,
    ) -> (r: Result<CommandOutcome, CommandProblem>)
        requires
            old(intents).wf(),
            old(target).wf(),
            effect.requires(()),
        ensures
            final(intents).wf(),
            final(target).wf(),
            dispatched(
                old(intents)@,
                old(target)@,
                envelope@,
                Ok(digest@),
                authorizer.admission(envelope@.lease()),
                authorizer.expectation(envelope@.lease()),
                effect,
                fault,
                now@,
                (final(intents)@, final(target)@, outcome(r)),
            ),
    {
        let ghost admission = authorizer.admission(envelope@.lease());
        let ghost expectation = authorizer.expectation(envelope@.lease());
        let ghost before = intents@;
        let ghost tables = target@;
        if envelope.target().store != target.kind() || !same(
            envelope.target().store_key().as_str(),
            target.store_key(),
        ) {
            return Err(CommandProblem::TargetStoreMismatch);
        }
        let row: IntentRow = match self.reserve_intent(intents, envelope, digest, now) {
            Ok(row) => row,
            Err(CommandProblem::CommandIdReused) => {
                // The answer to a foreign id must not tell more than the lease allows.
                match authorizer.acquire(&envelope.lease_check()) {
                    Ok(_) => {},
                    Err(p) => {
                        return Err(p);
                    },
                }
                return Err(CommandProblem::CommandIdReused);
            },
            Err(p) => {
                return Err(p);
            },
        };
        let ghost reserved = intents@;
        match row.state {
            IntentState::Failed | IntentState::Cancelled | IntentState::Revoked => {
                match authorizer.acquire(&envelope.lease_check()) {
                    Ok(_) => {},
                    Err(p) => {
                        return Err(p);
                    },
                }
                return Err(problem_of_ended(&row));
            },
            _ => {},
        }
        if fault == Some(FaultPoint::AfterIntentReserve) {
            return Err(CommandProblem::FaultInjected("after_intent_reserve"));
        }
        let answer: Result<CommandOutcome, CommandProblem> = self.apply_target(
            envelope,
            digest,
            target,
            authorizer,
            row.state,
            effect,
            now,
        );
        let ghost due = target_runs_effect(
            tables,
            envelope@,
            digest@,
            row.state,
            admission,
            expectation,
        );
        let ghost handed: Option<Result<EffectView, ProblemView>> = if due {
            let out = choose|out: Result<EffectOutput, CommandProblem>|
                effect.ensures((), out) && #[trigger] target_view(
                    tables,
                    envelope@,
                    digest@,
                    row.state,
                    admission,
                    expectation,
                    Some(outcome(out)),
                    now@,
                ) == (target@, outcome(answer));
            Some(outcome(out))
        } else {
            None
        };
        assert(target_view(
            tables,
            envelope@,
            digest@,
            row.state,
            admission,
            expectation,
            handed,
            now@,
        ) == (target@, outcome(answer)));
        let ghost view = dispatch_view(
            before,
            tables,
            envelope@,
            Ok(digest@),
            admission,
            expectation,
            handed,
            fault,
            now@,
        );
        match answer {
            Err(p) => {
                let state: Option<IntentState> = state_of_refusal(&p);
                if row.state == IntentState::Reserved {
                    match state {
                        Some(state) => {
                            match finish_intent(
                                intents,
                                envelope.command_id().as_str(),
                                state,
                                Some(p.code().to_owned()),
                                now,
                            ) {
                                Ok(_) => {},
                                Err(other) => {
                                    assert(false);
                                    return Err(other);
                                },
                            }
                        },
                        None => {},
                    }
                }
                assert(view == (intents@, target@, Err::<AppliedView, ProblemView>(p@)));
                Err(p)
            },
            Ok(applied) => {
                if fault == Some(FaultPoint::AfterTargetCommit) {
                    assert(view.0 == intents@);
                    return Err(CommandProblem::FaultInjected("after_target_commit"));
                }
                match finish_intent(
                    intents,
                    envelope.command_id().as_str(),
                    IntentState::Applied,
                    None,
                    now,
                ) {
                    Ok(_) => {
                        assert(view == (intents@, target@, Ok::<AppliedView, ProblemView>(applied@)));
                        Ok(applied)
                    },
                    Err(p) => {
                        assert(view == (intents@, target@, Err::<AppliedView, ProblemView>(p@)));
                        Err(p)
                    },
                }
            },
        }
    }

    /// Runs a command: digest, reserve, target, end of the intent. See
    /// [`dispatch_view`] for what each case leads to.
    pub fn dispatch_internal<
        A: CommandAuthorizer,
        F: FnOnce() -> Result<EffectOutput, CommandProblem>,
    >(
        &self,
        intents: &mut Table<IntentRow>,
        envelope: &CommandEnvelope,
        target: &mut TargetDatabase,
        authorizer: &A,
        effect: F,
        fault: Option<FaultPoint>,
        now: &str,
    ) -> (r: Result<CommandOutcome, CommandProblem>)
        requires
            old(intents).wf(),
            old(target).wf(),
            effect.requires(()),
        ensures
            final(intents).wf(),
            final(target).wf(),
            dispatched(
                old(intents)@,
                old(target)@,
                envelope@,
                envelope@.digest(self.key()),
                authorizer.admission(envelope@.lease()),
                authorizer.expectation(envelope@.lease()),
                effect,
                fault,
                now@,
                (final(intents)@, final(target)@, outcome(r)),
            ),
    {
        if envelope.target().store != target.kind() || !same(
            envelope.target().store_key().as_str(),
            target.store_key(),
        ) {
            return Err(CommandProblem::TargetStoreMismatch);
        }
        match envelope.semantic_digest(&self.idempotency_key) {
            Ok(digest) => self.dispatch_internal_with_digest(
                intents,
                envelope,
                digest.as_str(),
                target,
                authorizer,
                effect,
                fault,
                now,
            ),
            Err(p) => Err(p),
        }
    }

    /// The result of a command that took place before, for a retry of it: the
    /// lease first, then the receipt.
    pub fn replay_if_applied_with_digest<A: CommandAuthorizer>(
        &self,
        envelope: &CommandEnvelope,
        digest: &str,
        target: &TargetDatabase,
        authorizer: &A,
    ) -> (r: Result<Option<CommandOutcome>, CommandProblem>)
        requires
            target.wf(),
        ensures
            found(r) == replay_view(
                target@,
                envelope@,
                Ok(digest@),
                authorizer.admission(envelope@.lease()),
            ),
    {
        if envelope.target().store != target.kind() || !same(
            envelope.target().store_key().as_str(),
            target.store_key(),
        ) {
            return Err(CommandProblem::TargetStoreMismatch);
        }
        match authorizer.acquire(&envelope.lease_check()) {
            Ok(_) => {},
            Err(p) => {
                return Err(p);
            },
        }
        match target.receipt(
            envelope.command_id().as_str(),
            digest,
            envelope.target().aggregate.handle.as_str(),
        ) {
            Ok(Some(result_revisions)) => Ok(
                Some(CommandOutcome::Applied { result_revisions, replayed: true }),
            ),
            Ok(None) => Ok(None),
            Err(p) => Err(p),
        }
    }

    /// The result of a command that took place before, for a retry of it.
    pub fn replay_if_applied<A: CommandAuthorizer>(
        &self,
        envelope: &CommandEnvelope,
        target: &TargetDatabase,
        authorizer: &A,
    ) -> (r: Result<Option<CommandOutcome>, CommandProblem>)
        requires
            target.wf(),
        ensures
            found(r) == replay_view(
                target@,
                envelope@,
                envelope@.digest(self.key()),
                authorizer.admission(envelope@.lease()),
            ),
    {
        if envelope.target().store != target.kind() || !same(
            envelope.target().store_key().as_str(),
            target.store_key(),
        ) {
            return Err(CommandProblem::TargetStoreMismatch);
        }
        match envelope.semantic_digest(&self.idempotency_key) {
            Ok(digest) => self.replay_if_applied_with_digest(
                envelope,
                digest.as_str(),
                target,
                authorizer,
            ),
            Err(p) => Err(p),
        }
    }

    /// Ends a command that a crash left open, by its receipt alone: the effect is
    /// never run again.
    pub fn reconcile(
        &self,
        intents: &mut Table<IntentRow>,
        command_id: &CommandId,
        target: &TargetDatabase,
        now: &str,
    ) -> (r: Result<ReconcileOutcome, CommandProblem>)
        requires
            old(intents).wf(),
            target.wf(),
        ensures
            final(intents).wf(),
            (final(intents)@, outcome(r)) == reconcile_view(
                old(intents)@,
                target@,
                command_id@,
                now@,
            ),
    {
        let id: &str = command_id.as_str();
        let row: IntentRow = match intents.get(id) {
            Some(row) => row.clone(),
            None => {
                return Err(CommandProblem::Internal(cat("command intent 不存在:", id)));
            },
        };
        if !same(row.target_store.as_str(), target.store_key()) {
            return Err(CommandProblem::TargetStoreMismatch);
        }
        if row.state != IntentState::Reserved && row.state != IntentState::Applied {
            return Ok(ReconcileOutcome::Terminal(row.state));
        }
        let proved: Option<Json> = match target.receipt(
            id,
            row.semantic_digest.as_str(),
            row.aggregate.as_str(),
        ) {
            Ok(proved) => proved,
            Err(p) => {
                return Err(p);
            },
        };
        match proved {
            None => match finish_intent(
                intents,
                id,
                IntentState::Revoked,
                Some(CommandProblem::ControllerLeaseExpired.code().to_owned()),
                now,
            ) {
                Ok(_) => Ok(ReconcileOutcome::Terminal(IntentState::Revoked)),
                Err(p) => Err(p),
            },
            Some(result_revisions) => match finish_intent(
                intents,
                id,
                IntentState::Applied,
                None,
                now,
            ) {
                Ok(_) => Ok(
                    ReconcileOutcome::Applied(
                        CommandOutcome::Applied { result_revisions, replayed: true },
                    ),
                ),
                Err(p) => Err(p),
            },
        }
    }

    /// Where the intent of a command stands.
    pub fn intent_state(&self, intents: &Table<IntentRow>, command_id: &CommandId) -> (r: Option<
        IntentState,
    >)
        requires
            intents.wf(),
        ensures
            r == (if intents@.contains_key(command_id@) {
                Some(intents@[command_id@].state)
            } else {
                None
            }),
    {
        match intents.get(command_id.as_str()) {
            Some(row) => Some(row.state),
            None => None,
        }
    }
}

/// What running a command leads to: the intents, the target's tables and the
/// answer. `effect` is what the effect handed back, where it was run.
pub open spec fn dispatch_view(
    intents: Intents,
    t: TargetTables,
    e: EnvelopeView,
    digest: Result<Seq<char>, ProblemView>,
    admission: Result<(), ProblemView>,
    expectation: Result<(), ProblemView>,
    effect: Option<Result<EffectView, ProblemView>>,
    fault: Option<FaultPoint>,
    now: Seq<char>,
) -> (Intents, TargetTables, Result<AppliedView, ProblemView>) {
    if e.target.store != t.kind || e.target.store_key() != t.store_key {
        (intents, t, Err(ProblemView::TargetStoreMismatch))
    } else if digest is Err {
        (intents, t, Err(digest->Err_0))
    } else {
        let digest = digest->Ok_0;
        match reserve_view(intents, e, digest, now) {
            Err(ProblemView::CommandIdReused) => (
                intents,
                t,
                Err(
                    match admission {
                        Err(p) => p,
                        Ok(_) => ProblemView::CommandIdReused,
                    },
                ),
            ),
            Err(p) => (intents, t, Err(p)),
            Ok((reserved, row)) => if row.state is Failed || row.state is Cancelled
                || row.state is Revoked {
                (
                    reserved,
                    t,
                    Err(
                        match admission {
                            Err(p) => p,
                            Ok(_) => ended_problem(row),
                        },
                    ),
                )
            } else if fault == Some(FaultPoint::AfterIntentReserve) {
                (reserved, t, Err(ProblemView::FaultInjected("after_intent_reserve"@)))
            } else {
                let (tables, answer) = target_view(
                    t,
                    e,
                    digest,
                    row.state,
                    admission,
                    expectation,
                    effect,
                    now,
                );
                match answer {
                    Err(p) => {
                        let ended = if row.state is Reserved && refusal_state(p) is Some {
                            finish_intent_view(
                                reserved,
                                e.command_id,
                                refusal_state(p)->Some_0,
                                Some(p.code()),
                                now,
                            ).0
                        } else {
                            reserved
                        };
                        (ended, tables, Err(p))
                    },
                    Ok(applied) => if fault == Some(FaultPoint::AfterTargetCommit) {
                        (reserved, tables, Err(ProblemView::FaultInjected("after_target_commit"@)))
                    } else {
                        let (ended, done) = finish_intent_view(
                            reserved,
                            e.command_id,
                            IntentState::Applied,
                            None,
                            now,
                        );
                        match done {
                            Ok(_) => (ended, tables, Ok(applied)),
                            Err(p) => (ended, tables, Err(p)),
                        }
                    },
                }
            },
        }
    }
}

/// Whether running a command runs its effect.
pub open spec fn dispatch_runs_effect(
    intents: Intents,
    t: TargetTables,
    e: EnvelopeView,
    digest: Result<Seq<char>, ProblemView>,
    admission: Result<(), ProblemView>,
    expectation: Result<(), ProblemView>,
    fault: Option<FaultPoint>,
    now: Seq<char>,
) -> bool {
    &&& e.target.store == t.kind
    &&& e.target.store_key() == t.store_key
    &&& digest is Ok
    &&& reserve_view(intents, e, digest->Ok_0, now) matches Ok((_, row))
    &&& (row.state is Reserved || row.state is Applied)
    &&& fault != Some(FaultPoint::AfterIntentReserve)
    &&& target_runs_effect(t, e, digest->Ok_0, row.state, admission, expectation)
}

/// `after` is what running a command leads to, with some output that its effect
/// can hand back where it is run.
pub open spec fn dispatched<F: FnOnce() -> Result<EffectOutput, CommandProblem>>(
    intents: Intents,
    t: TargetTables,
    e: EnvelopeView,
    digest: Result<Seq<char>, ProblemView>,
    admission: Result<(), ProblemView>,
    expectation: Result<(), ProblemView>,
    effect: F,
    fault: Option<FaultPoint>,
    now: Seq<char>,
    after: (Intents, TargetTables, Result<AppliedView, ProblemView>),
) -> bool {
    if dispatch_runs_effect(intents, t, e, digest, admission, expectation, fault, now) {
        exists|out: Result<EffectOutput, CommandProblem>|
            effect.ensures((), out) && after == #[trigger] dispatch_view(
                intents,
                t,
                e,
                digest,
                admission,
                expectation,
                Some(outcome(out)),
                fault,
                now,
            )
    } else {
        after == dispatch_view(
            intents,
            t,
            e,
            digest,
            admission,
            expectation,
            None,
            fault,
            now,
        )
    }
}

/// What a retry of a command is answered without running it.
pub open spec fn replay_view(
    t: TargetTables,
    e: EnvelopeView,
    digest: Result<Seq<char>, ProblemView>,
    admission: Result<(), ProblemView>,
) -> Result<Option<AppliedView>, ProblemView> {
    if e.target.store != t.kind || e.target.store_key() != t.store_key {
        Err(ProblemView::TargetStoreMismatch)
    } else if digest is Err {
        Err(digest->Err_0)
    } else if admission is Err {
        Err(admission->Err_0)
    } else {
        match receipt_result(t.receipts, e.command_id, digest->Ok_0, e.target.aggregate.handle) {
            Ok(Some(result)) => Ok(Some(AppliedView { result, replayed: true })),
            Ok(None) => Ok(None),
            Err(p) => Err(p),
        }
    }
}

/// How a command that a crash left open came to its end.
#[derive(Debug)]
pub enum ReconcileOutcome {
    Applied(CommandOutcome),
    Terminal(IntentState),
}

/// How a command that a crash left open came to its end, as a value.
pub ghost enum ReconcileEnd {
    Applied(AppliedView),
    Terminal(IntentState),
}

impl View for ReconcileOutcome {
    type V = ReconcileEnd;

    open spec fn view(&self) -> ReconcileEnd {
        match *self {
            ReconcileOutcome::Applied(o) => ReconcileEnd::Applied(o@),
            ReconcileOutcome::Terminal(s) => ReconcileEnd::Terminal(s),
        }
    }
}

/// What reconciling a command leads to.
pub open spec fn reconcile_view(
    intents: Intents,
    t: TargetTables,
    id: Seq<char>,
    now: Seq<char>,
) -> (Intents, Result<ReconcileEnd, ProblemView>) {
    if !intents.contains_key(id) {
        (intents, Err(ProblemView::Internal("command intent 不存在:"@ + id)))
    } else if intents[id].target_store != t.store_key {
        (intents, Err(ProblemView::TargetStoreMismatch))
    } else if !(intents[id].state is Reserved) && !(intents[id].state is Applied) {
        (intents, Ok(ReconcileEnd::Terminal(intents[id].state)))
    } else {
        match receipt_result(
            t.receipts,
            id,
            intents[id].semantic_digest,
            intents[id].aggregate,
        ) {
            Err(p) => (intents, Err(p)),
            Ok(None) => {
                let (after, done) = finish_intent_view(
                    intents,
                    id,
                    IntentState::Revoked,
                    Some("controller_lease_expired"@),
                    now,
                );
                match done {
                    Ok(_) => (after, Ok(ReconcileEnd::Terminal(IntentState::Revoked))),
                    Err(p) => (after, Err(p)),
                }
            },
            Ok(Some(result)) => {
                let (after, done) = finish_intent_view(intents, id, IntentState::Applied, None, now);
                match done {
                    Ok(_) => (
                        after,
                        Ok(ReconcileEnd::Applied(AppliedView { result, replayed: true })),
                    ),
                    Err(p) => (after, Err(p)),
                }
            },
        }
    }
}

/// A command that took place is answered from its receipt when it is sent again
/// under a lease that holds: the same result, no effect, nothing written.
pub proof fn law_retry_is_answered_from_the_receipt(
    intents: Intents,
    t: TargetTables,
    e: EnvelopeView,
    digest: Seq<char>,
    expectation: Result<(), ProblemView>,
    output: EffectView,
    later_expectation: Result<(), ProblemView>,
    now: Seq<char>,
    later: Seq<char>,
)
    requires
        dispatch_view(
            intents,
            t,
            e,
            Ok(digest),
            Ok(()),
            expectation,
            Some(Ok(output)),
            None,
            now,
        ).2 == Ok::<AppliedView, ProblemView>(
            AppliedView { result: output.result_revisions, replayed: false },
        ),
    ensures
        ({
            let first = dispatch_view(
                intents,
                t,
                e,
                Ok(digest),
                Ok(()),
                expectation,
                Some(Ok(output)),
                None,
                now,
            );
            &&& !dispatch_runs_effect(
                first.0,
                first.1,
                e,
                Ok(digest),
                Ok(()),
                later_expectation,
                None,
                later,
            )
            &&& dispatch_view(
                first.0,
                first.1,
                e,
                Ok(digest),
                Ok(()),
                later_expectation,
                None,
                None,
                later,
            ) == (
                first.0,
                first.1,
                Ok::<AppliedView, ProblemView>(
                    AppliedView { result: sorted_view(output.result_revisions), replayed: true },
                ),
            )
        }),
{
}

/// Once a target holds the final receipt of a command, no way of sending that
/// command runs its effect or changes the target's tables.
pub proof fn law_receipt_is_final(
    intents: Intents,
    t: TargetTables,
    e: EnvelopeView,
    digest: Seq<char>,
    admission: Result<(), ProblemView>,
    expectation: Result<(), ProblemView>,
    effect: Option<Result<EffectView, ProblemView>>,
    fault: Option<FaultPoint>,
    now: Seq<char>,
)
    requires
        receipt_result(t.receipts, e.command_id, digest, e.target.aggregate.handle) matches Ok(
            Some(_),
        ),
    ensures
        !dispatch_runs_effect(intents, t, e, Ok(digest), admission, expectation, fault, now),
        dispatch_view(intents, t, e, Ok(digest), admission, expectation, effect, fault, now).1 == t,
{
}

/// The id of a command that means something else, or aims elsewhere, is refused:
/// no effect, nothing written, and without a lease nothing is told.
pub proof fn law_foreign_id_is_refused(
    intents: Intents,
    t: TargetTables,
    e: EnvelopeView,
    digest: Seq<char>,
    admission: Result<(), ProblemView>,
    expectation: Result<(), ProblemView>,
    effect: Option<Result<EffectView, ProblemView>>,
    fault: Option<FaultPoint>,
    now: Seq<char>,
)
    requires
        e.target.store == t.kind,
        e.target.store_key() == t.store_key,
        epoch_problem(e) is None,
        intents.contains_key(e.command_id),
        !same_command(intents[e.command_id], e, digest),
    ensures
        !dispatch_runs_effect(intents, t, e, Ok(digest), admission, expectation, fault, now),
        dispatch_view(intents, t, e, Ok(digest), admission, expectation, effect, fault, now) == (
            intents,
            t,
            Err::<AppliedView, ProblemView>(
                match admission {
                    Err(p) => p,
                    Ok(_) => ProblemView::CommandIdReused,
                },
            ),
        ),
{
}

/// Running a command touches no intent but its own, and not that one once it came
/// to its end.
pub proof fn law_ended_intents_stay(
    intents: Intents,
    t: TargetTables,
    e: EnvelopeView,
    digest: Result<Seq<char>, ProblemView>,
    admission: Result<(), ProblemView>,
    expectation: Result<(), ProblemView>,
    effect: Option<Result<EffectView, ProblemView>>,
    fault: Option<FaultPoint>,
    now: Seq<char>,
    id: Seq<char>,
)
    requires
        intents.contains_key(id),
        id != e.command_id || !(intents[id].state is Reserved),
    ensures
        ({
            let after = dispatch_view(
                intents,
                t,
                e,
                digest,
                admission,
                expectation,
                effect,
                fault,
                now,
            ).0;
            after.contains_key(id) && after[id] == intents[id]
        }),
{
}

/// A command that is refused writes nothing to its target.
pub proof fn law_refused_command_writes_nothing(
    intents: Intents,
    t: TargetTables,
    e: EnvelopeView,
    digest: Result<Seq<char>, ProblemView>,
    admission: Result<(), ProblemView>,
    expectation: Result<(), ProblemView>,
    effect: Option<Result<EffectView, ProblemView>>,
    now: Seq<char>,
)
    requires
        dispatch_view(intents, t, e, digest, admission, expectation, effect, None, now).2 is Err,
        intents.contains_key(e.command_id) ==> (intents[e.command_id].state is Applied
            ==> intents[e.command_id].problem_code is None),
    ensures
        dispatch_view(intents, t, e, digest, admission, expectation, effect, None, now).1 == t,
{
}

/// What a command makes durable holds no secret and no field that announces a
/// credential.
pub proof fn law_nothing_secret_becomes_durable(
    intents: Intents,
    t: TargetTables,
    e: EnvelopeView,
    digest: Result<Seq<char>, ProblemView>,
    admission: Result<(), ProblemView>,
    expectation: Result<(), ProblemView>,
    output: EffectView,
    fault: Option<FaultPoint>,
    now: Seq<char>,
)
    requires
        dispatch_view(
            intents,
            t,
            e,
            digest,
            admission,
            expectation,
            Some(Ok(output)),
            fault,
            now,
        ).1 != t,
    ensures
        !output.leaks(e.payload.secret()),
{
}

/// A crash behind the target's commit loses nothing: reconciling ends the command
/// as applied, with the result of its effect.
pub proof fn law_crash_after_target_is_recovered(
    intents: Intents,
    t: TargetTables,
    e: EnvelopeView,
    digest: Seq<char>,
    output: EffectView,
    now: Seq<char>,
    later: Seq<char>,
)
    requires
        e.target.store == t.kind,
        e.target.store_key() == t.store_key,
        epoch_problem(e) is None,
        !intents.contains_key(e.command_id),
        !t.receipts.contains_key(e.command_id),
        !output.leaks(e.payload.secret()),
    ensures
        ({
            let crashed = dispatch_view(
                intents,
                t,
                e,
                Ok(digest),
                Ok(()),
                Ok(()),
                Some(Ok(output)),
                Some(FaultPoint::AfterTargetCommit),
                now,
            );
            let after = reconcile_view(crashed.0, crashed.1, e.command_id, later);
            &&& after.1 == Ok::<ReconcileEnd, ProblemView>(
                ReconcileEnd::Applied(
                    AppliedView { result: sorted_view(output.result_revisions), replayed: true },
                ),
            )
            &&& after.0[e.command_id].state is Applied
        }),
{
}

/// A crash before the target's commit has no effect: reconciling revokes the
/// command, and it stays revoked.
pub proof fn law_crash_before_target_is_revoked(
    intents: Intents,
    t: TargetTables,
    e: EnvelopeView,
    digest: Seq<char>,
    now: Seq<char>,
    later: Seq<char>,
    expectation: Result<(), ProblemView>,
)
    requires
        e.target.store == t.kind,
        e.target.store_key() == t.store_key,
        epoch_problem(e) is None,
        !intents.contains_key(e.command_id),
        !t.receipts.contains_key(e.command_id),
    ensures
        ({
            let crashed = dispatch_view(
                intents,
                t,
                e,
                Ok(digest),
                Ok(()),
                expectation,
                None,
                Some(FaultPoint::AfterIntentReserve),
                now,
            );
            let after = reconcile_view(crashed.0, crashed.1, e.command_id, later);
            &&& crashed.1 == t
            &&& after.1 == Ok::<ReconcileEnd, ProblemView>(
                ReconcileEnd::Terminal(IntentState::Revoked),
            )
            &&& dispatch_view(
                after.0,
                t,
                e,
                Ok(digest),
                Ok(()),
                expectation,
                None,
                None,
                later,
            ) == (after.0, t, Err::<AppliedView, ProblemView>(ProblemView::ControllerLeaseExpired))
        }),
{
}

} // verus!
