//! The hand-over of a running core to its successor: no new work, wait for what is
//! under way, close the stores, hand over. No phase is ever gone back to.

use crate::text::{before, cat, cat3, chars_of, decimal, decimal_text, less};
use vstd::prelude::*;
use vstd::string::*;

verus! {

/// How far the hand-over has come.
#[derive(Debug, Clone, Copy, PartialEq, Eq, PartialOrd, Ord, Structural)]
pub enum BridgePhase {
    Owning,
    Freezing,
    Draining,
    StoresClosed,
    HandedOff,
}

impl BridgePhase {
    /// The place of a phase in their order.
    pub open spec fn rank(self) -> nat {
        match self {
            BridgePhase::Owning => 0,
            BridgePhase::Freezing => 1,
            BridgePhase::Draining => 2,
            BridgePhase::StoresClosed => 3,
            BridgePhase::HandedOff => 4,
        }
    }

    /// The printed name.
    pub open spec fn name(self) -> Seq<char> {
        match self {
            BridgePhase::Owning => "Owning"@,
            BridgePhase::Freezing => "Freezing"@,
            BridgePhase::Draining => "Draining"@,
            BridgePhase::StoresClosed => "StoresClosed"@,
            BridgePhase::HandedOff => "HandedOff"@,
        }
    }

    /// The printed name.
    pub fn as_str(self) -> (r: &'static str)
        ensures
            r@ == self.name(),
    {
        match self {
            BridgePhase::Owning => "Owning",
            BridgePhase::Freezing => "Freezing",
            BridgePhase::Draining => "Draining",
            BridgePhase::StoresClosed => "StoresClosed",
            BridgePhase::HandedOff => "HandedOff",
        }
    }
}

/// What is still under way.
#[derive(Debug, Clone, Copy, PartialEq, Eq, Structural)]
pub struct DrainInputs {
    pub pending_outbox_events: usize,
    pub unfinished_intents: usize,
    pub live_sessions: usize,
    pub active_installation_jobs: usize,
    pub uninterruptible_operations: usize,
}

impl Default for DrainInputs {
    fn default() -> (r: Self)
        ensures
            r.is_empty(),
    {
        DrainInputs {
            pending_outbox_events: 0,
            unfinished_intents: 0,
            live_sessions: 0,
            active_installation_jobs: 0,
            uninterruptible_operations: 0,
        }
    }
}

impl DrainInputs {
    /// Whether nothing is under way.
    pub open spec fn is_empty(self) -> bool {
        &&& self.pending_outbox_events == 0
        &&& self.unfinished_intents == 0
        &&& self.live_sessions == 0
        &&& self.active_installation_jobs == 0
        &&& self.uninterruptible_operations == 0
    }
}

/// What a successor takes over with.
#[derive(Debug)]
pub struct HandoffManifest {
    pub schema: String,
    pub controller_epoch: u64,
    pub root_epoch: Option<u64>,
    pub stream_epoch: String,
    pub bundle_id: String,
    pub min_successor_version: String,
    pub handed_off_at: String,
}

/// What a successor takes over with, as a value.
pub ghost struct ManifestView {
    pub schema: Seq<char>,
    pub controller_epoch: u64,
    pub root_epoch: Option<u64>,
    pub stream_epoch: Seq<char>,
    pub bundle_id: Seq<char>,
    pub min_successor_version: Seq<char>,
    pub handed_off_at: Seq<char>,
}

impl View for HandoffManifest {
    type V = ManifestView;

    open spec fn view(&self) -> ManifestView {
        ManifestView {
            schema: self.schema@,
            controller_epoch: self.controller_epoch,
            root_epoch: self.root_epoch,
            stream_epoch: self.stream_epoch@,
            bundle_id: self.bundle_id@,
            min_successor_version: self.min_successor_version@,
            handed_off_at: self.handed_off_at@,
        }
    }
}

pub const HANDOFF_SCHEMA: &'static str = "mf.handoff.v1";

/// Why a step of the hand-over was refused.
#[derive(Debug, PartialEq, Eq)]
pub enum BridgeProblem {
    PhaseRegression { from: BridgePhase, to: BridgePhase },
    DrainIncomplete {
        outbox: usize,
        intents: usize,
        sessions: usize,
        installs: usize,
        uninterruptible: usize,
    },
    AlreadyHandedOff,
    SuccessorTooOld { successor: String, required: String },
    ReacquireWindowExpired,
}

/// Why a step of the hand-over was refused, as a value.
pub ghost enum BridgeProblemView {
    PhaseRegression { from: BridgePhase, to: BridgePhase },
    DrainIncomplete(DrainInputs),
    AlreadyHandedOff,
    SuccessorTooOld { successor: Seq<char>, required: Seq<char> },
    ReacquireWindowExpired,
}

impl View for BridgeProblem {
    type V = BridgeProblemView;

    open spec fn view(&self) -> BridgeProblemView {
        match *self {
            BridgeProblem::PhaseRegression { from, to } => BridgeProblemView::PhaseRegression {
                from,
                to,
            },
            BridgeProblem::DrainIncomplete {
                outbox,
                intents,
                sessions,
                installs,
                uninterruptible,
            } => BridgeProblemView::DrainIncomplete(
                DrainInputs {
                    pending_outbox_events: outbox,
                    unfinished_intents: intents,
                    live_sessions: sessions,
                    active_installation_jobs: installs,
                    uninterruptible_operations: uninterruptible,
                },
            ),
            BridgeProblem::AlreadyHandedOff => BridgeProblemView::AlreadyHandedOff,
            BridgeProblem::SuccessorTooOld { successor, required } =>
            BridgeProblemView::SuccessorTooOld { successor: successor@, required: required@ },
            BridgeProblem::ReacquireWindowExpired => BridgeProblemView::ReacquireWindowExpired,
        }
    }
}

impl BridgeProblemView {
    /// The printed form.
    pub open spec fn message(self) -> Seq<char> {
        match self {
            BridgeProblemView::PhaseRegression { from, to } => "阶段不能回退("@ + from.name()
                + " → "@ + to.name() + "):handed-off 永不 reopen"@,
            BridgeProblemView::DrainIncomplete(d) => "drain 未完成:outbox="@ + decimal_text(
                d.pending_outbox_events as nat,
            ) + ", intents="@ + decimal_text(d.unfinished_intents as nat) + ", sessions="@
                + decimal_text(d.live_sessions as nat) + ", installs="@ + decimal_text(
                d.active_installation_jobs as nat,
            ) + ", uninterruptible="@ + decimal_text(d.uninterruptible_operations as nat),
            BridgeProblemView::AlreadyHandedOff =>
            "已 handed-off:本进程不再自行 reopen(新 owner 经 owner lock 重取)"@,
            BridgeProblemView::SuccessorTooOld { successor, required } => "接管版本 "@ + successor
                + " 低于最低要求 "@ + required + ":pre-Bridge 二进制不是 rollback target"@,
            BridgeProblemView::ReacquireWindowExpired =>
            "reacquire 窗口已过:保持停止并输出恢复诊断"@,
        }
    }
}

impl BridgeProblem {
    /// The printed form.
    pub fn message(&self) -> (r: String)
        ensures
            r@ == self@.message(),
    {
        match self {
            BridgeProblem::PhaseRegression { from, to } => {
                let mut m: String = cat3("阶段不能回退(", from.as_str(), " → ");
                m.append(to.as_str());
                m.append("):handed-off 永不 reopen");
                m
            },
            BridgeProblem::DrainIncomplete {
                outbox,
                intents,
                sessions,
                installs,
                uninterruptible,
            } => {
                let mut m: String = cat(
                    "drain 未完成:outbox=",
                    decimal(*outbox as u64).as_str(),
                );
                m.append(", intents=");
                m.append(decimal(*intents as u64).as_str());
                m.append(", sessions=");
                m.append(decimal(*sessions as u64).as_str());
                m.append(", installs=");
                m.append(decimal(*installs as u64).as_str());
                m.append(", uninterruptible=");
                m.append(decimal(*uninterruptible as u64).as_str());
                m
            },
            BridgeProblem::AlreadyHandedOff => "已 handed-off:本进程不再自行 reopen(新 owner 经 owner lock 重取)".to_owned(),
            BridgeProblem::SuccessorTooOld { successor, required } => {
                let mut m: String = cat3("接管版本 ", successor.as_str(), " 低于最低要求 ");
                m.append(required.as_str());
                m.append(":pre-Bridge 二进制不是 rollback target");
                m
            },
            BridgeProblem::ReacquireWindowExpired => "reacquire 窗口已过:保持停止并输出恢复诊断".to_owned(),
        }
    }
}

impl DrainInputs {
    /// Whether nothing is under way; else what is.
    fn check(&self) -> (r: Result<(), BridgeProblem>)
        ensures
            refused(r) == (if self.is_empty() {
                Ok::<(), BridgeProblemView>(())
            } else {
                Err(BridgeProblemView::DrainIncomplete(*self))
            }),
    {
        if self.pending_outbox_events == 0 && self.unfinished_intents == 0 && self.live_sessions
            == 0 && self.active_installation_jobs == 0 && self.uninterruptible_operations == 0 {
            Ok(())
        } else {
            Err(
                BridgeProblem::DrainIncomplete {
                    outbox: self.pending_outbox_events,
                    intents: self.unfinished_intents,
                    sessions: self.live_sessions,
                    installs: self.active_installation_jobs,
                    uninterruptible: self.uninterruptible_operations,
                },
            )
        }
    }
}

/// The view of a result without a value.
pub open spec fn refused<E: View>(r: Result<(), E>) -> Result<(), E::V> {
    match r {
        Ok(_) => Ok(()),
        Err(p) => Err(p@),
    }
}

/// The numbers of the first `n` characters of a version: those that a dot ends, and the
/// one that is being read. None where something else than digits and dots stands there, a
/// number is missing, or one does not fit in 64 bits.
pub open spec fn numbers_read(text: Seq<char>, n: nat) -> Option<(Seq<u64>, Option<u64>)>
    decreases n,
{
    if n == 0 {
        Some((seq![], None))
    } else {
        let c = text[n - 1];
        match numbers_read(text, (n - 1) as nat) {
            None => None,
            Some((done, open)) => if '0' <= c <= '9' {
                let value = (match open {
                    Some(v) => v as int,
                    None => 0,
                }) * 10 + (c as int - '0' as int);
                if value <= u64::MAX {
                    Some((done, Some(value as u64)))
                } else {
                    None
                }
            } else if c == '.' {
                match open {
                    Some(v) => Some((done.push(v), None)),
                    None => None,
                }
            } else {
                None
            },
        }
    }
}

/// The numbers of a version that is made of numbers with dots between them.
pub open spec fn version_numbers(text: Seq<char>) -> Option<Seq<u64>> {
    match numbers_read(text, text.len()) {
        Some((done, Some(v))) => Some(done.push(v)),
        _ => None,
    }
}

/// A number of a version; one that is not there counts as zero.
pub open spec fn number_at(v: Seq<u64>, i: int) -> u64 {
    if i < v.len() {
        v[i]
    } else {
        0
    }
}

/// Whether some numbers come before others: by the first place, from one on, at which they
/// differ.
pub open spec fn numbers_below(a: Seq<u64>, b: Seq<u64>, from: int) -> bool
    decreases a.len() + b.len() - from,
{
    if from >= a.len() && from >= b.len() {
        false
    } else if number_at(a, from) != number_at(b, from) {
        number_at(a, from) < number_at(b, from)
    } else {
        numbers_below(a, b, from + 1)
    }
}

/// Whether a version is below another: number by number where both are made of numbers
/// with dots between them; where one is not, as texts.
pub open spec fn version_below(a: Seq<char>, b: Seq<char>) -> bool {
    match (version_numbers(a), version_numbers(b)) {
        (Some(x), Some(y)) => numbers_below(x, y, 0),
        _ => before(a, b),
    }
}

fn read_version(text: &str) -> (r: Option<Vec<u64>>)
    ensures
        match r {
            Some(v) => version_numbers(text@) == Some(v@),
            None => version_numbers(text@) is None,
        },
{
    let chars: Vec<char> = chars_of(text);
    let mut done: Vec<u64> = Vec::new();
    let mut open: Option<u64> = None;
    let mut i: usize = 0;
    while i < chars.len()
        invariant
            i <= chars@.len(),
            chars@ == text@,
            numbers_read(text@, i as nat) == Some((done@, open)),
        decreases chars@.len() - i,
    {
        let c: char = chars[i];
        assert(numbers_read(text@, (i + 1) as nat) is None ==> version_numbers(text@) is None) by {
            if numbers_read(text@, (i + 1) as nat) is None {
                lemma_unreadable_stays(text@, (i + 1) as nat, text@.len());
            }
        }
        if '0' <= c && c <= '9' {
            let digit: u64 = c as u64 - '0' as u64;
            let so_far: u64 = match open {
                Some(v) => v,
                None => 0,
            };
            open = match so_far.checked_mul(10) {
                Some(tens) => match tens.checked_add(digit) {
                    Some(v) => Some(v),
                    None => {
                        return None;
                    },
                },
                None => {
                    return None;
                },
            };
        } else if c == '.' {
            match open {
                Some(v) => {
                    done.push(v);
                    open = None;
                },
                None => {
                    return None;
                },
            }
        } else {
            return None;
        }
        i = i + 1;
    }
    match open {
        Some(v) => {
            done.push(v);
            Some(done)
        },
        None => None,
    }
}

proof fn lemma_unreadable_stays(text: Seq<char>, n: nat, all: nat)
    requires
        n <= all,
        numbers_read(text, n) is None,
    ensures
        numbers_read(text, all) is None,
    decreases all,
{
    if n < all {
        lemma_unreadable_stays(text, n, (all - 1) as nat);
    }
}

fn is_below(a: &str, b: &str) -> (r: bool)
    ensures
        r == version_below(a@, b@),
{
    match (read_version(a), read_version(b)) {
        (Some(x), Some(y)) => {
            let mut i: usize = 0;
            while i < x.len() || i < y.len()
                invariant
                    i <= x@.len() || i <= y@.len(),
                    version_numbers(a@) == Some(x@),
                    version_numbers(b@) == Some(y@),
                    numbers_below(x@, y@, 0) == numbers_below(x@, y@, i as int),
                decreases x@.len() + y@.len() - i,
            {
                let m: u64 = if i < x.len() {
                    x[i]
                } else {
                    0
                };
                let n: u64 = if i < y.len() {
                    y[i]
                } else {
                    0
                };
                if m != n {
                    return m < n;
                }
                i = i + 1;
            }
            false
        },
        _ => less(a, b),
    }
}

/// The hand-over of this process. The owner lock is held, and given up, by its caller.
pub struct BridgeAState {
    phase: BridgePhase,
    pub frozen_controller_epoch: Option<u64>,
    reacquire_window_ms: u64,
    /// What was under way when it was last looked at.
    under_way: DrainInputs,
    manifest: Option<HandoffManifest>,
}

/// The hand-over of this process, as a value.
pub ghost struct BridgeView {
    pub phase: BridgePhase,
    pub frozen_controller_epoch: Option<u64>,
    pub reacquire_window_ms: u64,
    pub under_way: DrainInputs,
    pub manifest: Option<ManifestView>,
}

impl View for BridgeAState {
    type V = BridgeView;

    closed spec fn view(&self) -> BridgeView {
        BridgeView {
            phase: self.phase,
            frozen_controller_epoch: self.frozen_controller_epoch,
            reacquire_window_ms: self.reacquire_window_ms,
            under_way: self.under_way,
            manifest: match self.manifest {
                Some(m) => Some(m@),
                None => None,
            },
        }
    }
}

impl BridgeView {
    /// The invariant: there is a manifest exactly once the hand-over is done, the epochs
    /// were turned exactly once it has begun, and the stores are closed only where
    /// nothing was under way any more.
    pub open spec fn sound(self) -> bool {
        &&& self.manifest is Some <==> self.phase is HandedOff
        &&& self.frozen_controller_epoch is Some <==> !(self.phase is Owning)
        &&& self.manifest matches Some(m) ==> m.schema == HANDOFF_SCHEMA@
        &&& self.phase is StoresClosed || self.phase is HandedOff ==> self.under_way.is_empty()
    }

    /// Before the hand-over.
    pub open spec fn begun(reacquire_window_ms: u64) -> BridgeView {
        BridgeView {
            phase: BridgePhase::Owning,
            frozen_controller_epoch: None,
            reacquire_window_ms,
            under_way: DrainInputs {
                pending_outbox_events: 0,
                unfinished_intents: 0,
                live_sessions: 0,
                active_installation_jobs: 0,
                uninterruptible_operations: 0,
            },
            manifest: None,
        }
    }

    /// The start of the hand-over.
    pub open spec fn frozen(self, controller_epoch: u64) -> (
        BridgeView,
        Result<(), BridgeProblemView>,
    ) {
        match self.phase {
            BridgePhase::HandedOff => (self, Err(BridgeProblemView::AlreadyHandedOff)),
            BridgePhase::Owning => (
                BridgeView {
                    phase: BridgePhase::Freezing,
                    frozen_controller_epoch: Some((controller_epoch + 1) as u64),
                    ..self
                },
                Ok(()),
            ),
            _ => (self, Ok(())),
        }
    }

    /// The wait for what is under way.
    pub open spec fn drained(self, inputs: DrainInputs) -> (
        BridgeView,
        Result<(), BridgeProblemView>,
    ) {
        match self.phase {
            BridgePhase::HandedOff => (self, Err(BridgeProblemView::AlreadyHandedOff)),
            BridgePhase::Freezing | BridgePhase::Draining => (
                BridgeView { phase: BridgePhase::Draining, under_way: inputs, ..self },
                if inputs.is_empty() {
                    Ok(())
                } else {
                    Err(BridgeProblemView::DrainIncomplete(inputs))
                },
            ),
            other => (
                self,
                Err(
                    BridgeProblemView::PhaseRegression { from: other, to: BridgePhase::Draining },
                ),
            ),
        }
    }

    /// The closing of the stores: put off while anything is under way.
    pub open spec fn stores_closed(self) -> (BridgeView, Result<(), BridgeProblemView>) {
        match self.phase {
            BridgePhase::Draining => if self.under_way.is_empty() {
                (BridgeView { phase: BridgePhase::StoresClosed, ..self }, Ok(()))
            } else {
                (self, Err(BridgeProblemView::DrainIncomplete(self.under_way)))
            },
            BridgePhase::HandedOff => (self, Err(BridgeProblemView::AlreadyHandedOff)),
            other => (
                self,
                Err(
                    BridgeProblemView::PhaseRegression {
                        from: other,
                        to: BridgePhase::StoresClosed,
                    },
                ),
            ),
        }
    }

    /// The end of the hand-over.
    pub open spec fn handed_off(self, manifest: ManifestView) -> (
        BridgeView,
        Result<(), BridgeProblemView>,
    ) {
        match self.phase {
            BridgePhase::StoresClosed => (
                BridgeView {
                    phase: BridgePhase::HandedOff,
                    manifest: Some(ManifestView { schema: HANDOFF_SCHEMA@, ..manifest }),
                    ..self
                },
                Ok(()),
            ),
            BridgePhase::HandedOff => (self, Err(BridgeProblemView::AlreadyHandedOff)),
            other => (
                self,
                Err(
                    BridgeProblemView::PhaseRegression { from: other, to: BridgePhase::HandedOff },
                ),
            ),
        }
    }

    /// Whether a successor may take over.
    pub open spec fn reacquired(self, successor: Seq<char>, elapsed_ms: u64) -> Result<
        (),
        BridgeProblemView,
    > {
        match self.manifest {
            None => Err(BridgeProblemView::AlreadyHandedOff),
            Some(m) => if version_below(successor, m.min_successor_version) {
                Err(
                    BridgeProblemView::SuccessorTooOld {
                        successor,
                        required: m.min_successor_version,
                    },
                )
            } else if elapsed_ms > self.reacquire_window_ms {
                Err(BridgeProblemView::ReacquireWindowExpired)
            } else {
                Ok(())
            },
        }
    }
}

impl BridgeAState {
    /// Before the hand-over.
    pub fn new(reacquire_window_ms: u64) -> (r: Self)
        ensures
            r@ == BridgeView::begun(reacquire_window_ms),
            r@.sound(),
    {
        BridgeAState {
            phase: BridgePhase::Owning,
            frozen_controller_epoch: None,
            reacquire_window_ms,
            under_way: DrainInputs::default(),
            manifest: None,
        }
    }

    /// How far the hand-over has come.
    pub fn phase(&self) -> (r: BridgePhase)
        ensures
            r == self@.phase,
    {
        self.phase
    }

    /// The controller epoch that the start of the hand-over turned to, once it has begun.
    pub fn frozen_controller_epoch(&self) -> (r: Option<u64>)
        ensures
            r == self@.frozen_controller_epoch,
    {
        self.frozen_controller_epoch
    }

    /// What a successor takes over with, once the hand-over is done.
    pub fn manifest(&self) -> (r: Option<&HandoffManifest>)
        ensures
            match r {
                Some(m) => self@.manifest == Some(m@),
                None => self@.manifest is None,
            },
    {
        match &self.manifest {
            Some(m) => Some(m),
            None => None,
        }
    }

    /// Whether new work is taken.
    pub fn accepts_new_work(&self) -> (r: bool)
        ensures
            r == (self@.phase is Owning),
    {
        self.phase == BridgePhase::Owning
    }

    /// Starts the hand-over: no new work, and every epoch turns, once.
    pub fn freeze(&mut self, controller_epoch: u64) -> (r: Result<(), BridgeProblem>)
        requires
            old(self)@.sound(),
            old(self)@.phase is Owning ==> controller_epoch < u64::MAX,
        ensures
            final(self)@.sound(),
            (final(self)@, refused(r)) == old(self)@.frozen(controller_epoch),
    {
        match self.phase {
            BridgePhase::HandedOff => Err(BridgeProblem::AlreadyHandedOff),
            BridgePhase::Owning => {
                self.phase = BridgePhase::Freezing;
                self.frozen_controller_epoch = Some(controller_epoch + 1);
                Ok(())
            },
            _ => Ok(()),
        }
    }

    /// Waits for what is under way: it is done once nothing is.
    pub fn drain(&mut self, inputs: &DrainInputs) -> (r: Result<(), BridgeProblem>)
        requires
            old(self)@.sound(),
        ensures
            final(self)@.sound(),
            (final(self)@, refused(r)) == old(self)@.drained(*inputs),
    {
        match self.phase {
            BridgePhase::HandedOff => Err(BridgeProblem::AlreadyHandedOff),
            BridgePhase::Freezing | BridgePhase::Draining => {
                self.phase = BridgePhase::Draining;
                self.under_way = *inputs;
                inputs.check()
            },
            other => Err(
                BridgeProblem::PhaseRegression { from: other, to: BridgePhase::Draining },
            ),
        }
    }

    /// Closes the stores, once nothing is under way. Writing everything out is up to the
    /// caller.
    pub fn close_stores(&mut self) -> (r: Result<(), BridgeProblem>)
        requires
            old(self)@.sound(),
        ensures
            final(self)@.sound(),
            (final(self)@, refused(r)) == old(self)@.stores_closed(),
    {
        match self.phase {
            BridgePhase::Draining => {
                self.under_way.check()?;
                self.phase = BridgePhase::StoresClosed;
                Ok(())
            },
            BridgePhase::HandedOff => Err(BridgeProblem::AlreadyHandedOff),
            other => Err(
                BridgeProblem::PhaseRegression { from: other, to: BridgePhase::StoresClosed },
            ),
        }
    }

    /// Ends the hand-over. There is no way back.
    pub fn hand_off(&mut self, manifest: HandoffManifest) -> (r: Result<(), BridgeProblem>)
        requires
            old(self)@.sound(),
        ensures
            final(self)@.sound(),
            (final(self)@, refused(r)) == old(self)@.handed_off(manifest@),
    {
        match self.phase {
            BridgePhase::StoresClosed => {
                let mut manifest: HandoffManifest = manifest;
                manifest.schema = HANDOFF_SCHEMA.to_owned();
                self.phase = BridgePhase::HandedOff;
                self.manifest = Some(manifest);
                Ok(())
            },
            BridgePhase::HandedOff => Err(BridgeProblem::AlreadyHandedOff),
            other => Err(
                BridgeProblem::PhaseRegression { from: other, to: BridgePhase::HandedOff },
            ),
        }
    }

    /// Whether a successor may take over: its version is not below the least one, and the
    /// window has not passed. A millisecond that has begun counts as a whole one.
    pub fn successor_may_reacquire(&self, successor_version: &str, window_elapsed_ms: u64) -> (r:
        Result<(), BridgeProblem>)
        ensures
            refused(r) == self@.reacquired(successor_version@, window_elapsed_ms),
    {
        match &self.manifest {
            None => Err(BridgeProblem::AlreadyHandedOff),
            Some(m) => {
                if is_below(successor_version, m.min_successor_version.as_str()) {
                    return Err(
                        BridgeProblem::SuccessorTooOld {
                            successor: successor_version.to_owned(),
                            required: m.min_successor_version.clone(),
                        },
                    );
                }
                if window_elapsed_ms > self.reacquire_window_ms {
                    return Err(BridgeProblem::ReacquireWindowExpired);
                }
                Ok(())
            },
        }
    }
}

/// No step goes back to an earlier phase.
pub proof fn law_phases_never_go_back(
    b: BridgeView,
    epoch: u64,
    inputs: DrainInputs,
    manifest: ManifestView,
)
    ensures
        b.frozen(epoch).0.phase.rank() >= b.phase.rank(),
        b.drained(inputs).0.phase.rank() >= b.phase.rank(),
        b.stores_closed().0.phase.rank() >= b.phase.rank(),
        b.handed_off(manifest).0.phase.rank() >= b.phase.rank(),
{
}

/// Once handed over every step is refused, and nothing changes any more.
pub proof fn law_handed_off_is_the_end(
    b: BridgeView,
    epoch: u64,
    inputs: DrainInputs,
    manifest: ManifestView,
)
    requires
        b.phase is HandedOff,
    ensures
        b.frozen(epoch) == (b, Err::<(), BridgeProblemView>(BridgeProblemView::AlreadyHandedOff)),
        b.drained(inputs) == (b, Err::<(), BridgeProblemView>(BridgeProblemView::AlreadyHandedOff)),
        b.stores_closed() == (b, Err::<(), BridgeProblemView>(BridgeProblemView::AlreadyHandedOff)),
        b.handed_off(manifest) == (
            b,
            Err::<(), BridgeProblemView>(BridgeProblemView::AlreadyHandedOff),
        ),
{
}

/// While anything is under way the stores stay open, and the hand-over waits.
pub proof fn law_stores_close_only_at_rest(b: BridgeView, inputs: DrainInputs)
    requires
        b.sound(),
    ensures
        b.stores_closed().1 is Ok ==> b.under_way.is_empty(),
        b.phase.rank() >= BridgePhase::StoresClosed.rank() ==> b.under_way.is_empty(),
        !inputs.is_empty() && (b.phase is Freezing || b.phase is Draining) ==> {
            let waiting = b.drained(inputs).0;
            &&& waiting.phase is Draining
            &&& waiting.stores_closed() == (
                waiting,
                Err::<(), BridgeProblemView>(BridgeProblemView::DrainIncomplete(inputs)),
            )
        },
{
}

/// No version is below itself, and of two versions made of numbers at most one is below the
/// other.
pub proof fn law_versions_are_ordered(a: Seq<char>, b: Seq<char>)
    requires
        version_numbers(a) is Some,
        version_numbers(b) is Some,
    ensures
        !version_below(a, a),
        !(version_below(a, b) && version_below(b, a)),
{
    lemma_numbers_ordered(version_numbers(a)->0, version_numbers(b)->0, 0);
    lemma_numbers_ordered(version_numbers(a)->0, version_numbers(a)->0, 0);
}

proof fn lemma_numbers_ordered(a: Seq<u64>, b: Seq<u64>, from: int)
    ensures
        !(numbers_below(a, b, from) && numbers_below(b, a, from)),
    decreases a.len() + b.len() - from,
{
    if from < a.len() || from < b.len() {
        lemma_numbers_ordered(a, b, from + 1);
    }
}

/// A call on the state of a hand-over.
pub ghost enum BridgeCall {
    Freeze { controller_epoch: u64 },
    Drain { inputs: DrainInputs },
    CloseStores,
    HandOff { manifest: ManifestView },
    SuccessorMayReacquire { successor: Seq<char>, elapsed_ms: u64 },
}

impl BridgeView {
    /// The state after a call, whether it succeeded or not.
    pub open spec fn called(self, call: BridgeCall) -> BridgeView {
        match call {
            BridgeCall::Freeze { controller_epoch } => self.frozen(controller_epoch).0,
            BridgeCall::Drain { inputs } => self.drained(inputs).0,
            BridgeCall::CloseStores => self.stores_closed().0,
            BridgeCall::HandOff { manifest } => self.handed_off(manifest).0,
            BridgeCall::SuccessorMayReacquire { .. } => self,
        }
    }

    /// The state after calls, one after another.
    pub open spec fn after(self, calls: Seq<BridgeCall>) -> BridgeView
        decreases calls.len(),
    {
        if calls.len() == 0 {
            self
        } else {
            self.after(calls.drop_last()).called(calls.last())
        }
    }
}

proof fn lemma_calls_keep(b: BridgeView, calls: Seq<BridgeCall>)
    requires
        b.sound(),
    ensures
        b.after(calls).sound(),
        b.manifest is Some ==> b.after(calls).manifest == b.manifest,
        b.after(calls).phase is Owning <==> b.phase is Owning && forall|i: int|
            0 <= i < calls.len() ==> !(#[trigger] calls[i] is Freeze),
    decreases calls.len(),
{
    if calls.len() > 0 {
        let rest = calls.drop_last();
        lemma_calls_keep(b, rest);
        assert forall|i: int| 0 <= i < rest.len() implies #[trigger] rest[i] == calls[i] by {}
        if forall|i: int| 0 <= i < rest.len() ==> !(#[trigger] rest[i] is Freeze) {
            assert forall|i: int| 0 <= i < calls.len() && !(calls.last() is Freeze) implies !(
            #[trigger] calls[i] is Freeze) by {
                if i < rest.len() {
                    assert(!(rest[i] is Freeze));
                }
            }
        }
    }
}

/// Whatever was called, there is a manifest exactly once the hand-over is done. It is of
/// this form of the hand-over, and no later call changes it.
pub proof fn law_the_manifest_is_that_of_the_hand_over(
    reacquire_window_ms: u64,
    calls: Seq<BridgeCall>,
    more: Seq<BridgeCall>,
)
    ensures
        ({
            let b = BridgeView::begun(reacquire_window_ms).after(calls);
            &&& b.manifest is Some <==> b.phase is HandedOff
            &&& b.manifest matches Some(m) ==> m.schema == HANDOFF_SCHEMA@ && b.after(more).manifest
                == Some(m)
        }),
{
    let start = BridgeView::begun(reacquire_window_ms);
    lemma_calls_keep(start, calls);
    lemma_calls_keep(start.after(calls), more);
}

/// Whatever was called, new work is taken until the first start of the hand-over, and never
/// again after one that succeeded.
pub proof fn law_no_work_is_taken_after_a_freeze(
    reacquire_window_ms: u64,
    calls: Seq<BridgeCall>,
    controller_epoch: u64,
    more: Seq<BridgeCall>,
)
    ensures
        ({
            let b = BridgeView::begun(reacquire_window_ms).after(calls);
            let (frozen, answer) = b.frozen(controller_epoch);
            &&& b.phase is Owning <==> forall|i: int|
                0 <= i < calls.len() ==> !(#[trigger] calls[i] is Freeze)
            &&& answer is Ok ==> !(frozen.after(more).phase is Owning)
        }),
{
    let start = BridgeView::begun(reacquire_window_ms);
    lemma_calls_keep(start, calls);
    let b = start.after(calls);
    lemma_calls_keep(b.frozen(controller_epoch).0, more);
}

/// The epochs turn once: however often the start is repeated, the first one counts.
pub proof fn law_epochs_turn_once(b: BridgeView, first: u64, second: u64)
    ensures
        b.frozen(first).1 is Ok ==> b.frozen(first).0.frozen(second) == b.frozen(first),
{
}

} // verus!
