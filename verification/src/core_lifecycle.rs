//! The start of a core: it serves clients only once it owns the lock and has said so.

use crate::digest::{hex_digest, hex_text};
use crate::text::{cat, cat3, decimal, decimal_text, decimal_wide, same, texts};
use vstd::prelude::*;
use vstd::string::*;

verus! {

/// How far the start has come.
#[derive(Debug, Clone, Copy, PartialEq, Eq, PartialOrd, Ord, Structural)]
pub enum CorePhase {
    Starting,
    AcquiringOwnerLock,
    Owning,
    LostSingleton,
    Failed,
}

/// Which core owns the user's data.
#[derive(Debug)]
pub struct DiscoveryRecord {
    pub owner_epoch: u64,
    pub pid: u32,
    pub started_at: String,
    pub loopback_port: Option<u16>,
}

/// Which core owns the user's data, as a value.
pub ghost struct DiscoveryView {
    pub owner_epoch: u64,
    pub pid: u32,
    pub started_at: Seq<char>,
    pub loopback_port: Option<u16>,
}

impl View for DiscoveryRecord {
    type V = DiscoveryView;

    open spec fn view(&self) -> DiscoveryView {
        DiscoveryView {
            owner_epoch: self.owner_epoch,
            pid: self.pid,
            started_at: self.started_at@,
            loopback_port: self.loopback_port,
        }
    }
}

/// Why a start was refused.
#[derive(Debug, Clone, Copy, PartialEq, Eq, Structural)]
pub enum LifecycleProblem {
    LostSingleton { pid: u32 },
    StaleDiscovery { stale: u64, current: u64 },
    ColdStartBudget { projects: usize, elapsed_ms: u128, budget_ms: u64 },
}

impl LifecycleProblem {
    /// The printed form.
    pub open spec fn text(self) -> Seq<char> {
        match self {
            LifecycleProblem::LostSingleton { pid } => "owner lock 已被存活进程持有(pid="@
                + decimal_text(pid as nat) + "):败者只转发 open intent 后退出"@,
            LifecycleProblem::StaleDiscovery { stale, current } => "discovery 记录为陈旧 epoch("@
                + decimal_text(stale as nat) + " ≤ 当前 "@ + decimal_text(current as nat)
                + "):fencing 拒绝"@,
            LifecycleProblem::ColdStartBudget { projects, elapsed_ms, budget_ms } =>
            "cold-start 超预算("@ + decimal_text(projects as nat) + " projects, "@ + decimal_text(
                elapsed_ms as nat,
            ) + "ms > "@ + decimal_text(budget_ms as nat) + "ms)"@,
        }
    }

    /// The printed form.
    pub fn message(&self) -> (r: String)
        ensures
            r@ == self.text(),
    {
        match *self {
            LifecycleProblem::LostSingleton { pid } => cat3(
                "owner lock 已被存活进程持有(pid=",
                decimal(pid as u64).as_str(),
                "):败者只转发 open intent 后退出",
            ),
            LifecycleProblem::StaleDiscovery { stale, current } => {
                let mut m: String = cat3(
                    "discovery 记录为陈旧 epoch(",
                    decimal(stale).as_str(),
                    " ≤ 当前 ",
                );
                m.append(decimal(current).as_str());
                m.append("):fencing 拒绝");
                m
            },
            LifecycleProblem::ColdStartBudget { projects, elapsed_ms, budget_ms } => {
                let mut m: String = cat3(
                    "cold-start 超预算(",
                    decimal(projects as u64).as_str(),
                    " projects, ",
                );
                m.append(decimal_wide(elapsed_ms).as_str());
                m.append("ms > ");
                m.append(decimal(budget_ms).as_str());
                m.append("ms)");
                m
            },
        }
    }
}

/// The start of a core.
pub struct CoreLifecycle {
    phase: CorePhase,
    owner_epoch: u64,
}

/// The start of a core, as a value.
pub ghost struct LifecycleView {
    pub phase: CorePhase,
    pub owner_epoch: u64,
}

impl View for CoreLifecycle {
    type V = LifecycleView;

    closed spec fn view(&self) -> LifecycleView {
        LifecycleView { phase: self.phase, owner_epoch: self.owner_epoch }
    }
}

impl LifecycleView {
    /// The try for the owner lock, by whether it was got.
    pub open spec fn tried(self, acquired: bool) -> (LifecycleView, Result<(), LifecycleProblem>) {
        if acquired {
            (
                LifecycleView {
                    phase: CorePhase::AcquiringOwnerLock,
                    owner_epoch: (self.owner_epoch + 1) as u64,
                },
                Ok(()),
            )
        } else {
            (
                LifecycleView { phase: CorePhase::LostSingleton, ..self },
                Err(LifecycleProblem::LostSingleton { pid: 0 }),
            )
        }
    }

    /// Whether the owner lock was got and not lost again.
    pub open spec fn holds_lock(self) -> bool {
        self.phase is AcquiringOwnerLock || self.phase is Owning
    }

    /// The announcement of the owner: the start after it, and the record to write.
    pub open spec fn announced(
        self,
        previous: Option<DiscoveryView>,
        pid: u32,
        loopback_port: Option<u16>,
        started_at: Seq<char>,
    ) -> (LifecycleView, Result<DiscoveryView, LifecycleProblem>) {
        if !self.holds_lock() {
            (self, Err(LifecycleProblem::LostSingleton { pid: 0 }))
        } else if previous matches Some(p) && p.owner_epoch >= self.owner_epoch {
            (
                self,
                Err(
                    LifecycleProblem::StaleDiscovery {
                        stale: previous->0.owner_epoch,
                        current: self.owner_epoch,
                    },
                ),
            )
        } else {
            (
                LifecycleView { phase: CorePhase::Owning, ..self },
                Ok(
                    DiscoveryView {
                        owner_epoch: self.owner_epoch,
                        pid,
                        started_at,
                        loopback_port,
                    },
                ),
            )
        }
    }
}

impl CoreLifecycle {
    /// Before the start.
    pub fn new() -> (r: Self)
        ensures
            r@ == (LifecycleView { phase: CorePhase::Starting, owner_epoch: 0 }),
    {
        CoreLifecycle { phase: CorePhase::Starting, owner_epoch: 0 }
    }

    /// How far the start has come.
    pub fn phase(&self) -> (r: CorePhase)
        ensures
            r == self@.phase,
    {
        self.phase
    }

    /// The epoch of this owner.
    pub fn owner_epoch(&self) -> (r: u64)
        ensures
            r == self@.owner_epoch,
    {
        self.owner_epoch
    }

    /// Tries for the owner lock; the caller says whether it was got. Who does not get it
    /// passes its request on and leaves without touching a store.
    pub fn acquire_owner_lock(&mut self, acquired: bool) -> (r: Result<(), LifecycleProblem>)
        requires
            acquired ==> old(self)@.owner_epoch < u64::MAX,
        ensures
            (final(self)@, r) == old(self)@.tried(acquired),
    {
        if acquired {
            self.phase = CorePhase::AcquiringOwnerLock;
            self.owner_epoch = self.owner_epoch + 1;
            Ok(())
        } else {
            self.phase = CorePhase::LostSingleton;
            Err(LifecycleProblem::LostSingleton { pid: 0 })
        }
    }

    /// Announces the owner. It serves clients from here on. A record that is not older
    /// than this owner shuts it out.
    pub fn update_discovery(
        &mut self,
        previous: Option<&DiscoveryRecord>,
        pid: u32,
        loopback_port: Option<u16>,
        started_at: &str,
    ) -> (r: Result<DiscoveryRecord, LifecycleProblem>)
        ensures
            ({
                let (after, answer) = old(self)@.announced(
                    match previous {
                        Some(p) => Some(p@),
                        None => None,
                    },
                    pid,
                    loopback_port,
                    started_at@,
                );
                &&& final(self)@ == after
                &&& match r {
                    Ok(d) => answer == Ok::<DiscoveryView, LifecycleProblem>(d@),
                    Err(p) => answer == Err::<DiscoveryView, LifecycleProblem>(p),
                }
            }),
    {
        if self.phase != CorePhase::AcquiringOwnerLock && self.phase != CorePhase::Owning {
            return Err(LifecycleProblem::LostSingleton { pid: 0 });
        }
        if let Some(p) = previous {
            if p.owner_epoch >= self.owner_epoch {
                return Err(
                    LifecycleProblem::StaleDiscovery {
                        stale: p.owner_epoch,
                        current: self.owner_epoch,
                    },
                );
            }
        }
        self.phase = CorePhase::Owning;
        Ok(
            DiscoveryRecord {
                owner_epoch: self.owner_epoch,
                pid,
                started_at: started_at.to_owned(),
                loopback_port,
            },
        )
    }

    /// Whether a cold start was fast enough.
    pub fn check_cold_start_budget(&self, projects: usize, elapsed_ms: u128, budget_ms: u64) -> (r:
        Result<(), LifecycleProblem>)
        ensures
            r == (if elapsed_ms > budget_ms {
                Err::<(), LifecycleProblem>(
                    LifecycleProblem::ColdStartBudget { projects, elapsed_ms, budget_ms },
                )
            } else {
                Ok(())
            }),
    {
        if elapsed_ms > budget_ms as u128 {
            return Err(LifecycleProblem::ColdStartBudget { projects, elapsed_ms, budget_ms });
        }
        Ok(())
    }

    /// The start has failed; the owner before stays the owner.
    pub fn fail(&mut self)
        ensures
            final(self)@ == (LifecycleView { phase: CorePhase::Failed, ..old(self)@ }),
    {
        self.phase = CorePhase::Failed;
    }
}

impl Default for CoreLifecycle {
    fn default() -> (r: Self)
        ensures
            r@ == (LifecycleView { phase: CorePhase::Starting, owner_epoch: 0 }),
    {
        CoreLifecycle::new()
    }
}

/// Only the owner serves: who was not given the lock, or has failed, does not come to
/// own anything by announcing itself.
pub proof fn law_only_the_owner_serves(
    s: LifecycleView,
    previous: Option<DiscoveryView>,
    pid: u32,
    loopback_port: Option<u16>,
    started_at: Seq<char>,
)
    ensures
        s.tried(false).0.announced(previous, pid, loopback_port, started_at) == (
            s.tried(false).0,
            Err::<DiscoveryView, LifecycleProblem>(LifecycleProblem::LostSingleton { pid: 0 }),
        ),
        s.announced(previous, pid, loopback_port, started_at).1 is Ok ==> s.holds_lock(),
        !(s.phase is Owning) && s.announced(previous, pid, loopback_port, started_at).0.phase
            is Owning ==> s.phase is AcquiringOwnerLock,
{
}

/// A call on the start of a service.
pub ghost enum LifecycleCall {
    AcquireOwnerLock { acquired: bool },
    UpdateDiscovery {
        previous: Option<DiscoveryView>,
        pid: u32,
        loopback_port: Option<u16>,
        started_at: Seq<char>,
    },
    CheckColdStartBudget { projects: usize, elapsed_ms: u128, budget_ms: u64 },
    Fail,
}

impl LifecycleView {
    /// The start after a call, whether it succeeded or not.
    pub open spec fn called(self, call: LifecycleCall) -> LifecycleView {
        match call {
            LifecycleCall::AcquireOwnerLock { acquired } => self.tried(acquired).0,
            LifecycleCall::UpdateDiscovery { previous, pid, loopback_port, started_at } => {
                self.announced(previous, pid, loopback_port, started_at).0
            },
            LifecycleCall::CheckColdStartBudget { .. } => self,
            LifecycleCall::Fail => LifecycleView { phase: CorePhase::Failed, ..self },
        }
    }

    /// The start after calls, one after another.
    pub open spec fn after(self, calls: Seq<LifecycleCall>) -> LifecycleView
        decreases calls.len(),
    {
        if calls.len() == 0 {
            self
        } else {
            self.after(calls.drop_last()).called(calls.last())
        }
    }
}

/// How often the owner lock was got.
pub open spec fn locks_got(calls: Seq<LifecycleCall>) -> nat
    decreases calls.len(),
{
    if calls.len() == 0 {
        0
    } else {
        locks_got(calls.drop_last()) + if calls.last() == (LifecycleCall::AcquireOwnerLock {
            acquired: true,
        }) {
            1nat
        } else {
            0
        }
    }
}

/// Whatever was called, the epoch of an owner is the number of times that it got the lock.
pub proof fn law_the_owner_epoch_counts_the_locks(calls: Seq<LifecycleCall>)
    requires
        locks_got(calls) <= u64::MAX,
    ensures
        (LifecycleView { phase: CorePhase::Starting, owner_epoch: 0 }).after(calls).owner_epoch
            == locks_got(calls),
    decreases calls.len(),
{
    if calls.len() > 0 {
        law_the_owner_epoch_counts_the_locks(calls.drop_last());
    }
}

/// Epochs of owners that announce themselves one after another only rise.
pub proof fn law_owner_epochs_rise(
    s: LifecycleView,
    previous: DiscoveryView,
    pid: u32,
    loopback_port: Option<u16>,
    started_at: Seq<char>,
)
    ensures
        s.announced(Some(previous), pid, loopback_port, started_at).1 matches Ok(d)
            ==> d.owner_epoch > previous.owner_epoch,
{
}

/// The 64-bit FNV-1a hash of a byte string.
pub open spec fn fnv_hash(bytes: Seq<u8>) -> u64
    decreases bytes.len(),
{
    if bytes.len() == 0 {
        0xcbf2_9ce4_8422_2325
    } else {
        (fnv_hash(bytes.drop_last()) ^ (bytes.last() as u64)).wrapping_mul(0x0100_0000_01b3)
    }
}

/// The bytes of a number, most significant first.
pub open spec fn big_endian(n: u64) -> Seq<u8> {
    seq![
        (n >> 56) as u8,
        (n >> 48) as u8,
        (n >> 40) as u8,
        (n >> 32) as u8,
        (n >> 24) as u8,
        (n >> 16) as u8,
        (n >> 8) as u8,
        n as u8,
    ]
}

fn byte_of(n: u64) -> (r: u8)
    ensures
        r == n as u8,
{
    #[verifier::truncate]
    (n as u8)
}

/// The name of the lock that goes with a directory: safe characters only.
pub fn derive_mutex_name(state_dir: &str) -> (r: String)
    ensures
        r@ == "Local\\MonkeyFence.Core.Probe."@ + hex_text(
            big_endian(fnv_hash(vstd::utf8::encode_utf8(state_dir@))),
        ),
{
    let bytes: &[u8] = state_dir.as_bytes();
    let mut hash: u64 = 0xcbf2_9ce4_8422_2325;
    let mut i: usize = 0;
    assert(bytes@.take(0) =~= seq![]);
    while i < bytes.len()
        invariant
            i <= bytes@.len(),
            hash == fnv_hash(bytes@.take(i as int)),
        decreases bytes@.len() - i,
    {
        assert(bytes@.take(i + 1).drop_last() =~= bytes@.take(i as int));
        hash = (hash ^ (bytes[i] as u64)).wrapping_mul(0x0100_0000_01b3);
        i = i + 1;
    }
    assert(bytes@.take(i as int) =~= bytes@);
    let parts: [u8; 8] = [
        byte_of(hash >> 56),
        byte_of(hash >> 48),
        byte_of(hash >> 40),
        byte_of(hash >> 32),
        byte_of(hash >> 24),
        byte_of(hash >> 16),
        byte_of(hash >> 8),
        byte_of(hash),
    ];
    assert(parts@ =~= big_endian(hash));
    cat("Local\\MonkeyFence.Core.Probe.", hex_digest(&parts).as_str())
}

/// The place of the first argument with a name.
pub open spec fn arg_at(args: Seq<Seq<char>>, key: Seq<char>, from: int) -> Option<int>
    decreases args.len() - from,
{
    if from >= args.len() {
        None
    } else if args[from] == key {
        Some(from)
    } else {
        arg_at(args, key, from + 1)
    }
}

/// The argument behind the first one with a name.
pub fn arg_value(args: &Vec<String>, key: &str) -> (r: Option<String>)
    ensures
        crate::text::opt_view(r) == (match arg_at(texts(args@), key@, 0) {
            Some(i) => if i + 1 < args@.len() {
                Some(args@[i + 1]@)
            } else {
                None
            },
            None => None,
        }),
{
    let ghost all = texts(args@);
    let mut i: usize = 0;
    while i < args.len()
        invariant
            i <= args@.len(),
            all == texts(args@),
            arg_at(all, key@, 0) == arg_at(all, key@, i as int),
        decreases args@.len() - i,
    {
        assert(all[i as int] == args@[i as int]@);
        if same(args[i].as_str(), key) {
            if i + 1 < args.len() {
                return Some(args[i + 1].clone());
            }
            return None;
        }
        i = i + 1;
    }
    None
}

} // verus!
