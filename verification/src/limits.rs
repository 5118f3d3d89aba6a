//! Limits: for each parameter its default, the range it may be set to, and what
//! follows from it. A value outside its range is refused, never clamped.

use crate::text::{cat3, decimal, decimal_text};
use vstd::prelude::*;
use vstd::string::*;

verus! {

/// The default bounds of the journal.
pub const JOURNAL_MAX_EVENTS_DEFAULT: usize = 20000;

pub const JOURNAL_MAX_BYTES_DEFAULT: usize = 67108864;

/// A client may send this many times its rate at once.
pub const COMMAND_RATE_BURST_MULTIPLIER: u64 = 3;

/// A discovery record is stale after this many heartbeats.
pub const DISCOVERY_STALE_HEARTBEATS: u64 = 3;

/// The complaint about a value outside its range.
pub open spec fn range_message(
    name: Seq<char>,
    value: u64,
    min: u64,
    max: u64,
    hard_cap: u64,
) -> Seq<char> {
    "invalid_limits:"@ + name + "="@ + decimal_text(value as nat) + " 超出允许范围 ["@ + decimal_text(
        min as nat,
    ) + ", "@ + decimal_text(max as nat) + "](hard cap "@ + decimal_text(hard_cap as nat) + ")"@
}

fn range_text(name: &str, value: u64, min: u64, max: u64, hard_cap: u64) -> (r: String)
    ensures
        r@ == range_message(name@, value, min, max, hard_cap),
{
    let mut out: String = cat3("invalid_limits:", name, "=");
    out.append(decimal(value).as_str());
    out.append(" 超出允许范围 [");
    out.append(decimal(min).as_str());
    out.append(", ");
    out.append(decimal(max).as_str());
    out.append("](hard cap ");
    out.append(decimal(hard_cap).as_str());
    out.append(")");
    out
}

/// A parameter of the events and the client interface: its default, its range and the bound that no value may
/// pass.
#[derive(Debug, Clone, Copy, PartialEq, Eq)]
pub struct JournalParamSpec {
    pub name: &'static str,
    pub default: u64,
    pub min: u64,
    pub max: u64,
    pub hard_cap: u64,
}

/// A value of the events and the client interface outside its range.
#[derive(Debug, PartialEq, Eq)]
pub struct JournalLimitsError {
    pub name: &'static str,
    pub value: u64,
    pub min: u64,
    pub max: u64,
    pub hard_cap: u64,
}

/// A value outside its range, as a value.
pub ghost struct JournalRangeView {
    pub name: Seq<char>,
    pub value: u64,
    pub min: u64,
    pub max: u64,
    pub hard_cap: u64,
}

impl View for JournalLimitsError {
    type V = JournalRangeView;

    open spec fn view(&self) -> JournalRangeView {
        JournalRangeView {
            name: self.name@,
            value: self.value,
            min: self.min,
            max: self.max,
            hard_cap: self.hard_cap,
        }
    }
}

impl JournalLimitsError {
    /// The printed form.
    pub fn message(&self) -> (r: String)
        ensures
            r@ == range_message(self@.name, self.value, self.min, self.max, self.hard_cap),
    {
        range_text(self.name, self.value, self.min, self.max, self.hard_cap)
    }
}

/// The values of the events and the client interface.
#[derive(Debug, Clone, Copy, PartialEq, Eq)]
pub struct JournalLimits {
    pub journal_max_events: usize,
    pub journal_max_bytes: usize,
    pub journal_min_age_secs: u64,
    pub journal_event_max_bytes: usize,
    pub client_event_queue_max_events: usize,
    pub client_event_queue_max_bytes: usize,
    pub events_ws_ping_interval_ms: u64,
    pub events_ws_idle_timeout_ms: u64,
    pub command_rate_per_client: u64,
}

impl Default for JournalLimits {
    fn default() -> (r: Self)
        ensures
            r == JournalLimits::standard(),
            r.problem() is None,
    {
        JournalLimits {
            journal_max_events: 20000,
            journal_max_bytes: 67108864,
            journal_min_age_secs: 1800,
            journal_event_max_bytes: 1048576,
            client_event_queue_max_events: 2000,
            client_event_queue_max_bytes: 8388608,
            events_ws_ping_interval_ms: 20000,
            events_ws_idle_timeout_ms: 90000,
            command_rate_per_client: 40,
        }
    }
}

/// The parameters of the events and the client interface, in the order they are checked.
pub fn journal_params() -> (r: [JournalParamSpec; 9])
    ensures
        r[0].name@ == "journal_max_events"@ && r[0].default == 20000 && r[0].min == 1000
            && r[0].max == 100000
            && r[0].hard_cap == 100000,
        r[1].name@ == "journal_max_bytes"@ && r[1].default == 67108864 && r[1].min == 4194304
            && r[1].max == 268435456
            && r[1].hard_cap == 268435456,
        r[2].name@ == "journal_min_age_secs"@ && r[2].default == 1800 && r[2].min == 0
            && r[2].max == 86400
            && r[2].hard_cap == 86400,
        r[3].name@ == "journal_event_max_bytes"@ && r[3].default == 1048576 && r[3].min == 65536
            && r[3].max == 2097152
            && r[3].hard_cap == 2097152,
        r[4].name@ == "client_event_queue_max_events"@ && r[4].default == 2000 && r[4].min == 100
            && r[4].max == 20000
            && r[4].hard_cap == 20000,
        r[5].name@ == "client_event_queue_max_bytes"@ && r[5].default == 8388608
            && r[5].min == 1048576 && r[5].max == 67108864
            && r[5].hard_cap == 67108864,
        r[6].name@ == "events_ws_ping_interval_ms"@ && r[6].default == 20000 && r[6].min == 5000
            && r[6].max == 60000
            && r[6].hard_cap == 60000,
        r[7].name@ == "events_ws_idle_timeout_ms"@ && r[7].default == 90000 && r[7].min == 30000
            && r[7].max == 300000
            && r[7].hard_cap == 300000,
        r[8].name@ == "command_rate_per_client"@ && r[8].default == 40 && r[8].min == 5
            && r[8].max == 200
            && r[8].hard_cap == 200,
{
    [
        JournalParamSpec {
            name: "journal_max_events",
            default: 20000,
            min: 1000,
            max: 100000,
            hard_cap: 100000,
        },
        JournalParamSpec {
            name: "journal_max_bytes",
            default: 67108864,
            min: 4194304,
            max: 268435456,
            hard_cap: 268435456,
        },
        JournalParamSpec {
            name: "journal_min_age_secs",
            default: 1800,
            min: 0,
            max: 86400,
            hard_cap: 86400,
        },
        JournalParamSpec {
            name: "journal_event_max_bytes",
            default: 1048576,
            min: 65536,
            max: 2097152,
            hard_cap: 2097152,
        },
        JournalParamSpec {
            name: "client_event_queue_max_events",
            default: 2000,
            min: 100,
            max: 20000,
            hard_cap: 20000,
        },
        JournalParamSpec {
            name: "client_event_queue_max_bytes",
            default: 8388608,
            min: 1048576,
            max: 67108864,
            hard_cap: 67108864,
        },
        JournalParamSpec {
            name: "events_ws_ping_interval_ms",
            default: 20000,
            min: 5000,
            max: 60000,
            hard_cap: 60000,
        },
        JournalParamSpec {
            name: "events_ws_idle_timeout_ms",
            default: 90000,
            min: 30000,
            max: 300000,
            hard_cap: 300000,
        },
        JournalParamSpec {
            name: "command_rate_per_client",
            default: 40,
            min: 5,
            max: 200,
            hard_cap: 200,
        },
    ]
}

impl JournalLimits {
    /// The defaults.
    pub open spec fn standard() -> JournalLimits {
        JournalLimits {
            journal_max_events: 20000,
            journal_max_bytes: 67108864,
            journal_min_age_secs: 1800,
            journal_event_max_bytes: 1048576,
            client_event_queue_max_events: 2000,
            client_event_queue_max_bytes: 8388608,
            events_ws_ping_interval_ms: 20000,
            events_ws_idle_timeout_ms: 90000,
            command_rate_per_client: 40,
        }
    }

    /// The first value that is outside its range, if one is.
    pub open spec fn problem(self) -> Option<JournalRangeView> {
        if self.journal_max_events < 1000 || self.journal_max_events > 100000 {
            Some(
                JournalRangeView {
                    name: "journal_max_events"@,
                    value: self.journal_max_events as u64,
                    min: 1000,
                    max: 100000,
                    hard_cap: 100000,
                },
            )
        } else if self.journal_max_bytes < 4194304 || self.journal_max_bytes > 268435456 {
            Some(
                JournalRangeView {
                    name: "journal_max_bytes"@,
                    value: self.journal_max_bytes as u64,
                    min: 4194304,
                    max: 268435456,
                    hard_cap: 268435456,
                },
            )
        } else if self.journal_min_age_secs > 86400 {
            Some(
                JournalRangeView {
                    name: "journal_min_age_secs"@,
                    value: self.journal_min_age_secs as u64,
                    min: 0,
                    max: 86400,
                    hard_cap: 86400,
                },
            )
        } else if self.journal_event_max_bytes < 65536 || self.journal_event_max_bytes > 2097152 {
            Some(
                JournalRangeView {
                    name: "journal_event_max_bytes"@,
                    value: self.journal_event_max_bytes as u64,
                    min: 65536,
                    max: 2097152,
                    hard_cap: 2097152,
                },
            )
        } else if self.client_event_queue_max_events < 100 || self.client_event_queue_max_events > 20000 {
            Some(
                JournalRangeView {
                    name: "client_event_queue_max_events"@,
                    value: self.client_event_queue_max_events as u64,
                    min: 100,
                    max: 20000,
                    hard_cap: 20000,
                },
            )
        } else if self.client_event_queue_max_bytes < 1048576 || self.client_event_queue_max_bytes > 67108864 {
            Some(
                JournalRangeView {
                    name: "client_event_queue_max_bytes"@,
                    value: self.client_event_queue_max_bytes as u64,
                    min: 1048576,
                    max: 67108864,
                    hard_cap: 67108864,
                },
            )
        } else if self.events_ws_ping_interval_ms < 5000 || self.events_ws_ping_interval_ms > 60000 {
            Some(
                JournalRangeView {
                    name: "events_ws_ping_interval_ms"@,
                    value: self.events_ws_ping_interval_ms as u64,
                    min: 5000,
                    max: 60000,
                    hard_cap: 60000,
                },
            )
        } else if self.events_ws_idle_timeout_ms < 30000 || self.events_ws_idle_timeout_ms > 300000 {
            Some(
                JournalRangeView {
                    name: "events_ws_idle_timeout_ms"@,
                    value: self.events_ws_idle_timeout_ms as u64,
                    min: 30000,
                    max: 300000,
                    hard_cap: 300000,
                },
            )
        } else if self.command_rate_per_client < 5 || self.command_rate_per_client > 200 {
            Some(
                JournalRangeView {
                    name: "command_rate_per_client"@,
                    value: self.command_rate_per_client as u64,
                    min: 5,
                    max: 200,
                    hard_cap: 200,
                },
            )
        } else {
            None
        }
    }

    /// Checks that every value is inside its range; the first that is not is
    /// named.
    pub fn validate(&self) -> (r: Result<(), JournalLimitsError>)
        ensures
            match self.problem() {
                None => r is Ok,
                Some(p) => r matches Err(e) && e@ == p,
            },
    {
        let specs: [JournalParamSpec; 9] = journal_params();
        let values: [u64; 9] = [
            self.journal_max_events as u64,
            self.journal_max_bytes as u64,
            self.journal_min_age_secs,
            self.journal_event_max_bytes as u64,
            self.client_event_queue_max_events as u64,
            self.client_event_queue_max_bytes as u64,
            self.events_ws_ping_interval_ms,
            self.events_ws_idle_timeout_ms,
            self.command_rate_per_client,
        ];
        let mut i: usize = 0;
        while i < 9
            invariant
                i <= 9,
                specs@.len() == 9,
                values@.len() == 9,
                specs@[0].name@ == "journal_max_events"@ && specs@[0].min == 1000
                    && specs@[0].max == 100000 && specs@[0].hard_cap
                    == 100000 && values@[0] == self.journal_max_events,
                specs@[1].name@ == "journal_max_bytes"@ && specs@[1].min == 4194304
                    && specs@[1].max == 268435456 && specs@[1].hard_cap
                    == 268435456 && values@[1] == self.journal_max_bytes,
                specs@[2].name@ == "journal_min_age_secs"@ && specs@[2].min == 0
                    && specs@[2].max == 86400 && specs@[2].hard_cap
                    == 86400 && values@[2] == self.journal_min_age_secs,
                specs@[3].name@ == "journal_event_max_bytes"@ && specs@[3].min == 65536
                    && specs@[3].max == 2097152 && specs@[3].hard_cap
                    == 2097152 && values@[3] == self.journal_event_max_bytes,
                specs@[4].name@ == "client_event_queue_max_events"@ && specs@[4].min == 100
                    && specs@[4].max == 20000 && specs@[4].hard_cap
                    == 20000 && values@[4] == self.client_event_queue_max_events,
                specs@[5].name@ == "client_event_queue_max_bytes"@ && specs@[5].min == 1048576
                    && specs@[5].max == 67108864 && specs@[5].hard_cap
                    == 67108864 && values@[5] == self.client_event_queue_max_bytes,
                specs@[6].name@ == "events_ws_ping_interval_ms"@ && specs@[6].min == 5000
                    && specs@[6].max == 60000 && specs@[6].hard_cap
                    == 60000 && values@[6] == self.events_ws_ping_interval_ms,
                specs@[7].name@ == "events_ws_idle_timeout_ms"@ && specs@[7].min == 30000
                    && specs@[7].max == 300000 && specs@[7].hard_cap
                    == 300000 && values@[7] == self.events_ws_idle_timeout_ms,
                specs@[8].name@ == "command_rate_per_client"@ && specs@[8].min == 5
                    && specs@[8].max == 200 && specs@[8].hard_cap
                    == 200 && values@[8] == self.command_rate_per_client,
                forall|k: int|
                    0 <= k < i ==> (#[trigger] specs@[k]).min <= values@[k] <= specs@[k].max,
            decreases 9 - i,
        {
            let spec: JournalParamSpec = specs[i];
            let value: u64 = values[i];
            if value < spec.min || value > spec.max || value > spec.hard_cap {
                proof {
                    if i > 0 {
                        assert(specs@[0].min <= values@[0] <= specs@[0].max);
                    }
                    if i > 1 {
                        assert(specs@[1].min <= values@[1] <= specs@[1].max);
                    }
                    if i > 2 {
                        assert(specs@[2].min <= values@[2] <= specs@[2].max);
                    }
                    if i > 3 {
                        assert(specs@[3].min <= values@[3] <= specs@[3].max);
                    }
                    if i > 4 {
                        assert(specs@[4].min <= values@[4] <= specs@[4].max);
                    }
                    if i > 5 {
                        assert(specs@[5].min <= values@[5] <= specs@[5].max);
                    }
                    if i > 6 {
                        assert(specs@[6].min <= values@[6] <= specs@[6].max);
                    }
                    if i > 7 {
                        assert(specs@[7].min <= values@[7] <= specs@[7].max);
                    }
                    if i > 8 {
                        assert(specs@[8].min <= values@[8] <= specs@[8].max);
                    }
                }
                return Err(
                    JournalLimitsError {
                        name: spec.name,
                        value,
                        min: spec.min,
                        max: spec.max,
                        hard_cap: spec.hard_cap,
                    },
                );
            }
            i = i + 1;
        }
        proof {
            assert(specs@[0].min <= values@[0] <= specs@[0].max);
            assert(specs@[1].min <= values@[1] <= specs@[1].max);
            assert(specs@[2].min <= values@[2] <= specs@[2].max);
            assert(specs@[3].min <= values@[3] <= specs@[3].max);
            assert(specs@[4].min <= values@[4] <= specs@[4].max);
            assert(specs@[5].min <= values@[5] <= specs@[5].max);
            assert(specs@[6].min <= values@[6] <= specs@[6].max);
            assert(specs@[7].min <= values@[7] <= specs@[7].max);
            assert(specs@[8].min <= values@[8] <= specs@[8].max);
        }
        Ok(())
    }

    /// How many commands a client may send at once: three times its rate.
    pub fn command_burst_per_client(&self) -> (r: u64)
        requires
            self.command_rate_per_client * COMMAND_RATE_BURST_MULTIPLIER <= u64::MAX,
        ensures
            r == 3 * self.command_rate_per_client,
    {
        self.command_rate_per_client * COMMAND_RATE_BURST_MULTIPLIER
    }
}

/// The values that a configuration sets.
#[derive(Debug, Clone, Copy, PartialEq, Eq)]
pub struct JournalLimitOverrides {
    pub journal_max_events: Option<usize>,
    pub journal_max_bytes: Option<usize>,
    pub journal_min_age_secs: Option<u64>,
    pub journal_event_max_bytes: Option<usize>,
    pub client_event_queue_max_events: Option<usize>,
    pub client_event_queue_max_bytes: Option<usize>,
    pub events_ws_ping_interval_ms: Option<u64>,
    pub events_ws_idle_timeout_ms: Option<u64>,
    pub command_rate_per_client: Option<u64>,
}

impl JournalLimitOverrides {
    /// The values with those that the configuration sets put in place.
    pub open spec fn over(self, limits: JournalLimits) -> JournalLimits {
        JournalLimits {
            journal_max_events: match self.journal_max_events {
                Some(v) => v,
                None => limits.journal_max_events,
            },
            journal_max_bytes: match self.journal_max_bytes {
                Some(v) => v,
                None => limits.journal_max_bytes,
            },
            journal_min_age_secs: match self.journal_min_age_secs {
                Some(v) => v,
                None => limits.journal_min_age_secs,
            },
            journal_event_max_bytes: match self.journal_event_max_bytes {
                Some(v) => v,
                None => limits.journal_event_max_bytes,
            },
            client_event_queue_max_events: match self.client_event_queue_max_events {
                Some(v) => v,
                None => limits.client_event_queue_max_events,
            },
            client_event_queue_max_bytes: match self.client_event_queue_max_bytes {
                Some(v) => v,
                None => limits.client_event_queue_max_bytes,
            },
            events_ws_ping_interval_ms: match self.events_ws_ping_interval_ms {
                Some(v) => v,
                None => limits.events_ws_ping_interval_ms,
            },
            events_ws_idle_timeout_ms: match self.events_ws_idle_timeout_ms {
                Some(v) => v,
                None => limits.events_ws_idle_timeout_ms,
            },
            command_rate_per_client: match self.command_rate_per_client {
                Some(v) => v,
                None => limits.command_rate_per_client,
            },
        }
    }

    /// Puts the values that the configuration sets in place.
    pub fn apply(self, limits: &mut JournalLimits)
        ensures
            *final(limits) == self.over(*old(limits)),
    {
        if let Some(v) = self.journal_max_events {
            limits.journal_max_events = v;
        }
        if let Some(v) = self.journal_max_bytes {
            limits.journal_max_bytes = v;
        }
        if let Some(v) = self.journal_min_age_secs {
            limits.journal_min_age_secs = v;
        }
        if let Some(v) = self.journal_event_max_bytes {
            limits.journal_event_max_bytes = v;
        }
        if let Some(v) = self.client_event_queue_max_events {
            limits.client_event_queue_max_events = v;
        }
        if let Some(v) = self.client_event_queue_max_bytes {
            limits.client_event_queue_max_bytes = v;
        }
        if let Some(v) = self.events_ws_ping_interval_ms {
            limits.events_ws_ping_interval_ms = v;
        }
        if let Some(v) = self.events_ws_idle_timeout_ms {
            limits.events_ws_idle_timeout_ms = v;
        }
        if let Some(v) = self.command_rate_per_client {
            limits.command_rate_per_client = v;
        }
    }
}

/// The limits that a configuration asks for: the defaults with what it sets, where
/// all of it is inside its range.
pub fn configured_limits(overrides: Option<JournalLimitOverrides>) -> (r: Result<
    JournalLimits,
    JournalLimitsError,
>)
    ensures
        ({
            let limits = match overrides {
                Some(o) => o.over(JournalLimits::standard()),
                None => JournalLimits::standard(),
            };
            match limits.problem() {
                None => r == Ok::<JournalLimits, JournalLimitsError>(limits),
                Some(p) => r matches Err(e) && e@ == p,
            }
        }),
{
    let mut limits: JournalLimits = JournalLimits::default();
    if let Some(o) = overrides {
        o.apply(&mut limits);
    }
    match limits.validate() {
        Ok(_) => Ok(limits),
        Err(e) => Err(e),
    }
}

/// A parameter of the life of the core process: its default, its range and the bound that no value may
/// pass.
#[derive(Debug, Clone, Copy, PartialEq, Eq)]
pub struct LifecycleParamSpec {
    pub name: &'static str,
    pub default: u64,
    pub min: u64,
    pub max: u64,
    pub hard_cap: u64,
}

/// A value of the life of the core process outside its range.
#[derive(Debug, PartialEq, Eq)]
pub struct LifecycleLimitsError {
    pub name: &'static str,
    pub value: u64,
    pub min: u64,
    pub max: u64,
    pub hard_cap: u64,
}

/// A value outside its range, as a value.
pub ghost struct LifecycleRangeView {
    pub name: Seq<char>,
    pub value: u64,
    pub min: u64,
    pub max: u64,
    pub hard_cap: u64,
}

impl View for LifecycleLimitsError {
    type V = LifecycleRangeView;

    open spec fn view(&self) -> LifecycleRangeView {
        LifecycleRangeView {
            name: self.name@,
            value: self.value,
            min: self.min,
            max: self.max,
            hard_cap: self.hard_cap,
        }
    }
}

impl LifecycleLimitsError {
    /// The printed form.
    pub fn message(&self) -> (r: String)
        ensures
            r@ == range_message(self@.name, self.value, self.min, self.max, self.hard_cap),
    {
        range_text(self.name, self.value, self.min, self.max, self.hard_cap)
    }
}

/// The values of the life of the core process.
#[derive(Debug, Clone, Copy, PartialEq, Eq)]
pub struct LifecycleLimits {
    pub discovery_heartbeat_ms: u64,
    pub shutdown_freeze_grace_ms: u64,
    pub shutdown_drain_timeout_ms: u64,
    pub forced_kill_grace_ms: u64,
    pub handoff_reacquire_window_ms: u64,
}

impl Default for LifecycleLimits {
    fn default() -> (r: Self)
        ensures
            r == LifecycleLimits::standard(),
            r.problem() is None,
    {
        LifecycleLimits {
            discovery_heartbeat_ms: 5000,
            shutdown_freeze_grace_ms: 5000,
            shutdown_drain_timeout_ms: 120000,
            forced_kill_grace_ms: 10000,
            handoff_reacquire_window_ms: 60000,
        }
    }
}

/// The parameters of the life of the core process, in the order they are checked.
pub fn lifecycle_params() -> (r: [LifecycleParamSpec; 5])
    ensures
        r[0].name@ == "discovery_heartbeat_ms"@ && r[0].default == 5000 && r[0].min == 1000
            && r[0].max == 30000
            && r[0].hard_cap == 30000,
        r[1].name@ == "shutdown_freeze_grace_ms"@ && r[1].default == 5000 && r[1].min == 1000
            && r[1].max == 30000
            && r[1].hard_cap == 30000,
        r[2].name@ == "shutdown_drain_timeout_ms"@ && r[2].default == 120000 && r[2].min == 30000
            && r[2].max == 600000
            && r[2].hard_cap == 600000,
        r[3].name@ == "forced_kill_grace_ms"@ && r[3].default == 10000 && r[3].min == 2000
            && r[3].max == 60000
            && r[3].hard_cap == 60000,
        r[4].name@ == "handoff_reacquire_window_ms"@ && r[4].default == 60000 && r[4].min == 15000
            && r[4].max == 300000
            && r[4].hard_cap == 300000,
{
    [
        LifecycleParamSpec {
            name: "discovery_heartbeat_ms",
            default: 5000,
            min: 1000,
            max: 30000,
            hard_cap: 30000,
        },
        LifecycleParamSpec {
            name: "shutdown_freeze_grace_ms",
            default: 5000,
            min: 1000,
            max: 30000,
            hard_cap: 30000,
        },
        LifecycleParamSpec {
            name: "shutdown_drain_timeout_ms",
            default: 120000,
            min: 30000,
            max: 600000,
            hard_cap: 600000,
        },
        LifecycleParamSpec {
            name: "forced_kill_grace_ms",
            default: 10000,
            min: 2000,
            max: 60000,
            hard_cap: 60000,
        },
        LifecycleParamSpec {
            name: "handoff_reacquire_window_ms",
            default: 60000,
            min: 15000,
            max: 300000,
            hard_cap: 300000,
        },
    ]
}

impl LifecycleLimits {
    /// The defaults.
    pub open spec fn standard() -> LifecycleLimits {
        LifecycleLimits {
            discovery_heartbeat_ms: 5000,
            shutdown_freeze_grace_ms: 5000,
            shutdown_drain_timeout_ms: 120000,
            forced_kill_grace_ms: 10000,
            handoff_reacquire_window_ms: 60000,
        }
    }

    /// The first value that is outside its range, if one is.
    pub open spec fn problem(self) -> Option<LifecycleRangeView> {
        if self.discovery_heartbeat_ms < 1000 || self.discovery_heartbeat_ms > 30000 {
            Some(
                LifecycleRangeView {
                    name: "discovery_heartbeat_ms"@,
                    value: self.discovery_heartbeat_ms as u64,
                    min: 1000,
                    max: 30000,
                    hard_cap: 30000,
                },
            )
        } else if self.shutdown_freeze_grace_ms < 1000 || self.shutdown_freeze_grace_ms > 30000 {
            Some(
                LifecycleRangeView {
                    name: "shutdown_freeze_grace_ms"@,
                    value: self.shutdown_freeze_grace_ms as u64,
                    min: 1000,
                    max: 30000,
                    hard_cap: 30000,
                },
            )
        } else if self.shutdown_drain_timeout_ms < 30000 || self.shutdown_drain_timeout_ms > 600000 {
            Some(
                LifecycleRangeView {
                    name: "shutdown_drain_timeout_ms"@,
                    value: self.shutdown_drain_timeout_ms as u64,
                    min: 30000,
                    max: 600000,
                    hard_cap: 600000,
                },
            )
        } else if self.forced_kill_grace_ms < 2000 || self.forced_kill_grace_ms > 60000 {
            Some(
                LifecycleRangeView {
                    name: "forced_kill_grace_ms"@,
                    value: self.forced_kill_grace_ms as u64,
                    min: 2000,
                    max: 60000,
                    hard_cap: 60000,
                },
            )
        } else if self.handoff_reacquire_window_ms < 15000 || self.handoff_reacquire_window_ms > 300000 {
            Some(
                LifecycleRangeView {
                    name: "handoff_reacquire_window_ms"@,
                    value: self.handoff_reacquire_window_ms as u64,
                    min: 15000,
                    max: 300000,
                    hard_cap: 300000,
                },
            )
        } else {
            None
        }
    }

    /// Checks that every value is inside its range; the first that is not is
    /// named.
    pub fn validate(&self) -> (r: Result<(), LifecycleLimitsError>)
        ensures
            match self.problem() {
                None => r is Ok,
                Some(p) => r matches Err(e) && e@ == p,
            },
    {
        let specs: [LifecycleParamSpec; 5] = lifecycle_params();
        let values: [u64; 5] = [
            self.discovery_heartbeat_ms,
            self.shutdown_freeze_grace_ms,
            self.shutdown_drain_timeout_ms,
            self.forced_kill_grace_ms,
            self.handoff_reacquire_window_ms,
        ];
        let mut i: usize = 0;
        while i < 5
            invariant
                i <= 5,
                specs@.len() == 5,
                values@.len() == 5,
                specs@[0].name@ == "discovery_heartbeat_ms"@ && specs@[0].min == 1000
                    && specs@[0].max == 30000 && specs@[0].hard_cap
                    == 30000 && values@[0] == self.discovery_heartbeat_ms,
                specs@[1].name@ == "shutdown_freeze_grace_ms"@ && specs@[1].min == 1000
                    && specs@[1].max == 30000 && specs@[1].hard_cap
                    == 30000 && values@[1] == self.shutdown_freeze_grace_ms,
                specs@[2].name@ == "shutdown_drain_timeout_ms"@ && specs@[2].min == 30000
                    && specs@[2].max == 600000 && specs@[2].hard_cap
                    == 600000 && values@[2] == self.shutdown_drain_timeout_ms,
                specs@[3].name@ == "forced_kill_grace_ms"@ && specs@[3].min == 2000
                    && specs@[3].max == 60000 && specs@[3].hard_cap
                    == 60000 && values@[3] == self.forced_kill_grace_ms,
                specs@[4].name@ == "handoff_reacquire_window_ms"@ && specs@[4].min == 15000
                    && specs@[4].max == 300000 && specs@[4].hard_cap
                    == 300000 && values@[4] == self.handoff_reacquire_window_ms,
                forall|k: int|
                    0 <= k < i ==> (#[trigger] specs@[k]).min <= values@[k] <= specs@[k].max,
            decreases 5 - i,
        {
            let spec: LifecycleParamSpec = specs[i];
            let value: u64 = values[i];
            if value < spec.min || value > spec.max || value > spec.hard_cap {
                proof {
                    if i > 0 {
                        assert(specs@[0].min <= values@[0] <= specs@[0].max);
                    }
                    if i > 1 {
                        assert(specs@[1].min <= values@[1] <= specs@[1].max);
                    }
                    if i > 2 {
                        assert(specs@[2].min <= values@[2] <= specs@[2].max);
                    }
                    if i > 3 {
                        assert(specs@[3].min <= values@[3] <= specs@[3].max);
                    }
                    if i > 4 {
                        assert(specs@[4].min <= values@[4] <= specs@[4].max);
                    }
                }
                return Err(
                    LifecycleLimitsError {
                        name: spec.name,
                        value,
                        min: spec.min,
                        max: spec.max,
                        hard_cap: spec.hard_cap,
                    },
                );
            }
            i = i + 1;
        }
        proof {
            assert(specs@[0].min <= values@[0] <= specs@[0].max);
            assert(specs@[1].min <= values@[1] <= specs@[1].max);
            assert(specs@[2].min <= values@[2] <= specs@[2].max);
            assert(specs@[3].min <= values@[3] <= specs@[3].max);
            assert(specs@[4].min <= values@[4] <= specs@[4].max);
        }
        Ok(())
    }

    /// How long after its last heartbeat a discovery record is stale: three
    /// heartbeats.
    pub fn discovery_stale_after_ms(&self) -> (r: u64)
        requires
            self.discovery_heartbeat_ms * DISCOVERY_STALE_HEARTBEATS <= u64::MAX,
        ensures
            r == 3 * self.discovery_heartbeat_ms,
    {
        self.discovery_heartbeat_ms * DISCOVERY_STALE_HEARTBEATS
    }
}

/// A parameter of how long records are kept: its default, its range and the bound that no value may
/// pass.
#[derive(Debug, Clone, Copy, PartialEq, Eq)]
pub struct RetentionParamSpec {
    pub name: &'static str,
    pub default: u64,
    pub min: u64,
    pub max: u64,
    pub hard_cap: u64,
}

/// A value of how long records are kept outside its range.
#[derive(Debug, PartialEq, Eq)]
pub struct RetentionLimitsError {
    pub name: &'static str,
    pub value: u64,
    pub min: u64,
    pub max: u64,
    pub hard_cap: u64,
}

/// A value outside its range, as a value.
pub ghost struct RetentionRangeView {
    pub name: Seq<char>,
    pub value: u64,
    pub min: u64,
    pub max: u64,
    pub hard_cap: u64,
}

impl View for RetentionLimitsError {
    type V = RetentionRangeView;

    open spec fn view(&self) -> RetentionRangeView {
        RetentionRangeView {
            name: self.name@,
            value: self.value,
            min: self.min,
            max: self.max,
            hard_cap: self.hard_cap,
        }
    }
}

impl RetentionLimitsError {
    /// The printed form.
    pub fn message(&self) -> (r: String)
        ensures
            r@ == range_message(self@.name, self.value, self.min, self.max, self.hard_cap),
    {
        range_text(self.name, self.value, self.min, self.max, self.hard_cap)
    }
}

/// The values of how long records are kept.
#[derive(Debug, Clone, Copy, PartialEq, Eq)]
pub struct RetentionLimits {
    pub receipt_retention_days: u64,
    pub receipt_max_rows_per_store: u64,
    pub operation_retention_days: u64,
    pub audit_retention_days: u64,
    pub gc_interval_ms: u64,
    pub operation_progress_interval_ms: u64,
}

impl Default for RetentionLimits {
    fn default() -> (r: Self)
        ensures
            r == RetentionLimits::standard(),
            r.problem() is None,
    {
        RetentionLimits {
            receipt_retention_days: 30,
            receipt_max_rows_per_store: 200000,
            operation_retention_days: 90,
            audit_retention_days: 365,
            gc_interval_ms: 3600000,
            operation_progress_interval_ms: 1000,
        }
    }
}

/// The parameters of how long records are kept, in the order they are checked.
pub fn retention_params() -> (r: [RetentionParamSpec; 6])
    ensures
        r[0].name@ == "receipt_retention_days"@ && r[0].default == 30 && r[0].min == 7
            && r[0].max == 365
            && r[0].hard_cap == 365,
        r[1].name@ == "receipt_max_rows_per_store"@ && r[1].default == 200000 && r[1].min == 10000
            && r[1].max == 1000000
            && r[1].hard_cap == 1000000,
        r[2].name@ == "operation_retention_days"@ && r[2].default == 90 && r[2].min == 7
            && r[2].max == 365
            && r[2].hard_cap == 365,
        r[3].name@ == "audit_retention_days"@ && r[3].default == 365 && r[3].min == 30
            && r[3].max == 3650
            && r[3].hard_cap == 3650,
        r[4].name@ == "gc_interval_ms"@ && r[4].default == 3600000 && r[4].min == 300000
            && r[4].max == 86400000
            && r[4].hard_cap == 86400000,
        r[5].name@ == "operation_progress_interval_ms"@ && r[5].default == 1000 && r[5].min == 250
            && r[5].max == 10000
            && r[5].hard_cap == 10000,
{
    [
        RetentionParamSpec {
            name: "receipt_retention_days",
            default: 30,
            min: 7,
            max: 365,
            hard_cap: 365,
        },
        RetentionParamSpec {
            name: "receipt_max_rows_per_store",
            default: 200000,
            min: 10000,
            max: 1000000,
            hard_cap: 1000000,
        },
        RetentionParamSpec {
            name: "operation_retention_days",
            default: 90,
            min: 7,
            max: 365,
            hard_cap: 365,
        },
        RetentionParamSpec {
            name: "audit_retention_days",
            default: 365,
            min: 30,
            max: 3650,
            hard_cap: 3650,
        },
        RetentionParamSpec {
            name: "gc_interval_ms",
            default: 3600000,
            min: 300000,
            max: 86400000,
            hard_cap: 86400000,
        },
        RetentionParamSpec {
            name: "operation_progress_interval_ms",
            default: 1000,
            min: 250,
            max: 10000,
            hard_cap: 10000,
        },
    ]
}

impl RetentionLimits {
    /// The defaults.
    pub open spec fn standard() -> RetentionLimits {
        RetentionLimits {
            receipt_retention_days: 30,
            receipt_max_rows_per_store: 200000,
            operation_retention_days: 90,
            audit_retention_days: 365,
            gc_interval_ms: 3600000,
            operation_progress_interval_ms: 1000,
        }
    }

    /// The first value that is outside its range, if one is.
    pub open spec fn problem(self) -> Option<RetentionRangeView> {
        if self.receipt_retention_days < 7 || self.receipt_retention_days > 365 {
            Some(
                RetentionRangeView {
                    name: "receipt_retention_days"@,
                    value: self.receipt_retention_days as u64,
                    min: 7,
                    max: 365,
                    hard_cap: 365,
                },
            )
        } else if self.receipt_max_rows_per_store < 10000 || self.receipt_max_rows_per_store > 1000000 {
            Some(
                RetentionRangeView {
                    name: "receipt_max_rows_per_store"@,
                    value: self.receipt_max_rows_per_store as u64,
                    min: 10000,
                    max: 1000000,
                    hard_cap: 1000000,
                },
            )
        } else if self.operation_retention_days < 7 || self.operation_retention_days > 365 {
            Some(
                RetentionRangeView {
                    name: "operation_retention_days"@,
                    value: self.operation_retention_days as u64,
                    min: 7,
                    max: 365,
                    hard_cap: 365,
                },
            )
        } else if self.audit_retention_days < 30 || self.audit_retention_days > 3650 {
            Some(
                RetentionRangeView {
                    name: "audit_retention_days"@,
                    value: self.audit_retention_days as u64,
                    min: 30,
                    max: 3650,
                    hard_cap: 3650,
                },
            )
        } else if self.gc_interval_ms < 300000 || self.gc_interval_ms > 86400000 {
            Some(
                RetentionRangeView {
                    name: "gc_interval_ms"@,
                    value: self.gc_interval_ms as u64,
                    min: 300000,
                    max: 86400000,
                    hard_cap: 86400000,
                },
            )
        } else if self.operation_progress_interval_ms < 250 || self.operation_progress_interval_ms > 10000 {
            Some(
                RetentionRangeView {
                    name: "operation_progress_interval_ms"@,
                    value: self.operation_progress_interval_ms as u64,
                    min: 250,
                    max: 10000,
                    hard_cap: 10000,
                },
            )
        } else {
            None
        }
    }

    /// Checks that every value is inside its range; the first that is not is
    /// named.
    pub fn validate(&self) -> (r: Result<(), RetentionLimitsError>)
        ensures
            match self.problem() {
                None => r is Ok,
                Some(p) => r matches Err(e) && e@ == p,
            },
    {
        let specs: [RetentionParamSpec; 6] = retention_params();
        let values: [u64; 6] = [
            self.receipt_retention_days,
            self.receipt_max_rows_per_store,
            self.operation_retention_days,
            self.audit_retention_days,
            self.gc_interval_ms,
            self.operation_progress_interval_ms,
        ];
        let mut i: usize = 0;
        while i < 6
            invariant
                i <= 6,
                specs@.len() == 6,
                values@.len() == 6,
                specs@[0].name@ == "receipt_retention_days"@ && specs@[0].min == 7
                    && specs@[0].max == 365 && specs@[0].hard_cap
                    == 365 && values@[0] == self.receipt_retention_days,
                specs@[1].name@ == "receipt_max_rows_per_store"@ && specs@[1].min == 10000
                    && specs@[1].max == 1000000 && specs@[1].hard_cap
                    == 1000000 && values@[1] == self.receipt_max_rows_per_store,
                specs@[2].name@ == "operation_retention_days"@ && specs@[2].min == 7
                    && specs@[2].max == 365 && specs@[2].hard_cap
                    == 365 && values@[2] == self.operation_retention_days,
                specs@[3].name@ == "audit_retention_days"@ && specs@[3].min == 30
                    && specs@[3].max == 3650 && specs@[3].hard_cap
                    == 3650 && values@[3] == self.audit_retention_days,
                specs@[4].name@ == "gc_interval_ms"@ && specs@[4].min == 300000
                    && specs@[4].max == 86400000 && specs@[4].hard_cap
                    == 86400000 && values@[4] == self.gc_interval_ms,
                specs@[5].name@ == "operation_progress_interval_ms"@ && specs@[5].min == 250
                    && specs@[5].max == 10000 && specs@[5].hard_cap
                    == 10000 && values@[5] == self.operation_progress_interval_ms,
                forall|k: int|
                    0 <= k < i ==> (#[trigger] specs@[k]).min <= values@[k] <= specs@[k].max,
            decreases 6 - i,
        {
            let spec: RetentionParamSpec = specs[i];
            let value: u64 = values[i];
            if value < spec.min || value > spec.max || value > spec.hard_cap {
                proof {
                    if i > 0 {
                        assert(specs@[0].min <= values@[0] <= specs@[0].max);
                    }
                    if i > 1 {
                        assert(specs@[1].min <= values@[1] <= specs@[1].max);
                    }
                    if i > 2 {
                        assert(specs@[2].min <= values@[2] <= specs@[2].max);
                    }
                    if i > 3 {
                        assert(specs@[3].min <= values@[3] <= specs@[3].max);
                    }
                    if i > 4 {
                        assert(specs@[4].min <= values@[4] <= specs@[4].max);
                    }
                    if i > 5 {
                        assert(specs@[5].min <= values@[5] <= specs@[5].max);
                    }
                }
                return Err(
                    RetentionLimitsError {
                        name: spec.name,
                        value,
                        min: spec.min,
                        max: spec.max,
                        hard_cap: spec.hard_cap,
                    },
                );
            }
            i = i + 1;
        }
        proof {
            assert(specs@[0].min <= values@[0] <= specs@[0].max);
            assert(specs@[1].min <= values@[1] <= specs@[1].max);
            assert(specs@[2].min <= values@[2] <= specs@[2].max);
            assert(specs@[3].min <= values@[3] <= specs@[3].max);
            assert(specs@[4].min <= values@[4] <= specs@[4].max);
            assert(specs@[5].min <= values@[5] <= specs@[5].max);
        }
        Ok(())
    }
}

} // verus!
