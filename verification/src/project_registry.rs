//! The project registry: which projects there are, which agent run each token may
//! act for, and what was imported from an earlier session.

use crate::digest::{decode_hex, hex_bytes, hex_digest, hex_text, hmac_sha256_of, hmac_text};
use crate::handles::{AgentRunHandle, ProjectStoreHandle, is_canonical_v7};
use crate::json::{
    fields, object, put, sorted_json, sorted_view, txt, Json, JsonView, opt_text_view,
};
use crate::secret::{SecretBytes, SecretText};
use crate::text::{
    before, begins, cat, cat3, chars_of, copy_opt, lemma_before_total, lemma_before_transitive,
    less, opt_view, same, strip_prefix,
};
use vstd::prelude::*;
use vstd::string::*;

verus! {

/// Whether a registered project is where it was. One that is missing stays listed, so that
/// its user can clear it away.
#[derive(Debug, Clone, Copy, PartialEq, Eq, Structural)]
pub enum ProjectStatus {
    Registered,
    Missing,
}

impl ProjectStatus {
    /// The stored name.
    pub open spec fn name(self) -> Seq<char> {
        match self {
            ProjectStatus::Registered => "registered"@,
            ProjectStatus::Missing => "missing"@,
        }
    }

    /// The stored name.
    pub fn as_str(self) -> (r: &'static str)
        ensures
            r@ == self.name(),
    {
        match self {
            ProjectStatus::Registered => "registered",
            ProjectStatus::Missing => "missing",
        }
    }

    /// What a stored name stands for.
    pub open spec fn named(value: Seq<char>) -> Result<ProjectStatus, Seq<char>> {
        if value == "registered"@ {
            Ok(ProjectStatus::Registered)
        } else if value == "missing"@ {
            Ok(ProjectStatus::Missing)
        } else {
            Err("未知 project_registry.status: "@ + value)
        }
    }

    /// Reads a stored name; an unknown one is refused.
    pub fn parse(value: &str) -> (r: Result<ProjectStatus, String>)
        ensures
            match r {
                Ok(v) => ProjectStatus::named(value@) == Ok::<ProjectStatus, Seq<char>>(v),
                Err(p) => ProjectStatus::named(value@) == Err::<ProjectStatus, Seq<char>>(p@),
            },
    {
        if same(value, "registered") {
            Ok(ProjectStatus::Registered)
        } else if same(value, "missing") {
            Ok(ProjectStatus::Missing)
        } else {
            Err(cat("未知 project_registry.status: ", value))
        }
    }
}

/// Reading the stored name of a value gives the value back.
pub proof fn law_project_status_round_trip(v: ProjectStatus)
    ensures
        ProjectStatus::named(v.name()) == Ok::<ProjectStatus, Seq<char>>(v),
{
    reveal_strlit("registered");
    reveal_strlit("missing");
    assert("registered"@.len() == 10);
    assert("missing"@.len() == 7);
}

/// What a token is good for. All states but the first are final; a quarantined token was
/// once seen in a conflict.
#[derive(Debug, Clone, Copy, PartialEq, Eq, Structural)]
pub enum RunCapabilityState {
    Active,
    Settled,
    Revoked,
    Quarantined,
}

impl RunCapabilityState {
    /// The stored name.
    pub open spec fn name(self) -> Seq<char> {
        match self {
            RunCapabilityState::Active => "active"@,
            RunCapabilityState::Settled => "settled"@,
            RunCapabilityState::Revoked => "revoked"@,
            RunCapabilityState::Quarantined => "quarantined"@,
        }
    }

    /// The stored name.
    pub fn as_str(self) -> (r: &'static str)
        ensures
            r@ == self.name(),
    {
        match self {
            RunCapabilityState::Active => "active",
            RunCapabilityState::Settled => "settled",
            RunCapabilityState::Revoked => "revoked",
            RunCapabilityState::Quarantined => "quarantined",
        }
    }

    /// What a stored name stands for.
    pub open spec fn named(value: Seq<char>) -> Result<RunCapabilityState, Seq<char>> {
        if value == "active"@ {
            Ok(RunCapabilityState::Active)
        } else if value == "settled"@ {
            Ok(RunCapabilityState::Settled)
        } else if value == "revoked"@ {
            Ok(RunCapabilityState::Revoked)
        } else if value == "quarantined"@ {
            Ok(RunCapabilityState::Quarantined)
        } else {
            Err("run_capability_state_invalid"@)
        }
    }

    /// Reads a stored name; an unknown one is refused.
    pub fn parse(value: &str) -> (r: Result<RunCapabilityState, String>)
        ensures
            match r {
                Ok(v) => RunCapabilityState::named(value@) == Ok::<RunCapabilityState, Seq<char>>(v),
                Err(p) => RunCapabilityState::named(value@) == Err::<RunCapabilityState, Seq<char>>(p@),
            },
    {
        if same(value, "active") {
            Ok(RunCapabilityState::Active)
        } else if same(value, "settled") {
            Ok(RunCapabilityState::Settled)
        } else if same(value, "revoked") {
            Ok(RunCapabilityState::Revoked)
        } else if same(value, "quarantined") {
            Ok(RunCapabilityState::Quarantined)
        } else {
            Err("run_capability_state_invalid".to_owned())
        }
    }
}

/// Reading the stored name of a value gives the value back.
pub proof fn law_run_capability_state_round_trip(v: RunCapabilityState)
    ensures
        RunCapabilityState::named(v.name()) == Ok::<RunCapabilityState, Seq<char>>(v),
{
    reveal_strlit("active");
    reveal_strlit("settled");
    reveal_strlit("revoked");
    reveal_strlit("quarantined");
    assert("active"@.len() == 6);
    assert("settled"@.len() == 7);
    assert("revoked"@.len() == 7);
    assert("quarantined"@.len() == 11);
    assert("settled"@[0] != "revoked"@[0]);
}

/// What a token may act for: the project and the agent run, and whether it still may.
#[derive(Debug)]
pub struct RunCapability {
    pub project: ProjectStoreHandle,
    pub agent_run: AgentRunHandle,
    pub state: RunCapabilityState,
    pub issued_at: String,
    pub revoked_at: Option<String>,
}

/// What a token may act for, as a value.
pub ghost struct CapabilityView {
    pub project: Seq<char>,
    pub agent_run: Seq<char>,
    pub state: RunCapabilityState,
    pub issued_at: Seq<char>,
    pub revoked_at: Option<Seq<char>>,
}

impl View for RunCapability {
    type V = CapabilityView;

    open spec fn view(&self) -> CapabilityView {
        CapabilityView {
            project: self.project@,
            agent_run: self.agent_run@,
            state: self.state,
            issued_at: self.issued_at@,
            revoked_at: opt_view(self.revoked_at),
        }
    }
}

impl RunCapability {
    fn copy(&self) -> (r: Self)
        ensures
            r@ == self@,
    {
        RunCapability {
            project: self.project.clone(),
            agent_run: self.agent_run.clone(),
            state: self.state,
            issued_at: self.issued_at.clone(),
            revoked_at: copy_opt(&self.revoked_at),
        }
    }
}

/// A capability under the code of its token. The token itself is never kept.
#[derive(Debug)]
pub struct CapabilityRow {
    pub token_hmac: String,
    pub capability: RunCapability,
}

/// A capability under the code of its token, as a value.
pub ghost struct CapView {
    pub token_hmac: Seq<char>,
    pub capability: CapabilityView,
}

impl View for CapabilityRow {
    type V = CapView;

    open spec fn view(&self) -> CapView {
        CapView { token_hmac: self.token_hmac@, capability: self.capability@ }
    }
}

/// Capabilities as values.
pub open spec fn caps_view(v: Seq<CapabilityRow>) -> Seq<CapView> {
    v.map_values(|c: CapabilityRow| c@)
}

/// What a token stands for: nothing, one capability, or a conflict.
#[derive(Debug)]
pub enum RunCapabilityResolution {
    Zero,
    One(RunCapability),
    Many,
}

/// What a token stands for, as a value.
pub ghost enum ResolutionView {
    Zero,
    One(CapabilityView),
    Many,
}

impl View for RunCapabilityResolution {
    type V = ResolutionView;

    open spec fn view(&self) -> ResolutionView {
        match self {
            RunCapabilityResolution::Zero => ResolutionView::Zero,
            RunCapabilityResolution::One(c) => ResolutionView::One(c@),
            RunCapabilityResolution::Many => ResolutionView::Many,
        }
    }
}

/// What comes of registering a token.
#[derive(Debug)]
pub enum RunCapabilityRegistration {
    Registered(RunCapability),
    Quarantined,
}

/// What comes of registering a token, as a value.
pub ghost enum RegistrationView {
    Registered(CapabilityView),
    Quarantined,
}

impl View for RunCapabilityRegistration {
    type V = RegistrationView;

    open spec fn view(&self) -> RegistrationView {
        match self {
            RunCapabilityRegistration::Registered(c) => RegistrationView::Registered(c@),
            RunCapabilityRegistration::Quarantined => RegistrationView::Quarantined,
        }
    }
}

/// The result of a registry call: its value or the message of its complaint.
pub open spec fn answered<T: View>(r: Result<T, String>) -> Result<T::V, Seq<char>> {
    match r {
        Ok(t) => Ok(t@),
        Err(m) => Err(m@),
    }
}

/// What the code of a token is made of, before the token itself.
pub const RUN_CAPABILITY_DOMAIN: &'static str = "MonkeyFence/run-capability/v1\0";

/// The key under which tokens are coded. It is at least 256 bits long, prints as nothing,
/// and is wiped when it is let go.
pub struct RunCapabilityKey {
    bytes: SecretBytes,
}

impl View for RunCapabilityKey {
    type V = Seq<u8>;

    closed spec fn view(&self) -> Seq<u8> {
        self.bytes@
    }
}

/// The code of a token under a key; an empty token has none.
pub open spec fn token_code(key: Seq<u8>, token: Seq<u8>) -> Result<Seq<char>, Seq<char>> {
    if token.len() == 0 {
        Err("run capability token 不能为空"@)
    } else {
        Ok(
            hex_text(
                hmac_sha256_of(key, vstd::utf8::encode_utf8(RUN_CAPABILITY_DOMAIN@) + token),
            ),
        )
    }
}

impl RunCapabilityKey {
    #[verifier::type_invariant]
    spec fn wf(self) -> bool {
        self.bytes@.len() >= 32
    }

    /// Takes a key of at least 32 bytes.
    pub fn from_bytes(bytes: SecretBytes) -> (r: Result<Self, String>)
        ensures
            answered(r) == (if bytes@.len() >= 32 {
                Ok::<Seq<u8>, Seq<char>>(bytes@)
            } else {
                Err("run capability key 至少 256 bit"@)
            }),
    {
        if bytes.as_slice().len() >= 32 {
            Ok(RunCapabilityKey { bytes })
        } else {
            Err("run capability key 至少 256 bit".to_owned())
        }
    }

    /// Takes a key of at least 32 bytes.
    pub fn for_test(bytes: Vec<u8>) -> (r: Result<Self, String>)
        ensures
            answered(r) == (if bytes@.len() >= 32 {
                Ok::<Seq<u8>, Seq<char>>(bytes@)
            } else {
                Err("run capability key 至少 256 bit"@)
            }),
    {
        RunCapabilityKey::from_bytes(SecretBytes::new(bytes))
    }

    /// Reads a key in the form it is kept in.
    pub fn from_hex(encoded: &str) -> (r: Result<Self, String>)
        ensures
            answered(r) == (match hex_bytes(encoded@) {
                None => Err::<Seq<u8>, Seq<char>>("run capability keyring 格式非法"@),
                Some(bytes) => if bytes.len() >= 32 {
                    Ok(bytes)
                } else {
                    Err("run capability key 至少 256 bit"@)
                },
            }),
    {
        match decode_hex(encoded) {
            None => Err("run capability keyring 格式非法".to_owned()),
            Some(bytes) => RunCapabilityKey::from_bytes(SecretBytes::new(bytes)),
        }
    }

    /// A key in the form it is kept in.
    pub fn to_hex(&self) -> (r: SecretText)
        ensures
            r@ == hex_text(self@),
    {
        SecretText::new(hex_digest(self.bytes.as_slice()))
    }

    /// The code of a token; an empty token has none.
    pub fn token_hmac(&self, token: &[u8]) -> (r: Result<String, String>)
        ensures
            answered(r) == token_code(self@, token@),
    {
        if token.len() == 0 {
            return Err("run capability token 不能为空".to_owned());
        }
        let mut message: Vec<u8> = Vec::new();
        message.extend_from_slice(RUN_CAPABILITY_DOMAIN.as_bytes());
        message.extend_from_slice(token);
        assert(message@ =~= vstd::utf8::encode_utf8(RUN_CAPABILITY_DOMAIN@) + token@);
        let message: SecretBytes = SecretBytes::new(message);
        Ok(hmac_text(self.bytes.as_slice(), message.as_slice()))
    }
}

/// A project of the registry.
#[derive(Debug)]
pub struct RegisteredProject {
    pub project_handle: ProjectStoreHandle,
    pub public_id: String,
    pub canonical_root: String,
    pub display_path: String,
    pub registered_at: String,
    pub status: ProjectStatus,
}

/// A project of the registry, as a value.
pub ghost struct ProjectView {
    pub project_handle: Seq<char>,
    pub public_id: Seq<char>,
    pub canonical_root: Seq<char>,
    pub display_path: Seq<char>,
    pub registered_at: Seq<char>,
    pub status: ProjectStatus,
}

impl View for RegisteredProject {
    type V = ProjectView;

    open spec fn view(&self) -> ProjectView {
        ProjectView {
            project_handle: self.project_handle@,
            public_id: self.public_id@,
            canonical_root: self.canonical_root@,
            display_path: self.display_path@,
            registered_at: self.registered_at@,
            status: self.status,
        }
    }
}

impl RegisteredProject {
    fn copy(&self) -> (r: Self)
        ensures
            r@ == self@,
    {
        RegisteredProject {
            project_handle: self.project_handle.clone(),
            public_id: self.public_id.clone(),
            canonical_root: self.canonical_root.clone(),
            display_path: self.display_path.clone(),
            registered_at: self.registered_at.clone(),
            status: self.status,
        }
    }
}

/// Projects as values.
pub open spec fn projects_view(v: Seq<RegisteredProject>) -> Seq<ProjectView> {
    v.map_values(|p: RegisteredProject| p@)
}

/// That an import was done, and what it did.
#[derive(Debug)]
pub struct MarkerRow {
    pub name: String,
    pub payload: Json,
    pub created_at: String,
}

/// That an import was done, as a value.
pub ghost struct MarkerView {
    pub name: Seq<char>,
    pub payload: JsonView,
    pub created_at: Seq<char>,
}

impl View for MarkerRow {
    type V = MarkerView;

    open spec fn view(&self) -> MarkerView {
        MarkerView { name: self.name@, payload: self.payload@, created_at: self.created_at@ }
    }
}

/// Markers as values.
pub open spec fn markers_view(v: Seq<MarkerRow>) -> Seq<MarkerView> {
    v.map_values(|m: MarkerRow| m@)
}

/// The registry: projects, capabilities and the marks of what was imported.
pub struct ServiceStore {
    projects: Vec<RegisteredProject>,
    capabilities: Vec<CapabilityRow>,
    markers: Vec<MarkerRow>,
}

/// The registry, as a value.
pub ghost struct StoreView {
    pub projects: Seq<ProjectView>,
    pub capabilities: Seq<CapView>,
    pub markers: Seq<MarkerView>,
}

impl View for ServiceStore {
    type V = StoreView;

    closed spec fn view(&self) -> StoreView {
        StoreView {
            projects: projects_view(self.projects@),
            capabilities: caps_view(self.capabilities@),
            markers: markers_view(self.markers@),
        }
    }
}

/// Whether no two capabilities have the same token, or the same project and run.
pub open spec fn caps_sound(caps: Seq<CapView>) -> bool {
    forall|i: int, j: int|
        0 <= i < j < caps.len() ==> (#[trigger] caps[i]).token_hmac != (
        #[trigger] caps[j]).token_hmac && (caps[i].capability.project
            != caps[j].capability.project || caps[i].capability.agent_run
            != caps[j].capability.agent_run)
}

/// Whether the run of a capability that is still good has no other one, under its project or
/// another.
pub open spec fn active_alone(caps: Seq<CapView>) -> bool {
    forall|i: int, j: int|
        0 <= i < caps.len() && 0 <= j < caps.len() && i != j
            && (#[trigger] caps[i]).capability.state is Active ==> caps[i].capability.agent_run != (
        #[trigger] caps[j]).capability.agent_run
}

/// Whether no two projects have the same root.
pub open spec fn roots_distinct(projects: Seq<ProjectView>) -> bool {
    forall|i: int, j: int|
        0 <= i < j < projects.len() ==> (#[trigger] projects[i]).canonical_root != (
        #[trigger] projects[j]).canonical_root
}

impl StoreView {
    /// The invariant of the registry.
    pub open spec fn sound(self) -> bool {
        &&& caps_sound(self.capabilities)
        &&& active_alone(self.capabilities)
        &&& roots_distinct(self.projects)
    }
}

/// The capability of a token, from a place on.
pub open spec fn token_at(caps: Seq<CapView>, token: Seq<char>, from: int) -> Option<int>
    decreases caps.len() - from,
{
    if from >= caps.len() {
        None
    } else if caps[from].token_hmac == token {
        Some(from)
    } else {
        token_at(caps, token, from + 1)
    }
}

/// The capability of a project and a run, from a place on.
pub open spec fn pair_at(
    caps: Seq<CapView>,
    project: Seq<char>,
    run: Seq<char>,
    from: int,
) -> Option<int>
    decreases caps.len() - from,
{
    if from >= caps.len() {
        None
    } else if caps[from].capability.project == project && caps[from].capability.agent_run == run {
        Some(from)
    } else {
        pair_at(caps, project, run, from + 1)
    }
}

/// Whether a run has a capability under another project.
pub open spec fn elsewhere(caps: Seq<CapView>, project: Seq<char>, run: Seq<char>) -> bool {
    exists|i: int|
        0 <= i < caps.len() && (#[trigger] caps[i]).capability.agent_run == run
            && caps[i].capability.project != project
}

/// A capability that was seen in a conflict.
pub open spec fn quarantined_cap(c: CapView, now: Seq<char>) -> CapView {
    CapView {
        capability: CapabilityView {
            state: RunCapabilityState::Quarantined,
            revoked_at: Some(
                match c.capability.revoked_at {
                    Some(at) => at,
                    None => now,
                },
            ),
            ..c.capability
        },
        ..c
    }
}

/// The capabilities with everything of a token or of a run in quarantine.
pub open spec fn quarantined(
    caps: Seq<CapView>,
    token: Seq<char>,
    run: Seq<char>,
    now: Seq<char>,
) -> Seq<CapView> {
    caps.map_values(
        |c: CapView|
            if c.token_hmac == token || c.capability.agent_run == run {
                quarantined_cap(c, now)
            } else {
                c
            },
    )
}

/// A new capability.
pub open spec fn new_cap(
    token: Seq<char>,
    project: Seq<char>,
    run: Seq<char>,
    state: RunCapabilityState,
    now: Seq<char>,
) -> CapView {
    CapView {
        token_hmac: token,
        capability: CapabilityView {
            project,
            agent_run: run,
            state,
            issued_at: now,
            revoked_at: if state is Active {
                None
            } else {
                Some(now)
            },
        },
    }
}

/// The status of a project, by its handle.
pub open spec fn status_of(projects: Seq<ProjectView>, handle: Seq<char>, from: int) -> Option<
    ProjectStatus,
>
    decreases projects.len() - from,
{
    if from >= projects.len() {
        None
    } else if projects[from].project_handle == handle {
        Some(projects[from].status)
    } else {
        status_of(projects, handle, from + 1)
    }
}

/// Why a project can take no capability, if it cannot.
pub open spec fn project_problem(
    projects: Seq<ProjectView>,
    handle: Seq<char>,
    require_registered: bool,
) -> Option<Seq<char>> {
    match status_of(projects, handle, 0) {
        None => Some("run_capability_project_unknown"@),
        Some(status) => if require_registered && !(status is Registered) {
            Some("run_capability_project_inactive"@)
        } else {
            None
        },
    }
}

/// Registering a token for a project and a run: the capabilities after it, and the
/// answer. The same registration again changes nothing. A token for something else, a
/// second token for the same, or a run of another project is a conflict, and puts
/// everything that it touches in quarantine.
pub open spec fn register_view(
    s: StoreView,
    token: Seq<char>,
    project: Seq<char>,
    run: Seq<char>,
    now: Seq<char>,
) -> (StoreView, Result<RegistrationView, Seq<char>>) {
    let caps = s.capabilities;
    match project_problem(s.projects, project, true) {
        Some(m) => (s, Err(m)),
        None => {
            let by_token = token_at(caps, token, 0);
            let by_pair = pair_at(caps, project, run, 0);
            if by_token is Some && by_token == by_pair && !elsewhere(caps, project, run) {
                (
                    s,
                    Ok(
                        if caps[by_token->0].capability.state is Quarantined {
                            RegistrationView::Quarantined
                        } else {
                            RegistrationView::Registered(caps[by_token->0].capability)
                        },
                    ),
                )
            } else if by_token is Some || by_pair is Some || elsewhere(caps, project, run) {
                let held = quarantined(caps, token, run, now);
                (
                    StoreView {
                        capabilities: if by_token is None && by_pair is None {
                            held.push(
                                new_cap(token, project, run, RunCapabilityState::Quarantined, now),
                            )
                        } else {
                            held
                        },
                        ..s
                    },
                    Ok(RegistrationView::Quarantined),
                )
            } else {
                let c = new_cap(token, project, run, RunCapabilityState::Active, now);
                (
                    StoreView { capabilities: caps.push(c), ..s },
                    Ok(RegistrationView::Registered(c.capability)),
                )
            }
        },
    }
}

/// What a token stands for.
pub open spec fn resolved(caps: Seq<CapView>, token: Seq<char>) -> ResolutionView {
    match token_at(caps, token, 0) {
        None => ResolutionView::Zero,
        Some(i) => if caps[i].capability.state is Quarantined {
            ResolutionView::Many
        } else {
            ResolutionView::One(caps[i].capability)
        },
    }
}

/// A capability that ends, if it is still good.
pub open spec fn ended_cap(c: CapView, state: RunCapabilityState, now: Seq<char>) -> CapView {
    if c.capability.state is Active {
        CapView {
            capability: CapabilityView { state, revoked_at: Some(now), ..c.capability },
            ..c
        }
    } else {
        c
    }
}

/// The capabilities with that of a token at its end.
pub open spec fn ended_token(
    caps: Seq<CapView>,
    token: Seq<char>,
    state: RunCapabilityState,
    now: Seq<char>,
) -> Seq<CapView> {
    caps.map_values(
        |c: CapView|
            if c.token_hmac == token {
                ended_cap(c, state, now)
            } else {
                c
            },
    )
}

/// The capabilities with those of a project revoked.
pub open spec fn ended_project(caps: Seq<CapView>, project: Seq<char>, now: Seq<char>) -> Seq<
    CapView,
> {
    caps.map_values(
        |c: CapView|
            if c.capability.project == project {
                ended_cap(c, RunCapabilityState::Revoked, now)
            } else {
                c
            },
    )
}

/// How many of the first `n` capabilities of a project are still good.
pub open spec fn active_count(caps: Seq<CapView>, project: Seq<char>, n: nat) -> nat
    decreases n,
{
    if n == 0 {
        0
    } else {
        active_count(caps, project, (n - 1) as nat) + (if caps[n - 1].capability.project == project
            && caps[n - 1].capability.state is Active {
            1nat
        } else {
            0nat
        })
    }
}

/// Taking over a token that no one registered: it is kept in quarantine, and so is
/// everything that it conflicts with.
pub open spec fn backfill_view(
    s: StoreView,
    token: Seq<char>,
    project: Seq<char>,
    run: Seq<char>,
    now: Seq<char>,
) -> (StoreView, Result<(), Seq<char>>) {
    match project_problem(s.projects, project, false) {
        Some(m) => (s, Err(m)),
        None => {
            let held = quarantined(s.capabilities, token, run, now);
            (
                StoreView {
                    capabilities: if token_at(s.capabilities, token, 0) is None && pair_at(
                        s.capabilities,
                        project,
                        run,
                        0,
                    ) is None {
                        held.push(
                            new_cap(token, project, run, RunCapabilityState::Quarantined, now),
                        )
                    } else {
                        held
                    },
                    ..s
                },
                Ok(()),
            )
        },
    }
}

proof fn lemma_token_at(caps: Seq<CapView>, token: Seq<char>, from: int)
    requires
        0 <= from,
    ensures
        match token_at(caps, token, from) {
            Some(i) => from <= i < caps.len() && caps[i].token_hmac == token && forall|k: int|
                from <= k < i ==> (#[trigger] caps[k]).token_hmac != token,
            None => forall|k: int| from <= k < caps.len() ==> (#[trigger] caps[k]).token_hmac != token,
        },
    decreases caps.len() - from,
{
    if from < caps.len() && caps[from].token_hmac != token {
        lemma_token_at(caps, token, from + 1);
    }
}

proof fn lemma_pair_at(caps: Seq<CapView>, project: Seq<char>, run: Seq<char>, from: int)
    requires
        0 <= from,
    ensures
        match pair_at(caps, project, run, from) {
            Some(i) => from <= i < caps.len() && caps[i].capability.project == project
                && caps[i].capability.agent_run == run && forall|k: int|
                from <= k < i ==> !((#[trigger] caps[k]).capability.project == project
                    && caps[k].capability.agent_run == run),
            None => forall|k: int|
                from <= k < caps.len() ==> !((#[trigger] caps[k]).capability.project == project
                    && caps[k].capability.agent_run == run),
        },
    decreases caps.len() - from,
{
    if from < caps.len() && !(caps[from].capability.project == project
        && caps[from].capability.agent_run == run) {
        lemma_pair_at(caps, project, run, from + 1);
    }
}

/// Capabilities that keep their tokens, projects and runs.
pub open spec fn same_identities(a: Seq<CapView>, b: Seq<CapView>) -> bool {
    &&& a.len() == b.len()
    &&& forall|i: int|
        0 <= i < a.len() ==> (#[trigger] a[i]).token_hmac == b[i].token_hmac
            && a[i].capability.project == b[i].capability.project && a[i].capability.agent_run
            == b[i].capability.agent_run
}

proof fn lemma_same_token_at(a: Seq<CapView>, b: Seq<CapView>, token: Seq<char>, from: int)
    requires
        same_identities(a, b),
        0 <= from,
    ensures
        token_at(a, token, from) == token_at(b, token, from),
    decreases a.len() - from,
{
    if from < a.len() {
        assert(a[from].token_hmac == b[from].token_hmac);
        lemma_same_token_at(a, b, token, from + 1);
    }
}

fn are_caps_sound(v: &Vec<CapabilityRow>) -> (r: bool)
    ensures
        r == caps_sound(caps_view(v@)),
{
    let ghost all = caps_view(v@);
    let mut i: usize = 0;
    while i < v.len()
        invariant
            i <= v@.len(),
            all == caps_view(v@),
            caps_sound(all.take(i as int)),
        decreases v@.len() - i,
    {
        assert(all[i as int] == v@[i as int]@);
        let mut j: usize = 0;
        while j < i
            invariant
                j <= i < v@.len(),
                all == caps_view(v@),
                all[i as int] == v@[i as int]@,
                forall|k: int|
                    0 <= k < j ==> (#[trigger] all[k]).token_hmac != all[i as int].token_hmac && (
                    all[k].capability.project != all[i as int].capability.project
                        || all[k].capability.agent_run != all[i as int].capability.agent_run),
            decreases i - j,
        {
            assert(all[j as int] == v@[j as int]@);
            if same(v[j].token_hmac.as_str(), v[i].token_hmac.as_str()) || (
            v[j].capability.project.same(&v[i].capability.project)
                && v[j].capability.agent_run.same(&v[i].capability.agent_run)) {
                assert(!caps_sound(all)) by {
                    assert(all[j as int].token_hmac == all[i as int].token_hmac || (
                    all[j as int].capability.project == all[i as int].capability.project
                        && all[j as int].capability.agent_run
                        == all[i as int].capability.agent_run));
                }
                return false;
            }
            j = j + 1;
        }
        let ghost more = all.take(i + 1);
        assert forall|a: int, b: int| 0 <= a < b < more.len() implies (
        #[trigger] more[a]).token_hmac != (#[trigger] more[b]).token_hmac && (
        more[a].capability.project != more[b].capability.project || more[a].capability.agent_run
            != more[b].capability.agent_run) by {
            if b < i {
                assert(all.take(i as int)[a].token_hmac != all.take(i as int)[b].token_hmac);
            }
        }
        i = i + 1;
    }
    assert(all.take(i as int) =~= all);
    true
}

fn are_active_alone(v: &Vec<CapabilityRow>) -> (r: bool)
    ensures
        r == active_alone(caps_view(v@)),
{
    let ghost all = caps_view(v@);
    let mut i: usize = 0;
    while i < v.len()
        invariant
            i <= v@.len(),
            all == caps_view(v@),
            forall|a: int, b: int|
                0 <= a < i && 0 <= b < all.len() && a != b
                    && (#[trigger] all[a]).capability.state is Active
                    ==> all[a].capability.agent_run != (#[trigger] all[b]).capability.agent_run,
        decreases v@.len() - i,
    {
        assert(all[i as int] == v@[i as int]@);
        if v[i].capability.state == RunCapabilityState::Active {
            let mut j: usize = 0;
            while j < v.len()
                invariant
                    i < v@.len(),
                    j <= v@.len(),
                    all == caps_view(v@),
                    all[i as int] == v@[i as int]@,
                    all[i as int].capability.state is Active,
                    forall|b: int|
                        0 <= b < j && b != i ==> all[i as int].capability.agent_run != (
                        #[trigger] all[b]).capability.agent_run,
                decreases v@.len() - j,
            {
                assert(all[j as int] == v@[j as int]@);
                if j != i && v[j].capability.agent_run.same(&v[i].capability.agent_run) {
                    assert(all[i as int].capability.agent_run
                        == all[j as int].capability.agent_run);
                    return false;
                }
                j = j + 1;
            }
        }
        i = i + 1;
    }
    true
}

/// Where capabilities keep who they are, and none becomes good, each good one stays alone.
proof fn lemma_alone_kept(a: Seq<CapView>, b: Seq<CapView>)
    requires
        active_alone(a),
        same_identities(a, b),
        forall|i: int|
            0 <= i < a.len() && (#[trigger] b[i]).capability.state is Active
                ==> a[i].capability.state is Active,
    ensures
        active_alone(b),
{
    assert forall|i: int, j: int|
        0 <= i < b.len() && 0 <= j < b.len() && i != j
            && (#[trigger] b[i]).capability.state is Active implies b[i].capability.agent_run != (
    #[trigger] b[j]).capability.agent_run by {
        assert(a[i].capability.agent_run == b[i].capability.agent_run);
        assert(a[j].capability.agent_run == b[j].capability.agent_run);
    }
}

/// A capability comes in whose run has no good one; where it is good itself its run has
/// none at all.
proof fn lemma_alone_added(caps: Seq<CapView>, c: CapView)
    requires
        active_alone(caps),
        forall|i: int|
            0 <= i < caps.len() && (#[trigger] caps[i]).capability.agent_run
                == c.capability.agent_run ==> !(caps[i].capability.state is Active) && !(
            c.capability.state is Active),
    ensures
        active_alone(caps.push(c)),
{
    let b = caps.push(c);
    assert forall|i: int, j: int|
        0 <= i < b.len() && 0 <= j < b.len() && i != j
            && (#[trigger] b[i]).capability.state is Active implies b[i].capability.agent_run != (
    #[trigger] b[j]).capability.agent_run by {
        if i < caps.len() {
            assert(b[i] == caps[i]);
        }
        if j < caps.len() {
            assert(b[j] == caps[j]);
        }
    }
}

proof fn lemma_alone_in_quarantine(
    caps: Seq<CapView>,
    token: Seq<char>,
    project: Seq<char>,
    run: Seq<char>,
    now: Seq<char>,
)
    requires
        active_alone(caps),
    ensures
        active_alone(quarantined(caps, token, run, now)),
        active_alone(
            quarantined(caps, token, run, now).push(
                new_cap(token, project, run, RunCapabilityState::Quarantined, now),
            ),
        ),
{
    lemma_alone_kept(caps, quarantined(caps, token, run, now));
    lemma_alone_added(
        quarantined(caps, token, run, now),
        new_cap(token, project, run, RunCapabilityState::Quarantined, now),
    );
}

fn are_roots_distinct(v: &Vec<RegisteredProject>) -> (r: bool)
    ensures
        r == roots_distinct(projects_view(v@)),
{
    let ghost all = projects_view(v@);
    let mut i: usize = 0;
    while i < v.len()
        invariant
            i <= v@.len(),
            all == projects_view(v@),
            roots_distinct(all.take(i as int)),
        decreases v@.len() - i,
    {
        assert(all[i as int] == v@[i as int]@);
        let mut j: usize = 0;
        while j < i
            invariant
                j <= i < v@.len(),
                all == projects_view(v@),
                all[i as int] == v@[i as int]@,
                forall|k: int|
                    0 <= k < j ==> (#[trigger] all[k]).canonical_root != all[i as int].canonical_root,
            decreases i - j,
        {
            assert(all[j as int] == v@[j as int]@);
            if same(v[j].canonical_root.as_str(), v[i].canonical_root.as_str()) {
                assert(all[j as int].canonical_root == all[i as int].canonical_root);
                return false;
            }
            j = j + 1;
        }
        let ghost more = all.take(i + 1);
        assert forall|a: int, b: int| 0 <= a < b < more.len() implies (
        #[trigger] more[a]).canonical_root != (#[trigger] more[b]).canonical_root by {
            if b < i {
                assert(all.take(i as int)[a].canonical_root != all.take(
                    i as int,
                )[b].canonical_root);
            }
        }
        i = i + 1;
    }
    assert(all.take(i as int) =~= all);
    true
}

impl ServiceStore {
    /// A registry from its rows; none where they break its invariant.
    pub fn load(
        projects: Vec<RegisteredProject>,
        capabilities: Vec<CapabilityRow>,
        markers: Vec<MarkerRow>,
    ) -> (r: Option<Self>)
        ensures
            ({
                let s = StoreView {
                    projects: projects_view(projects@),
                    capabilities: caps_view(capabilities@),
                    markers: markers_view(markers@),
                };
                match r {
                    Some(store) => s.sound() && store@ == s,
                    None => !s.sound(),
                }
            }),
    {
        if !are_caps_sound(&capabilities) || !are_active_alone(&capabilities)
            || !are_roots_distinct(&projects) {
            return None;
        }
        Some(ServiceStore { projects, capabilities, markers })
    }

    /// An empty registry.
    pub fn new() -> (r: Self)
        ensures
            r@.projects.len() == 0,
            r@.capabilities.len() == 0,
            r@.markers.len() == 0,
            r@.sound(),
    {
        ServiceStore { projects: Vec::new(), capabilities: Vec::new(), markers: Vec::new() }
    }

    /// The capabilities, for keeping them.
    pub fn capabilities(&self) -> (r: &Vec<CapabilityRow>)
        ensures
            caps_view(r@) == self@.capabilities,
    {
        &self.capabilities
    }

    /// The projects, in the order they were registered.
    pub fn projects(&self) -> (r: &Vec<RegisteredProject>)
        ensures
            projects_view(r@) == self@.projects,
    {
        &self.projects
    }

    /// What was imported, for keeping it.
    pub fn markers(&self) -> (r: &Vec<MarkerRow>)
        ensures
            markers_view(r@) == self@.markers,
    {
        &self.markers
    }

    fn find_token(&self, token_hmac: &str) -> (r: Option<usize>)
        ensures
            match r {
                Some(i) => i < self.capabilities@.len() && token_at(
                    self@.capabilities,
                    token_hmac@,
                    0,
                ) == Some(i as int),
                None => token_at(self@.capabilities, token_hmac@, 0) is None,
            },
    {
        let ghost caps = self@.capabilities;
        let mut i: usize = 0;
        while i < self.capabilities.len()
            invariant
                i <= self.capabilities@.len(),
                caps == caps_view(self.capabilities@),
                token_at(caps, token_hmac@, 0) == token_at(caps, token_hmac@, i as int),
            decreases self.capabilities@.len() - i,
        {
            assert(caps[i as int] == self.capabilities@[i as int]@);
            if same(self.capabilities[i].token_hmac.as_str(), token_hmac) {
                return Some(i);
            }
            i = i + 1;
        }
        None
    }

    fn find_pair(&self, project: &str, agent_run: &str) -> (r: Option<usize>)
        ensures
            match r {
                Some(i) => i < self.capabilities@.len() && pair_at(
                    self@.capabilities,
                    project@,
                    agent_run@,
                    0,
                ) == Some(i as int),
                None => pair_at(self@.capabilities, project@, agent_run@, 0) is None,
            },
    {
        let ghost caps = self@.capabilities;
        let mut i: usize = 0;
        while i < self.capabilities.len()
            invariant
                i <= self.capabilities@.len(),
                caps == caps_view(self.capabilities@),
                pair_at(caps, project@, agent_run@, 0) == pair_at(
                    caps,
                    project@,
                    agent_run@,
                    i as int,
                ),
            decreases self.capabilities@.len() - i,
        {
            assert(caps[i as int] == self.capabilities@[i as int]@);
            let held: &RunCapability = &self.capabilities[i].capability;
            if same(held.project.as_str(), project) && same(held.agent_run.as_str(), agent_run) {
                return Some(i);
            }
            i = i + 1;
        }
        None
    }

    fn is_elsewhere(&self, project: &str, agent_run: &str) -> (r: bool)
        ensures
            r == elsewhere(self@.capabilities, project@, agent_run@),
    {
        let ghost caps = self@.capabilities;
        let mut i: usize = 0;
        while i < self.capabilities.len()
            invariant
                i <= self.capabilities@.len(),
                caps == caps_view(self.capabilities@),
                forall|k: int|
                    0 <= k < i ==> !((#[trigger] caps[k]).capability.agent_run == agent_run@
                        && caps[k].capability.project != project@),
            decreases self.capabilities@.len() - i,
        {
            assert(caps[i as int] == self.capabilities@[i as int]@);
            let held: &RunCapability = &self.capabilities[i].capability;
            if same(held.agent_run.as_str(), agent_run) && !same(held.project.as_str(), project) {
                assert(caps[i as int].capability.agent_run == agent_run@);
                assert(elsewhere(self@.capabilities, project@, agent_run@));
                return true;
            }
            i = i + 1;
        }
        false
    }

    fn quarantine(&mut self, token_hmac: &str, agent_run: &str, now: &str)
        ensures
            final(self)@ == (StoreView {
                capabilities: quarantined(old(self)@.capabilities, token_hmac@, agent_run@, now@),
                ..old(self)@
            }),
    {
        let ghost caps = self@.capabilities;
        let ghost goal = quarantined(caps, token_hmac@, agent_run@, now@);
        let mut i: usize = 0;
        while i < self.capabilities.len()
            invariant
                i <= self.capabilities@.len(),
                self.capabilities@.len() == caps.len(),
                self.projects == old(self).projects,
                self.markers == old(self).markers,
                goal == quarantined(caps, token_hmac@, agent_run@, now@),
                forall|k: int| 0 <= k < i ==> (#[trigger] self.capabilities@[k])@ == goal[k],
                forall|k: int| i <= k < caps.len() ==> (#[trigger] self.capabilities@[k])@ == caps[k],
            decreases self.capabilities@.len() - i,
        {
            assert(self.capabilities@[i as int]@ == caps[i as int]);
            if same(self.capabilities[i].token_hmac.as_str(), token_hmac) || same(
                self.capabilities[i].capability.agent_run.as_str(),
                agent_run,
            ) {
                let row: CapabilityRow = CapabilityRow {
                    token_hmac: self.capabilities[i].token_hmac.clone(),
                    capability: RunCapability {
                        state: RunCapabilityState::Quarantined,
                        revoked_at: Some(
                            match &self.capabilities[i].capability.revoked_at {
                                Some(at) => at.clone(),
                                None => now.to_owned(),
                            },
                        ),
                        ..self.capabilities[i].capability.copy()
                    },
                };
                self.capabilities.set(i, row);
            }
            i = i + 1;
        }
        assert(caps_view(self.capabilities@) =~= goal);
    }

    fn add_capability(
        &mut self,
        token_hmac: String,
        project: &ProjectStoreHandle,
        agent_run: &AgentRunHandle,
        state: RunCapabilityState,
        now: &str,
    )
        ensures
            final(self)@ == (StoreView {
                capabilities: old(self)@.capabilities.push(
                    new_cap(token_hmac@, project@, agent_run@, state, now@),
                ),
                ..old(self)@
            }),
    {
        let ghost caps = self@.capabilities;
        let row: CapabilityRow = CapabilityRow {
            token_hmac,
            capability: RunCapability {
                project: project.clone(),
                agent_run: agent_run.clone(),
                state,
                issued_at: now.to_owned(),
                revoked_at: if state == RunCapabilityState::Active {
                    None
                } else {
                    Some(now.to_owned())
                },
            },
        };
        self.capabilities.push(row);
        assert(caps_view(self.capabilities@) =~= caps.push(row@));
    }

    fn ensure_capability_project(
        &self,
        project: &ProjectStoreHandle,
        require_registered: bool,
    ) -> (r: Result<(), String>)
        ensures
            match r {
                Ok(_) => project_problem(self@.projects, project@, require_registered) is None,
                Err(m) => project_problem(self@.projects, project@, require_registered) == Some(m@),
            },
    {
        let ghost all = self@.projects;
        let mut i: usize = 0;
        while i < self.projects.len()
            invariant
                i <= self.projects@.len(),
                all == projects_view(self.projects@),
                status_of(all, project@, 0) == status_of(all, project@, i as int),
            decreases self.projects@.len() - i,
        {
            assert(all[i as int] == self.projects@[i as int]@);
            if self.projects[i].project_handle.same(project) {
                if require_registered && self.projects[i].status != ProjectStatus::Registered {
                    return Err("run_capability_project_inactive".to_owned());
                }
                return Ok(());
            }
            i = i + 1;
        }
        Err("run_capability_project_unknown".to_owned())
    }

    /// Registers a token for a project and a run.
    pub fn register_run_capability(
        &mut self,
        key: &RunCapabilityKey,
        token: &[u8],
        project: &ProjectStoreHandle,
        agent_run: &AgentRunHandle,
        now: &str,
    ) -> (r: Result<RunCapabilityRegistration, String>)
        requires
            old(self)@.sound(),
        ensures
            final(self)@.sound(),
            match token_code(key@, token@) {
                Err(m) => final(self)@ == old(self)@ && answered(r) == Err::<
                    RegistrationView,
                    Seq<char>,
                >(m),
                Ok(code) => (final(self)@, answered(r)) == register_view(
                    old(self)@,
                    code,
                    project@,
                    agent_run@,
                    now@,
                ),
            },
    {
        let token_hmac: String = match key.token_hmac(token) {
            Ok(code) => code,
            Err(m) => {
                return Err(m);
            },
        };
        match self.ensure_capability_project(project, true) {
            Ok(_) => {},
            Err(m) => {
                return Err(m);
            },
        }
        let ghost caps = self@.capabilities;
        let ghost code = token_hmac@;
        proof {
            lemma_token_at(caps, code, 0);
            lemma_pair_at(caps, project@, agent_run@, 0);
        }
        let by_token: Option<usize> = self.find_token(token_hmac.as_str());
        let by_pair: Option<usize> = self.find_pair(project.as_str(), agent_run.as_str());
        let cross_project: bool = self.is_elsewhere(project.as_str(), agent_run.as_str());
        let exact: Option<usize> = match (by_token, by_pair) {
            (Some(i), Some(j)) => if i == j {
                Some(i)
            } else {
                None
            },
            _ => None,
        };
        if let Some(i) = exact {
            if !cross_project {
                let held: &RunCapability = &self.capabilities[i].capability;
                assert(caps[i as int] == self.capabilities@[i as int]@);
                return Ok(
                    if held.state == RunCapabilityState::Quarantined {
                        RunCapabilityRegistration::Quarantined
                    } else {
                        RunCapabilityRegistration::Registered(held.copy())
                    },
                );
            }
        }
        proof {
            lemma_alone_in_quarantine(caps, code, project@, agent_run@, now@);
        }
        if by_token.is_some() || by_pair.is_some() || cross_project {
            self.quarantine(token_hmac.as_str(), agent_run.as_str(), now);
            if by_token.is_none() && by_pair.is_none() {
                self.add_capability(
                    token_hmac,
                    project,
                    agent_run,
                    RunCapabilityState::Quarantined,
                    now,
                );
            }
            return Ok(RunCapabilityRegistration::Quarantined);
        }
        proof {
            let c = new_cap(code, project@, agent_run@, RunCapabilityState::Active, now@);
            assert forall|i: int| 0 <= i < caps.len() implies (
            #[trigger] caps[i]).capability.agent_run != agent_run@ by {
                if caps[i].capability.agent_run == agent_run@ && caps[i].capability.project
                    != project@ {
                    assert(elsewhere(caps, project@, agent_run@));
                }
            }
            lemma_alone_added(caps, c);
        }
        self.add_capability(token_hmac, project, agent_run, RunCapabilityState::Active, now);
        Ok(
            RunCapabilityRegistration::Registered(
                RunCapability {
                    project: project.clone(),
                    agent_run: agent_run.clone(),
                    state: RunCapabilityState::Active,
                    issued_at: now.to_owned(),
                    revoked_at: None,
                },
            ),
        )
    }

    fn resolve_by_hmac(&self, token_hmac: &str) -> (r: RunCapabilityResolution)
        ensures
            r@ == resolved(self@.capabilities, token_hmac@),
    {
        match self.find_token(token_hmac) {
            None => RunCapabilityResolution::Zero,
            Some(i) => {
                let held: &RunCapability = &self.capabilities[i].capability;
                assert(self@.capabilities[i as int] == self.capabilities@[i as int]@);
                if held.state == RunCapabilityState::Quarantined {
                    RunCapabilityResolution::Many
                } else {
                    RunCapabilityResolution::One(held.copy())
                }
            },
        }
    }

    /// What a token stands for.
    pub fn resolve_run_capability(&self, key: &RunCapabilityKey, token: &[u8]) -> (r: Result<
        RunCapabilityResolution,
        String,
    >)
        ensures
            answered(r) == (match token_code(key@, token@) {
                Err(m) => Err::<ResolutionView, Seq<char>>(m),
                Ok(code) => Ok(resolved(self@.capabilities, code)),
            }),
    {
        match key.token_hmac(token) {
            Ok(code) => Ok(self.resolve_by_hmac(code.as_str())),
            Err(m) => Err(m),
        }
    }

    fn transition_run_capability(
        &mut self,
        key: &RunCapabilityKey,
        token: &[u8],
        target: RunCapabilityState,
        now: &str,
    ) -> (r: Result<RunCapabilityResolution, String>)
        requires
            old(self)@.sound(),
        ensures
            final(self)@.sound(),
            match token_code(key@, token@) {
                Err(m) => final(self)@ == old(self)@ && answered(r) == Err::<
                    ResolutionView,
                    Seq<char>,
                >(m),
                Ok(code) => {
                    let after = ended_token(old(self)@.capabilities, code, target, now@);
                    &&& final(self)@ == (StoreView { capabilities: after, ..old(self)@ })
                    &&& answered(r) == Ok::<ResolutionView, Seq<char>>(resolved(after, code))
                },
            },
    {
        let token_hmac: String = match key.token_hmac(token) {
            Ok(code) => code,
            Err(m) => {
                return Err(m);
            },
        };
        let ghost caps = self@.capabilities;
        let ghost goal = ended_token(caps, token_hmac@, target, now@);
        let mut i: usize = 0;
        while i < self.capabilities.len()
            invariant
                i <= self.capabilities@.len(),
                self.capabilities@.len() == caps.len(),
                self.projects == old(self).projects,
                self.markers == old(self).markers,
                goal == ended_token(caps, token_hmac@, target, now@),
                forall|k: int| 0 <= k < i ==> (#[trigger] self.capabilities@[k])@ == goal[k],
                forall|k: int| i <= k < caps.len() ==> (#[trigger] self.capabilities@[k])@ == caps[k],
            decreases self.capabilities@.len() - i,
        {
            assert(self.capabilities@[i as int]@ == caps[i as int]);
            if same(self.capabilities[i].token_hmac.as_str(), token_hmac.as_str())
                && self.capabilities[i].capability.state == RunCapabilityState::Active {
                let row: CapabilityRow = CapabilityRow {
                    token_hmac: self.capabilities[i].token_hmac.clone(),
                    capability: RunCapability {
                        state: target,
                        revoked_at: Some(now.to_owned()),
                        ..self.capabilities[i].capability.copy()
                    },
                };
                self.capabilities.set(i, row);
            }
            i = i + 1;
        }
        assert(caps_view(self.capabilities@) =~= goal);
        proof {
            lemma_alone_kept(caps, goal);
        }
        Ok(self.resolve_by_hmac(token_hmac.as_str()))
    }

    /// Seals the capability of a token after its run was settled. Only one that is
    /// still good changes.
    pub fn settle_run_capability(&mut self, key: &RunCapabilityKey, token: &[u8], now: &str) -> (r:
        Result<RunCapabilityResolution, String>)
        requires
            old(self)@.sound(),
        ensures
            final(self)@.sound(),
            match token_code(key@, token@) {
                Err(m) => final(self)@ == old(self)@ && answered(r) == Err::<
                    ResolutionView,
                    Seq<char>,
                >(m),
                Ok(code) => {
                    let after = ended_token(
                        old(self)@.capabilities,
                        code,
                        RunCapabilityState::Settled,
                        now@,
                    );
                    &&& final(self)@ == (StoreView { capabilities: after, ..old(self)@ })
                    &&& answered(r) == Ok::<ResolutionView, Seq<char>>(resolved(after, code))
                },
            },
    {
        self.transition_run_capability(key, token, RunCapabilityState::Settled, now)
    }

    /// Revokes the capability of a token. Only one that is still good changes.
    pub fn revoke_run_capability(&mut self, key: &RunCapabilityKey, token: &[u8], now: &str) -> (r:
        Result<RunCapabilityResolution, String>)
        requires
            old(self)@.sound(),
        ensures
            final(self)@.sound(),
            match token_code(key@, token@) {
                Err(m) => final(self)@ == old(self)@ && answered(r) == Err::<
                    ResolutionView,
                    Seq<char>,
                >(m),
                Ok(code) => {
                    let after = ended_token(
                        old(self)@.capabilities,
                        code,
                        RunCapabilityState::Revoked,
                        now@,
                    );
                    &&& final(self)@ == (StoreView { capabilities: after, ..old(self)@ })
                    &&& answered(r) == Ok::<ResolutionView, Seq<char>>(resolved(after, code))
                },
            },
    {
        self.transition_run_capability(key, token, RunCapabilityState::Revoked, now)
    }

    /// Revokes every capability of a project that is still good; says how many.
    pub fn revoke_project_run_capabilities(
        &mut self,
        project: &ProjectStoreHandle,
        now: &str,
    ) -> (r: usize)
        requires
            old(self)@.sound(),
        ensures
            final(self)@.sound(),
            final(self)@ == (StoreView {
                capabilities: ended_project(old(self)@.capabilities, project@, now@),
                ..old(self)@
            }),
            r == active_count(
                old(self)@.capabilities,
                project@,
                old(self)@.capabilities.len(),
            ),
    {
        let ghost caps = self@.capabilities;
        let ghost goal = ended_project(caps, project@, now@);
        let mut changed: usize = 0;
        let mut i: usize = 0;
        while i < self.capabilities.len()
            invariant
                i <= self.capabilities@.len(),
                self.capabilities@.len() == caps.len(),
                self.projects == old(self).projects,
                self.markers == old(self).markers,
                goal == ended_project(caps, project@, now@),
                changed == active_count(caps, project@, i as nat),
                changed <= i,
                forall|k: int| 0 <= k < i ==> (#[trigger] self.capabilities@[k])@ == goal[k],
                forall|k: int| i <= k < caps.len() ==> (#[trigger] self.capabilities@[k])@ == caps[k],
            decreases self.capabilities@.len() - i,
        {
            assert(self.capabilities@[i as int]@ == caps[i as int]);
            if self.capabilities[i].capability.project.same(project)
                && self.capabilities[i].capability.state == RunCapabilityState::Active {
                let row: CapabilityRow = CapabilityRow {
                    token_hmac: self.capabilities[i].token_hmac.clone(),
                    capability: RunCapability {
                        state: RunCapabilityState::Revoked,
                        revoked_at: Some(now.to_owned()),
                        ..self.capabilities[i].capability.copy()
                    },
                };
                self.capabilities.set(i, row);
                changed = changed + 1;
            }
            i = i + 1;
        }
        assert(caps_view(self.capabilities@) =~= goal);
        proof {
            lemma_alone_kept(caps, goal);
        }
        changed
    }

    /// Takes over a token that no one registered. It is never good for anything.
    pub fn backfill_quarantined_run_capability(
        &mut self,
        key: &RunCapabilityKey,
        token: &[u8],
        project: &ProjectStoreHandle,
        agent_run: &AgentRunHandle,
        now: &str,
    ) -> (r: Result<(), String>)
        requires
            old(self)@.sound(),
        ensures
            final(self)@.sound(),
            match token_code(key@, token@) {
                Err(m) => final(self)@ == old(self)@ && answered(r) == Err::<(), Seq<char>>(m),
                Ok(code) => (final(self)@, answered(r)) == backfill_view(
                    old(self)@,
                    code,
                    project@,
                    agent_run@,
                    now@,
                ),
            },
    {
        let token_hmac: String = match key.token_hmac(token) {
            Ok(code) => code,
            Err(m) => {
                return Err(m);
            },
        };
        match self.ensure_capability_project(project, false) {
            Ok(_) => {},
            Err(m) => {
                return Err(m);
            },
        }
        let ghost caps = self@.capabilities;
        proof {
            lemma_token_at(caps, token_hmac@, 0);
            lemma_pair_at(caps, project@, agent_run@, 0);
        }
        let fits: bool = self.find_token(token_hmac.as_str()).is_none() && self.find_pair(
            project.as_str(),
            agent_run.as_str(),
        ).is_none();
        proof {
            lemma_alone_in_quarantine(caps, token_hmac@, project@, agent_run@, now@);
        }
        self.quarantine(token_hmac.as_str(), agent_run.as_str(), now);
        if fits {
            self.add_capability(
                token_hmac,
                project,
                agent_run,
                RunCapabilityState::Quarantined,
                now,
            );
        }
        Ok(())
    }
}

/// The same registration again changes nothing and gives the same answer, however
/// often and whenever it comes.
pub proof fn law_registration_is_repeatable(
    s: StoreView,
    token: Seq<char>,
    project: Seq<char>,
    run: Seq<char>,
    now: Seq<char>,
    later: Seq<char>,
)
    requires
        s.sound(),
        register_view(s, token, project, run, now).1 matches Ok(RegistrationView::Registered(_)),
    ensures
        register_view(register_view(s, token, project, run, now).0, token, project, run, later)
            == register_view(s, token, project, run, now),
{
    let caps = s.capabilities;
    let first = register_view(s, token, project, run, now);
    lemma_token_at(caps, token, 0);
    lemma_pair_at(caps, project, run, 0);
    if token_at(caps, token, 0) is None {
        let after = first.0.capabilities;
        assert(after == caps.push(new_cap(token, project, run, RunCapabilityState::Active, now)));
        lemma_token_at(after, token, 0);
        lemma_pair_at(after, project, run, 0);
        let t = token_at(after, token, 0);
        let p = pair_at(after, project, run, 0);
        assert(after[caps.len() as int].token_hmac == token);
        assert(t is Some && p is Some);
        if t->0 < caps.len() {
            assert(caps[t->0].token_hmac == token);
        }
        if p->0 < caps.len() {
            assert(caps[p->0].capability.agent_run == run);
        }
        assert(!elsewhere(after, project, run)) by {
            if elsewhere(after, project, run) {
                let i = choose|i: int|
                    0 <= i < after.len() && (#[trigger] after[i]).capability.agent_run == run
                        && after[i].capability.project != project;
                assert(caps[i].capability.agent_run == run && caps[i].capability.project
                    != project);
            }
        }
    }
}

/// A capability that is still good can be registered again, any number of times: the answer
/// is the capability, and nothing changes.
pub proof fn law_a_good_capability_registers_again(
    s: StoreView,
    at: int,
    now: Seq<char>,
)
    requires
        s.sound(),
        0 <= at < s.capabilities.len(),
        s.capabilities[at].capability.state is Active,
        status_of(s.projects, s.capabilities[at].capability.project, 0) == Some(
            ProjectStatus::Registered,
        ),
    ensures
        register_view(
            s,
            s.capabilities[at].token_hmac,
            s.capabilities[at].capability.project,
            s.capabilities[at].capability.agent_run,
            now,
        ) == (
            s,
            Ok::<RegistrationView, Seq<char>>(
                RegistrationView::Registered(s.capabilities[at].capability),
            ),
        ),
{
    let caps = s.capabilities;
    let c = caps[at];
    lemma_token_at(caps, c.token_hmac, 0);
    lemma_pair_at(caps, c.capability.project, c.capability.agent_run, 0);
    let t = token_at(caps, c.token_hmac, 0)->0;
    let p = pair_at(caps, c.capability.project, c.capability.agent_run, 0)->0;
    assert(t == at) by {
        if t != at {
            assert(caps[t].token_hmac == caps[at].token_hmac);
        }
    }
    assert(p == at) by {
        if p != at {
            assert(caps[at].capability.agent_run != caps[p].capability.agent_run);
        }
    }
    assert(!elsewhere(caps, c.capability.project, c.capability.agent_run)) by {
        if elsewhere(caps, c.capability.project, c.capability.agent_run) {
            let i = choose|i: int|
                0 <= i < caps.len() && (#[trigger] caps[i]).capability.agent_run
                    == c.capability.agent_run && caps[i].capability.project
                    != c.capability.project;
            assert(caps[at].capability.agent_run != caps[i].capability.agent_run);
        }
    }
}

/// A conflict has no winner: a known token for something else, another token for its project
/// and run, or its run under another project puts the token in quarantine, and it stands for
/// nothing from then on.
pub proof fn law_a_conflict_has_no_winner(
    s: StoreView,
    at: int,
    token: Seq<char>,
    project: Seq<char>,
    run: Seq<char>,
    now: Seq<char>,
)
    requires
        s.sound(),
        0 <= at < s.capabilities.len(),
        status_of(s.projects, project, 0) == Some(ProjectStatus::Registered),
        token == s.capabilities[at].token_hmac || run == s.capabilities[at].capability.agent_run,
        !(token == s.capabilities[at].token_hmac && project
            == s.capabilities[at].capability.project && run
            == s.capabilities[at].capability.agent_run),
    ensures
        register_view(s, token, project, run, now).1 == Ok::<RegistrationView, Seq<char>>(
            RegistrationView::Quarantined,
        ),
        resolved(
            register_view(s, token, project, run, now).0.capabilities,
            s.capabilities[at].token_hmac,
        ) is Many,
{
    let caps = s.capabilities;
    let c = caps[at];
    let q = quarantined(caps, token, run, now);
    lemma_token_at(caps, token, 0);
    lemma_token_at(caps, c.token_hmac, 0);
    lemma_pair_at(caps, project, run, 0);
    lemma_same_token_at(caps, q, c.token_hmac, 0);
    let own = token_at(caps, c.token_hmac, 0)->0;
    assert(own == at) by {
        if own != at {
            assert(caps[own].token_hmac == caps[at].token_hmac);
        }
    }
    let d = new_cap(token, project, run, RunCapabilityState::Quarantined, now);
    lemma_token_pushed(q, d, c.token_hmac, 0);
    if run == c.capability.agent_run && project != c.capability.project {
        assert(elsewhere(caps, project, run));
    }
    if token_at(caps, token, 0) is Some && token_at(caps, token, 0) == pair_at(
        caps,
        project,
        run,
        0,
    ) {
        let t = token_at(caps, token, 0)->0;
        if token == c.token_hmac {
            assert(t == at);
        } else if project == c.capability.project {
            assert(t != at);
            assert(caps[t].capability.project == c.capability.project
                && caps[t].capability.agent_run == c.capability.agent_run);
        }
    }
}

/// A token that was once seen in a conflict stays in conflict, whatever is registered,
/// settled, revoked or taken over after it.
pub proof fn law_quarantine_is_forever(
    s: StoreView,
    held: Seq<char>,
    token: Seq<char>,
    project: Seq<char>,
    run: Seq<char>,
    end: RunCapabilityState,
    now: Seq<char>,
)
    requires
        resolved(s.capabilities, held) is Many,
    ensures
        resolved(register_view(s, token, project, run, now).0.capabilities, held) is Many,
        resolved(ended_token(s.capabilities, token, end, now), held) is Many,
        resolved(ended_project(s.capabilities, project, now), held) is Many,
        resolved(backfill_view(s, token, project, run, now).0.capabilities, held) is Many,
{
    let caps = s.capabilities;
    let q = quarantined(caps, token, run, now);
    lemma_token_at(caps, held, 0);
    lemma_same_token_at(caps, q, held, 0);
    lemma_same_token_at(caps, ended_token(caps, token, end, now), held, 0);
    lemma_same_token_at(caps, ended_project(caps, project, now), held, 0);
    let c = new_cap(token, project, run, RunCapabilityState::Active, now);
    let d = new_cap(token, project, run, RunCapabilityState::Quarantined, now);
    lemma_token_pushed(caps, c, held, 0);
    lemma_token_pushed(q, d, held, 0);
}

/// A known token that is taken over is in conflict from then on.
pub proof fn lemma_backfilled_is_many(
    s: StoreView,
    token: Seq<char>,
    project: Seq<char>,
    run: Seq<char>,
    now: Seq<char>,
)
    requires
        backfill_view(s, token, project, run, now).1 is Ok,
        token_at(s.capabilities, token, 0) is Some || pair_at(s.capabilities, project, run, 0)
            is None,
    ensures
        resolved(backfill_view(s, token, project, run, now).0.capabilities, token) is Many,
{
    let caps = s.capabilities;
    let q = quarantined(caps, token, run, now);
    lemma_token_at(caps, token, 0);
    lemma_same_token_at(caps, q, token, 0);
    if token_at(caps, token, 0) is None {
        let d = new_cap(token, project, run, RunCapabilityState::Quarantined, now);
        lemma_token_at(q, token, 0);
        lemma_token_at(q.push(d), token, 0);
        assert(q.push(d)[q.len() as int].token_hmac == token);
        let i = token_at(q.push(d), token, 0)->0;
        if i < q.len() {
            assert(q[i].token_hmac == token);
        }
    }
}

proof fn lemma_token_pushed(caps: Seq<CapView>, c: CapView, token: Seq<char>, from: int)
    requires
        0 <= from,
        token_at(caps, token, from) is Some,
    ensures
        token_at(caps.push(c), token, from) == token_at(caps, token, from),
    decreases caps.len() - from,
{
    if from < caps.len() && caps[from].token_hmac != token {
        lemma_token_pushed(caps, c, token, from + 1);
    }
}

/// A capability that has ended is never good again, whatever is registered, settled,
/// revoked or taken over after it.
pub proof fn law_no_capability_comes_back(
    s: StoreView,
    at: int,
    token: Seq<char>,
    project: Seq<char>,
    run: Seq<char>,
    end: RunCapabilityState,
    now: Seq<char>,
)
    requires
        0 <= at < s.capabilities.len(),
        !(s.capabilities[at].capability.state is Active),
        !(end is Active),
    ensures
        ({
            let r = register_view(s, token, project, run, now).0.capabilities;
            let b = backfill_view(s, token, project, run, now).0.capabilities;
            &&& r[at].token_hmac == s.capabilities[at].token_hmac && !(
            r[at].capability.state is Active)
            &&& b[at].token_hmac == s.capabilities[at].token_hmac && !(
            b[at].capability.state is Active)
            &&& ended_token(s.capabilities, token, end, now)[at] == s.capabilities[at]
            &&& ended_project(s.capabilities, project, now)[at] == s.capabilities[at]
        }),
{
}

/// Once a project is closed none of its capabilities is good any more.
pub proof fn law_a_closed_project_has_no_good_token(
    caps: Seq<CapView>,
    project: Seq<char>,
    now: Seq<char>,
    at: int,
)
    requires
        0 <= at < caps.len(),
        caps[at].capability.project == project,
    ensures
        !(ended_project(caps, project, now)[at].capability.state is Active),
{
}

/// A path without the prefix that Windows puts before a canonical one.
pub open spec fn plain_path(path: Seq<char>) -> Seq<char> {
    let unc = "\\\\?\\UNC\\"@;
    let verbatim = "\\\\?\\"@;
    if begins(unc, path) {
        "\\\\"@ + path.skip(unc.len() as int)
    } else if begins(verbatim, path) && is_drive(path.skip(verbatim.len() as int)) {
        path.skip(verbatim.len() as int)
    } else {
        path
    }
}

/// Whether a path starts with a drive letter.
pub open spec fn is_drive(path: Seq<char>) -> bool {
    path.len() >= 2 && ('a' <= path[0] <= 'z' || 'A' <= path[0] <= 'Z') && path[1] == ':'
}

/// A path without the prefix that Windows puts before a canonical one.
pub fn strip_verbatim(path: &str) -> (r: String)
    ensures
        r@ == plain_path(path@),
{
    if let Some(rest) = strip_prefix(path, "\\\\?\\UNC\\") {
        return cat("\\\\", rest.as_str());
    }
    if let Some(rest) = strip_prefix(path, "\\\\?\\") {
        let chars: Vec<char> = chars_of(rest.as_str());
        if chars.len() >= 2 && ('a' <= chars[0] && chars[0] <= 'z' || 'A' <= chars[0] && chars[0]
            <= 'Z') && chars[1] == ':' {
            return rest;
        }
    }
    path.to_owned()
}

/// The root of a project: by its canonical path where there is one, by its absolute
/// path, with a warning, where there is none.
pub open spec fn root_of(canonical: Result<Seq<char>, Seq<char>>, absolute: Seq<char>) -> (
    Seq<char>,
    Option<Seq<char>>,
) {
    match canonical {
        Ok(path) => (plain_path(path), None),
        Err(error) => (
            plain_path(absolute),
            Some(
                "路径无法规范化,使用绝对路径: "@ + absolute + "(canonicalize 失败: "@ + error
                    + ")"@,
            ),
        ),
    }
}

/// The root of a project: by its canonical path where there is one, by its absolute
/// path, with a warning, where there is none.
pub fn canonical_root_of(canonical: Result<String, String>, absolute: &str) -> (r: (
    String,
    Option<String>,
))
    ensures
        (r.0@, opt_view(r.1)) == root_of(
            match canonical {
                Ok(p) => Ok(p@),
                Err(e) => Err(e@),
            },
            absolute@,
        ),
{
    match canonical {
        Ok(path) => (strip_verbatim(path.as_str()), None),
        Err(error) => {
            let mut warning: String = cat3(
                "路径无法规范化,使用绝对路径: ",
                absolute,
                "(canonicalize 失败: ",
            );
            warning.append(error.as_str());
            warning.append(")");
            (strip_verbatim(absolute), Some(warning))
        },
    }
}

/// Where a root stands among the projects.
pub open spec fn root_at(projects: Seq<ProjectView>, root: Seq<char>, from: int) -> Option<int>
    decreases projects.len() - from,
{
    if from >= projects.len() {
        None
    } else if projects[from].canonical_root == root {
        Some(from)
    } else {
        root_at(projects, root, from + 1)
    }
}

proof fn lemma_root_at(projects: Seq<ProjectView>, root: Seq<char>, from: int)
    requires
        0 <= from,
    ensures
        match root_at(projects, root, from) {
            Some(i) => from <= i < projects.len() && projects[i].canonical_root == root,
            None => forall|k: int|
                from <= k < projects.len() ==> (#[trigger] projects[k]).canonical_root != root,
        },
    decreases projects.len() - from,
{
    if from < projects.len() && projects[from].canonical_root != root {
        lemma_root_at(projects, root, from + 1);
    }
}

/// A fresh handle of a project, and a fresh public id.
pub open spec fn fresh_ids(p: ProjectView) -> bool {
    &&& begins("proj_"@, p.project_handle)
    &&& is_canonical_v7(p.project_handle.skip("proj_"@.len() as int))
    &&& is_canonical_v7(p.public_id)
}

/// Whether `sorted` holds the projects of `all`, by the order of their roots.
pub open spec fn listed_by_root(all: Seq<ProjectView>, sorted: Seq<ProjectView>) -> bool {
    &&& sorted.to_multiset() == all.to_multiset()
    &&& forall|i: int, j: int|
        0 <= i < j < sorted.len() ==> !before(
            (#[trigger] sorted[j]).canonical_root,
            (#[trigger] sorted[i]).canonical_root,
        )
}

impl ServiceStore {
    fn find_root(&self, root: &str) -> (r: Option<usize>)
        ensures
            match r {
                Some(i) => i < self.projects@.len() && root_at(self@.projects, root@, 0) == Some(
                    i as int,
                ),
                None => root_at(self@.projects, root@, 0) is None,
            },
    {
        let ghost all = self@.projects;
        let mut i: usize = 0;
        while i < self.projects.len()
            invariant
                i <= self.projects@.len(),
                all == projects_view(self.projects@),
                root_at(all, root@, 0) == root_at(all, root@, i as int),
            decreases self.projects@.len() - i,
        {
            assert(all[i as int] == self.projects@[i as int]@);
            if same(self.projects[i].canonical_root.as_str(), root) {
                return Some(i);
            }
            i = i + 1;
        }
        None
    }

    fn add_project(&mut self, root: &str, display_path: &str, status: ProjectStatus, now: &str)
        requires
            old(self)@.sound(),
            root_at(old(self)@.projects, root@, 0) is None,
        ensures
            final(self)@.sound(),
            final(self)@.projects.len() == old(self)@.projects.len() + 1,
            final(self)@.projects.drop_last() == old(self)@.projects,
            final(self)@ == (StoreView { projects: final(self)@.projects, ..old(self)@ }),
            ({
                let p = final(self)@.projects.last();
                &&& fresh_ids(p)
                &&& p == (ProjectView {
                    project_handle: p.project_handle,
                    public_id: p.public_id,
                    canonical_root: root@,
                    display_path: display_path@,
                    registered_at: now@,
                    status,
                })
            }),
    {
        let ghost all = self@.projects;
        proof {
            lemma_root_at(all, root@, 0);
        }
        let project: RegisteredProject = RegisteredProject {
            project_handle: ProjectStoreHandle::generate(),
            public_id: crate::handles::fresh_with(""),
            canonical_root: root.to_owned(),
            display_path: display_path.to_owned(),
            registered_at: now.to_owned(),
            status,
        };
        assert(project@.public_id.skip(""@.len() as int) =~= project@.public_id) by {
            reveal_strlit("");
        }
        self.projects.push(project);
        assert(projects_view(self.projects@) =~= all.push(project@));
        assert(self@.projects.drop_last() =~= all);
    }

    /// Registers a project by its root. One that is there already keeps its handle and
    /// everything else; it only is no longer missing.
    pub fn register_project_path(
        &mut self,
        canonical: Result<String, String>,
        absolute: &str,
        display_path: &str,
        now: &str,
    ) -> (r: Result<RegisteredProject, String>)
        requires
            old(self)@.sound(),
        ensures
            final(self)@.sound(),
            ({
                let (root, warning) = root_of(
                    match canonical {
                        Ok(p) => Ok(p@),
                        Err(e) => Err(e@),
                    },
                    absolute@,
                );
                match (warning, root_at(old(self)@.projects, root, 0)) {
                    (Some(w), _) => final(self)@ == old(self)@ && answered(r) == Err::<
                        ProjectView,
                        Seq<char>,
                    >("project_register_failed:"@ + w),
                    (None, Some(i)) => {
                        let p = ProjectView {
                            status: ProjectStatus::Registered,
                            ..old(self)@.projects[i]
                        };
                        &&& final(self)@ == (StoreView {
                            projects: old(self)@.projects.update(i, p),
                            ..old(self)@
                        })
                        &&& answered(r) == Ok::<ProjectView, Seq<char>>(p)
                    },
                    (None, None) => {
                        let p = final(self)@.projects.last();
                        &&& fresh_ids(p)
                        &&& p == (ProjectView {
                            project_handle: p.project_handle,
                            public_id: p.public_id,
                            canonical_root: root,
                            display_path: display_path@,
                            registered_at: now@,
                            status: ProjectStatus::Registered,
                        })
                        &&& final(self)@ == (StoreView {
                            projects: old(self)@.projects.push(p),
                            ..old(self)@
                        })
                        &&& answered(r) == Ok::<ProjectView, Seq<char>>(p)
                    },
                }
            }),
    {
        let (root, warning) = canonical_root_of(canonical, absolute);
        if let Some(w) = warning {
            return Err(cat("project_register_failed:", w.as_str()));
        }
        let ghost all = self@.projects;
        match self.find_root(root.as_str()) {
            Some(i) => {
                let mut project: RegisteredProject = self.projects[i].copy();
                assert(all[i as int] == self.projects@[i as int]@);
                project.status = ProjectStatus::Registered;
                let answer: RegisteredProject = project.copy();
                self.projects.set(i, project);
                assert(projects_view(self.projects@) =~= all.update(i as int, project@));
                Ok(answer)
            },
            None => {
                self.add_project(root.as_str(), display_path, ProjectStatus::Registered, now);
                let last: usize = self.projects.len() - 1;
                assert(self@.projects =~= all.push(self@.projects.last()));
                assert(self@.projects.last() == self.projects@[last as int]@);
                Ok(self.projects[last].copy())
            },
        }
    }

    /// All projects, by the order of their roots.
    pub fn list_projects(&self) -> (r: Vec<RegisteredProject>)
        requires
            self@.sound(),
        ensures
            listed_by_root(self@.projects, projects_view(r@)),
    {
        let mut out: Vec<RegisteredProject> = Vec::new();
        let ghost all = self@.projects;
        let mut i: usize = 0;
        assert(projects_view(out@) =~= all.take(0));
        while i < self.projects.len()
            invariant
                i <= self.projects@.len(),
                out@.len() == i,
                all == projects_view(self.projects@),
                listed_by_root(all.take(i as int), projects_view(out@)),
            decreases self.projects@.len() - i,
        {
            let ghost had = projects_view(out@);
            let project: RegisteredProject = self.projects[i].copy();
            let ghost p = project@;
            let mut at: usize = out.len();
            while at > 0 && less(
                project.canonical_root.as_str(),
                out[at - 1].canonical_root.as_str(),
            )
                invariant
                    at <= out@.len(),
                    had == projects_view(out@),
                    p == project@,
                    forall|k: int|
                        at <= k < out@.len() ==> before(
                            p.canonical_root,
                            (#[trigger] had[k]).canonical_root,
                        ),
                decreases at,
            {
                assert(had[at - 1] == out@[at - 1]@);
                at = at - 1;
            }
            proof {
                if at > 0 {
                    assert(had[at - 1] == out@[at - 1]@);
                }
                lemma_inserted(had, p, at as int);
                assert(all.take(i + 1) =~= all.take(i as int).push(p));
                all.take(i as int).to_multiset_ensures();
                had.to_multiset_ensures();
            }
            out.insert(at, project);
            assert(projects_view(out@) =~= had.insert(at as int, p));
            i = i + 1;
        }
        assert(all.take(i as int) =~= all);
        out
    }
}

proof fn lemma_inserted(sorted: Seq<ProjectView>, p: ProjectView, at: int)
    requires
        0 <= at <= sorted.len(),
        forall|i: int, j: int|
            0 <= i < j < sorted.len() ==> !before(
                (#[trigger] sorted[j]).canonical_root,
                (#[trigger] sorted[i]).canonical_root,
            ),
        forall|k: int|
            at <= k < sorted.len() ==> before(
                p.canonical_root,
                (#[trigger] sorted[k]).canonical_root,
            ),
        at > 0 ==> !before(p.canonical_root, sorted[at - 1].canonical_root),
    ensures
        forall|i: int, j: int|
            0 <= i < j < sorted.len() + 1 ==> !before(
                (#[trigger] sorted.insert(at, p)[j]).canonical_root,
                (#[trigger] sorted.insert(at, p)[i]).canonical_root,
            ),
        sorted.insert(at, p).to_multiset() == sorted.to_multiset().insert(p),
{
    let after = sorted.insert(at, p);
    assert forall|i: int, j: int| 0 <= i < j < after.len() implies !before(
        (#[trigger] after[j]).canonical_root,
        (#[trigger] after[i]).canonical_root,
    ) by {
        if j == at {
            assert(after[i] == sorted[i]);
            let a = p.canonical_root;
            let c = sorted[i].canonical_root;
            let b = sorted[at - 1].canonical_root;
            if before(a, c) {
                lemma_before_total(b, c);
                lemma_before_total(a, b);
                if i < at - 1 {
                    assert(!before(b, c));
                    if before(c, b) {
                        lemma_before_transitive(a, c, b);
                    }
                }
            }
        } else if i == at {
            assert(after[j] == sorted[j - 1]);
            lemma_before_total(p.canonical_root, sorted[j - 1].canonical_root);
        } else {
            let x = if i < at {
                i
            } else {
                i - 1
            };
            let y = if j < at {
                j
            } else {
                j - 1
            };
            assert(after[i] == sorted[x]);
            assert(after[j] == sorted[y]);
        }
    }
    sorted.to_multiset_ensures();
    after.to_multiset_ensures();
    assert(after.remove(at) =~= sorted);
    assert(after[at] == p);
    assert(after.to_multiset().contains(p));
    assert(after.to_multiset() =~= sorted.to_multiset().insert(p));
}

/// The name of the mark that an earlier session's projects were imported.
pub const SESSION_IMPORT_MARKER: &'static str = "session_json.project_registry.v1";

/// What an import did, if it did anything.
#[derive(Debug, Clone, Copy, PartialEq, Eq, Structural)]
pub enum SessionImportStatus {
    Imported,
    AlreadyImported,
    NoSessionFile,
}

/// What an import did.
#[derive(Debug)]
pub struct SessionImportReport {
    pub status: SessionImportStatus,
    pub imported: usize,
    pub duplicates_skipped: usize,
    pub missing: usize,
    pub foreground: Option<String>,
}

/// What an import did, as a value.
pub ghost struct ImportView {
    pub status: SessionImportStatus,
    pub imported: nat,
    pub duplicates_skipped: nat,
    pub missing: nat,
    pub foreground: Option<Seq<char>>,
}

impl View for SessionImportReport {
    type V = ImportView;

    open spec fn view(&self) -> ImportView {
        ImportView {
            status: self.status,
            imported: self.imported as nat,
            duplicates_skipped: self.duplicates_skipped as nat,
            missing: self.missing as nat,
            foreground: opt_view(self.foreground),
        }
    }
}

/// A path of an earlier session: as it was written, its root, and whether it is there.
#[derive(Debug)]
pub struct SessionPath {
    pub display_path: String,
    pub canonical_root: String,
    pub available: bool,
}

/// A path of an earlier session, as a value.
pub ghost struct PathView {
    pub display_path: Seq<char>,
    pub canonical_root: Seq<char>,
    pub available: bool,
}

impl View for SessionPath {
    type V = PathView;

    open spec fn view(&self) -> PathView {
        PathView {
            display_path: self.display_path@,
            canonical_root: self.canonical_root@,
            available: self.available,
        }
    }
}

/// Paths as values.
pub open spec fn paths_view(v: Seq<SessionPath>) -> Seq<PathView> {
    v.map_values(|p: SessionPath| p@)
}

/// What is taken over of an earlier session: its projects and the one in front.
#[derive(Debug)]
pub struct SessionDoc {
    pub projects: Vec<SessionPath>,
    pub foreground: Option<SessionPath>,
}

/// What is taken over of an earlier session, as a value.
pub ghost struct SessionView {
    pub projects: Seq<PathView>,
    pub foreground: Option<PathView>,
}

impl View for SessionDoc {
    type V = SessionView;

    open spec fn view(&self) -> SessionView {
        SessionView {
            projects: paths_view(self.projects@),
            foreground: match self.foreground {
                Some(p) => Some(p@),
                None => None,
            },
        }
    }
}

/// Whether a root is among the paths.
pub open spec fn has_root(paths: Seq<PathView>, root: Seq<char>) -> bool {
    exists|i: int| 0 <= i < paths.len() && (#[trigger] paths[i]).canonical_root == root
}

/// The first `n` paths, each root once, by the first spelling of it.
pub open spec fn merged(paths: Seq<PathView>, n: nat) -> Seq<PathView>
    decreases n,
{
    if n == 0 {
        seq![]
    } else {
        let rest = merged(paths, (n - 1) as nat);
        if has_root(rest, paths[n - 1].canonical_root) {
            rest
        } else {
            rest.push(paths[n - 1])
        }
    }
}

impl SessionView {
    /// The projects of a session: those it lists, each root once, and the one in front
    /// where it is there and not among them.
    pub open spec fn entries(self) -> Seq<PathView> {
        let listed = merged(self.projects, self.projects.len());
        match self.foreground {
            Some(f) => if f.available && !has_root(listed, f.canonical_root) {
                listed.push(f)
            } else {
                listed
            },
            None => listed,
        }
    }

    /// The root of the project in front, where it is there.
    pub open spec fn front(self) -> Option<Seq<char>> {
        match self.foreground {
            Some(f) => if exists|i: int|
                0 <= i < self.entries().len() && (#[trigger] self.entries()[i]).canonical_root
                    == f.canonical_root && self.entries()[i].available {
                Some(f.canonical_root)
            } else {
                None
            },
            None => None,
        }
    }
}

/// How many of the first `n` paths are not there.
pub open spec fn missing_count(paths: Seq<PathView>, n: nat) -> nat
    decreases n,
{
    if n == 0 {
        0
    } else {
        missing_count(paths, (n - 1) as nat) + (if paths[n - 1].available {
            0nat
        } else {
            1nat
        })
    }
}

/// Those of the first `n` paths whose root is not registered.
pub open spec fn unregistered(projects: Seq<ProjectView>, paths: Seq<PathView>, n: nat) -> Seq<
    PathView,
>
    decreases n,
{
    if n == 0 {
        seq![]
    } else if root_at(projects, paths[n - 1].canonical_root, 0) is None {
        unregistered(projects, paths, (n - 1) as nat).push(paths[n - 1])
    } else {
        unregistered(projects, paths, (n - 1) as nat)
    }
}

/// Whether a mark is there.
pub open spec fn has_marker(markers: Seq<MarkerView>, name: Seq<char>) -> bool {
    exists|i: int| 0 <= i < markers.len() && (#[trigger] markers[i]).name == name
}

/// Whether a registered project is what a path was registered as.
pub open spec fn registered_as(p: ProjectView, path: PathView, now: Seq<char>) -> bool {
    &&& fresh_ids(p)
    &&& p.canonical_root == path.canonical_root
    &&& p.display_path == path.display_path
    &&& p.registered_at == now
    &&& p.status == (if path.available {
        ProjectStatus::Registered
    } else {
        ProjectStatus::Missing
    })
}

/// The report of an import.
pub open spec fn import_report(projects: Seq<ProjectView>, session: SessionView) -> ImportView {
    let entries = session.entries();
    ImportView {
        status: SessionImportStatus::Imported,
        imported: unregistered(projects, entries, entries.len()).len(),
        duplicates_skipped: (session.projects.len() - merged(
            session.projects,
            session.projects.len(),
        ).len()) as nat,
        missing: missing_count(entries, entries.len()),
        foreground: session.front(),
    }
}

/// The mark of an import.
pub open spec fn import_marker(
    report: ImportView,
    source: Seq<char>,
    now: Seq<char>,
) -> MarkerView {
    MarkerView {
        name: SESSION_IMPORT_MARKER@,
        payload: sorted_view(
            JsonView::Object(
                seq![
                    ("source"@, JsonView::Text(source)),
                    ("imported"@, JsonView::Unsigned(report.imported)),
                    ("duplicates_skipped"@, JsonView::Unsigned(report.duplicates_skipped)),
                    ("missing"@, JsonView::Unsigned(report.missing)),
                    ("foreground"@, opt_text_view(report.foreground)),
                ],
            ),
        ),
        created_at: now,
    }
}

/// The answer where there is nothing to import.
pub open spec fn nothing_imported(status: SessionImportStatus) -> ImportView {
    ImportView { status, imported: 0, duplicates_skipped: 0, missing: 0, foreground: None }
}

fn report_nothing(status: SessionImportStatus) -> (r: SessionImportReport)
    ensures
        r@ == nothing_imported(status),
{
    SessionImportReport {
        status,
        imported: 0,
        duplicates_skipped: 0,
        missing: 0,
        foreground: None,
    }
}

fn copy_path(p: &SessionPath) -> (r: SessionPath)
    ensures
        r@ == p@,
{
    SessionPath {
        display_path: p.display_path.clone(),
        canonical_root: p.canonical_root.clone(),
        available: p.available,
    }
}

fn lists_root(paths: &Vec<SessionPath>, root: &str) -> (r: bool)
    ensures
        r == has_root(paths_view(paths@), root@),
{
    let ghost all = paths_view(paths@);
    let mut i: usize = 0;
    while i < paths.len()
        invariant
            i <= paths@.len(),
            all == paths_view(paths@),
            forall|k: int| 0 <= k < i ==> (#[trigger] all[k]).canonical_root != root@,
        decreases paths@.len() - i,
    {
        assert(all[i as int] == paths@[i as int]@);
        if same(paths[i].canonical_root.as_str(), root) {
            assert(all[i as int].canonical_root == root@);
            return true;
        }
        i = i + 1;
    }
    false
}

fn merge_paths(paths: &Vec<SessionPath>) -> (r: Vec<SessionPath>)
    ensures
        paths_view(r@) == merged(paths_view(paths@), paths@.len()),
        r@.len() <= paths@.len(),
{
    let ghost all = paths_view(paths@);
    let mut out: Vec<SessionPath> = Vec::new();
    let mut i: usize = 0;
    assert(paths_view(out@) =~= seq![]);
    while i < paths.len()
        invariant
            i <= paths@.len(),
            out@.len() <= i,
            all == paths_view(paths@),
            paths_view(out@) == merged(all, i as nat),
        decreases paths@.len() - i,
    {
        let ghost had = out@;
        assert(all[i as int] == paths@[i as int]@);
        if !lists_root(&out, paths[i].canonical_root.as_str()) {
            out.push(copy_path(&paths[i]));
            assert(paths_view(out@) =~= paths_view(had).push(all[i as int]));
        }
        i = i + 1;
    }
    out
}

fn count_missing(paths: &Vec<SessionPath>) -> (r: usize)
    ensures
        r == missing_count(paths_view(paths@), paths@.len()),
{
    let ghost all = paths_view(paths@);
    let mut missing: usize = 0;
    let mut i: usize = 0;
    while i < paths.len()
        invariant
            i <= paths@.len(),
            missing <= i,
            all == paths_view(paths@),
            missing == missing_count(all, i as nat),
        decreases paths@.len() - i,
    {
        assert(all[i as int] == paths@[i as int]@);
        if !paths[i].available {
            missing = missing + 1;
        }
        i = i + 1;
    }
    missing
}

fn is_available(paths: &Vec<SessionPath>, root: &str) -> (r: bool)
    ensures
        r == exists|i: int|
            0 <= i < paths_view(paths@).len() && (#[trigger] paths_view(paths@)[i]).canonical_root
                == root@ && paths_view(paths@)[i].available,
{
    let ghost all = paths_view(paths@);
    let mut i: usize = 0;
    while i < paths.len()
        invariant
            i <= paths@.len(),
            all == paths_view(paths@),
            forall|k: int|
                0 <= k < i ==> !((#[trigger] all[k]).canonical_root == root@ && all[k].available),
        decreases paths@.len() - i,
    {
        assert(all[i as int] == paths@[i as int]@);
        if same(paths[i].canonical_root.as_str(), root) && paths[i].available {
            assert(all[i as int].canonical_root == root@);
            return true;
        }
        i = i + 1;
    }
    false
}

/// Roots that a merge gives are distinct.
proof fn lemma_merged_distinct(paths: Seq<PathView>, n: nat)
    requires
        n <= paths.len(),
    ensures
        forall|i: int, j: int|
            0 <= i < j < merged(paths, n).len() ==> (#[trigger] merged(
                paths,
                n,
            )[i]).canonical_root != (#[trigger] merged(paths, n)[j]).canonical_root,
    decreases n,
{
    if n > 0 {
        lemma_merged_distinct(paths, (n - 1) as nat);
        let rest = merged(paths, (n - 1) as nat);
        let all = merged(paths, n);
        assert forall|i: int, j: int| 0 <= i < j < all.len() implies (
        #[trigger] all[i]).canonical_root != (#[trigger] all[j]).canonical_root by {
            assert(all[i] == rest[i]);
            if j < rest.len() {
                assert(all[j] == rest[j]);
            }
        }
    }
}

proof fn lemma_root_pushed(projects: Seq<ProjectView>, p: ProjectView, root: Seq<char>, from: int)
    requires
        0 <= from <= projects.len(),
    ensures
        root_at(projects.push(p), root, from) is None <==> root_at(projects, root, from) is None
            && p.canonical_root != root,
    decreases projects.len() - from,
{
    if from < projects.len() {
        if projects[from].canonical_root != root {
            lemma_root_pushed(projects, p, root, from + 1);
        }
    } else {
        assert(projects.push(p)[from] == p);
        reveal_with_fuel(root_at, 2);
    }
}

impl ServiceStore {
    fn is_marked(&self, name: &str) -> (r: bool)
        ensures
            r == has_marker(self@.markers, name@),
    {
        let ghost all = self@.markers;
        let mut i: usize = 0;
        while i < self.markers.len()
            invariant
                i <= self.markers@.len(),
                all == markers_view(self.markers@),
                forall|k: int| 0 <= k < i ==> (#[trigger] all[k]).name != name@,
            decreases self.markers@.len() - i,
        {
            assert(all[i as int] == self.markers@[i as int]@);
            if same(self.markers[i].name.as_str(), name) {
                assert(all[i as int].name == name@);
                return true;
            }
            i = i + 1;
        }
        false
    }

    /// Registers every entry whose root is not registered; says how many.
    fn add_missing(&mut self, entries: &Vec<SessionPath>, now: &str) -> (r: usize)
        requires
            old(self)@.sound(),
            forall|i: int, j: int|
                0 <= i < j < entries@.len() ==> (#[trigger] paths_view(
                    entries@,
                )[i]).canonical_root != (#[trigger] paths_view(entries@)[j]).canonical_root,
        ensures
            final(self)@.sound(),
            ({
                let fresh = unregistered(
                    old(self)@.projects,
                    paths_view(entries@),
                    entries@.len(),
                );
                let had = old(self)@.projects;
                let after = final(self)@.projects;
                &&& r == fresh.len()
                &&& final(self)@ == (StoreView { projects: after, ..old(self)@ })
                &&& after.len() == had.len() + fresh.len()
                &&& after.take(had.len() as int) == had
                &&& forall|k: int|
                    0 <= k < fresh.len() ==> registered_as(
                        #[trigger] after[had.len() + k],
                        fresh[k],
                        now@,
                    )
            }),
    {
        let ghost had = self@.projects;
        let ghost all = paths_view(entries@);
        let mut imported: usize = 0;
        let mut i: usize = 0;
        assert(had.take(had.len() as int) =~= had);
        while i < entries.len()
            invariant
                self@.sound(),
                i <= entries@.len(),
                imported <= i,
                all == paths_view(entries@),
                had == old(self)@.projects,
                self@ == (StoreView { projects: self@.projects, ..old(self)@ }),
                forall|a: int, b: int|
                    0 <= a < b < all.len() ==> (#[trigger] all[a]).canonical_root != (
                    #[trigger] all[b]).canonical_root,
                imported == unregistered(had, all, i as nat).len(),
                self@.projects.len() == had.len() + imported,
                self@.projects.take(had.len() as int) == had,
                forall|k: int|
                    0 <= k < imported ==> registered_as(
                        #[trigger] self@.projects[had.len() + k],
                        unregistered(had, all, i as nat)[k],
                        now@,
                    ),
                forall|k: int|
                    i <= k < all.len() ==> (root_at(
                        self@.projects,
                        (#[trigger] all[k]).canonical_root,
                        0,
                    ) is None <==> root_at(had, all[k].canonical_root, 0) is None),
            decreases entries@.len() - i,
        {
            let ghost before_add = self@.projects;
            let ghost fresh = unregistered(had, all, i as nat);
            let ghost entry = all[i as int];
            assert(entry == entries@[i as int]@);
            if self.find_root(entries[i].canonical_root.as_str()).is_none() {
                self.add_project(
                    entries[i].canonical_root.as_str(),
                    entries[i].display_path.as_str(),
                    if entries[i].available {
                        ProjectStatus::Registered
                    } else {
                        ProjectStatus::Missing
                    },
                    now,
                );
                imported = imported + 1;
                let ghost p = self@.projects.last();
                proof {
                    assert(self@.projects =~= before_add.push(p));
                    assert(unregistered(had, all, (i + 1) as nat) == fresh.push(entry));
                    assert(self@.projects.take(had.len() as int) =~= before_add.take(
                        had.len() as int,
                    ));
                    assert forall|k: int| 0 <= k < imported implies registered_as(
                        #[trigger] self@.projects[had.len() + k],
                        fresh.push(entry)[k],
                        now@,
                    ) by {
                        if k < fresh.len() {
                            assert(self@.projects[had.len() + k] == before_add[had.len() + k]);
                        }
                    }
                    assert forall|k: int| i + 1 <= k < all.len() implies (root_at(
                        self@.projects,
                        (#[trigger] all[k]).canonical_root,
                        0,
                    ) is None <==> root_at(had, all[k].canonical_root, 0) is None) by {
                        lemma_root_pushed(before_add, p, all[k].canonical_root, 0);
                        assert(all[i as int].canonical_root != all[k].canonical_root);
                    }
                }
            }
            i = i + 1;
        }
        imported
    }

    /// Imports the projects of an earlier session, once: each root once, by its first
    /// spelling; one that is not there is listed as missing; one that is registered
    /// already stays as it is. The mark that it was done comes with it.
    pub fn import_session_projects(
        &mut self,
        session: Option<SessionDoc>,
        source: &str,
        now: &str,
    ) -> (r: SessionImportReport)
        requires
            old(self)@.sound(),
            session matches Some(doc) ==> doc.projects@.len() < usize::MAX,
        ensures
            final(self)@.sound(),
            if has_marker(old(self)@.markers, SESSION_IMPORT_MARKER@) {
                r@ == nothing_imported(SessionImportStatus::AlreadyImported) && final(self)@
                    == old(self)@
            } else {
                match session {
                    None => r@ == nothing_imported(SessionImportStatus::NoSessionFile)
                        && final(self)@ == old(self)@,
                    Some(doc) => {
                        let had = old(self)@.projects;
                        let after = final(self)@.projects;
                        let entries = doc@.entries();
                        let fresh = unregistered(had, entries, entries.len());
                        &&& r@ == import_report(had, doc@)
                        &&& after.len() == had.len() + fresh.len()
                        &&& after.take(had.len() as int) == had
                        &&& forall|k: int|
                            0 <= k < fresh.len() ==> registered_as(
                                #[trigger] after[had.len() + k],
                                fresh[k],
                                now@,
                            )
                        &&& final(self)@.capabilities == old(self)@.capabilities
                        &&& final(self)@.markers == old(self)@.markers.push(
                            import_marker(r@, source@, now@),
                        )
                    },
                }
            },
    {
        if self.is_marked(SESSION_IMPORT_MARKER) {
            return report_nothing(SessionImportStatus::AlreadyImported);
        }
        let doc: SessionDoc = match session {
            Some(doc) => doc,
            None => {
                return report_nothing(SessionImportStatus::NoSessionFile);
            },
        };
        let mut entries: Vec<SessionPath> = merge_paths(&doc.projects);
        let duplicates_skipped: usize = doc.projects.len() - entries.len();
        proof {
            lemma_merged_distinct(doc@.projects, doc@.projects.len());
        }
        let ghost listed = paths_view(entries@);
        let mut foreground: Option<String> = None;
        if let Some(front) = &doc.foreground {
            if front.available && !lists_root(&entries, front.canonical_root.as_str()) {
                entries.push(copy_path(front));
                assert(paths_view(entries@) =~= listed.push(front@));
            }
            assert(paths_view(entries@) == doc@.entries());
            if is_available(&entries, front.canonical_root.as_str()) {
                foreground = Some(front.canonical_root.clone());
            }
        }
        assert(paths_view(entries@) == doc@.entries());
        assert(opt_view(foreground) == doc@.front());
        let missing: usize = count_missing(&entries);
        let imported: usize = self.add_missing(&entries, now);
        let mut f: Vec<(String, Json)> = fields();
        put(&mut f, "source", txt(source));
        put(&mut f, "imported", Json::Unsigned(imported as u64));
        put(&mut f, "duplicates_skipped", Json::Unsigned(duplicates_skipped as u64));
        put(&mut f, "missing", Json::Unsigned(missing as u64));
        put(
            &mut f,
            "foreground",
            match &foreground {
                Some(root) => txt(root.as_str()),
                None => Json::Null,
            },
        );
        let payload: Json = object(f);
        let report: SessionImportReport = SessionImportReport {
            status: SessionImportStatus::Imported,
            imported,
            duplicates_skipped,
            missing,
            foreground,
        };
        proof {
            let expected = JsonView::Object(
                seq![
                    ("source"@, JsonView::Text(source@)),
                    ("imported"@, JsonView::Unsigned(report@.imported)),
                    ("duplicates_skipped"@, JsonView::Unsigned(report@.duplicates_skipped)),
                    ("missing"@, JsonView::Unsigned(report@.missing)),
                    ("foreground"@, opt_text_view(report@.foreground)),
                ],
            );
            assert(payload@->Object_0 =~= expected->Object_0);
        }
        let marker: MarkerRow = MarkerRow {
            name: SESSION_IMPORT_MARKER.to_owned(),
            payload: sorted_json(&payload),
            created_at: now.to_owned(),
        };
        let ghost marks = self@.markers;
        self.markers.push(marker);
        assert(markers_view(self.markers@) =~= marks.push(marker@));
        report
    }
}

/// An import is done once: after it no other import changes anything.
pub proof fn law_import_is_done_once(
    markers: Seq<MarkerView>,
    report: ImportView,
    source: Seq<char>,
    now: Seq<char>,
)
    ensures
        has_marker(markers.push(import_marker(report, source, now)), SESSION_IMPORT_MARKER@),
{
    let after = markers.push(import_marker(report, source, now));
    assert(after[markers.len() as int].name == SESSION_IMPORT_MARKER@);
}

} // verus!
