//! Durable identifiers and target references of the command layer.

use crate::text::{
    before, begins, blank, cat, is_blank, lemma_before_total, lemma_before_transitive, less, same,
    strip_prefix,
};
use vstd::prelude::*;
use vstd::string::*;

verus! {

/// The view of a result, both sides by their own views.
pub open spec fn outcome<T: View, E: View>(r: Result<T, E>) -> Result<T::V, E::V> {
    match r {
        Ok(t) => Ok(t@),
        Err(e) => Err(e@),
    }
}

/// Why a text was not taken for an identifier.
#[derive(Debug)]
pub struct HandleProblem {
    message: String,
}

impl View for HandleProblem {
    type V = Seq<char>;

    closed spec fn view(&self) -> Seq<char> {
        self.message@
    }
}

impl HandleProblem {
    pub fn new(message: &str) -> (r: Self)
        ensures
            r@ == message@,
    {
        HandleProblem { message: message.to_owned() }
    }

    /// What is wrong with the text.
    pub fn message(&self) -> (r: &str)
        ensures
            r@ == self@,
    {
        self.message.as_str()
    }
}

/// What `uuid` reads in a text: the version number and the canonical text of the
/// UUID, or the complaint it answers with.
pub uninterp spec fn uuid_parsed(text: Seq<char>) -> Result<(int, Seq<char>), Seq<char>>;

/// `uuid::Uuid::parse_str`, with the version number and the printed form of what
/// it read. The outcome depends on the text alone, and the printed form of a UUID
/// reads back as itself.
#[verifier::external_body]
fn parse_uuid(text: &str) -> (r: Result<(u8, String), String>)
    ensures
        match r {
            Ok((version, canonical)) => uuid_parsed(text@) == Ok::<(int, Seq<char>), Seq<char>>(
                (version as int, canonical@),
            ) && uuid_parsed(canonical@) == uuid_parsed(text@),
            Err(message) => uuid_parsed(text@) == Err::<(int, Seq<char>), Seq<char>>(message@),
        },
{
    match uuid::Uuid::parse_str(text) {
        Ok(uuid) => Ok((uuid.get_version_num() as u8, uuid.to_string())),
        Err(error) => Err(error.to_string()),
    }
}

/// `uuid::Uuid::now_v7`, printed: a fresh UUID of version 7 in canonical form.
/// Which one it is depends on the clock and on chance, so that no two are alike is left
/// unsaid.
#[verifier::external_body]
fn fresh_uuid() -> (r: String)
    ensures
        uuid_parsed(r@) == Ok::<(int, Seq<char>), Seq<char>>((7, r@)),
{
    uuid::Uuid::now_v7().to_string()
}

/// Whether a text reads as a UUID of version 7.
pub open spec fn is_v7(text: Seq<char>) -> bool {
    uuid_parsed(text) matches Ok((version, _)) && version == 7
}

/// Whether a text is the canonical form of a UUID of version 7.
pub open spec fn is_canonical_v7(text: Seq<char>) -> bool {
    uuid_parsed(text) == Ok::<(int, Seq<char>), Seq<char>>((7, text))
}

/// The canonical text of a version 7 UUID; `complaint` for another version, and
/// the reader's own complaint for a text that is no UUID.
pub open spec fn v7_or(
    parsed: Result<(int, Seq<char>), Seq<char>>,
    complaint: Seq<char>,
) -> Result<Seq<char>, Seq<char>> {
    match parsed {
        Ok((version, canonical)) => if version == 7 {
            Ok(canonical)
        } else {
            Err(complaint)
        },
        Err(message) => Err(message),
    }
}

/// The view of what the UUID reader answered.
pub open spec fn read_view(parsed: Result<(u8, String), String>) -> Result<
    (int, Seq<char>),
    Seq<char>,
> {
    match parsed {
        Ok((version, canonical)) => Ok((version as int, canonical@)),
        Err(message) => Err(message@),
    }
}

/// Takes a version 7 UUID out of what the reader answered.
pub fn require_v7(parsed: Result<(u8, String), String>, complaint: &str) -> (r: Result<
    String,
    HandleProblem,
>)
    ensures
        outcome(r) == v7_or(read_view(parsed), complaint@),
{
    match parsed {
        Ok((version, canonical)) => if version == 7 {
            Ok(canonical)
        } else {
            Err(HandleProblem::new(complaint))
        },
        Err(message) => Err(HandleProblem::new(message.as_str())),
    }
}

/// Reads a UUID of version 7, in its canonical form.
pub fn parse_v7(text: &str, complaint: &str) -> (r: Result<String, HandleProblem>)
    ensures
        outcome(r) == v7_or(uuid_parsed(text@), complaint@),
        r matches Ok(canonical) ==> is_canonical_v7(canonical@) && is_v7(text@),
        r is Err ==> !is_v7(text@),
{
    let parsed = parse_uuid(text);
    require_v7(parsed, complaint)
}

/// A fresh UUID of version 7 behind a prefix.
pub fn fresh_with(prefix: &str) -> (r: String)
    ensures
        begins(prefix@, r@),
        is_canonical_v7(r@.skip(prefix@.len() as int)),
{
    let id: String = fresh_uuid();
    let out: String = cat(prefix, id.as_str());
    assert(out@.subrange(0, prefix@.len() as int) =~= prefix@);
    assert(out@.skip(prefix@.len() as int) =~= id@);
    out
}

/// What a text that has to be a version 7 UUID is refused with.
pub open spec fn handle_complaint(text: Seq<char>) -> Seq<char> {
    "handle 必须是 UUIDv7:"@ + text
}

/// A text that has to be a version 7 UUID, kept as it is given.
pub open spec fn v7_as_given(text: Seq<char>) -> Result<(), Seq<char>> {
    match v7_or(uuid_parsed(text), handle_complaint(text)) {
        Ok(_) => Ok(()),
        Err(message) => Err(message),
    }
}

fn parse_uuidv7(value: &str) -> (r: Result<(), HandleProblem>)
    ensures
        match r {
            Ok(_) => v7_as_given(value@) is Ok && is_v7(value@),
            Err(p) => v7_as_given(value@) == Err::<(), Seq<char>>(p@) && !is_v7(value@),
        },
{
    let complaint: String = cat("handle 必须是 UUIDv7:", value);
    match parse_v7(value, complaint.as_str()) {
        Ok(_) => Ok(()),
        Err(p) => Err(p),
    }
}

/// Identifies one command, across retries and restarts.
#[derive(Debug, PartialEq, Eq, Hash)]
pub struct CommandId {
    text: String,
}

impl View for CommandId {
    type V = Seq<char>;

    closed spec fn view(&self) -> Seq<char> {
        self.text@
    }
}

impl Clone for CommandId {
    fn clone(&self) -> (r: Self)
        ensures
            r == *self,
    {
        proof {
            use_type_invariant(self);
        }
        CommandId { text: self.text.clone() }
    }
}

/// The handle of a project that a text is: `proj_` followed by a UUID of version 7, as it
/// is given.
pub open spec fn project_handle_of(text: Seq<char>) -> Result<Seq<char>, Seq<char>> {
    if !begins("proj_"@, text) {
        Err("Project store handle 必须以 proj_ 开头"@)
    } else {
        match v7_as_given(text.skip("proj_"@.len() as int)) {
            Ok(_) => Ok(text),
            Err(message) => Err(message),
        }
    }
}

/// The handle of a session that a text is: `sess_` followed by a UUID of version 7, as it
/// is given.
pub open spec fn session_handle_of(text: Seq<char>) -> Result<Seq<char>, Seq<char>> {
    if !begins("sess_"@, text) {
        Err("session handle 必须以 sess_ 开头"@)
    } else {
        match v7_as_given(text.skip("sess_"@.len() as int)) {
            Ok(_) => Ok(text),
            Err(message) => Err(message),
        }
    }
}

/// The identifier that a text stands for, in canonical form.
pub open spec fn command_id_of(text: Seq<char>) -> Result<Seq<char>, Seq<char>> {
    v7_or(uuid_parsed(text), "command_id 必须是 UUIDv7"@)
}

impl CommandId {
    #[verifier::type_invariant]
    spec fn wf(self) -> bool {
        is_canonical_v7(self.text@)
    }

    /// The text of this identifier, in canonical form.
    pub fn as_str(&self) -> (r: &str)
        ensures
            r@ == self@,
            is_canonical_v7(self@),
    {
        proof {
            use_type_invariant(self);
        }
        self.text.as_str()
    }

    /// Whether two identifiers are the same.
    pub fn same(&self, other: &Self) -> (r: bool)
        ensures
            r == (self@ == other@),
    {
        same(self.text.as_str(), other.text.as_str())
    }

    /// Reads the identifier; its text is kept in canonical form.
    pub fn parse(value: &str) -> (r: Result<Self, HandleProblem>)
        ensures
            outcome(r) == command_id_of(value@),
    {
        match parse_v7(value, "command_id 必须是 UUIDv7") {
            Ok(text) => Ok(CommandId { text }),
            Err(p) => Err(p),
        }
    }

    /// A fresh identifier.
    pub fn new() -> (r: Self)
        ensures
            is_canonical_v7(r@),
    {
        CommandId { text: fresh_uuid() }
    }
}

impl Default for CommandId {
    /// A fresh identifier.
    fn default() -> (r: Self)
        ensures
            is_canonical_v7(r@),
    {
        Self::new()
    }
}

/// Identifies a connected client.
#[derive(Debug, PartialEq, Eq, Hash)]
pub struct ClientId {
    text: String,
}

impl View for ClientId {
    type V = Seq<char>;

    closed spec fn view(&self) -> Seq<char> {
        self.text@
    }
}

impl Clone for ClientId {
    fn clone(&self) -> (r: Self)
        ensures
            r == *self,
    {
        proof {
            use_type_invariant(self);
        }
        ClientId { text: self.text.clone() }
    }
}

impl ClientId {
    #[verifier::type_invariant]
    spec fn wf(self) -> bool {
        !is_blank(self.text@)
    }

    /// The text of this identifier, never blank.
    pub fn as_str(&self) -> (r: &str)
        ensures
            r@ == self@,
            !is_blank(self@),
    {
        proof {
            use_type_invariant(self);
        }
        self.text.as_str()
    }

    /// Whether two identifiers are the same.
    pub fn same(&self, other: &Self) -> (r: bool)
        ensures
            r == (self@ == other@),
    {
        same(self.text.as_str(), other.text.as_str())
    }

    /// Takes any text that is not blank, as it is given.
    pub fn parse(value: &str) -> (r: Result<Self, HandleProblem>)
        ensures
            outcome(r) == (if is_blank(value@) {
                Err::<Seq<char>, Seq<char>>("client_id 不能为空"@)
            } else {
                Ok(value@)
            }),
    {
        if blank(value) {
            Err(HandleProblem::new("client_id 不能为空"))
        } else {
            Ok(ClientId { text: value.to_owned() })
        }
    }
}

/// Who a client acts for.
#[derive(Debug, PartialEq, Eq, Hash)]
pub struct Principal {
    text: String,
}

impl View for Principal {
    type V = Seq<char>;

    closed spec fn view(&self) -> Seq<char> {
        self.text@
    }
}

impl Clone for Principal {
    fn clone(&self) -> (r: Self)
        ensures
            r == *self,
    {
        proof {
            use_type_invariant(self);
        }
        Principal { text: self.text.clone() }
    }
}

impl Principal {
    #[verifier::type_invariant]
    spec fn wf(self) -> bool {
        !is_blank(self.text@)
    }

    /// The text of this identifier, never blank.
    pub fn as_str(&self) -> (r: &str)
        ensures
            r@ == self@,
            !is_blank(self@),
    {
        proof {
            use_type_invariant(self);
        }
        self.text.as_str()
    }

    /// Whether two identifiers are the same.
    pub fn same(&self, other: &Self) -> (r: bool)
        ensures
            r == (self@ == other@),
    {
        same(self.text.as_str(), other.text.as_str())
    }

    /// Takes any text that is not blank, as it is given.
    pub fn parse(value: &str) -> (r: Result<Self, HandleProblem>)
        ensures
            outcome(r) == (if is_blank(value@) {
                Err::<Seq<char>, Seq<char>>("principal 不能为空"@)
            } else {
                Ok(value@)
            }),
    {
        if blank(value) {
            Err(HandleProblem::new("principal 不能为空"))
        } else {
            Ok(Principal { text: value.to_owned() })
        }
    }
}

/// The durable opaque handle of a project store. It is handed out by the project
/// registry, never reused and never derived from a row or a path.
#[derive(Debug, PartialEq, Eq, Hash)]
pub struct ProjectStoreHandle {
    text: String,
}

impl View for ProjectStoreHandle {
    type V = Seq<char>;

    closed spec fn view(&self) -> Seq<char> {
        self.text@
    }
}

impl Clone for ProjectStoreHandle {
    fn clone(&self) -> (r: Self)
        ensures
            r == *self,
    {
        proof {
            use_type_invariant(self);
        }
        ProjectStoreHandle { text: self.text.clone() }
    }
}

impl ProjectStoreHandle {
    #[verifier::type_invariant]
    spec fn wf(self) -> bool {
        begins("proj_"@, self.text@) && is_v7(self.text@.skip("proj_"@.len() as int))
    }

    /// The text of this identifier, `proj_` and a UUID of version 7.
    pub fn as_str(&self) -> (r: &str)
        ensures
            r@ == self@,
            begins("proj_"@, self@) && is_v7(self@.skip("proj_"@.len() as int)),
    {
        proof {
            use_type_invariant(self);
        }
        self.text.as_str()
    }

    /// Whether two identifiers are the same.
    pub fn same(&self, other: &Self) -> (r: bool)
        ensures
            r == (self@ == other@),
    {
        same(self.text.as_str(), other.text.as_str())
    }

    /// Takes `proj_` followed by a UUID of version 7, as it is given.
    pub fn parse(value: &str) -> (r: Result<Self, HandleProblem>)
        ensures
            outcome(r) == project_handle_of(value@),
    {
        match strip_prefix(value, "proj_") {
            None => Err(HandleProblem::new("Project store handle 必须以 proj_ 开头")),
            Some(rest) => match parse_uuidv7(rest.as_str()) {
                Ok(_) => Ok(ProjectStoreHandle { text: value.to_owned() }),
                Err(p) => Err(p),
            },
        }
    }

    /// A fresh identifier.
    pub fn generate() -> (r: Self)
        ensures
            begins("proj_"@, r@),
            is_canonical_v7(r@.skip("proj_"@.len() as int)),
    {
        ProjectStoreHandle { text: fresh_with("proj_") }
    }
}

/// The durable opaque handle of a project workflow.
#[derive(Debug, PartialEq, Eq, Hash)]
pub struct WorkflowHandle {
    text: String,
}

impl View for WorkflowHandle {
    type V = Seq<char>;

    closed spec fn view(&self) -> Seq<char> {
        self.text@
    }
}

impl Clone for WorkflowHandle {
    fn clone(&self) -> (r: Self)
        ensures
            r == *self,
    {
        proof {
            use_type_invariant(self);
        }
        WorkflowHandle { text: self.text.clone() }
    }
}

impl WorkflowHandle {
    #[verifier::type_invariant]
    spec fn wf(self) -> bool {
        is_v7(self.text@)
    }

    /// The text of this identifier, kept as it was given.
    pub fn as_str(&self) -> (r: &str)
        ensures
            r@ == self@,
            is_v7(self@),
    {
        proof {
            use_type_invariant(self);
        }
        self.text.as_str()
    }

    /// Whether two identifiers are the same.
    pub fn same(&self, other: &Self) -> (r: bool)
        ensures
            r == (self@ == other@),
    {
        same(self.text.as_str(), other.text.as_str())
    }

    /// Takes a UUID of version 7 in any of its spellings, as it is given.
    pub fn parse(value: &str) -> (r: Result<Self, HandleProblem>)
        ensures
            outcome(r) == (match v7_as_given(value@) {
                Ok(_) => Ok::<Seq<char>, Seq<char>>(value@),
                Err(message) => Err(message),
            }),
    {
        match parse_uuidv7(value) {
            Ok(_) => Ok(WorkflowHandle { text: value.to_owned() }),
            Err(p) => Err(p),
        }
    }
}

/// The durable opaque handle of a workflow run.
#[derive(Debug, PartialEq, Eq, Hash)]
pub struct WorkflowRunHandle {
    text: String,
}

impl View for WorkflowRunHandle {
    type V = Seq<char>;

    closed spec fn view(&self) -> Seq<char> {
        self.text@
    }
}

impl Clone for WorkflowRunHandle {
    fn clone(&self) -> (r: Self)
        ensures
            r == *self,
    {
        proof {
            use_type_invariant(self);
        }
        WorkflowRunHandle { text: self.text.clone() }
    }
}

impl WorkflowRunHandle {
    #[verifier::type_invariant]
    spec fn wf(self) -> bool {
        is_v7(self.text@)
    }

    /// The text of this identifier, kept as it was given.
    pub fn as_str(&self) -> (r: &str)
        ensures
            r@ == self@,
            is_v7(self@),
    {
        proof {
            use_type_invariant(self);
        }
        self.text.as_str()
    }

    /// Whether two identifiers are the same.
    pub fn same(&self, other: &Self) -> (r: bool)
        ensures
            r == (self@ == other@),
    {
        same(self.text.as_str(), other.text.as_str())
    }

    /// Takes a UUID of version 7 in any of its spellings, as it is given.
    pub fn parse(value: &str) -> (r: Result<Self, HandleProblem>)
        ensures
            outcome(r) == (match v7_as_given(value@) {
                Ok(_) => Ok::<Seq<char>, Seq<char>>(value@),
                Err(message) => Err(message),
            }),
    {
        match parse_uuidv7(value) {
            Ok(_) => Ok(WorkflowRunHandle { text: value.to_owned() }),
            Err(p) => Err(p),
        }
    }
}

/// The durable opaque handle of a step.
#[derive(Debug, PartialEq, Eq, Hash)]
pub struct StepHandle {
    text: String,
}

impl View for StepHandle {
    type V = Seq<char>;

    closed spec fn view(&self) -> Seq<char> {
        self.text@
    }
}

impl Clone for StepHandle {
    fn clone(&self) -> (r: Self)
        ensures
            r == *self,
    {
        proof {
            use_type_invariant(self);
        }
        StepHandle { text: self.text.clone() }
    }
}

impl StepHandle {
    #[verifier::type_invariant]
    spec fn wf(self) -> bool {
        is_v7(self.text@)
    }

    /// The text of this identifier, kept as it was given.
    pub fn as_str(&self) -> (r: &str)
        ensures
            r@ == self@,
            is_v7(self@),
    {
        proof {
            use_type_invariant(self);
        }
        self.text.as_str()
    }

    /// Whether two identifiers are the same.
    pub fn same(&self, other: &Self) -> (r: bool)
        ensures
            r == (self@ == other@),
    {
        same(self.text.as_str(), other.text.as_str())
    }

    /// Takes a UUID of version 7 in any of its spellings, as it is given.
    pub fn parse(value: &str) -> (r: Result<Self, HandleProblem>)
        ensures
            outcome(r) == (match v7_as_given(value@) {
                Ok(_) => Ok::<Seq<char>, Seq<char>>(value@),
                Err(message) => Err(message),
            }),
    {
        match parse_uuidv7(value) {
            Ok(_) => Ok(StepHandle { text: value.to_owned() }),
            Err(p) => Err(p),
        }
    }
}

/// The durable opaque handle of an agent run.
#[derive(Debug, PartialEq, Eq, Hash)]
pub struct AgentRunHandle {
    text: String,
}

impl View for AgentRunHandle {
    type V = Seq<char>;

    closed spec fn view(&self) -> Seq<char> {
        self.text@
    }
}

impl Clone for AgentRunHandle {
    fn clone(&self) -> (r: Self)
        ensures
            r == *self,
    {
        proof {
            use_type_invariant(self);
        }
        AgentRunHandle { text: self.text.clone() }
    }
}

impl AgentRunHandle {
    #[verifier::type_invariant]
    spec fn wf(self) -> bool {
        is_v7(self.text@)
    }

    /// The text of this identifier, kept as it was given.
    pub fn as_str(&self) -> (r: &str)
        ensures
            r@ == self@,
            is_v7(self@),
    {
        proof {
            use_type_invariant(self);
        }
        self.text.as_str()
    }

    /// Whether two identifiers are the same.
    pub fn same(&self, other: &Self) -> (r: bool)
        ensures
            r == (self@ == other@),
    {
        same(self.text.as_str(), other.text.as_str())
    }

    /// Takes a UUID of version 7 in any of its spellings, as it is given.
    pub fn parse(value: &str) -> (r: Result<Self, HandleProblem>)
        ensures
            outcome(r) == (match v7_as_given(value@) {
                Ok(_) => Ok::<Seq<char>, Seq<char>>(value@),
                Err(message) => Err(message),
            }),
    {
        match parse_uuidv7(value) {
            Ok(_) => Ok(AgentRunHandle { text: value.to_owned() }),
            Err(p) => Err(p),
        }
    }
}

/// The durable opaque handle of an agent session row.
#[derive(Debug, PartialEq, Eq, Hash)]
pub struct AgentSessionHandle {
    text: String,
}

impl View for AgentSessionHandle {
    type V = Seq<char>;

    closed spec fn view(&self) -> Seq<char> {
        self.text@
    }
}

impl Clone for AgentSessionHandle {
    fn clone(&self) -> (r: Self)
        ensures
            r == *self,
    {
        proof {
            use_type_invariant(self);
        }
        AgentSessionHandle { text: self.text.clone() }
    }
}

impl AgentSessionHandle {
    #[verifier::type_invariant]
    spec fn wf(self) -> bool {
        is_v7(self.text@)
    }

    /// The text of this identifier, kept as it was given.
    pub fn as_str(&self) -> (r: &str)
        ensures
            r@ == self@,
            is_v7(self@),
    {
        proof {
            use_type_invariant(self);
        }
        self.text.as_str()
    }

    /// Whether two identifiers are the same.
    pub fn same(&self, other: &Self) -> (r: bool)
        ensures
            r == (self@ == other@),
    {
        same(self.text.as_str(), other.text.as_str())
    }

    /// Takes a UUID of version 7 in any of its spellings, as it is given.
    pub fn parse(value: &str) -> (r: Result<Self, HandleProblem>)
        ensures
            outcome(r) == (match v7_as_given(value@) {
                Ok(_) => Ok::<Seq<char>, Seq<char>>(value@),
                Err(message) => Err(message),
            }),
    {
        match parse_uuidv7(value) {
            Ok(_) => Ok(AgentSessionHandle { text: value.to_owned() }),
            Err(p) => Err(p),
        }
    }
}

/// The opaque handle of a terminal session.
#[derive(Debug, PartialEq, Eq, Hash)]
pub struct SessionHandle {
    text: String,
}

impl View for SessionHandle {
    type V = Seq<char>;

    closed spec fn view(&self) -> Seq<char> {
        self.text@
    }
}

impl Clone for SessionHandle {
    fn clone(&self) -> (r: Self)
        ensures
            r == *self,
    {
        proof {
            use_type_invariant(self);
        }
        SessionHandle { text: self.text.clone() }
    }
}

impl SessionHandle {
    #[verifier::type_invariant]
    spec fn wf(self) -> bool {
        begins("sess_"@, self.text@) && is_v7(self.text@.skip("sess_"@.len() as int))
    }

    /// The text of this identifier, `sess_` and a UUID of version 7.
    pub fn as_str(&self) -> (r: &str)
        ensures
            r@ == self@,
            begins("sess_"@, self@) && is_v7(self@.skip("sess_"@.len() as int)),
    {
        proof {
            use_type_invariant(self);
        }
        self.text.as_str()
    }

    /// Whether two identifiers are the same.
    pub fn same(&self, other: &Self) -> (r: bool)
        ensures
            r == (self@ == other@),
    {
        same(self.text.as_str(), other.text.as_str())
    }

    /// Takes `sess_` followed by a UUID of version 7, as it is given.
    pub fn parse(value: &str) -> (r: Result<Self, HandleProblem>)
        ensures
            outcome(r) == session_handle_of(value@),
    {
        match strip_prefix(value, "sess_") {
            None => Err(HandleProblem::new("session handle 必须以 sess_ 开头")),
            Some(rest) => match parse_uuidv7(rest.as_str()) {
                Ok(_) => Ok(SessionHandle { text: value.to_owned() }),
                Err(p) => Err(p),
            },
        }
    }
}

/// Identifies one running core process; a restart brings a new one.
#[derive(Debug, PartialEq, Eq, Hash)]
pub struct ServerInstanceId {
    text: String,
}

impl View for ServerInstanceId {
    type V = Seq<char>;

    closed spec fn view(&self) -> Seq<char> {
        self.text@
    }
}

impl Clone for ServerInstanceId {
    fn clone(&self) -> (r: Self)
        ensures
            r == *self,
    {
        proof {
            use_type_invariant(self);
        }
        ServerInstanceId { text: self.text.clone() }
    }
}

impl ServerInstanceId {
    #[verifier::type_invariant]
    spec fn wf(self) -> bool {
        is_canonical_v7(self.text@)
    }

    /// The text of this identifier, in canonical form.
    pub fn as_str(&self) -> (r: &str)
        ensures
            r@ == self@,
            is_canonical_v7(self@),
    {
        proof {
            use_type_invariant(self);
        }
        self.text.as_str()
    }

    /// Whether two identifiers are the same.
    pub fn same(&self, other: &Self) -> (r: bool)
        ensures
            r == (self@ == other@),
    {
        same(self.text.as_str(), other.text.as_str())
    }

    /// A fresh identifier.
    pub fn new() -> (r: Self)
        ensures
            is_canonical_v7(r@),
    {
        ServerInstanceId { text: fresh_uuid() }
    }

    /// An identifier that was handed out before, in its canonical text.
    pub fn restore(text: &str) -> (r: Option<Self>)
        ensures
            match r {
                Some(id) => id@ == text@ && is_canonical_v7(text@),
                None => !is_canonical_v7(text@),
            },
    {
        match parse_v7(text, "") {
            Ok(canonical) => if same(canonical.as_str(), text) {
                Some(ServerInstanceId { text: canonical })
            } else {
                None
            },
            Err(_) => None,
        }
    }
}

impl Default for ServerInstanceId {
    /// A fresh identifier.
    fn default() -> (r: Self)
        ensures
            is_canonical_v7(r@),
    {
        Self::new()
    }
}

/// Identifies one generation of the event stream. A client that holds an older
/// one has to take a new snapshot.
#[derive(Debug, PartialEq, Eq, Hash)]
pub struct StreamEpoch {
    text: String,
}

impl View for StreamEpoch {
    type V = Seq<char>;

    closed spec fn view(&self) -> Seq<char> {
        self.text@
    }
}

impl Clone for StreamEpoch {
    fn clone(&self) -> (r: Self)
        ensures
            r == *self,
    {
        proof {
            use_type_invariant(self);
        }
        StreamEpoch { text: self.text.clone() }
    }
}

impl StreamEpoch {
    #[verifier::type_invariant]
    spec fn wf(self) -> bool {
        is_canonical_v7(self.text@)
    }

    /// The text of this identifier, in canonical form.
    pub fn as_str(&self) -> (r: &str)
        ensures
            r@ == self@,
            is_canonical_v7(self@),
    {
        proof {
            use_type_invariant(self);
        }
        self.text.as_str()
    }

    /// Whether two identifiers are the same.
    pub fn same(&self, other: &Self) -> (r: bool)
        ensures
            r == (self@ == other@),
    {
        same(self.text.as_str(), other.text.as_str())
    }

    /// A fresh identifier.
    pub fn new() -> (r: Self)
        ensures
            is_canonical_v7(r@),
    {
        StreamEpoch { text: fresh_uuid() }
    }

    /// An identifier that was handed out before, in its canonical text.
    pub fn restore(text: &str) -> (r: Option<Self>)
        ensures
            match r {
                Some(id) => id@ == text@ && is_canonical_v7(text@),
                None => !is_canonical_v7(text@),
            },
    {
        match parse_v7(text, "") {
            Ok(canonical) => if same(canonical.as_str(), text) {
                Some(StreamEpoch { text: canonical })
            } else {
                None
            },
            Err(_) => None,
        }
    }
}

impl Default for StreamEpoch {
    /// A fresh identifier.
    fn default() -> (r: Self)
        ensures
            is_canonical_v7(r@),
    {
        Self::new()
    }
}

/// Which store a command writes to.
#[derive(Debug, Clone, Copy, PartialEq, Eq, Hash, Structural)]
pub enum TargetStoreKind {
    Project,
    Catalog,
}

impl TargetStoreKind {
    pub open spec fn name(self) -> Seq<char> {
        match self {
            TargetStoreKind::Project => "project"@,
            TargetStoreKind::Catalog => "catalog"@,
        }
    }

    pub fn as_str(self) -> (r: &'static str)
        ensures
            r@ == self.name(),
    {
        match self {
            TargetStoreKind::Project => "project",
            TargetStoreKind::Catalog => "catalog",
        }
    }
}

/// The kind of an aggregate.
#[derive(Debug, Clone, Copy, PartialEq, Eq, Hash, Structural)]
pub enum AggregateKind {
    Project,
    ProjectWorkflow,
    WorkflowRun,
    Step,
    AgentRun,
    AgentSession,
    AgentInstance,
    ProviderProfile,
    Installation,
    RootState,
}

impl AggregateKind {
    pub open spec fn name(self) -> Seq<char> {
        match self {
            AggregateKind::Project => "project"@,
            AggregateKind::ProjectWorkflow => "project_workflow"@,
            AggregateKind::WorkflowRun => "workflow_run"@,
            AggregateKind::Step => "step"@,
            AggregateKind::AgentRun => "agent_run"@,
            AggregateKind::AgentSession => "agent_session"@,
            AggregateKind::AgentInstance => "agent_instance"@,
            AggregateKind::ProviderProfile => "provider_profile"@,
            AggregateKind::Installation => "installation"@,
            AggregateKind::RootState => "root_state"@,
        }
    }

    pub fn as_str(self) -> (r: &'static str)
        ensures
            r@ == self.name(),
    {
        match self {
            AggregateKind::Project => "project",
            AggregateKind::ProjectWorkflow => "project_workflow",
            AggregateKind::WorkflowRun => "workflow_run",
            AggregateKind::Step => "step",
            AggregateKind::AgentRun => "agent_run",
            AggregateKind::AgentSession => "agent_session",
            AggregateKind::AgentInstance => "agent_instance",
            AggregateKind::ProviderProfile => "provider_profile",
            AggregateKind::Installation => "installation",
            AggregateKind::RootState => "root_state",
        }
    }

    /// The kind of that name.
    pub open spec fn named(name: Seq<char>) -> Option<AggregateKind> {
        if name == "project"@ {
            Some(AggregateKind::Project)
        } else if name == "project_workflow"@ {
            Some(AggregateKind::ProjectWorkflow)
        } else if name == "workflow_run"@ {
            Some(AggregateKind::WorkflowRun)
        } else if name == "step"@ {
            Some(AggregateKind::Step)
        } else if name == "agent_run"@ {
            Some(AggregateKind::AgentRun)
        } else if name == "agent_session"@ {
            Some(AggregateKind::AgentSession)
        } else if name == "agent_instance"@ {
            Some(AggregateKind::AgentInstance)
        } else if name == "provider_profile"@ {
            Some(AggregateKind::ProviderProfile)
        } else if name == "installation"@ {
            Some(AggregateKind::Installation)
        } else if name == "root_state"@ {
            Some(AggregateKind::RootState)
        } else {
            None
        }
    }

    /// The kind of that name.
    pub fn from_name(name: &str) -> (r: Option<AggregateKind>)
        ensures
            r == AggregateKind::named(name@),
    {
        if same(name, "project") {
            Some(AggregateKind::Project)
        } else if same(name, "project_workflow") {
            Some(AggregateKind::ProjectWorkflow)
        } else if same(name, "workflow_run") {
            Some(AggregateKind::WorkflowRun)
        } else if same(name, "step") {
            Some(AggregateKind::Step)
        } else if same(name, "agent_run") {
            Some(AggregateKind::AgentRun)
        } else if same(name, "agent_session") {
            Some(AggregateKind::AgentSession)
        } else if same(name, "agent_instance") {
            Some(AggregateKind::AgentInstance)
        } else if same(name, "provider_profile") {
            Some(AggregateKind::ProviderProfile)
        } else if same(name, "installation") {
            Some(AggregateKind::Installation)
        } else if same(name, "root_state") {
            Some(AggregateKind::RootState)
        } else {
            None
        }
    }
}

/// A reference to an aggregate, as a value.
pub ghost struct AggregateView {
    pub kind: AggregateKind,
    pub handle: Seq<char>,
}

/// A reference to an aggregate.
#[derive(Debug, PartialEq, Eq, Hash)]
pub struct AggregateRef {
    pub kind: AggregateKind,
    pub handle: String,
}

impl View for AggregateRef {
    type V = AggregateView;

    open spec fn view(&self) -> AggregateView {
        AggregateView { kind: self.kind, handle: self.handle@ }
    }
}

impl Clone for AggregateRef {
    fn clone(&self) -> (r: Self)
        ensures
            r == *self,
    {
        AggregateRef { kind: self.kind, handle: self.handle.clone() }
    }
}

impl AggregateRef {
    /// A reference to the aggregate of that kind and handle; the handle must not
    /// be blank.
    pub fn new(kind: AggregateKind, handle: &str) -> (r: Result<Self, HandleProblem>)
        ensures
            outcome(r) == (if is_blank(handle@) {
                Err::<AggregateView, Seq<char>>("aggregate handle 不能为空"@)
            } else {
                Ok(AggregateView { kind, handle: handle@ })
            }),
    {
        if blank(handle) {
            Err(HandleProblem::new("aggregate handle 不能为空"))
        } else {
            Ok(AggregateRef { kind, handle: handle.to_owned() })
        }
    }

    /// Whether two references name the same aggregate.
    pub fn same(&self, other: &AggregateRef) -> (r: bool)
        ensures
            r == (self@ == other@),
    {
        self.kind == other.kind && same(self.handle.as_str(), other.handle.as_str())
    }
}

/// A command's target, as a value.
pub ghost struct TargetView {
    pub store: TargetStoreKind,
    pub store_handle: Seq<char>,
    pub aggregate: AggregateView,
}

impl TargetView {
    /// The key of the store: `project:` and the handle, or `catalog`.
    pub open spec fn store_key(self) -> Seq<char> {
        match self.store {
            TargetStoreKind::Project => "project:"@ + self.store_handle,
            TargetStoreKind::Catalog => "catalog"@,
        }
    }

    /// The key of the aggregate within all stores.
    pub open spec fn stable_key(self) -> Seq<char> {
        self.store_key() + ":"@ + self.aggregate.kind.name() + "/"@ + self.aggregate.handle
    }
}

/// What a command writes to. A project's store handle is its `proj_` handle; the
/// catalog's is `catalog`.
#[derive(Debug, PartialEq, Eq, Hash)]
pub struct CommandTarget {
    pub store: TargetStoreKind,
    pub store_handle: String,
    pub aggregate: AggregateRef,
}

impl View for CommandTarget {
    type V = TargetView;

    open spec fn view(&self) -> TargetView {
        TargetView {
            store: self.store,
            store_handle: self.store_handle@,
            aggregate: self.aggregate@,
        }
    }
}

impl Clone for CommandTarget {
    fn clone(&self) -> (r: Self)
        ensures
            r == *self,
    {
        CommandTarget {
            store: self.store,
            store_handle: self.store_handle.clone(),
            aggregate: self.aggregate.clone(),
        }
    }
}

impl CommandTarget {
    /// The key of the store: `project:` and the handle, or `catalog`.
    pub fn store_key(&self) -> (r: String)
        ensures
            r@ == self@.store_key(),
    {
        match self.store {
            TargetStoreKind::Project => cat("project:", self.store_handle.as_str()),
            TargetStoreKind::Catalog => "catalog".to_owned(),
        }
    }

    /// The key of the aggregate within all stores.
    pub fn stable_key(&self) -> (r: String)
        ensures
            r@ == self@.stable_key(),
    {
        let mut out: String = self.store_key();
        out.append(":");
        out.append(self.aggregate.kind.as_str());
        out.append("/");
        out.append(self.aggregate.handle.as_str());
        out
    }
}

/// The revisions a command expects of one aggregate, as a value.
pub ghost struct ExpectedView {
    pub aggregate: AggregateView,
    pub revisions: Seq<(Seq<char>, nat)>,
}

/// The revisions of a list, axis by axis.
pub open spec fn axes(v: Seq<(String, u64)>) -> Seq<(Seq<char>, nat)> {
    v.map_values(|a: (String, u64)| (a.0@, a.1 as nat))
}

/// Whether axes stand in the order of their names, each of them once.
pub open spec fn in_axis_order(v: Seq<(Seq<char>, nat)>) -> bool {
    forall|i: int, j: int| 0 <= i < j < v.len() ==> before((#[trigger] v[i]).0, (#[trigger] v[j]).0)
}

/// The revision on an axis, if there is one.
pub open spec fn revision_on_axis(v: Seq<(Seq<char>, nat)>, axis: Seq<char>) -> Option<nat>
    decreases v.len(),
{
    if v.len() == 0 {
        None
    } else if v.last().0 == axis {
        Some(v.last().1)
    } else {
        revision_on_axis(v.drop_last(), axis)
    }
}

/// The revisions a command expects of one aggregate: for each named axis the
/// revision the client saw last, in the order of the axes' names.
#[derive(Debug, PartialEq, Eq)]
pub struct ExpectedRevision {
    aggregate: AggregateRef,
    revisions: Vec<(String, u64)>,
}

impl View for ExpectedRevision {
    type V = ExpectedView;

    closed spec fn view(&self) -> ExpectedView {
        ExpectedView { aggregate: self.aggregate@, revisions: axes(self.revisions@) }
    }
}

/// The views of a list of expectations.
pub open spec fn expectations(v: Seq<ExpectedRevision>) -> Seq<ExpectedView> {
    v.map_values(|e: ExpectedRevision| e@)
}

impl ExpectedRevision {
    /// The invariant: the axes stand in the order of their names, each of them once.
    #[verifier::type_invariant]
    spec fn ordered(self) -> bool {
        in_axis_order(axes(self.revisions@))
    }

    /// An expectation of nothing yet.
    pub fn new(aggregate: AggregateRef) -> (r: Self)
        ensures
            r@ == (ExpectedView { aggregate: aggregate@, revisions: seq![] }),
    {
        let r: ExpectedRevision = ExpectedRevision { aggregate, revisions: Vec::new() };
        assert(r@.revisions =~= seq![]);
        r
    }

    /// The revisions, in the order of the axes' names.
    pub fn revisions(&self) -> (r: &Vec<(String, u64)>)
        ensures
            axes(r@) == self@.revisions,
            in_axis_order(self@.revisions),
    {
        proof {
            use_type_invariant(self);
        }
        &self.revisions
    }

    /// The aggregate of which they are expected.
    pub fn aggregate(&self) -> (r: &AggregateRef)
        ensures
            r@ == self@.aggregate,
    {
        &self.aggregate
    }

    /// Expects a revision on an axis, in place of one that was expected there.
    pub fn expect(&mut self, axis: &str, revision: u64)
        ensures
            final(self)@.aggregate == old(self)@.aggregate,
            in_axis_order(final(self)@.revisions),
            forall|a: Seq<char>| #[trigger]
                revision_on_axis(final(self)@.revisions, a) == (if a == axis@ {
                    Some(revision as nat)
                } else {
                    revision_on_axis(old(self)@.revisions, a)
                }),
    {
        proof {
            use_type_invariant(&*self);
        }
        let ghost had = axes(self.revisions@);
        let mut i: usize = 0;
        while i < self.revisions.len() && less(self.revisions[i].0.as_str(), axis)
            invariant
                i <= self.revisions@.len(),
                had == axes(self.revisions@),
                in_axis_order(had),
                forall|k: int| 0 <= k < i ==> before((#[trigger] had[k]).0, axis@),
            decreases self.revisions@.len() - i,
        {
            assert(had[i as int].0 == self.revisions@[i as int].0@);
            i = i + 1;
        }
        if i < self.revisions.len() {
            assert(had[i as int].0 == self.revisions@[i as int].0@);
        }
        if i < self.revisions.len() && same(self.revisions[i].0.as_str(), axis) {
            let mut revisions: Vec<(String, u64)> = copy_axes(&self.revisions);
            revisions.set(i, (axis.to_owned(), revision));
            assert(axes(revisions@) =~= had.update(i as int, (axis@, revision as nat)));
            proof {
                lemma_axis_set(had, i as int, axis@, revision as nat);
            }
            self.revisions = revisions;
        } else {
            let mut revisions: Vec<(String, u64)> = copy_axes(&self.revisions);
            revisions.insert(i, (axis.to_owned(), revision));
            assert(axes(revisions@) =~= had.insert(i as int, (axis@, revision as nat)));
            proof {
                if i < had.len() {
                    lemma_before_total(had[i as int].0, axis@);
                }
                lemma_axis_added(had, i as int, axis@, revision as nat);
            }
            self.revisions = revisions;
        }
    }

    /// The expectation of one revision on one axis.
    pub fn one(aggregate: AggregateRef, axis: &str, revision: u64) -> (r: Self)
        ensures
            r@ == (ExpectedView {
                aggregate: aggregate@,
                revisions: seq![(axis@, revision as nat)],
            }),
    {
        let mut revisions: Vec<(String, u64)> = Vec::new();
        revisions.push((axis.to_owned(), revision));
        assert(axes(revisions@) =~= seq![(axis@, revision as nat)]);
        ExpectedRevision { aggregate, revisions }
    }

    /// The expectation of two revisions, on axes in order.
    pub fn two(
        aggregate: AggregateRef,
        first: &str,
        first_revision: u64,
        second: &str,
        second_revision: u64,
    ) -> (r: Self)
        requires
            before(first@, second@),
        ensures
            r@ == (ExpectedView {
                aggregate: aggregate@,
                revisions: seq![(first@, first_revision as nat), (second@, second_revision as nat)],
            }),
    {
        let mut revisions: Vec<(String, u64)> = Vec::new();
        revisions.push((first.to_owned(), first_revision));
        revisions.push((second.to_owned(), second_revision));
        assert(axes(revisions@) =~= seq![
            (first@, first_revision as nat),
            (second@, second_revision as nat),
        ]);
        ExpectedRevision { aggregate, revisions }
    }
}

fn copy_axes(v: &Vec<(String, u64)>) -> (r: Vec<(String, u64)>)
    ensures
        r@ == v@,
{
    let mut revisions: Vec<(String, u64)> = Vec::new();
    let mut i: usize = 0;
    while i < v.len()
        invariant
            i <= v@.len(),
            revisions@ == v@.take(i as int),
        decreases v@.len() - i,
    {
        revisions.push((v[i].0.clone(), v[i].1));
        i = i + 1;
    }
    assert(v@.take(v@.len() as int) =~= v@);
    revisions
}

impl Clone for ExpectedRevision {
    fn clone(&self) -> (r: Self)
        ensures
            r@ == self@,
    {
        proof {
            use_type_invariant(self);
        }
        ExpectedRevision {
            aggregate: self.aggregate.clone(),
            revisions: copy_axes(&self.revisions),
        }
    }
}

proof fn lemma_axis_found(v: Seq<(Seq<char>, nat)>, axis: Seq<char>, at: int)
    requires
        in_axis_order(v),
        0 <= at < v.len(),
        v[at].0 == axis,
    ensures
        revision_on_axis(v, axis) == Some(v[at].1),
    decreases v.len(),
{
    if at < v.len() - 1 {
        lemma_before_total(axis, axis);
        assert(before(v[at].0, v[v.len() - 1].0));
        let rest = v.drop_last();
        assert forall|i: int, j: int| 0 <= i < j < rest.len() implies before(
            (#[trigger] rest[i]).0,
            (#[trigger] rest[j]).0,
        ) by {
            assert(before(v[i].0, v[j].0));
        }
        lemma_axis_found(rest, axis, at);
    }
}

proof fn lemma_axis_absent(v: Seq<(Seq<char>, nat)>, axis: Seq<char>)
    requires
        forall|k: int| 0 <= k < v.len() ==> (#[trigger] v[k]).0 != axis,
    ensures
        revision_on_axis(v, axis) is None,
    decreases v.len(),
{
    if v.len() > 0 {
        assert(v[v.len() - 1].0 != axis);
        let rest = v.drop_last();
        assert forall|k: int| 0 <= k < rest.len() implies (#[trigger] rest[k]).0 != axis by {
            assert(v[k].0 != axis);
        }
        lemma_axis_absent(rest, axis);
    }
}

proof fn lemma_axis_set(v: Seq<(Seq<char>, nat)>, at: int, axis: Seq<char>, n: nat)
    requires
        in_axis_order(v),
        0 <= at < v.len(),
        v[at].0 == axis,
    ensures
        in_axis_order(v.update(at, (axis, n))),
        forall|a: Seq<char>| #[trigger]
            revision_on_axis(v.update(at, (axis, n)), a) == (if a == axis {
                Some(n)
            } else {
                revision_on_axis(v, a)
            }),
{
    let w = v.update(at, (axis, n));
    assert forall|i: int, j: int| 0 <= i < j < w.len() implies before(
        (#[trigger] w[i]).0,
        (#[trigger] w[j]).0,
    ) by {
        assert(w[i].0 == v[i].0 && w[j].0 == v[j].0);
        assert(before(v[i].0, v[j].0));
    }
    assert forall|a: Seq<char>| #[trigger] revision_on_axis(w, a) == (if a == axis {
        Some(n)
    } else {
        revision_on_axis(v, a)
    }) by {
        if a == axis {
            lemma_axis_found(w, a, at);
        } else if exists|k: int| 0 <= k < v.len() && (#[trigger] v[k]).0 == a {
            let k = choose|k: int| 0 <= k < v.len() && (#[trigger] v[k]).0 == a;
            assert(w[k] == v[k]);
            lemma_axis_found(v, a, k);
            lemma_axis_found(w, a, k);
        } else {
            assert forall|k: int| 0 <= k < w.len() implies (#[trigger] w[k]).0 != a by {
                assert(w[k].0 == v[k].0);
            }
            lemma_axis_absent(v, a);
            lemma_axis_absent(w, a);
        }
    }
}

proof fn lemma_axis_added(v: Seq<(Seq<char>, nat)>, at: int, axis: Seq<char>, n: nat)
    requires
        in_axis_order(v),
        0 <= at <= v.len(),
        forall|k: int| 0 <= k < at ==> before((#[trigger] v[k]).0, axis),
        at < v.len() ==> before(axis, v[at].0),
    ensures
        in_axis_order(v.insert(at, (axis, n))),
        forall|a: Seq<char>| #[trigger]
            revision_on_axis(v.insert(at, (axis, n)), a) == (if a == axis {
                Some(n)
            } else {
                revision_on_axis(v, a)
            }),
{
    let w = v.insert(at, (axis, n));
    assert forall|k: int| at <= k < v.len() implies before(axis, (#[trigger] v[k]).0) by {
        if k > at {
            assert(before(v[at].0, v[k].0));
            lemma_before_transitive(axis, v[at].0, v[k].0);
        }
    }
    assert forall|i: int, j: int| 0 <= i < j < w.len() implies before(
        (#[trigger] w[i]).0,
        (#[trigger] w[j]).0,
    ) by {
        if i < at {
            assert(w[i] == v[i]);
            if j < at {
                assert(w[j] == v[j]);
            } else if j > at {
                assert(w[j] == v[j - 1]);
                assert(before(v[i].0, v[j - 1].0));
            }
        } else if i == at {
            assert(w[j] == v[j - 1]);
        } else {
            assert(w[i] == v[i - 1] && w[j] == v[j - 1]);
        }
    }
    assert forall|a: Seq<char>| #[trigger] revision_on_axis(w, a) == (if a == axis {
        Some(n)
    } else {
        revision_on_axis(v, a)
    }) by {
        if a == axis {
            assert(w[at].0 == a);
            lemma_axis_found(w, a, at);
        } else if exists|k: int| 0 <= k < v.len() && (#[trigger] v[k]).0 == a {
            let k = choose|k: int| 0 <= k < v.len() && (#[trigger] v[k]).0 == a;
            let m = if k < at {
                k
            } else {
                k + 1
            };
            assert(w[m] == v[k]);
            lemma_axis_found(v, a, k);
            lemma_axis_found(w, a, m);
        } else {
            assert forall|k: int| 0 <= k < w.len() implies (#[trigger] w[k]).0 != a by {
                if k < at {
                    assert(w[k] == v[k]);
                } else if k > at {
                    assert(w[k] == v[k - 1]);
                }
            }
            lemma_axis_absent(v, a);
            lemma_axis_absent(w, a);
        }
    }
}

/// What a command expects of an aggregate depends on which revision is expected on which
/// axis alone, not on the order in which they were named.
pub proof fn law_expectations_are_a_map(a: ExpectedRevision, b: ExpectedRevision)
    requires
        a@.aggregate == b@.aggregate,
        in_axis_order(a@.revisions),
        in_axis_order(b@.revisions),
        forall|axis: Seq<char>| #[trigger]
            revision_on_axis(a@.revisions, axis) == revision_on_axis(b@.revisions, axis),
    ensures
        a@ == b@,
{
    lemma_same_axes(a@.revisions, b@.revisions);
}

proof fn lemma_same_axes(a: Seq<(Seq<char>, nat)>, b: Seq<(Seq<char>, nat)>)
    requires
        in_axis_order(a),
        in_axis_order(b),
        forall|axis: Seq<char>| #[trigger] revision_on_axis(a, axis) == revision_on_axis(b, axis),
    ensures
        a == b,
    decreases a.len(),
{
    if a.len() == 0 {
        if b.len() > 0 {
            lemma_axis_found(b, b.last().0, b.len() - 1);
            assert(revision_on_axis(a, b.last().0) is None);
        }
        assert(a =~= b);
    } else {
        lemma_axis_found(a, a.last().0, a.len() - 1);
        if b.len() == 0 {
            assert(revision_on_axis(b, a.last().0) is None);
        } else {
            lemma_axis_found(b, b.last().0, b.len() - 1);
            lemma_axis_is_there(b, a.last().0);
            lemma_axis_is_there(a, b.last().0);
            let i = choose|i: int| 0 <= i < b.len() && (#[trigger] b[i]).0 == a.last().0;
            let j = choose|j: int| 0 <= j < a.len() && (#[trigger] a[j]).0 == b.last().0;
            if a.last().0 != b.last().0 {
                assert(before(b[i].0, b[b.len() - 1].0));
                assert(before(a[j].0, a[a.len() - 1].0));
                lemma_before_transitive(a.last().0, b.last().0, a.last().0);
                lemma_before_total(a.last().0, a.last().0);
            }
            let x = a.drop_last();
            let y = b.drop_last();
            let last = a.last().0;
            assert forall|k: int| 0 <= k < x.len() implies (#[trigger] x[k]).0 != last by {
                assert(before(a[k].0, a[a.len() - 1].0));
                lemma_before_total(last, last);
            }
            assert forall|k: int| 0 <= k < y.len() implies (#[trigger] y[k]).0 != last by {
                assert(before(b[k].0, b[b.len() - 1].0));
                lemma_before_total(last, last);
            }
            assert forall|axis: Seq<char>| #[trigger]
                revision_on_axis(x, axis) == revision_on_axis(y, axis) by {
                assert(revision_on_axis(a, axis) == revision_on_axis(b, axis));
                if axis == last {
                    lemma_axis_absent(x, last);
                    lemma_axis_absent(y, last);
                }
            }
            assert forall|i: int, j: int| 0 <= i < j < x.len() implies before(
                (#[trigger] x[i]).0,
                (#[trigger] x[j]).0,
            ) by {
                assert(before(a[i].0, a[j].0));
            }
            assert forall|i: int, j: int| 0 <= i < j < y.len() implies before(
                (#[trigger] y[i]).0,
                (#[trigger] y[j]).0,
            ) by {
                assert(before(b[i].0, b[j].0));
            }
            lemma_same_axes(x, y);
            assert(a =~= x.push(a.last()));
            assert(b =~= y.push(b.last()));
        }
    }
}

proof fn lemma_axis_is_there(v: Seq<(Seq<char>, nat)>, axis: Seq<char>)
    requires
        revision_on_axis(v, axis) is Some,
    ensures
        exists|k: int| 0 <= k < v.len() && (#[trigger] v[k]).0 == axis,
    decreases v.len(),
{
    if v.last().0 == axis {
        assert(v[v.len() - 1].0 == axis);
    } else {
        lemma_axis_is_there(v.drop_last(), axis);
        let k = choose|k: int| 0 <= k < v.len() - 1 && (#[trigger] v.drop_last()[k]).0 == axis;
        assert(v[k].0 == axis);
    }
}

} // verus!
