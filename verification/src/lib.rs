//! Verified core of the MonkeyFence service kernel.

pub mod text;
pub mod json;
pub mod digest;
pub mod handles;
pub mod table;
pub mod secret;
pub mod command;
pub mod canonical;
pub mod lease;
pub mod dispatch;
pub mod operation;
pub mod limits;
pub mod problem;
pub mod projection;
pub mod journal;
pub mod reconcile;
pub mod moment;
pub mod project_registry;
pub mod handoff;
pub mod core_lifecycle;
pub mod feature_gate;
pub mod run_command;
pub mod project_rows;
pub mod authority;
pub mod run_scope;
pub mod run_effects;
pub mod workflow_effects;
pub mod run_actions;
pub mod undelivered;
pub mod run_control;
pub mod kernel;
pub mod cancel_recovery;
pub mod run_dispatch;
pub mod shutdown;
pub mod snapshot;
pub mod legacy_client;
pub mod client_scope;
pub mod workflow_start;
pub mod facade;
pub mod legacy_transport;
pub mod publication;
pub mod saga_laws;
pub mod command_laws;
pub mod event_laws;
pub mod edit_laws;
pub mod run_laws;
pub mod record_laws;
pub mod request_laws;
pub mod token_laws;
