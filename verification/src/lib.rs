//! Authorization core of a zero-trust sidecar for AI agents: policy
//! evaluation, scope narrowing for delegation, SSRF protection, secret
//! template substitution, proof ledger and supporting models.
pub mod text;
pub mod actions;
pub mod authorize;
pub mod bridge;
pub mod config;
pub mod control_plane;
pub mod dashboard;
pub mod delegation;
pub mod desktop;
pub mod execute;
pub mod glob_match;
pub mod identity;
pub mod models;
pub mod okta;
pub mod ip;
pub mod paths;
pub mod policy;
pub mod policy_loader;
pub mod policy_signer;
pub mod presets;
pub mod ledger;
pub mod loop_guard;
pub mod mandate;
pub mod secrets;
pub mod service;
pub mod ssrf;
pub mod startup;
pub mod subset;
pub mod webui;
