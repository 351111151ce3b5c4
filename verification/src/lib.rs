//! Attention triage for pull requests: the data model, the novelty detector,
//! the scoring and categorisation engine, the cache table, the refresh
//! pipeline and the interaction state machine of the dashboard.

pub mod text;
pub mod model;
pub mod db;
pub mod demo;
pub mod refresh;
pub mod tui;
pub mod notify;
pub mod config;
pub mod timeutil;
pub mod github;
