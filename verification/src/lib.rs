//! Tagma core: the agent registry, authorization rules, team convergence
//! planning, and the decision logic behind the tagma HTTP routes.
use vstd::prelude::*;

pub mod agents;
pub mod approvals;
pub mod auth;
pub mod budget;
pub mod config;
pub mod context;
pub mod dirlock;
pub mod exec_policy;
pub mod fmt;
pub mod ingest;
pub mod inbox;
pub mod keyed;
pub mod lesche;
pub mod order;
pub mod probe;
pub mod profiles;
pub mod registry;
pub mod relays;
pub mod settings;
pub mod skill_promote;
pub mod text;
pub mod task_watcher;
pub mod tasks;
pub mod team;
pub mod workspace;

verus! {

} // verus!
