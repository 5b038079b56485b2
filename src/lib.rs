//! Release graph, policy plugins and the pipeline that runs them.

pub mod strmap;
pub mod graph;
pub mod ratio;
pub mod query;
pub mod plugin;
pub mod rollout;
pub mod fetch;
pub mod pipeline;
pub mod persistence;
pub mod command;
pub mod memtrack;
pub mod channel;
pub mod config;
pub mod settings;
