//! Verified core of the dynamic-feed synchronisation: JSON reading,
//! text rendering and the decisions of the sync workflow.

pub mod detail;
pub mod dynamic;
pub mod error;
pub mod json;
pub mod laws;
pub mod loghistory;
pub mod relocate;
pub mod render;
pub mod reply;
pub mod scan;
pub mod stats;
pub mod store;
pub mod text;
pub mod time;
pub mod upper;
pub mod workflow;
