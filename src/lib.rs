//! Pulls a container image's layers apart and lets an operator pick files
//! out of them: the decisions of that workflow, proved against their
//! contracts.

pub mod browse;
pub mod display;
pub mod engine;
pub mod layer;
pub mod listing;
pub mod paths;
pub mod selection;
pub mod search;
pub mod size;
