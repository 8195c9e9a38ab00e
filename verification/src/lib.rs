//! Verified core of a pane-switching plugin: the list of tracked panes, its
//! reconciliation against the live pane manifest, fuzzy search, selection,
//! persistence bookkeeping and the recency tracker.

pub mod find;
pub mod fuzzy;
pub mod laws;
pub mod model;
pub mod panes;
pub mod paths;
pub mod persistence;
pub mod sort;
pub mod state;
pub mod text;
pub mod timestamps;
pub mod unique;
pub mod worker;
