//! The verified core of the Medulla terminal UI: the Agents rail and its
//! identity-keyed cursor, the tree of hosts, agents and sessions it lists, the
//! workspace launcher's ranking, the login and waitlist screens' state
//! machines, the worker specs a host advertises, the workflow step preview,
//! and the small models those pieces read.

pub mod text;
pub mod sort;
pub mod rail;
pub mod fold;
pub mod rail_hit;
pub mod workspace;
pub mod login;
pub mod status_line;
pub mod path_display;
pub mod cli;
pub mod waitlist;
pub mod declarations;
pub mod node_preview;
pub mod memory_keys;
pub mod footer;
pub mod run_preview;
pub mod narration;
pub mod task_sources;
pub mod startup;
pub mod memory_view;
pub mod bounties;
