//! Resolution of application launcher entries and the decisions around
//! launching the one a user picks.

pub mod text;
pub mod entry;
pub mod error;
pub mod dirs;
pub mod registry;
pub mod listing;
pub mod launch;
