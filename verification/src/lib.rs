//! Discovers buildable projects in a monorepo workspace, infers the
//! front-end framework each project uses, flattens the declared tasks into a
//! deduplicated list of launchable commands, and drives an interactive
//! fuzzy-search selector over that list.

pub mod commands;
pub mod discovery;
pub mod flags;
pub mod frameworks;
pub mod json;
pub mod matcher;
pub mod project;
pub mod scan;
pub mod selector;
pub mod state;
pub mod strings;
