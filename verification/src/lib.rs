//! Ordo's decisions: a workspace and window navigation daemon, minus the desk
//! it sits on.
//!
//! Every rule of the daemon stands here as a verified function over plain
//! values: which chord a key press is, what a batch of messages becomes, which
//! rows a step leaves in the log, which migration comes next, what the menu bar
//! shows. Reading the desk and acting on it is left to the caller.

pub mod backend;
pub mod cli;
pub mod clock;
pub mod engine;
pub mod keys;
pub mod logger;
pub mod menubar;
pub mod ordered;
pub mod platform;
pub mod ports;
pub mod replay;
pub mod rescue;
pub mod schema;
pub mod statefile;
pub mod text;
pub mod vocab;
