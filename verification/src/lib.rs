//! Verified core of a container manager front end: status presentation,
//! action tables, ANSI log rendering and container-creation settings.

pub mod actions;
pub mod commit;
pub mod containers;
pub mod creation;
pub mod files;
pub mod log;
pub mod markup;
pub mod markup_tags;
pub mod parse;
pub mod processes;
pub mod properties;
pub mod rename;
pub mod stats;
pub mod status;
pub mod term;
pub mod text;
pub mod tty;
