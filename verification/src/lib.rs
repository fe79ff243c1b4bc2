//! A week's meal planner: a small in-memory store of meal entries keyed by
//! (meal type, day), a resolver that places weekday symbols on the calendar,
//! a round-trippable structured storage form, and one-way document and
//! calendar renderings. Every function is verified against its contract;
//! file handling and prompts live with the surrounding tool, not here.

pub mod cli;
pub mod config;
pub mod date;
pub mod errors;
pub mod ical;
pub mod json;
pub mod markdown;
pub mod model;
pub mod nums;
pub mod resolver;
pub mod text;
pub mod workflow;
