//! Lyra: the domain logic of a desktop music player, with its contracts.

pub mod text;
pub mod repeat;
pub mod queue;
pub mod command;
pub mod lyrics;
pub mod model;
pub mod library;
pub mod engine;
pub mod decode;
pub mod ui;
pub mod paths;
pub mod artcache;
pub mod cli;
pub mod decimal;
