//! Songbook model and build logic.

pub mod text;
pub mod model;
pub mod pattern;
pub mod world;
pub mod paths;
pub mod plan;
pub mod clicks;
pub mod songyml;
pub mod sources;
pub mod inclusion;
pub mod expand;
pub mod time;
pub mod chords;
pub mod numbering;
