//! Client-side logic for fetching ranked players' best scores: the mod
//! bit-set codec, response classification, ranking pagination and the
//! per-user score collection.

pub mod api;
pub mod chunks;
pub mod collect;
pub mod error;
pub mod mods;
pub mod ranking;
pub mod time;
