//! Resource reports for a player of a sharded multiplayer game: inventory replies of the
//! player's rooms are merged into totals per shard and across shards, and laid out as a
//! labeled grid of text for an image.
pub mod text;
pub mod format;
pub mod color;
pub mod totals;
pub mod aggregate;
pub mod catalog;
pub mod report;
