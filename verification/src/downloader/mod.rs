//! Downloading media: what to fetch, in which pieces, and where it goes.

pub mod assembly;
pub mod chunks;
pub mod fetch;
pub mod finalize;
pub mod media;
pub mod metadata;
pub mod paths;
pub mod progress;
