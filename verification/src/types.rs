//! The values that a provider hands back: anime, their episodes and qualities.

pub mod anime;
pub mod episode;
pub mod quality;
