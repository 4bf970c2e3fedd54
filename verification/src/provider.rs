//! What every anime site provider offers.

pub mod gogoplay;

pub use gogoplay::GoGoPlay;

use vstd::prelude::*;

use crate::error::Error;
use crate::types::anime::Anime;

verus! {

/// Is core of all providers, it's required to implement for all providers.
pub trait Provider {
    /// Returns anime episode's url for video.
    fn anime_episode(&self, anime: Anime, episode: u32) -> Result<Anime, Error>;

    /// String search anime, for ex. Bleach "should" return one for Bleach and all movies and ovas.
    fn search_anime(&self, what: &str) -> Result<Vec<Anime>, Error>;
}

} // verus!
