//! Search an anime site and list the download links of an episode.

pub mod anime;
pub mod cli;
pub mod error;
pub mod html;
pub mod provider;
pub mod text;
pub mod types;
