//! Why a provider could not answer.

use vstd::prelude::*;

verus! {

/// Why a provider could not answer.
#[derive(Debug, Clone, PartialEq)]
pub enum Error {
    /// A CSS selector was not accepted by the HTML parser.
    Selector,
    /// An iframe of the episode page has no `src` attribute.
    MissingSource,
    /// An iframe source is shorter than the two characters that open it.
    BadSource,
    /// An iframe source does not name a `streaming.php` page.
    NoStreamingPath,
    /// A search result link has no `href` attribute.
    MissingHref,
    /// A search result link has no `-` before its episode number.
    NoNumberSeparator,
    /// A search result link has no `-episode-` part.
    NoEpisodeMarker,
    /// The episode number at the end of a search result link is not a number.
    InvalidEpisodeNumber,
    /// The title cannot be read from a search result link: it needs a `/`
    /// before the last `-episode`.
    NoTitle,
    /// A page could not be fetched; the text says why.
    Request(String),
}

} // verus!
