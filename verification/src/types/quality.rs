//! The video quality of an episode link.

use vstd::prelude::*;
use vstd::string::*;

use crate::text::{chars_of, contains_exec, contains_seq};

verus! {

/// The video quality of an episode link. Qualities rank in the order of the
/// variants: `Unknown` lowest, `P1080` highest.
#[derive(Clone, Copy, PartialEq, Eq, Structural, PartialOrd)]
pub enum Quality {
    Unknown,
    P720,
    P360,
    P480,
    P1080,
}

/// The quality that a link's text shows: `1080p` or `HDP` give 1080p, then
/// `720p`, `480p` and `360p` are tried in that order; anything else is unknown.
pub open spec fn quality_of_link(link: Seq<char>) -> Quality {
    if contains_seq(link, "1080p"@) {
        Quality::P1080
    } else if contains_seq(link, "HDP"@) {
        Quality::P1080
    } else if contains_seq(link, "720p"@) {
        Quality::P720
    } else if contains_seq(link, "480p"@) {
        Quality::P480
    } else if contains_seq(link, "360p"@) {
        Quality::P360
    } else {
        Quality::Unknown
    }
}

impl Quality {
    /// The text of the quality: `360p`, `480p`, `720p`, `1080p` or `Unknown`.
    pub open spec fn text(self) -> Seq<char> {
        match self {
            Quality::P360 => "360p"@,
            Quality::P480 => "480p"@,
            Quality::P720 => "720p"@,
            Quality::P1080 => "1080p"@,
            Quality::Unknown => "Unknown"@,
        }
    }

    /// The position of the quality in the ranking, from 0 (`Unknown`) to 4 (`P1080`).
    pub open spec fn spec_rank(self) -> nat {
        match self {
            Quality::Unknown => 0,
            Quality::P720 => 1,
            Quality::P360 => 2,
            Quality::P480 => 3,
            Quality::P1080 => 4,
        }
    }

    /// The text of the quality, as its `Debug` form writes it.
    pub fn to_debug_string(&self) -> (r: String)
        ensures
            r@ == self.text(),
    {
        match self {
            Quality::P360 => String::from_str("360p"),
            Quality::P480 => String::from_str("480p"),
            Quality::P720 => String::from_str("720p"),
            Quality::P1080 => String::from_str("1080p"),
            Quality::Unknown => String::from_str("Unknown"),
        }
    }

    /// The position of the quality in the ranking.
    pub fn rank(&self) -> (r: u8)
        ensures
            r == self.spec_rank(),
    {
        match self {
            Quality::Unknown => 0,
            Quality::P720 => 1,
            Quality::P360 => 2,
            Quality::P480 => 3,
            Quality::P1080 => 4,
        }
    }

    /// The quality that a download link's text shows.
    pub fn from_link(link: &str) -> (q: Quality)
        ensures
            q == quality_of_link(link@),
    {
        let s = chars_of(link);
        if contains_exec(&s, "1080p") {
            Quality::P1080
        } else if contains_exec(&s, "HDP") {
            Quality::P1080
        } else if contains_exec(&s, "720p") {
            Quality::P720
        } else if contains_exec(&s, "480p") {
            Quality::P480
        } else if contains_exec(&s, "360p") {
            Quality::P360
        } else {
            Quality::Unknown
        }
    }
}

/// The quality read from a link is one the link shows: unknown exactly when
/// none of `1080p`, `HDP`, `720p`, `480p`, `360p` occurs in it, and otherwise
/// a quality whose text occurs in the link (or 1080p, from `HDP`).
pub proof fn lemma_quality_shown_by_link(link: Seq<char>)
    ensures
        quality_of_link(link) == Quality::Unknown <==> !(contains_seq(link, "1080p"@)
            || contains_seq(link, "HDP"@) || contains_seq(link, "720p"@) || contains_seq(
            link,
            "480p"@,
        ) || contains_seq(link, "360p"@)),
        quality_of_link(link) != Quality::Unknown ==> contains_seq(
            link,
            quality_of_link(link).text(),
        ) || (quality_of_link(link) == Quality::P1080 && contains_seq(link, "HDP"@)),
{
}

/// A link that shows a single quality gets that quality: when the text of `q`
/// occurs in the link and no other quality's text does (nor `HDP`, unless `q`
/// is 1080p), the link's quality is `q`.
pub proof fn lemma_single_quality_decides(link: Seq<char>, q: Quality)
    requires
        q != Quality::Unknown,
        contains_seq(link, q.text()),
        forall|p: Quality| p != Quality::Unknown && p != q ==> !contains_seq(link, #[trigger] p.text()),
        q != Quality::P1080 ==> !contains_seq(link, "HDP"@),
    ensures
        quality_of_link(link) == q,
{
    assert(Quality::P1080 != q ==> !contains_seq(link, Quality::P1080.text()));
    assert(Quality::P720 != q ==> !contains_seq(link, Quality::P720.text()));
    assert(Quality::P480 != q ==> !contains_seq(link, Quality::P480.text()));
    assert(Quality::P360 != q ==> !contains_seq(link, Quality::P360.text()));
}

} // verus!
