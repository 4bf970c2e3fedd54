//! One download link of an episode, with its quality.

use vstd::prelude::*;
use vstd::string::*;

use crate::text::{debug_quoted, str_debug};
use crate::types::quality::{quality_of_link, Quality};

verus! {

/// One download link of an episode, with its quality.
#[derive(Clone, PartialEq)]
pub struct Episode {
    pub url: String,
    pub quality: Quality,
}

/// The plain value of an [`Episode`].
pub struct EpisodeView {
    pub url: Seq<char>,
    pub quality: Quality,
}

impl View for Episode {
    type V = EpisodeView;

    open spec fn view(&self) -> EpisodeView {
        EpisodeView { url: self.url@, quality: self.quality }
    }
}

impl EpisodeView {
    /// The `Debug` form of an episode: the quality, a colon, and the quoted url.
    pub open spec fn debug_text(self) -> Seq<char> {
        self.quality.text() + ": "@ + str_debug(self.url)
    }
}

/// The episode that a download link gives: the link with the quality its text shows.
pub open spec fn episode_of_link(link: Seq<char>) -> EpisodeView {
    EpisodeView { url: link, quality: quality_of_link(link) }
}

impl Episode {
    /// The episode of a download link, its quality read from the link's text.
    pub fn from_link(link: &String) -> (e: Episode)
        ensures
            e@ == episode_of_link(link@),
    {
        let quality = Quality::from_link(link.as_str());
        Episode { url: link.clone(), quality }
    }

    /// The `Debug` form: `1080p: "https://..."`.
    pub fn to_debug_string(&self) -> (r: String)
        ensures
            r@ == self@.debug_text(),
    {
        let mut r = self.quality.to_debug_string();
        r.append(": ");
        let quoted = debug_quoted(self.url.as_str());
        r.append(quoted.as_str());
        r
    }
}

/// The episodes of download links: one per link, in order.
pub open spec fn episodes_of_links_spec(links: Seq<Seq<char>>) -> Seq<EpisodeView> {
    links.map_values(|l: Seq<char>| episode_of_link(l))
}

/// The episodes of download links: one per link, in order, each with the
/// quality its text shows.
pub fn episodes_of_links(links: &Vec<String>) -> (r: Vec<Episode>)
    ensures
        r@.map_values(|e: Episode| e@) == episodes_of_links_spec(links.deep_view()),
{
    let mut r: Vec<Episode> = Vec::new();
    let mut i: usize = 0;
    while i < links.len()
        invariant
            i <= links.len(),
            r@.len() == i,
            r@.map_values(|e: Episode| e@) == episodes_of_links_spec(links.deep_view().take(i as int)),
        decreases links.len() - i,
    {
        let e = Episode::from_link(&links[i]);
        assert(links.deep_view()[i as int] == links@[i as int]@);
        assert(links.deep_view().take(i + 1).drop_last() =~= links.deep_view().take(i as int));
        let ghost old_r = r@;
        r.push(e);
        proof {
            let dv = links.deep_view();
            let lhs = r@.map_values(|e: Episode| e@);
            let rhs = episodes_of_links_spec(dv.take(i + 1));
            assert forall|j: int| 0 <= j < i + 1 implies lhs[j] == rhs[j] by {
                if j < i {
                    assert(old_r.map_values(|e: Episode| e@)[j] == episodes_of_links_spec(
                        dv.take(i as int),
                    )[j]);
                    assert(r@[j] == old_r[j]);
                }
            }
            assert(lhs =~= rhs);
        }
        i = i + 1;
    }
    assert(links.deep_view().take(i as int) =~= links.deep_view());
    r
}

} // verus!
