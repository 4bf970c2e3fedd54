//! An anime series as a provider finds it.

use vstd::prelude::*;
use vstd::string::*;

use crate::text::{decimal, push_decimal};
use crate::types::episode::{Episode, EpisodeView};

verus! {

/// An anime series as a provider finds it.
#[derive(Clone, PartialEq)]
pub struct Anime {
    /// Name of the series ex: `Bleach`
    pub title: String,
    /// Root url.
    pub root_url: String,
    /// Episode count what is known, or None
    pub max_episode: Option<u32>,
    /// The download links of the episode that was looked up, if any.
    pub qualities: Option<Vec<Episode>>,
}

/// The plain value of an [`Anime`].
pub struct AnimeView {
    pub title: Seq<char>,
    pub root_url: Seq<char>,
    pub max_episode: Option<u32>,
    pub qualities: Option<Seq<EpisodeView>>,
}

/// The plain values of a list of episodes.
pub open spec fn episodes_view(v: Seq<Episode>) -> Seq<EpisodeView> {
    v.map_values(|e: Episode| e@)
}

impl View for Anime {
    type V = AnimeView;

    open spec fn view(&self) -> AnimeView {
        AnimeView {
            title: self.title@,
            root_url: self.root_url@,
            max_episode: self.max_episode,
            qualities: match self.qualities {
                Some(v) => Some(episodes_view(v@)),
                None => None,
            },
        }
    }
}

/// The `Debug` form of an `Option<u32>`: `None` or `Some(n)`.
pub open spec fn option_u32_debug(o: Option<u32>) -> Seq<char> {
    match o {
        Some(n) => "Some("@ + decimal(n as nat) + ")"@,
        None => "None"@,
    }
}

/// The `Debug` forms of the episodes, separated by `", "`.
pub open spec fn joined_episodes(s: Seq<EpisodeView>) -> Seq<char>
    decreases s.len(),
{
    if s.len() == 0 {
        Seq::empty()
    } else if s.len() == 1 {
        s[0].debug_text()
    } else {
        joined_episodes(s.drop_last()) + ", "@ + s.last().debug_text()
    }
}

/// Adding an episode to a non-empty list adds its `Debug` form at the end, after
/// `", "`: the text of a list keeps every element, in order.
pub proof fn lemma_joined_episodes_push(s: Seq<EpisodeView>, x: EpisodeView)
    requires
        s.len() > 0,
    ensures
        joined_episodes(s.push(x)) == joined_episodes(s) + ", "@ + x.debug_text(),
        joined_episodes(seq![x]) == x.debug_text(),
{
    assert(s.push(x).drop_last() =~= s);
}

/// The text of two non-empty lists put together is the text of the first,
/// `", "`, and the text of the second.
pub proof fn lemma_joined_episodes_concat(s: Seq<EpisodeView>, t: Seq<EpisodeView>)
    requires
        s.len() > 0,
        t.len() > 0,
    ensures
        joined_episodes(s + t) == joined_episodes(s) + ", "@ + joined_episodes(t),
    decreases t.len(),
{
    if t.len() == 1 {
        assert(s + t =~= s.push(t[0]));
        lemma_joined_episodes_push(s, t[0]);
    } else {
        let init = t.drop_last();
        lemma_joined_episodes_concat(s, init);
        assert(s + t =~= (s + init).push(t.last()));
        lemma_joined_episodes_push(s + init, t.last());
        lemma_joined_episodes_push(init, t.last());
        assert(init.push(t.last()) =~= t);
        assert(joined_episodes(s) + ", "@ + joined_episodes(init) + ", "@ + t.last().debug_text() =~= joined_episodes(s) + ", "@
            + (joined_episodes(init) + ", "@ + t.last().debug_text()));
    }
}

/// The `Debug` form of an optional list of episodes: `None` or `Some([e1, e2])`.
pub open spec fn option_episodes_debug(o: Option<Seq<EpisodeView>>) -> Seq<char> {
    match o {
        Some(s) => "Some(["@ + joined_episodes(s) + "])"@,
        None => "None"@,
    }
}

impl AnimeView {
    /// The display form:
    /// `Title: {title}, Root URL: {root}, Max episode: {max:?}, Qualities: {qualities:?}`.
    pub open spec fn display_text(self) -> Seq<char> {
        "Title: "@ + self.title + ", Root URL: "@ + self.root_url + ", Max episode: "@
            + option_u32_debug(self.max_episode) + ", Qualities: "@ + option_episodes_debug(
            self.qualities,
        )
    }
}

/// Appends the `Debug` form of an `Option<u32>`.
pub fn push_option_u32_debug(out: &mut String, o: Option<u32>)
    ensures
        final(out)@ == old(out)@ + option_u32_debug(o),
{
    match o {
        Some(n) => {
            out.append("Some(");
            push_decimal(out, n);
            out.append(")");
        },
        None => {
            out.append("None");
        },
    }
}

/// Appends the `Debug` form of an optional list of episodes.
pub fn push_episodes_debug(out: &mut String, o: &Option<Vec<Episode>>)
    ensures
        final(out)@ == old(out)@ + option_episodes_debug(
            match o {
                Some(v) => Some(episodes_view(v@)),
                None => None,
            },
        ),
{
    match o {
        Some(v) => {
            let ghost start = out@;
            out.append("Some([");
            let ghost head = out@;
            let mut i: usize = 0;
            while i < v.len()
                invariant
                    i <= v.len(),
                    out@ == head + joined_episodes(episodes_view(v@).take(i as int)),
                decreases v.len() - i,
            {
                let ghost ev = episodes_view(v@);
                assert(ev.take(i + 1).drop_last() =~= ev.take(i as int));
                if i > 0 {
                    out.append(", ");
                }
                let text = v[i].to_debug_string();
                out.append(text.as_str());
                i = i + 1;
            }
            assert(episodes_view(v@).take(i as int) =~= episodes_view(v@));
            out.append("])");
        },
        None => {
            out.append("None");
        },
    }
}

impl Anime {
    /// The display form of the anime (what `Display` writes).
    pub fn to_display_string(&self) -> (r: String)
        ensures
            r@ == self@.display_text(),
    {
        let mut r = String::from_str("Title: ");
        r.append(self.title.as_str());
        r.append(", Root URL: ");
        r.append(self.root_url.as_str());
        r.append(", Max episode: ");
        push_option_u32_debug(&mut r, self.max_episode);
        r.append(", Qualities: ");
        push_episodes_debug(&mut r, &self.qualities);
        r
    }
}

impl Default for Anime {
    fn default() -> (a: Anime)
        ensures
            a@.title == Seq::<char>::empty(),
            a@.root_url == Seq::<char>::empty(),
            a@.max_episode is None,
            a@.qualities is None,
    {
        Anime { root_url: String::new(), title: String::new(), max_episode: None, qualities: None }
    }
}

} // verus!
