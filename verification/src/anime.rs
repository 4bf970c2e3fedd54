//! The plain anime record of the command-line tool: a series, its episode count,
//! and the download links found for an episode, each with its quality.

use vstd::prelude::*;
use vstd::string::*;

use crate::text::{chars_of, contains_exec, contains_seq, debug_quoted, str_debug};
use crate::types::anime::{option_u32_debug, push_option_u32_debug};

verus! {

/// The video quality of a download link.
#[derive(Clone, Copy, PartialEq, Eq, Structural)]
pub enum Quality {
    P360,
    P480,
    P720,
    P1080,
    Unknown,
}

/// The quality that a link's text shows: `1080p` or `HDP` give 1080p, then
/// `720p`, `480p` and `360p` are tried in that order; anything else is unknown.
pub open spec fn quality_of_link(link: Seq<char>) -> Quality {
    if contains_seq(link, "1080p"@) {
        Quality::P1080
    } else if contains_seq(link, "HDP"@) {
        Quality::P1080
    } else if contains_seq(link, "720p"@) {
        Quality::P720
    } else if contains_seq(link, "480p"@) {
        Quality::P480
    } else if contains_seq(link, "360p"@) {
        Quality::P360
    } else {
        Quality::Unknown
    }
}

impl Quality {
    /// The text of the quality: `360p`, `480p`, `720p`, `1080p` or `Unknown`.
    pub open spec fn text(self) -> Seq<char> {
        match self {
            Quality::P360 => "360p"@,
            Quality::P480 => "480p"@,
            Quality::P720 => "720p"@,
            Quality::P1080 => "1080p"@,
            Quality::Unknown => "Unknown"@,
        }
    }

    /// The text of the quality, as its `Debug` form writes it.
    pub fn to_debug_string(&self) -> (r: String)
        ensures
            r@ == self.text(),
    {
        match self {
            Quality::P360 => String::from_str("360p"),
            Quality::P480 => String::from_str("480p"),
            Quality::P720 => String::from_str("720p"),
            Quality::P1080 => String::from_str("1080p"),
            Quality::Unknown => String::from_str("Unknown"),
        }
    }

    /// The quality that a download link's text shows.
    pub fn from_link(link: &str) -> (q: Quality)
        ensures
            q == quality_of_link(link@),
    {
        let s = chars_of(link);
        if contains_exec(&s, "1080p") {
            Quality::P1080
        } else if contains_exec(&s, "HDP") {
            Quality::P1080
        } else if contains_exec(&s, "720p") {
            Quality::P720
        } else if contains_exec(&s, "480p") {
            Quality::P480
        } else if contains_exec(&s, "360p") {
            Quality::P360
        } else {
            Quality::Unknown
        }
    }
}

/// The quality read from a link is one the link shows: unknown exactly when
/// none of `1080p`, `HDP`, `720p`, `480p`, `360p` occurs in it, and otherwise
/// a quality whose text occurs in the link (or 1080p, from `HDP`).
pub proof fn lemma_quality_shown_by_link(link: Seq<char>)
    ensures
        quality_of_link(link) == Quality::Unknown <==> !(contains_seq(link, "1080p"@)
            || contains_seq(link, "HDP"@) || contains_seq(link, "720p"@) || contains_seq(
            link,
            "480p"@,
        ) || contains_seq(link, "360p"@)),
        quality_of_link(link) != Quality::Unknown ==> contains_seq(
            link,
            quality_of_link(link).text(),
        ) || (quality_of_link(link) == Quality::P1080 && contains_seq(link, "HDP"@)),
{
}

/// A link that shows a single quality gets that quality: when the text of `q`
/// occurs in the link and no other quality's text does (nor `HDP`, unless `q`
/// is 1080p), the link's quality is `q`.
pub proof fn lemma_single_quality_decides(link: Seq<char>, q: Quality)
    requires
        q != Quality::Unknown,
        contains_seq(link, q.text()),
        forall|p: Quality| p != Quality::Unknown && p != q ==> !contains_seq(link, #[trigger] p.text()),
        q != Quality::P1080 ==> !contains_seq(link, "HDP"@),
    ensures
        quality_of_link(link) == q,
{
    assert(Quality::P1080 != q ==> !contains_seq(link, Quality::P1080.text()));
    assert(Quality::P720 != q ==> !contains_seq(link, Quality::P720.text()));
    assert(Quality::P480 != q ==> !contains_seq(link, Quality::P480.text()));
    assert(Quality::P360 != q ==> !contains_seq(link, Quality::P360.text()));
}

/// A download link with its quality.
#[derive(Clone, PartialEq)]
pub struct QualityUrl {
    pub url: String,
    pub quality: Quality,
}

/// The plain value of a [`QualityUrl`].
pub struct QualityUrlView {
    pub url: Seq<char>,
    pub quality: Quality,
}

impl View for QualityUrl {
    type V = QualityUrlView;

    open spec fn view(&self) -> QualityUrlView {
        QualityUrlView { url: self.url@, quality: self.quality }
    }
}

impl QualityUrlView {
    /// The `Debug` form: the quality, a colon, and the quoted url.
    pub open spec fn debug_text(self) -> Seq<char> {
        self.quality.text() + ": "@ + str_debug(self.url)
    }
}

/// The download link with the quality its text shows.
pub open spec fn quality_url_of_link(link: Seq<char>) -> QualityUrlView {
    QualityUrlView { url: link, quality: quality_of_link(link) }
}

/// The download links with their qualities: one per link, in order.
pub open spec fn quality_urls_spec(links: Seq<Seq<char>>) -> Seq<QualityUrlView> {
    links.map_values(|l: Seq<char>| quality_url_of_link(l))
}

impl QualityUrl {
    /// The download link with the quality its text shows.
    pub fn from_link(link: &String) -> (q: QualityUrl)
        ensures
            q@ == quality_url_of_link(link@),
    {
        let quality = Quality::from_link(link.as_str());
        QualityUrl { url: link.clone(), quality }
    }

    /// The `Debug` form: `720p: "https://..."`.
    pub fn to_debug_string(&self) -> (r: String)
        ensures
            r@ == self@.debug_text(),
    {
        let mut r = self.quality.to_debug_string();
        r.append(": ");
        let quoted = debug_quoted(self.url.as_str());
        r.append(quoted.as_str());
        r
    }
}

/// The download links with their qualities: one per link, in order, each with
/// the quality its text shows.
pub fn quality_urls_of_links(links: &Vec<String>) -> (r: Vec<QualityUrl>)
    ensures
        r@.map_values(|q: QualityUrl| q@) == quality_urls_spec(links.deep_view()),
{
    let mut r: Vec<QualityUrl> = Vec::new();
    let mut i: usize = 0;
    while i < links.len()
        invariant
            i <= links.len(),
            r@.len() == i,
            r@.map_values(|q: QualityUrl| q@) == quality_urls_spec(links.deep_view().take(i as int)),
        decreases links.len() - i,
    {
        let q = QualityUrl::from_link(&links[i]);
        assert(links.deep_view()[i as int] == links@[i as int]@);
        let ghost old_r = r@;
        r.push(q);
        proof {
            let dv = links.deep_view();
            let lhs = r@.map_values(|q: QualityUrl| q@);
            let rhs = quality_urls_spec(dv.take(i + 1));
            assert forall|j: int| 0 <= j < i + 1 implies lhs[j] == rhs[j] by {
                if j < i {
                    assert(old_r.map_values(|q: QualityUrl| q@)[j] == quality_urls_spec(
                        dv.take(i as int),
                    )[j]);
                    assert(r@[j] == old_r[j]);
                }
            }
            assert(lhs =~= rhs);
        }
        i = i + 1;
    }
    assert(links.deep_view().take(i as int) =~= links.deep_view());
    r
}

/// An anime series as the command-line tool knows it.
#[derive(Clone, PartialEq)]
pub struct Anime {
    /// Name of the series ex: `Bleach`
    pub title: String,
    /// Root url.
    pub root_url: String,
    /// Episode count what is known, or None
    pub max_episode: Option<u32>,
    /// The download links found for an episode, if any.
    pub qualities: Option<Vec<QualityUrl>>,
}

/// The plain value of an [`Anime`].
pub struct AnimeView {
    pub title: Seq<char>,
    pub root_url: Seq<char>,
    pub max_episode: Option<u32>,
    pub qualities: Option<Seq<QualityUrlView>>,
}

impl View for Anime {
    type V = AnimeView;

    open spec fn view(&self) -> AnimeView {
        AnimeView {
            title: self.title@,
            root_url: self.root_url@,
            max_episode: self.max_episode,
            qualities: match self.qualities {
                Some(v) => Some(v@.map_values(|q: QualityUrl| q@)),
                None => None,
            },
        }
    }
}

/// The `Debug` forms of the links, separated by `", "`.
pub open spec fn joined_quality_urls(s: Seq<QualityUrlView>) -> Seq<char>
    decreases s.len(),
{
    if s.len() == 0 {
        Seq::empty()
    } else if s.len() == 1 {
        s[0].debug_text()
    } else {
        joined_quality_urls(s.drop_last()) + ", "@ + s.last().debug_text()
    }
}

/// Adding a link to a non-empty list adds its `Debug` form at the end, after
/// `", "`: the text of a list keeps every element, in order.
pub proof fn lemma_joined_quality_urls_push(s: Seq<QualityUrlView>, x: QualityUrlView)
    requires
        s.len() > 0,
    ensures
        joined_quality_urls(s.push(x)) == joined_quality_urls(s) + ", "@ + x.debug_text(),
        joined_quality_urls(seq![x]) == x.debug_text(),
{
    assert(s.push(x).drop_last() =~= s);
}

/// The text of two non-empty lists put together is the text of the first,
/// `", "`, and the text of the second.
pub proof fn lemma_joined_quality_urls_concat(s: Seq<QualityUrlView>, t: Seq<QualityUrlView>)
    requires
        s.len() > 0,
        t.len() > 0,
    ensures
        joined_quality_urls(s + t) == joined_quality_urls(s) + ", "@ + joined_quality_urls(t),
    decreases t.len(),
{
    if t.len() == 1 {
        assert(s + t =~= s.push(t[0]));
        lemma_joined_quality_urls_push(s, t[0]);
    } else {
        let init = t.drop_last();
        lemma_joined_quality_urls_concat(s, init);
        assert(s + t =~= (s + init).push(t.last()));
        lemma_joined_quality_urls_push(s + init, t.last());
        lemma_joined_quality_urls_push(init, t.last());
        assert(init.push(t.last()) =~= t);
        assert(joined_quality_urls(s) + ", "@ + joined_quality_urls(init) + ", "@ + t.last().debug_text() =~= joined_quality_urls(s) + ", "@
            + (joined_quality_urls(init) + ", "@ + t.last().debug_text()));
    }
}

/// The `Debug` form of an optional list of links: `None` or `Some([q1, q2])`.
pub open spec fn option_quality_urls_debug(o: Option<Seq<QualityUrlView>>) -> Seq<char> {
    match o {
        Some(s) => "Some(["@ + joined_quality_urls(s) + "])"@,
        None => "None"@,
    }
}

impl AnimeView {
    /// The display form, one field per line, closed by a `------` line.
    pub open spec fn display_text(self) -> Seq<char> {
        "Title: "@ + self.title + "\nRoot URL: "@ + self.root_url + "\nMax episode: "@
            + option_u32_debug(self.max_episode) + "\nQualities: "@ + option_quality_urls_debug(
            self.qualities,
        ) + "\n------"@
    }
}

/// Appends the `Debug` form of an optional list of links.
fn push_quality_urls_debug(out: &mut String, o: &Option<Vec<QualityUrl>>)
    ensures
        final(out)@ == old(out)@ + option_quality_urls_debug(
            match o {
                Some(v) => Some(v@.map_values(|q: QualityUrl| q@)),
                None => None,
            },
        ),
{
    match o {
        Some(v) => {
            out.append("Some([");
            let ghost head = out@;
            let ghost qv = v@.map_values(|q: QualityUrl| q@);
            let mut i: usize = 0;
            while i < v.len()
                invariant
                    i <= v.len(),
                    qv == v@.map_values(|q: QualityUrl| q@),
                    out@ == head + joined_quality_urls(qv.take(i as int)),
                decreases v.len() - i,
            {
                assert(qv.take(i + 1).drop_last() =~= qv.take(i as int));
                if i > 0 {
                    out.append(", ");
                }
                let text = v[i].to_debug_string();
                out.append(text.as_str());
                i = i + 1;
            }
            assert(qv.take(i as int) =~= qv);
            out.append("])");
        },
        None => {
            out.append("None");
        },
    }
}

impl Anime {
    /// The display form of the anime (what `Display` writes).
    pub fn to_display_string(&self) -> (r: String)
        ensures
            r@ == self@.display_text(),
    {
        let mut r = String::from_str("Title: ");
        r.append(self.title.as_str());
        r.append("\nRoot URL: ");
        r.append(self.root_url.as_str());
        r.append("\nMax episode: ");
        push_option_u32_debug(&mut r, self.max_episode);
        r.append("\nQualities: ");
        push_quality_urls_debug(&mut r, &self.qualities);
        r.append("\n------");
        r
    }
}

impl Default for Anime {
    fn default() -> (a: Anime)
        ensures
            a@.title == Seq::<char>::empty(),
            a@.root_url == Seq::<char>::empty(),
            a@.max_episode is None,
            a@.qualities is None,
    {
        Anime { root_url: String::new(), title: String::new(), max_episode: None, qualities: None }
    }
}

} // verus!
