//! Looking up the download links of an episode for the command-line tool, one
//! page at a time: the episode page first, then each download page it leads to.

use vstd::prelude::*;

use crate::anime::{quality_urls_of_links, quality_urls_spec, Anime, AnimeView};
use crate::cli::provider::gogoplay::{
    download_links, download_links_spec, episode_page_url_spec, episode_too_high, no_link_message,
    too_high_message, GoGoPlay,
};
use crate::error::Error;
use crate::provider::gogoplay::lookup::lemma_flatten_prepend;
use crate::provider::gogoplay::{download_pages_spec, flatten};

verus! {

/// The anime with the links, each with its quality, as its qualities.
pub open spec fn with_quality_urls(a: AnimeView, links: Seq<Seq<char>>) -> AnimeView {
    AnimeView {
        title: a.title,
        root_url: a.root_url,
        max_episode: a.max_episode,
        qualities: Some(quality_urls_spec(links)),
    }
}

/// An episode lookup under way: the anime, the download pages once the episode
/// page has come, how many of them have come, and the links they held.
pub struct QualityLookup {
    anime: Anime,
    downloads: Option<Vec<String>>,
    next: usize,
    links: Vec<String>,
}

/// The plain value of a [`QualityLookup`].
pub struct QualityLookupView {
    pub anime: AnimeView,
    pub downloads: Option<Seq<Seq<char>>>,
    pub next: nat,
    pub links: Seq<Seq<char>>,
}

impl View for QualityLookup {
    type V = QualityLookupView;

    closed spec fn view(&self) -> QualityLookupView {
        QualityLookupView {
            anime: self.anime@,
            downloads: match self.downloads {
                Some(d) => Some(d.deep_view()),
                None => None,
            },
            next: self.next as nat,
            links: self.links.deep_view(),
        }
    }
}

impl QualityLookupView {
    /// The lookup waits either for the episode page (nothing gathered yet) or
    /// for one of the download pages.
    pub open spec fn wf(self) -> bool {
        match self.downloads {
            None => self.next == 0 && self.links.len() == 0,
            Some(d) => self.next < d.len(),
        }
    }
}

/// What the lookup asks for next.
pub enum QualityStep {
    /// Fetch the page at this address and hand it to the lookup.
    Fetch(QualityLookup, String),
    /// The lookup is done: the anime with the episode's links as its qualities.
    Finished(Anime),
    /// The site has no link for the episode.
    Refused(&'static str),
    /// The lookup cannot go on.
    Failed(Error),
}

/// The plain value of a [`QualityStep`].
pub enum QualityStepView {
    Fetch(QualityLookupView, Seq<char>),
    Finished(AnimeView),
    Refused(Seq<char>),
    Failed(Error),
}

impl View for QualityStep {
    type V = QualityStepView;

    open spec fn view(&self) -> QualityStepView {
        match self {
            QualityStep::Fetch(l, u) => QualityStepView::Fetch(l@, u@),
            QualityStep::Finished(a) => QualityStepView::Finished(a@),
            QualityStep::Refused(m) => QualityStepView::Refused(m@),
            QualityStep::Failed(e) => QualityStepView::Failed(*e),
        }
    }
}

/// How the lookup ends with the links gathered: refused when there is none.
pub open spec fn finish_spec(anime: AnimeView, links: Seq<Seq<char>>) -> QualityStepView {
    if links.len() == 0 {
        QualityStepView::Refused(no_link_message())
    } else {
        QualityStepView::Finished(with_quality_urls(anime, links))
    }
}

/// What the lookup does with the page it waited for: from the episode page it
/// learns the download pages and asks for the first; from a download page it
/// adds the page's links to those gathered and asks for the next download page,
/// or ends after the last.
pub open spec fn next_step(state: QualityLookupView, download_base: Seq<char>, page: Seq<char>) -> QualityStepView {
    match state.downloads {
        None => match download_pages_spec(download_base, page) {
            Err(e) => QualityStepView::Failed(e),
            Ok(d) => if d.len() == 0 {
                finish_spec(state.anime, Seq::empty())
            } else {
                QualityStepView::Fetch(
                    QualityLookupView {
                        anime: state.anime,
                        downloads: Some(d),
                        next: 0,
                        links: Seq::empty(),
                    },
                    d[0],
                )
            },
        },
        Some(d) => match download_links_spec(page) {
            Err(e) => QualityStepView::Failed(e),
            Ok(found) => {
                let links = state.links + found;
                if state.next + 1 >= d.len() {
                    finish_spec(state.anime, links)
                } else {
                    QualityStepView::Fetch(
                        QualityLookupView {
                            anime: state.anime,
                            downloads: Some(d),
                            next: state.next + 1,
                            links,
                        },
                        d[state.next + 1int],
                    )
                }
            },
        },
    }
}

/// What the lookup comes to when it is handed the pages in order: `None` while
/// it still waits for a page after the last one, else how it ended.
pub open spec fn run_lookup(state: QualityLookupView, download_base: Seq<char>, pages: Seq<Seq<char>>) -> Option<
    QualityStepView,
>
    decreases pages.len(),
{
    if pages.len() == 0 {
        None
    } else {
        match next_step(state, download_base, pages[0]) {
            QualityStepView::Fetch(next, _) => run_lookup(next, download_base, pages.drop_first()),
            QualityStepView::Finished(a) => Some(QualityStepView::Finished(a)),
            QualityStepView::Refused(m) => Some(QualityStepView::Refused(m)),
            QualityStepView::Failed(e) => Some(QualityStepView::Failed(e)),
        }
    }
}

/// A lookup that has not yet been handed a page.
pub open spec fn fresh_lookup(anime: AnimeView) -> QualityLookupView {
    QualityLookupView { anime, downloads: None, next: 0, links: Seq::empty() }
}

/// The addresses that the lookup asks for, in order, when it is handed these
/// pages one after the other.
pub open spec fn asked_addresses(state: QualityLookupView, download_base: Seq<char>, pages: Seq<Seq<char>>) -> Seq<
    Seq<char>,
>
    decreases pages.len(),
{
    if pages.len() == 0 {
        Seq::empty()
    } else {
        match next_step(state, download_base, pages[0]) {
            QualityStepView::Fetch(next, u) => seq![u] + asked_addresses(next, download_base, pages.drop_first()),
            _ => Seq::empty(),
        }
    }
}

/// Each address the lookup asks for is the download page it then waits for:
/// after the episode page it waits for the first download page, and after
/// download page `k` for download page `k + 1`, of the same list.
pub proof fn lemma_fetch_asks_for_awaited_page(state: QualityLookupView, download_base: Seq<char>, page: Seq<char>)
    requires
        state.wf(),
    ensures
        next_step(state, download_base, page) matches QualityStepView::Fetch(s2, u) ==> {
            &&& s2.downloads matches Some(d2) && s2.next < d2.len() && u == d2[s2.next as int]
            &&& state.downloads matches Some(d) ==> s2.downloads == Some(d) && s2.next == state.next + 1
            &&& state.downloads is None ==> s2.next == 0 && download_pages_spec(download_base, page)
                == Ok::<Seq<Seq<char>>, Error>(s2.downloads->0)
        },
{
}

proof fn lemma_asked_from_download_page(
    state: QualityLookupView,
    download_base: Seq<char>,
    pages: Seq<Seq<char>>,
)
    requires
        state.downloads matches Some(d) && state.next + pages.len() <= d.len() && state.next < d.len(),
        forall|i: int| 0 <= i < pages.len() ==> download_links_spec(#[trigger] pages[i]) is Ok,
    ensures
        asked_addresses(state, download_base, pages) == state.downloads->0.subrange(
            state.next + 1int,
            if state.next + pages.len() < state.downloads->0.len() {
                state.next + pages.len() + 1int
            } else {
                state.downloads->0.len() as int
            },
        ),
    decreases pages.len(),
{
    let d = state.downloads->0;
    let j = state.next as int;
    if pages.len() == 0 {
        assert(d.subrange(j + 1, j + 1) =~= Seq::<Seq<char>>::empty());
    } else {
        assert(download_links_spec(pages[0]) is Ok);
        if j + 1 >= d.len() {
            assert(d.subrange(j + 1, d.len() as int) =~= Seq::<Seq<char>>::empty());
        } else {
            let s2 = match next_step(state, download_base, pages[0]) {
                QualityStepView::Fetch(n, _) => n,
                _ => state,
            };
            assert(s2.downloads == Some(d) && s2.next == j + 1);
            let rest = pages.drop_first();
            assert forall|i: int| 0 <= i < rest.len() implies download_links_spec(#[trigger] rest[i]) is Ok by {
                assert(rest[i] == pages[i + 1]);
            }
            lemma_asked_from_download_page(s2, download_base, rest);
            let end = if j + pages.len() < d.len() {
                j + pages.len() + 1int
            } else {
                d.len() as int
            };
            assert(seq![d[j + 1]] + d.subrange(j + 2, end) =~= d.subrange(j + 1, end));
        }
    }
}

/// Over a run, the lookup asks for the download pages of the episode page, in
/// order, each once: handed the episode page and then `m` readable download
/// pages, it has asked for the first `m + 1` download pages (all of them once
/// the last has come).
pub proof fn lemma_lookup_asks_for_each_download_page_once(
    download_base: Seq<char>,
    anime: AnimeView,
    episode_page: Seq<char>,
    pages: Seq<Seq<char>>,
)
    requires
        download_pages_spec(download_base, episode_page) matches Ok(d) && pages.len() <= d.len(),
        forall|i: int| 0 <= i < pages.len() ==> download_links_spec(#[trigger] pages[i]) is Ok,
    ensures
        ({
            let d = download_pages_spec(download_base, episode_page)->Ok_0;
            asked_addresses(fresh_lookup(anime), download_base, seq![episode_page] + pages) == d.take(
                if pages.len() < d.len() {
                    pages.len() + 1int
                } else {
                    d.len() as int
                },
            )
        }),
{
    let d = download_pages_spec(download_base, episode_page)->Ok_0;
    let all = seq![episode_page] + pages;
    assert(all[0] == episode_page);
    assert(all.drop_first() =~= pages);
    if d.len() == 0 {
        assert(d.take(0) =~= Seq::<Seq<char>>::empty());
    } else {
        let s0 = match next_step(fresh_lookup(anime), download_base, episode_page) {
            QualityStepView::Fetch(n, _) => n,
            _ => fresh_lookup(anime),
        };
        assert(s0.downloads == Some(d) && s0.next == 0);
        lemma_asked_from_download_page(s0, download_base, pages);
        let end = if pages.len() < d.len() {
            pages.len() + 1int
        } else {
            d.len() as int
        };
        assert(seq![d[0]] + d.subrange(1, end) =~= d.take(end));
    }
}

proof fn lemma_download_pages_run(
    state: QualityLookupView,
    download_base: Seq<char>,
    pages: Seq<Seq<char>>,
    found: Seq<Seq<Seq<char>>>,
)
    requires
        state.downloads matches Some(d) && d.len() == state.next + pages.len(),
        pages.len() > 0,
        pages.len() == found.len(),
        forall|i: int| 0 <= i < pages.len() ==> download_links_spec(#[trigger] pages[i]) == Ok::<
            Seq<Seq<char>>,
            Error,
        >(found[i]),
    ensures
        run_lookup(state, download_base, pages) == Some(finish_spec(state.anime, state.links + flatten(found))),
    decreases pages.len(),
{
    let d = state.downloads->0;
    assert(download_links_spec(pages[0]) == Ok::<Seq<Seq<char>>, Error>(found[0]));
    assert(found =~= seq![found[0]] + found.drop_first());
    lemma_flatten_prepend(found[0], found.drop_first());
    if pages.len() == 1 {
        assert(found.drop_first() =~= Seq::<Seq<Seq<char>>>::empty());
        assert(flatten(found.drop_first()) =~= Seq::<Seq<char>>::empty());
        assert(state.links + found[0] =~= state.links + flatten(found));
    } else {
        let next = QualityLookupView {
            anime: state.anime,
            downloads: Some(d),
            next: state.next + 1,
            links: state.links + found[0],
        };
        assert forall|i: int| 0 <= i < pages.drop_first().len() implies download_links_spec(
            #[trigger] pages.drop_first()[i],
        ) == Ok::<Seq<Seq<char>>, Error>(found.drop_first()[i]) by {
            assert(pages.drop_first()[i] == pages[i + 1]);
        }
        lemma_download_pages_run(next, download_base, pages.drop_first(), found.drop_first());
        assert(state.links + found[0] + flatten(found.drop_first()) =~= state.links + flatten(
            found,
        ));
    }
}

/// A lookup handed the episode page and then each download page it asks for,
/// in order, ends with one link per link of those download pages, in the order
/// of the pages and of the links within each page, each with the quality its
/// text shows; when those pages hold no link at all it ends refused.
pub proof fn lemma_quality_lookup_gathers_all_links(
    download_base: Seq<char>,
    anime: AnimeView,
    episode_page: Seq<char>,
    download_pages: Seq<Seq<char>>,
    found: Seq<Seq<Seq<char>>>,
)
    requires
        download_pages_spec(download_base, episode_page) matches Ok(d) && d.len()
            == download_pages.len(),
        download_pages.len() == found.len(),
        forall|i: int| 0 <= i < download_pages.len() ==> download_links_spec(
            #[trigger] download_pages[i],
        ) == Ok::<Seq<Seq<char>>, Error>(found[i]),
    ensures
        run_lookup(fresh_lookup(anime), download_base, seq![episode_page] + download_pages)
            == Some(finish_spec(anime, flatten(found))),
{
    let pages = seq![episode_page] + download_pages;
    assert(pages[0] == episode_page);
    assert(pages.drop_first() =~= download_pages);
    let d = download_pages_spec(download_base, episode_page)->Ok_0;
    if d.len() == 0 {
        assert(found =~= Seq::<Seq<Seq<char>>>::empty());
        assert(flatten(found) =~= Seq::<Seq<char>>::empty());
    } else {
        let next = QualityLookupView { anime, downloads: Some(d), next: 0, links: Seq::empty() };
        lemma_download_pages_run(next, download_base, download_pages, found);
        assert(Seq::<Seq<char>>::empty() + flatten(found) =~= flatten(found));
    }
}

/// How the lookup ends with the links gathered.
fn finish(anime: Anime, links: &Vec<String>) -> (r: QualityStep)
    ensures
        r@ == finish_spec(anime@, links.deep_view()),
{
    if links.len() == 0 {
        return QualityStep::Refused("No link found");
    }
    let mut anime = anime;
    anime.qualities = Some(quality_urls_of_links(links));
    QualityStep::Finished(anime)
}

impl GoGoPlay {
    /// Starts looking up `episode` of `anime`: refused past the known episode
    /// count, else the lookup waits for the episode page, whose address comes with it.
    pub fn begin_episode_lookup(&self, anime: Anime, episode: u32) -> (r: Result<
        (QualityLookup, String),
        &'static str,
    >)
        ensures
            match r {
                Err(m) => episode_too_high(anime@.max_episode, episode) && m@ == too_high_message(),
                Ok((l, u)) => !episode_too_high(anime@.max_episode, episode) && l@ == fresh_lookup(
                    anime@,
                ) && u@ == episode_page_url_spec(self.base(), anime@.root_url, episode),
            },
    {
        match GoGoPlay::check_episode(&anime, episode) {
            Err(m) => return Err(m),
            Ok(()) => {},
        }
        let url = self.episode_page_url(&anime, episode);
        let lookup = QualityLookup { anime, downloads: None, next: 0, links: Vec::new() };
        assert(lookup.links.deep_view() =~= Seq::<Seq<char>>::empty());
        Ok((lookup, url))
    }
}

impl QualityLookup {
    /// Hands the lookup the page it waited for (see [`next_step`]).
    pub fn advance(self, site: &GoGoPlay, page: &str) -> (r: QualityStep)
        requires
            self@.wf(),
        ensures
            r@ == next_step(self@, site.download_base(), page@),
            r matches QualityStep::Fetch(l, _) ==> l@.wf(),
    {
        let QualityLookup { anime, downloads, next, links } = self;
        match downloads {
            None => match site.download_page_urls(page) {
                Err(e) => QualityStep::Failed(e),
                Ok(d) => {
                    if d.len() == 0 {
                        let empty: Vec<String> = Vec::new();
                        assert(empty.deep_view() =~= Seq::<Seq<char>>::empty());
                        finish(anime, &empty)
                    } else {
                        let first = d[0].clone();
                        let lookup = QualityLookup {
                            anime,
                            downloads: Some(d),
                            next: 0,
                            links: Vec::new(),
                        };
                        assert(lookup.links.deep_view() =~= Seq::<Seq<char>>::empty());
                        QualityStep::Fetch(lookup, first)
                    }
                },
            },
            Some(d) => match download_links(page) {
                Err(e) => QualityStep::Failed(e),
                Ok(found) => {
                    let mut all = links;
                    let ghost before = all.deep_view();
                    assert(d.deep_view().len() == d.len());
                    let mut k: usize = 0;
                    while k < found.len()
                        invariant
                            k <= found.len(),
                            all.deep_view() == before + found.deep_view().take(k as int),
                            all@.len() == before.len() + k,
                        decreases found.len() - k,
                    {
                        let c = found[k].clone();
                        assert(c@ == found.deep_view()[k as int]);
                        let ghost old_all = all@;
                        all.push(c);
                        proof {
                            let lhs = all.deep_view();
                            let rhs = before + found.deep_view().take(k + 1);
                            assert forall|j: int| 0 <= j < lhs.len() implies lhs[j] == rhs[j] by {
                                if j < old_all.len() {
                                    assert(all@[j] == old_all[j]);
                                    assert(old_all.map_values(|s: String| s@)[j] == (before
                                        + found.deep_view().take(k as int))[j]);
                                }
                            }
                            assert(lhs =~= rhs);
                        }
                        k = k + 1;
                    }
                    assert(found.deep_view().take(k as int) =~= found.deep_view());
                    if next + 1 >= d.len() {
                        finish(anime, &all)
                    } else {
                        let url = d[next + 1].clone();
                        let lookup = QualityLookup {
                            anime,
                            downloads: Some(d),
                            next: next + 1,
                            links: all,
                        };
                        QualityStep::Fetch(lookup, url)
                    }
                },
            },
        }
    }
}

} // verus!
