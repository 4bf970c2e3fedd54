//! Looking up the download links of an episode, one page at a time.
//!
//! The lookup asks for the episode page first, then for each download page that
//! the episode page leads to, in order. Whoever drives it fetches each page it
//! asks for and hands the page back.

use vstd::prelude::*;

use crate::error::Error;
use crate::provider::gogoplay::{
    download_links, download_links_spec, download_pages_spec, episode_page_url_spec,
    episode_url_allowed, flatten, GoGoPlay,
};
use crate::types::anime::{Anime, AnimeView};
use crate::types::episode::{episodes_of_links, episodes_of_links_spec};

verus! {

/// The anime with the episodes of the links as its qualities.
pub open spec fn with_episodes(a: AnimeView, links: Seq<Seq<char>>) -> AnimeView {
    AnimeView {
        title: a.title,
        root_url: a.root_url,
        max_episode: a.max_episode,
        qualities: Some(episodes_of_links_spec(links)),
    }
}

/// An episode lookup under way: the anime, the download pages once the episode
/// page has come, how many of them have come, and the links they held.
pub struct EpisodeLookup {
    anime: Anime,
    downloads: Option<Vec<String>>,
    next: usize,
    links: Vec<String>,
}

/// The plain value of an [`EpisodeLookup`].
pub struct LookupView {
    pub anime: AnimeView,
    pub downloads: Option<Seq<Seq<char>>>,
    pub next: nat,
    pub links: Seq<Seq<char>>,
}

impl View for EpisodeLookup {
    type V = LookupView;

    closed spec fn view(&self) -> LookupView {
        LookupView {
            anime: self.anime@,
            downloads: match self.downloads {
                Some(d) => Some(d.deep_view()),
                None => None,
            },
            next: self.next as nat,
            links: self.links.deep_view(),
        }
    }
}

impl LookupView {
    /// The lookup waits either for the episode page (nothing gathered yet) or
    /// for one of the download pages.
    pub open spec fn wf(self) -> bool {
        match self.downloads {
            None => self.next == 0 && self.links.len() == 0,
            Some(d) => self.next < d.len(),
        }
    }
}

/// What the lookup asks for next.
pub enum LookupStep {
    /// Fetch the page at this address and hand it to the lookup.
    Fetch(EpisodeLookup, String),
    /// The lookup is done: the anime with the episode's links as its qualities.
    Finished(Anime),
    /// The lookup cannot go on.
    Failed(Error),
}

/// The plain value of a [`LookupStep`].
pub enum StepView {
    Fetch(LookupView, Seq<char>),
    Finished(AnimeView),
    Failed(Error),
}

impl View for LookupStep {
    type V = StepView;

    open spec fn view(&self) -> StepView {
        match self {
            LookupStep::Fetch(l, u) => StepView::Fetch(l@, u@),
            LookupStep::Finished(a) => StepView::Finished(a@),
            LookupStep::Failed(e) => StepView::Failed(*e),
        }
    }
}

/// What the lookup does with the page it waited for: from the episode page it
/// learns the download pages and asks for the first (or finishes with no links
/// when there is none); from a download page it adds the page's links to those
/// gathered and asks for the next download page, or finishes after the last.
pub open spec fn next_step(state: LookupView, download_base: Seq<char>, page: Seq<char>) -> StepView {
    match state.downloads {
        None => match download_pages_spec(download_base, page) {
            Err(e) => StepView::Failed(e),
            Ok(d) => if d.len() == 0 {
                StepView::Finished(with_episodes(state.anime, Seq::empty()))
            } else {
                StepView::Fetch(
                    LookupView { anime: state.anime, downloads: Some(d), next: 0, links: Seq::empty() },
                    d[0],
                )
            },
        },
        Some(d) => match download_links_spec(page) {
            Err(e) => StepView::Failed(e),
            Ok(found) => {
                let links = state.links + found;
                if state.next + 1 >= d.len() {
                    StepView::Finished(with_episodes(state.anime, links))
                } else {
                    StepView::Fetch(
                        LookupView {
                            anime: state.anime,
                            downloads: Some(d),
                            next: state.next + 1,
                            links,
                        },
                        d[state.next + 1int],
                    )
                }
            },
        },
    }
}

/// What the lookup comes to when it is handed the pages in order: `None` while
/// it still waits for a page after the last one, else how it ended.
pub open spec fn run_lookup(state: LookupView, download_base: Seq<char>, pages: Seq<Seq<char>>) -> Option<
    StepView,
>
    decreases pages.len(),
{
    if pages.len() == 0 {
        None
    } else {
        match next_step(state, download_base, pages[0]) {
            StepView::Fetch(next, _) => run_lookup(next, download_base, pages.drop_first()),
            StepView::Finished(a) => Some(StepView::Finished(a)),
            StepView::Failed(e) => Some(StepView::Failed(e)),
        }
    }
}

/// A lookup that has not yet been handed a page.
pub open spec fn fresh_lookup(anime: AnimeView) -> LookupView {
    LookupView { anime, downloads: None, next: 0, links: Seq::empty() }
}

/// The addresses that the lookup asks for, in order, when it is handed these
/// pages one after the other.
pub open spec fn asked_addresses(state: LookupView, download_base: Seq<char>, pages: Seq<Seq<char>>) -> Seq<
    Seq<char>,
>
    decreases pages.len(),
{
    if pages.len() == 0 {
        Seq::empty()
    } else {
        match next_step(state, download_base, pages[0]) {
            StepView::Fetch(next, u) => seq![u] + asked_addresses(next, download_base, pages.drop_first()),
            _ => Seq::empty(),
        }
    }
}

/// Each address the lookup asks for is the download page it then waits for:
/// after the episode page it waits for the first download page, and after
/// download page `k` for download page `k + 1`, of the same list.
pub proof fn lemma_fetch_asks_for_awaited_page(state: LookupView, download_base: Seq<char>, page: Seq<char>)
    requires
        state.wf(),
    ensures
        next_step(state, download_base, page) matches StepView::Fetch(s2, u) ==> {
            &&& s2.downloads matches Some(d2) && s2.next < d2.len() && u == d2[s2.next as int]
            &&& state.downloads matches Some(d) ==> s2.downloads == Some(d) && s2.next == state.next + 1
            &&& state.downloads is None ==> s2.next == 0 && download_pages_spec(download_base, page)
                == Ok::<Seq<Seq<char>>, Error>(s2.downloads->0)
        },
{
}

proof fn lemma_asked_from_download_page(
    state: LookupView,
    download_base: Seq<char>,
    pages: Seq<Seq<char>>,
)
    requires
        state.downloads matches Some(d) && state.next + pages.len() <= d.len() && state.next < d.len(),
        forall|i: int| 0 <= i < pages.len() ==> download_links_spec(#[trigger] pages[i]) is Ok,
    ensures
        asked_addresses(state, download_base, pages) == state.downloads->0.subrange(
            state.next + 1int,
            if state.next + pages.len() < state.downloads->0.len() {
                state.next + pages.len() + 1int
            } else {
                state.downloads->0.len() as int
            },
        ),
    decreases pages.len(),
{
    let d = state.downloads->0;
    let j = state.next as int;
    if pages.len() == 0 {
        assert(d.subrange(j + 1, j + 1) =~= Seq::<Seq<char>>::empty());
    } else {
        assert(download_links_spec(pages[0]) is Ok);
        if j + 1 >= d.len() {
            assert(d.subrange(j + 1, d.len() as int) =~= Seq::<Seq<char>>::empty());
        } else {
            let s2 = match next_step(state, download_base, pages[0]) {
                StepView::Fetch(n, _) => n,
                _ => state,
            };
            assert(s2.downloads == Some(d) && s2.next == j + 1);
            let rest = pages.drop_first();
            assert forall|i: int| 0 <= i < rest.len() implies download_links_spec(#[trigger] rest[i]) is Ok by {
                assert(rest[i] == pages[i + 1]);
            }
            lemma_asked_from_download_page(s2, download_base, rest);
            let end = if j + pages.len() < d.len() {
                j + pages.len() + 1int
            } else {
                d.len() as int
            };
            assert(seq![d[j + 1]] + d.subrange(j + 2, end) =~= d.subrange(j + 1, end));
        }
    }
}

/// Over a run, the lookup asks for the download pages of the episode page, in
/// order, each once: handed the episode page and then `m` readable download
/// pages, it has asked for the first `m + 1` download pages (all of them once
/// the last has come).
pub proof fn lemma_lookup_asks_for_each_download_page_once(
    download_base: Seq<char>,
    anime: AnimeView,
    episode_page: Seq<char>,
    pages: Seq<Seq<char>>,
)
    requires
        download_pages_spec(download_base, episode_page) matches Ok(d) && pages.len() <= d.len(),
        forall|i: int| 0 <= i < pages.len() ==> download_links_spec(#[trigger] pages[i]) is Ok,
    ensures
        ({
            let d = download_pages_spec(download_base, episode_page)->Ok_0;
            asked_addresses(fresh_lookup(anime), download_base, seq![episode_page] + pages) == d.take(
                if pages.len() < d.len() {
                    pages.len() + 1int
                } else {
                    d.len() as int
                },
            )
        }),
{
    let d = download_pages_spec(download_base, episode_page)->Ok_0;
    let all = seq![episode_page] + pages;
    assert(all[0] == episode_page);
    assert(all.drop_first() =~= pages);
    if d.len() == 0 {
        assert(d.take(0) =~= Seq::<Seq<char>>::empty());
    } else {
        let s0 = match next_step(fresh_lookup(anime), download_base, episode_page) {
            StepView::Fetch(n, _) => n,
            _ => fresh_lookup(anime),
        };
        assert(s0.downloads == Some(d) && s0.next == 0);
        lemma_asked_from_download_page(s0, download_base, pages);
        let end = if pages.len() < d.len() {
            pages.len() + 1int
        } else {
            d.len() as int
        };
        assert(seq![d[0]] + d.subrange(1, end) =~= d.take(end));
    }
}

pub proof fn lemma_flatten_prepend<A>(x: Seq<A>, rest: Seq<Seq<A>>)
    ensures
        flatten(seq![x] + rest) == x + flatten(rest),
    decreases rest.len(),
{
    let whole = seq![x] + rest;
    if rest.len() == 0 {
        assert(whole =~= seq![x]);
        assert(whole.drop_last() =~= Seq::<Seq<A>>::empty());
        assert(flatten(whole.drop_last()) == Seq::<A>::empty());
        assert(flatten(whole) == flatten(whole.drop_last()) + whole.last());
        assert(flatten(rest) == Seq::<A>::empty());
        assert(x + flatten(rest) =~= x);
        assert(Seq::<A>::empty() + x =~= x);
    } else {
        lemma_flatten_prepend(x, rest.drop_last());
        assert(whole.drop_last() =~= seq![x] + rest.drop_last());
        assert(whole.last() == rest.last());
        assert(flatten(whole) == flatten(whole.drop_last()) + whole.last());
        assert(flatten(rest) == flatten(rest.drop_last()) + rest.last());
        assert(x + flatten(rest.drop_last()) + rest.last() =~= x + (flatten(rest.drop_last())
            + rest.last()));
    }
}

/// Once the lookup waits for download page `next`, handing it the remaining
/// download pages finishes it with the links gathered so far followed by the
/// links of those pages.
proof fn lemma_download_pages_run(
    state: LookupView,
    download_base: Seq<char>,
    pages: Seq<Seq<char>>,
    found: Seq<Seq<Seq<char>>>,
)
    requires
        state.downloads matches Some(d) && d.len() == state.next + pages.len(),
        pages.len() > 0,
        pages.len() == found.len(),
        forall|i: int| 0 <= i < pages.len() ==> download_links_spec(#[trigger] pages[i]) == Ok::<
            Seq<Seq<char>>,
            Error,
        >(found[i]),
    ensures
        run_lookup(state, download_base, pages) == Some(
            StepView::Finished(with_episodes(state.anime, state.links + flatten(found))),
        ),
    decreases pages.len(),
{
    let d = state.downloads->0;
    assert(download_links_spec(pages[0]) == Ok::<Seq<Seq<char>>, Error>(found[0]));
    assert(found =~= seq![found[0]] + found.drop_first());
    lemma_flatten_prepend(found[0], found.drop_first());
    if pages.len() == 1 {
        assert(found.drop_first() =~= Seq::<Seq<Seq<char>>>::empty());
        assert(flatten(found.drop_first()) =~= Seq::<Seq<char>>::empty());
        assert(state.links + found[0] =~= state.links + flatten(found));
    } else {
        let next = LookupView {
            anime: state.anime,
            downloads: Some(d),
            next: state.next + 1,
            links: state.links + found[0],
        };
        assert forall|i: int| 0 <= i < pages.drop_first().len() implies download_links_spec(
            #[trigger] pages.drop_first()[i],
        ) == Ok::<Seq<Seq<char>>, Error>(found.drop_first()[i]) by {
            assert(pages.drop_first()[i] == pages[i + 1]);
        }
        lemma_download_pages_run(next, download_base, pages.drop_first(), found.drop_first());
        assert(state.links + found[0] + flatten(found.drop_first()) =~= state.links + flatten(
            found,
        ));
    }
}

/// A lookup handed the episode page and then each download page it asks for,
/// in order, finishes with one episode per link of those download pages, in the
/// order of the pages and of the links within each page, each with the quality
/// its link shows. With no download page it finishes at once with no episode.
pub proof fn lemma_lookup_gathers_all_links(
    download_base: Seq<char>,
    anime: AnimeView,
    episode_page: Seq<char>,
    download_pages: Seq<Seq<char>>,
    found: Seq<Seq<Seq<char>>>,
)
    requires
        download_pages_spec(download_base, episode_page) matches Ok(d) && d.len()
            == download_pages.len(),
        download_pages.len() == found.len(),
        forall|i: int| 0 <= i < download_pages.len() ==> download_links_spec(
            #[trigger] download_pages[i],
        ) == Ok::<Seq<Seq<char>>, Error>(found[i]),
    ensures
        run_lookup(fresh_lookup(anime), download_base, seq![episode_page] + download_pages)
            == Some(StepView::Finished(with_episodes(anime, flatten(found)))),
{
    let pages = seq![episode_page] + download_pages;
    assert(pages[0] == episode_page);
    assert(pages.drop_first() =~= download_pages);
    let d = download_pages_spec(download_base, episode_page)->Ok_0;
    if d.len() == 0 {
        assert(found =~= Seq::<Seq<Seq<char>>>::empty());
        assert(flatten(found) =~= Seq::<Seq<char>>::empty());
    } else {
        let next = LookupView { anime, downloads: Some(d), next: 0, links: Seq::empty() };
        lemma_download_pages_run(next, download_base, download_pages, found);
        assert(Seq::<Seq<char>>::empty() + flatten(found) =~= flatten(found));
    }
}

/// The anime with the episodes of the links as its qualities.
fn finish(anime: Anime, links: &Vec<String>) -> (a: Anime)
    ensures
        a@ == with_episodes(anime@, links.deep_view()),
{
    let mut anime = anime;
    anime.qualities = Some(episodes_of_links(links));
    anime
}

impl GoGoPlay {
    /// Starts looking up `episode` of `anime`: the lookup waits for the episode
    /// page, whose address comes with it.
    pub fn begin_episode_lookup(&self, anime: Anime, episode: u32) -> (r: (EpisodeLookup, String))
        requires
            episode_url_allowed(self.base(), anime@.root_url),
        ensures
            r.0@ == (LookupView {
                anime: anime@,
                downloads: None,
                next: 0,
                links: Seq::empty(),
            }),
            r.1@ == episode_page_url_spec(self.base(), anime@.root_url, episode),
    {
        let url = self.episode_page_url(&anime, episode);
        let lookup = EpisodeLookup { anime, downloads: None, next: 0, links: Vec::new() };
        assert(lookup.links.deep_view() =~= Seq::<Seq<char>>::empty());
        (lookup, url)
    }
}

impl EpisodeLookup {
    /// Hands the lookup the page it waited for (see [`next_step`]).
    pub fn advance(self, site: &GoGoPlay, page: &str) -> (r: LookupStep)
        requires
            self@.wf(),
        ensures
            r@ == next_step(self@, site.download_base(), page@),
            r matches LookupStep::Fetch(l, _) ==> l@.wf(),
    {
        let EpisodeLookup { anime, downloads, next, links } = self;
        match downloads {
            None => match site.download_page_urls(page) {
                Err(e) => LookupStep::Failed(e),
                Ok(d) => {
                    if d.len() == 0 {
                        let empty: Vec<String> = Vec::new();
                        assert(empty.deep_view() =~= Seq::<Seq<char>>::empty());
                        LookupStep::Finished(finish(anime, &empty))
                    } else {
                        let first = d[0].clone();
                        let lookup = EpisodeLookup {
                            anime,
                            downloads: Some(d),
                            next: 0,
                            links: Vec::new(),
                        };
                        assert(lookup.links.deep_view() =~= Seq::<Seq<char>>::empty());
                        LookupStep::Fetch(lookup, first)
                    }
                },
            },
            Some(d) => match download_links(page) {
                Err(e) => LookupStep::Failed(e),
                Ok(found) => {
                    let mut all = links;
                    let ghost before = all.deep_view();
                    assert(d.deep_view().len() == d.len());
                    let mut k: usize = 0;
                    while k < found.len()
                        invariant
                            k <= found.len(),
                            all.deep_view() == before + found.deep_view().take(k as int),
                            all@.len() == before.len() + k,
                        decreases found.len() - k,
                    {
                        let c = found[k].clone();
                        assert(c@ == found.deep_view()[k as int]);
                        let ghost old_all = all@;
                        all.push(c);
                        proof {
                            let lhs = all.deep_view();
                            let rhs = before + found.deep_view().take(k + 1);
                            assert forall|j: int| 0 <= j < lhs.len() implies lhs[j] == rhs[j] by {
                                if j < old_all.len() {
                                    assert(all@[j] == old_all[j]);
                                    assert(old_all.map_values(|s: String| s@)[j] == (before + found.deep_view().take(k as int))[j]);
                                }
                            }
                            assert(lhs =~= rhs);
                        }
                        k = k + 1;
                    }
                    assert(found.deep_view().take(k as int) =~= found.deep_view());
                    if next + 1 >= d.len() {
                        LookupStep::Finished(finish(anime, &all))
                    } else {
                        let url = d[next + 1].clone();
                        let lookup = EpisodeLookup { anime, downloads: Some(d), next: next + 1, links: all };
                        LookupStep::Fetch(lookup, url)
                    }
                },
            },
        }
    }
}

} // verus!
