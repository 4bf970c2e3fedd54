//! The gogo-play.net site as the command-line tool reads it: the pages to
//! fetch for an episode or a search, and what to read from them.

pub mod lookup;

use vstd::prelude::*;
use vstd::string::*;

use crate::anime::{quality_urls_of_links, quality_urls_spec, Anime, AnimeView};
use crate::error::Error;
use crate::html::{nested_selected_attributes, select_nested_attributes};
use crate::provider::gogoplay::{
    download_pages, download_pages_spec, flatten, get_title_from_url, lemma_flatten_split, present,
    strings_view, title_of_url, title_readable, title_readable_exec,
};
use crate::text::{
    chars_of, contains_exec, contains_seq, decimal, is_last_match, last_index, lemma_last_index,
    parse_u32, parse_u32_spec, push_decimal, rfind_seq, slice_vec,
};

verus! {

/// The gogo-play.net site, known by the address of its pages and of its
/// download pages.
pub struct GoGoPlay {
    base_url: String,
    download_base_url: String,
}

impl GoGoPlay {
    /// The address that the site's pages start with.
    pub closed spec fn base(&self) -> Seq<char> {
        self.base_url@
    }

    /// The address that the site's download pages start with.
    pub closed spec fn download_base(&self) -> Seq<char> {
        self.download_base_url@
    }
}

impl Default for GoGoPlay {
    fn default() -> (g: GoGoPlay)
        ensures
            g.base() == "https://gogo-play.net"@,
            g.download_base() == "https://gogo-stream.com/download"@,
    {
        GoGoPlay {
            base_url: String::from_str("https://gogo-play.net"),
            download_base_url: String::from_str("https://gogo-stream.com/download"),
        }
    }
}

/// The refusal for an episode past the known episode count.
pub open spec fn too_high_message() -> Seq<char> {
    "That high episode number is not available"@
}

/// The refusal for an episode without any download link.
pub open spec fn no_link_message() -> Seq<char> {
    "No link found"@
}

/// The episode lies past the episode count known of the anime.
pub open spec fn episode_too_high(max_episode: Option<u32>, episode: u32) -> bool {
    max_episode matches Some(v) && v < episode
}

/// The episode page: the site's address, the root url, `-` and the episode number.
pub open spec fn episode_page_url_spec(base: Seq<char>, root: Seq<char>, episode: u32) -> Seq<char> {
    base + root + "-"@ + decimal(episode as nat)
}

/// Every value is present.
pub open spec fn all_present(values: Seq<Option<Seq<char>>>) -> bool {
    forall|i: int| 0 <= i < values.len() ==> (#[trigger] values[i]) is Some
}

/// The links of a download page: the `href` of every link under a
/// `div.dowload` element, in the order of the page; a link without one is an error.
pub open spec fn download_links_spec(page: Seq<char>) -> Result<Seq<Seq<char>>, Error> {
    match nested_selected_attributes(page, "div.dowload"@, "a"@, "href"@) {
        None => Err(Error::Selector),
        Some(groups) => if all_present(flatten(groups)) {
            Ok(present(flatten(groups)))
        } else {
            Err(Error::MissingHref)
        },
    }
}

/// The position of the last `-` of a search result link.
pub open spec fn dash_index(link: Seq<char>) -> int {
    last_index(link, "-"@)
}

/// The root url of a search result link: what comes before its last `-`.
pub open spec fn root_of_link(link: Seq<char>) -> Seq<char> {
    link.take(dash_index(link))
}

/// The episode count of a search result link: what comes after its last `-`, as a number.
pub open spec fn count_of_link(link: Seq<char>) -> Option<u32> {
    parse_u32_spec(link.skip(dash_index(link) + 1))
}

/// Why a search result link cannot be read, if it cannot: the checks in the
/// order the tool makes them.
pub open spec fn link_problem(link: Option<Seq<char>>) -> Option<Error> {
    match link {
        None => Some(Error::MissingHref),
        Some(l) => if !contains_seq(l, "-"@) {
            Some(Error::NoNumberSeparator)
        } else if count_of_link(l) is None {
            Some(Error::InvalidEpisodeNumber)
        } else if !title_readable(root_of_link(l)) {
            Some(Error::NoTitle)
        } else {
            None
        },
    }
}

/// The anime that a search result link stands for.
pub open spec fn anime_of_link(link: Seq<char>) -> AnimeView {
    AnimeView {
        title: title_of_url(root_of_link(link)),
        root_url: root_of_link(link),
        max_episode: count_of_link(link),
        qualities: None,
    }
}

/// The anime of the search result links, in order, or the problem of the first
/// link that cannot be read.
pub open spec fn search_results_spec(links: Seq<Option<Seq<char>>>) -> Result<Seq<AnimeView>, Error>
    decreases links.len(),
{
    if links.len() == 0 {
        Ok(Seq::empty())
    } else {
        match search_results_spec(links.drop_last()) {
            Err(e) => Err(e),
            Ok(found) => match link_problem(links.last()) {
                Some(e) => Err(e),
                None => Ok(found.push(anime_of_link(links.last()->0))),
            },
        }
    }
}

/// The plain value of a list of anime, or of the error that came instead.
pub open spec fn anime_list_view(r: Result<Vec<Anime>, Error>) -> Result<Seq<AnimeView>, Error> {
    match r {
        Ok(v) => Ok(v@.map_values(|a: Anime| a@)),
        Err(e) => Err(e),
    }
}

/// A search gives one anime for each result link, in order, when every link can
/// be read; otherwise it gives the problem of the first link that cannot.
pub proof fn lemma_search_results_one_per_link(links: Seq<Option<Seq<char>>>)
    ensures
        search_results_spec(links) is Ok <==> forall|i: int|
            0 <= i < links.len() ==> link_problem(#[trigger] links[i]) is None,
        search_results_spec(links) matches Ok(found) ==> {
            &&& found.len() == links.len()
            &&& forall|i: int| 0 <= i < links.len() ==> #[trigger] found[i] == anime_of_link(links[i]->0)
        },
        search_results_spec(links) matches Err(e) ==> exists|i: int|
            0 <= i < links.len() && link_problem(#[trigger] links[i]) == Some(e) && forall|j: int|
                0 <= j < i ==> link_problem(#[trigger] links[j]) is None,
    decreases links.len(),
{
    if links.len() > 0 {
        let init = links.drop_last();
        lemma_search_results_one_per_link(init);
        assert forall|i: int| 0 <= i < init.len() implies init[i] == links[i] by {}
        let last = links.len() - 1;
        assert(links[last] == links.last());
        match search_results_spec(init) {
            Err(e) => {
                let i = choose|i: int| 0 <= i < init.len() && link_problem(#[trigger] init[i]) == Some(e) && forall|j: int|
                    0 <= j < i ==> link_problem(#[trigger] init[j]) is None;
                assert(link_problem(links[i]) == Some(e));
                assert forall|j: int| 0 <= j < i implies link_problem(#[trigger] links[j]) is None by {
                    assert(links[j] == init[j]);
                }
            },
            Ok(found) => {
                if link_problem(links.last()) is None {
                    assert forall|i: int| 0 <= i < links.len() implies link_problem(#[trigger] links[i]) is None by {
                        if i < last {
                            assert(links[i] == init[i]);
                        }
                    }
                } else {
                    assert forall|j: int| 0 <= j < last implies link_problem(#[trigger] links[j]) is None by {
                        assert(links[j] == init[j]);
                    }
                }
            },
        }
    }
}

proof fn lemma_search_error_persists(s: Seq<Option<Seq<char>>>, t: Seq<Option<Seq<char>>>)
    requires
        search_results_spec(s) is Err,
    ensures
        search_results_spec(s + t) == search_results_spec(s),
    decreases t.len(),
{
    if t.len() == 0 {
        assert(s + t =~= s);
    } else {
        lemma_search_error_persists(s, t.drop_last());
        assert((s + t).drop_last() =~= s + t.drop_last());
    }
}

/// The links of a download page; a link without an `href` is an error.
pub fn download_links(page: &str) -> (r: Result<Vec<String>, Error>)
    ensures
        strings_view(r) == download_links_spec(page@),
{
    match select_nested_attributes(page, "div.dowload", "a", "href") {
        Some(groups) => links_of_groups(&groups),
        None => Err(Error::Selector),
    }
}

/// The links of the groups, taken group by group and in order within each
/// group; a link that is not present is an error.
pub fn links_of_groups(groups: &Vec<Vec<Option<String>>>) -> (r: Result<Vec<String>, Error>)
    ensures
        strings_view(r) == if all_present(flatten(groups.deep_view())) {
            Ok::<Seq<Seq<char>>, Error>(present(flatten(groups.deep_view())))
        } else {
            Err(Error::MissingHref)
        },
{
    let ghost gv = groups.deep_view();
    let mut links: Vec<String> = Vec::new();
    let mut g: usize = 0;
    assert(gv.take(0) =~= Seq::<Seq<Option<Seq<char>>>>::empty());
    assert(flatten(gv.take(0)) =~= Seq::<Option<Seq<char>>>::empty());
    assert(links.deep_view() =~= Seq::<Seq<char>>::empty());
    while g < groups.len()
        invariant
            g <= groups.len(),
            gv == groups.deep_view(),
            all_present(flatten(gv.take(g as int))),
            links.deep_view() == present(flatten(gv.take(g as int))),
        decreases groups.len() - g,
    {
        let group = &groups[g];
        let ghost before = flatten(gv.take(g as int));
        assert(group.deep_view() == gv[g as int]);
        let mut k: usize = 0;
        assert(before + gv[g as int].take(0) =~= before);
        while k < group.len()
            invariant
                g < groups.len(),
                k <= group.len(),
                gv == groups.deep_view(),
                    group.deep_view() == gv[g as int],
                before == flatten(gv.take(g as int)),
                all_present(before + gv[g as int].take(k as int)),
                links.deep_view() == present(before + gv[g as int].take(k as int)),
            decreases group.len() - k,
        {
            let ghost vals = before + gv[g as int].take(k as int + 1);
            assert(vals.drop_last() =~= before + gv[g as int].take(k as int));
            assert(vals.last() == group[k as int].deep_view());
            let ghost old_links = links.deep_view();
            match &group[k] {
                Some(v) => {
                    links.push(v.clone());
                    assert(links.deep_view() =~= old_links.push(v@));
                    assert forall|i: int| 0 <= i < vals.len() implies (#[trigger] vals[i]) is Some by {
                        if i < vals.len() - 1 {
                            assert(vals[i] == vals.drop_last()[i]);
                        }
                    }
                },
                None => {
                    proof {
                        lemma_flatten_split(gv, g as int);
                        let all = flatten(gv);
                        assert(gv[g as int] =~= gv[g as int].take(k as int + 1) + gv[g as int].skip(
                            k as int + 1,
                        ));
                        assert(all[before.len() + k] == vals.last());
                    }
                    return Err(Error::MissingHref);
                },
            }
            k = k + 1;
        }
        assert(gv.take(g as int + 1).drop_last() =~= gv.take(g as int));
        assert(gv[g as int].take(k as int) =~= gv[g as int]);
        g = g + 1;
    }
    assert(gv.take(g as int) =~= gv);
    Ok(links)
}

impl GoGoPlay {
    /// Refuses an episode past the episode count known of the anime.
    pub fn check_episode(anime: &Anime, episode: u32) -> (r: Result<(), &'static str>)
        ensures
            r is Err <==> episode_too_high(anime@.max_episode, episode),
            r matches Err(m) ==> m@ == too_high_message(),
    {
        match anime.max_episode {
            Some(val) => {
                if val < episode {
                    return Err("That high episode number is not available");
                }
            },
            None => {},
        }
        Ok(())
    }

    /// The episode page of `episode` of `anime`.
    pub fn episode_page_url(&self, anime: &Anime, episode: u32) -> (r: String)
        ensures
            r@ == episode_page_url_spec(self.base(), anime@.root_url, episode),
    {
        let mut r = self.base_url.clone();
        r.append(anime.root_url.as_str());
        r.append("-");
        push_decimal(&mut r, episode);
        r
    }

    /// The download pages that an episode page leads to, or the problem of the
    /// first iframe that leads to none.
    pub fn download_page_urls(&self, page: &str) -> (r: Result<Vec<String>, Error>)
        ensures
            strings_view(r) == download_pages_spec(self.download_base(), page@),
    {
        download_pages(&self.download_base_url, page)
    }

    /// The search page for `what`.
    pub fn search_url(&self, what: &String) -> (r: String)
        ensures
            r@ == self.base() + "/search.html?keyword="@ + what@,
            r@.take(self.base().len() as int) == self.base(),
            r@.skip(r@.len() - what@.len()) == what@,
    {
        let mut r = self.base_url.clone();
        r.append("/search.html?keyword=");
        r.append(what.as_str());
        assert(r@.take(self.base().len() as int) =~= self.base());
        assert(r@.skip(r@.len() - what@.len()) =~= what@);
        r
    }
}

/// The anime that a search result link stands for, or why the link cannot be read.
pub fn read_link(link: &Option<String>) -> (r: Result<Anime, Error>)
    ensures
        match link_problem(link.deep_view()) {
            Some(e) => r matches Err(x) && x == e,
            None => r matches Ok(a) && a@ == anime_of_link(link.deep_view()->0),
        },
{
    let link = match link {
        Some(l) => l,
        None => return Err(Error::MissingHref),
    };
    let s = chars_of(link.as_str());
    let dash = chars_of("-");
    proof {
        reveal_strlit("-");
    }
    let last_dash = match rfind_seq(&s, &dash) {
        Some(i) => i,
        None => return Err(Error::NoNumberSeparator),
    };
    proof {
        lemma_last_index(s@, dash@, last_dash as int);
    }
    assert(is_last_match(s@, dash@, last_dash as int));
    let n = s.len();
    assert(last_dash + 1 <= s@.len());
    let text = slice_vec(&s, last_dash + 1, n);
    assert(text@ =~= s@.skip(last_dash + 1));
    let number = match parse_u32(&text) {
        Some(v) => v,
        None => return Err(Error::InvalidEpisodeNumber),
    };
    let root = link.as_str().substring_char(0, last_dash);
    assert(root@ =~= root_of_link(s@));
    let rs = chars_of(root);
    if !title_readable_exec(&rs) {
        return Err(Error::NoTitle);
    }
    let title = match get_title_from_url(root) {
        Ok(t) => t,
        Err(e) => return Err(e),
    };
    let mut anime = Anime::default();
    anime.max_episode = Some(number);
    anime.root_url = root.to_owned();
    anime.title = title;
    Ok(anime)
}

/// The anime that a search results page lists: one for each link under a
/// `ul.listing` element, in the order of the page, or the problem of the first
/// link that cannot be read.
pub fn search_results(page: &str) -> (r: Result<Vec<Anime>, Error>)
    ensures
        anime_list_view(r) == match nested_selected_attributes(page@, "ul.listing"@, "a"@, "href"@) {
            None => Err(Error::Selector),
            Some(groups) => search_results_spec(flatten(groups)),
        },
{
    match select_nested_attributes(page, "ul.listing", "a", "href") {
        Some(groups) => anime_of_links(&groups),
        None => Err(Error::Selector),
    }
}

/// The anime of the search result links, taken group by group and in order
/// within each group, or the problem of the first link that cannot be read.
pub fn anime_of_links(groups: &Vec<Vec<Option<String>>>) -> (r: Result<Vec<Anime>, Error>)
    ensures
        anime_list_view(r) == search_results_spec(flatten(groups.deep_view())),
{
    let ghost gv = groups.deep_view();
    let mut found: Vec<Anime> = Vec::new();
    let mut g: usize = 0;
    assert(gv.take(0) =~= Seq::<Seq<Option<Seq<char>>>>::empty());
    assert(flatten(gv.take(0)) =~= Seq::<Option<Seq<char>>>::empty());
    assert(found@.map_values(|a: Anime| a@) =~= Seq::<AnimeView>::empty());
    while g < groups.len()
        invariant
            g <= groups.len(),
            gv == groups.deep_view(),
            search_results_spec(flatten(gv.take(g as int))) == Ok::<Seq<AnimeView>, Error>(
                found@.map_values(|a: Anime| a@),
            ),
        decreases groups.len() - g,
    {
        let group = &groups[g];
        let ghost before = flatten(gv.take(g as int));
        assert(group.deep_view() == gv[g as int]);
        let mut k: usize = 0;
        assert(before + gv[g as int].take(0) =~= before);
        while k < group.len()
            invariant
                g < groups.len(),
                k <= group.len(),
                gv == groups.deep_view(),
                    group.deep_view() == gv[g as int],
                before == flatten(gv.take(g as int)),
                search_results_spec(before + gv[g as int].take(k as int)) == Ok::<
                    Seq<AnimeView>,
                    Error,
                >(found@.map_values(|a: Anime| a@)),
            decreases group.len() - k,
        {
            let ghost links = before + gv[g as int].take(k as int + 1);
            assert(links.drop_last() =~= before + gv[g as int].take(k as int));
            assert(links.last() == group[k as int].deep_view());
            let ghost old_found = found@;
            match read_link(&group[k]) {
                Ok(a) => {
                    found.push(a);
                    assert(found@.map_values(|a: Anime| a@) =~= old_found.map_values(
                        |a: Anime| a@,
                    ).push(a@));
                },
                Err(e) => {
                    proof {
                        assert(link_problem(links.last()) == Some(e));
                        assert(search_results_spec(links) == Err::<Seq<AnimeView>, Error>(e));
                        let rest = gv[g as int].skip(k as int + 1) + flatten(gv.skip(g as int + 1));
                        lemma_search_error_persists(links, rest);
                        lemma_flatten_split(gv, g as int);
                        assert(gv[g as int] =~= gv[g as int].take(k as int + 1) + gv[g as int].skip(
                            k as int + 1,
                        ));
                        assert(links + rest =~= flatten(gv));
                    }
                    return Err(e);
                },
            }
            k = k + 1;
        }
        assert(gv.take(g as int + 1).drop_last() =~= gv.take(g as int));
        assert(gv[g as int].take(k as int) =~= gv[g as int]);
        g = g + 1;
    }
    assert(gv.take(g as int) =~= gv);
    Ok(found)
}

} // verus!
