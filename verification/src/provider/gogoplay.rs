//! The gogo-play.net site: the pages to fetch and what to read from them.

pub mod lookup;

use vstd::prelude::*;
use vstd::string::*;
use vstd::utf8::*;

use crate::error::Error;
use crate::html::{
    nested_selected_attributes, select_attributes, select_nested_attributes, selected_attributes,
};
use crate::text::{
    after_byte, chars_of, contains_exec, contains_seq, decimal, find_seq, first_index,
    is_byte_boundary, is_first_match, is_last_match, last_index, lemma_after_prefix,
    lemma_first_index, lemma_last_exists, lemma_last_index, lemma_parse_decimal, matches_at,
    parse_u32, parse_u32_spec, push_decimal, remove_all, remove_char, rfind_seq, skip_bytes,
    slice_vec,
};
use crate::types::anime::{Anime, AnimeView};

verus! {

/// The gogo-play.net site, known by the address of its pages and of its
/// download pages.
pub struct GoGoPlay {
    base_url: String,
    download_base_url: String,
}

impl GoGoPlay {
    /// The address that the site's pages start with.
    pub closed spec fn base(&self) -> Seq<char> {
        self.base_url@
    }

    /// The address that the site's pages start with.
    pub fn base_url(&self) -> (r: &str)
        ensures
            r@ == self.base(),
    {
        self.base_url.as_str()
    }

    /// The address that the site's download pages start with.
    pub closed spec fn download_base(&self) -> Seq<char> {
        self.download_base_url@
    }
}

impl Default for GoGoPlay {
    fn default() -> (g: GoGoPlay)
        ensures
            g.base() == "https://gogo-play.net"@,
            g.download_base() == "https://gogo-stream.com/download"@,
    {
        GoGoPlay {
            base_url: String::from_str("https://gogo-play.net"),
            download_base_url: String::from_str("https://gogo-stream.com/download"),
        }
    }
}

/// The search page for `what`.
pub open spec fn search_url_spec(base: Seq<char>, what: Seq<char>) -> Seq<char> {
    base + "/search.html?keyword="@ + what
}

/// The search page keeps the query whole: its address is the site's address,
/// then `/search.html?keyword=`, then every character of the query, unchanged
/// and in order, spaces included; nothing follows the query.
pub proof fn lemma_search_url_keeps_query(base: Seq<char>, what: Seq<char>)
    ensures
        search_url_spec(base, what).len() == base.len() + "/search.html?keyword="@.len() + what.len(),
        search_url_spec(base, what).take(base.len() as int) == base,
        search_url_spec(base, what).subrange(
            base.len() as int,
            (base.len() + "/search.html?keyword="@.len()) as int,
        ) == "/search.html?keyword="@,
        search_url_spec(base, what).skip(search_url_spec(base, what).len() - what.len()) == what,
        forall|i: int|
            0 <= i < what.len() ==> #[trigger] search_url_spec(base, what)[base.len()
                + "/search.html?keyword="@.len() + i] == what[i],
{
    let kw = "/search.html?keyword="@;
    let r = search_url_spec(base, what);
    assert(r.take(base.len() as int) =~= base);
    assert(r.subrange(base.len() as int, (base.len() + kw.len()) as int) =~= kw);
    assert(r.skip(r.len() - what.len()) =~= what);
}

/// The title that a link to an episode page shows: what lies between its last
/// `/` and its last `-episode`.
pub open spec fn title_of_url(url: Seq<char>) -> Seq<char> {
    url.subrange(last_index(url, "/"@) + 1, last_index(url, "-episode"@))
}

/// The title can be read from the link: it has a `/` and an `-episode`, and the
/// last `/` comes before the last `-episode`.
pub open spec fn title_readable(url: Seq<char>) -> bool {
    &&& contains_seq(url, "/"@)
    &&& contains_seq(url, "-episode"@)
    &&& last_index(url, "/"@) < last_index(url, "-episode"@)
}

/// The text after the last `-episode-` of a search result link.
pub open spec fn episode_number_text(link: Seq<char>) -> Seq<char> {
    link.skip(last_index(link, "-episode-"@) + "-episode-"@.len())
}

/// The episode number of a search result link: the text after the last
/// `-episode-` read as a number, or, failing that, the same text read as a
/// number once every `-` is removed.
pub open spec fn episode_number(link: Seq<char>) -> Option<u32> {
    let t = episode_number_text(link);
    match parse_u32_spec(t) {
        Some(n) => Some(n),
        None => parse_u32_spec(remove_all(t, '-')),
    }
}

/// The anime that a search result link stands for, on a site whose pages start with `base`.
pub open spec fn anime_of_link(base: Seq<char>, link: Seq<char>) -> AnimeView {
    AnimeView {
        title: title_of_url(link),
        root_url: base + link.take(last_index(link, "-episode-"@)),
        max_episode: episode_number(link),
        qualities: None,
    }
}

/// Why a search result link cannot be read, if it cannot: the checks in the
/// order the site's reader makes them.
pub open spec fn link_problem(link: Option<Seq<char>>) -> Option<Error> {
    match link {
        None => Some(Error::MissingHref),
        Some(l) => if !contains_seq(l, "-episode-"@) {
            Some(Error::NoEpisodeMarker)
        } else if episode_number(l) is None {
            Some(Error::InvalidEpisodeNumber)
        } else if !title_readable(l) {
            Some(Error::NoTitle)
        } else {
            None
        },
    }
}

/// The anime of the search result links, in order, or the problem of the first
/// link that cannot be read.
pub open spec fn search_results_spec(base: Seq<char>, links: Seq<Option<Seq<char>>>) -> Result<
    Seq<AnimeView>,
    Error,
>
    decreases links.len(),
{
    if links.len() == 0 {
        Ok(Seq::empty())
    } else {
        match search_results_spec(base, links.drop_last()) {
            Err(e) => Err(e),
            Ok(found) => match link_problem(links.last()) {
                Some(e) => Err(e),
                None => Ok(found.push(anime_of_link(base, links.last()->0))),
            },
        }
    }
}

/// The episode number of a search result link (see `episode_number`).
fn episode_number_of(s: &Vec<char>) -> (r: Option<u32>)
    requires
        contains_seq(s@, "-episode-"@),
    ensures
        r == episode_number(s@),
{
    let marker = chars_of("-episode-");
    proof {
        reveal_strlit("-episode-");
    }
    let last_dash = match rfind_seq(s, &marker) {
        Some(i) => i,
        None => {
            return None;
        },
    };
    proof {
        lemma_last_index(s@, marker@, last_dash as int);
    }
    assert(marker@.len() == 9);
    assert(is_last_match(s@, marker@, last_dash as int));
    let n = s.len();
    assert(last_dash + marker@.len() <= s@.len());
    let text = slice_vec(s, last_dash + marker.len(), n);
    assert(text@ == episode_number_text(s@));
    match parse_u32(&text) {
        Some(n) => Some(n),
        None => {
            let digits = remove_char(&text, '-');
            parse_u32(&digits)
        },
    }
}

/// Whether the title can be read from the link (see `title_readable`).
pub fn title_readable_exec(s: &Vec<char>) -> (b: bool)
    ensures
        b == title_readable(s@),
{
    let slash = chars_of("/");
    let marker = chars_of("-episode");
    match (rfind_seq(s, &slash), rfind_seq(s, &marker)) {
        (Some(b), Some(e)) => {
            proof {
                lemma_last_index(s@, slash@, b as int);
                lemma_last_index(s@, marker@, e as int);
            }
            b < e
        },
        _ => false,
    }
}

/// The concatenation of the groups, in order.
pub open spec fn flatten<A>(groups: Seq<Seq<A>>) -> Seq<A>
    decreases groups.len(),
{
    if groups.len() == 0 {
        Seq::empty()
    } else {
        flatten(groups.drop_last()) + groups.last()
    }
}

/// Once a link cannot be read, the search results are that link's problem,
/// whatever links follow it.
proof fn lemma_search_error_persists(base: Seq<char>, s: Seq<Option<Seq<char>>>, t: Seq<Option<Seq<char>>>)
    requires
        search_results_spec(base, s) is Err,
    ensures
        search_results_spec(base, s + t) == search_results_spec(base, s),
    decreases t.len(),
{
    if t.len() == 0 {
        assert(s + t =~= s);
    } else {
        lemma_search_error_persists(base, s, t.drop_last());
        assert((s + t).drop_last() =~= s + t.drop_last());
    }
}

/// The flattening of the first `g + 1` groups.
pub proof fn lemma_flatten_take<A>(groups: Seq<Seq<A>>, g: int)
    requires
        0 <= g < groups.len(),
    ensures
        flatten(groups.take(g + 1)) == flatten(groups.take(g)) + groups[g],
{
    assert(groups.take(g + 1).drop_last() =~= groups.take(g));
}

/// The flattening of all groups splits around group `g`.
pub proof fn lemma_flatten_split<A>(groups: Seq<Seq<A>>, g: int)
    requires
        0 <= g < groups.len(),
    ensures
        flatten(groups) == flatten(groups.take(g)) + groups[g] + flatten(groups.skip(g + 1)),
    decreases groups.len(),
{
    if g == groups.len() - 1 {
        assert(groups.skip(g + 1) =~= Seq::<Seq<A>>::empty());
        assert(groups.take(g) =~= groups.drop_last());
        assert(flatten(groups.skip(g + 1)) =~= Seq::<A>::empty());
    } else {
        lemma_flatten_split(groups.drop_last(), g);
        assert(groups.drop_last().take(g) =~= groups.take(g));
        assert(groups.drop_last()[g] == groups[g]);
        assert(groups.skip(g + 1).drop_last() =~= groups.drop_last().skip(g + 1));
        assert(groups.skip(g + 1).last() == groups.last());
    }
}

/// The plain value of a list of anime, or of the error that came instead.
pub open spec fn anime_list_view(r: Result<Vec<Anime>, Error>) -> Result<Seq<AnimeView>, Error> {
    match r {
        Ok(v) => Ok(v@.map_values(|a: Anime| a@)),
        Err(e) => Err(e),
    }
}

/// The episode page of an anime: the site's address, the anime's root url
/// without its first bytes (as many as the site's address has), `-episode-` and
/// the episode number.
pub open spec fn episode_page_url_spec(base: Seq<char>, root: Seq<char>, episode: u32) -> Seq<char> {
    base + after_byte(root, encode_utf8(base).len() as int) + "-episode-"@ + decimal(episode as nat)
}

/// The anime's root url can be cut where the site's address ends.
pub open spec fn episode_url_allowed(base: Seq<char>, root: Seq<char>) -> bool {
    is_byte_boundary(root, encode_utf8(base).len() as int)
}

/// The path of an iframe source: the source without its first two bytes (`//`).
pub open spec fn iframe_path(src: Seq<char>) -> Seq<char> {
    after_byte(src, 2)
}

/// Why an iframe source does not lead to a download page, if it does not.
pub open spec fn source_problem(src: Option<Seq<char>>) -> Option<Error> {
    match src {
        None => Some(Error::MissingSource),
        Some(s) => if !is_byte_boundary(s, 2) {
            Some(Error::BadSource)
        } else if !contains_seq(iframe_path(s), "streaming.php"@) {
            Some(Error::NoStreamingPath)
        } else {
            None
        },
    }
}

/// The download page that an iframe source leads to: the download address
/// followed by what comes after the first `streaming.php` of the source's path.
pub open spec fn download_url_of(download_base: Seq<char>, src: Seq<char>) -> Seq<char> {
    let p = iframe_path(src);
    download_base + p.skip(first_index(p, "streaming.php"@) + "streaming.php"@.len())
}

/// The download pages of the iframe sources, in order, or the problem of the
/// first source that leads to none.
pub open spec fn download_urls_spec(download_base: Seq<char>, srcs: Seq<Option<Seq<char>>>) -> Result<
    Seq<Seq<char>>,
    Error,
>
    decreases srcs.len(),
{
    if srcs.len() == 0 {
        Ok(Seq::empty())
    } else {
        match download_urls_spec(download_base, srcs.drop_last()) {
            Err(e) => Err(e),
            Ok(urls) => match source_problem(srcs.last()) {
                Some(e) => Err(e),
                None => Ok(urls.push(download_url_of(download_base, srcs.last()->0))),
            },
        }
    }
}

/// The values that are present, in order.
pub open spec fn present(values: Seq<Option<Seq<char>>>) -> Seq<Seq<char>>
    decreases values.len(),
{
    if values.len() == 0 {
        Seq::empty()
    } else {
        match values.last() {
            Some(v) => present(values.drop_last()).push(v),
            None => present(values.drop_last()),
        }
    }
}

/// The links of a download page: the `href` of every link under a
/// `div.dowload` element that has one, in the order of the page.
pub open spec fn download_links_spec(page: Seq<char>) -> Result<Seq<Seq<char>>, Error> {
    match nested_selected_attributes(page, "div.dowload"@, "a"@, "href"@) {
        None => Err(Error::Selector),
        Some(groups) => Ok(present(flatten(groups))),
    }
}

/// The download pages that an episode page leads to.
pub open spec fn download_pages_spec(download_base: Seq<char>, page: Seq<char>) -> Result<
    Seq<Seq<char>>,
    Error,
> {
    match selected_attributes(page, "iframe"@, "src"@) {
        None => Err(Error::Selector),
        Some(srcs) => download_urls_spec(download_base, srcs),
    }
}

/// The plain value of a list of strings, or of the error that came instead.
pub open spec fn strings_view(r: Result<Vec<String>, Error>) -> Result<Seq<Seq<char>>, Error> {
    match r {
        Ok(v) => Ok(v.deep_view()),
        Err(e) => Err(e),
    }
}

proof fn lemma_download_error_persists(
    download_base: Seq<char>,
    s: Seq<Option<Seq<char>>>,
    t: Seq<Option<Seq<char>>>,
)
    requires
        download_urls_spec(download_base, s) is Err,
    ensures
        download_urls_spec(download_base, s + t) == download_urls_spec(download_base, s),
    decreases t.len(),
{
    if t.len() == 0 {
        assert(s + t =~= s);
    } else {
        lemma_download_error_persists(download_base, s, t.drop_last());
        assert((s + t).drop_last() =~= s + t.drop_last());
    }
}

/// An anime found by a search result link leads back to that link: when the
/// text after the link's last `-episode-` is the plain decimal notation of a
/// number, the anime lists that number as its episode count, its episode page
/// can be formed, and the page of that episode is the site's address followed
/// by the link itself.
pub proof fn lemma_found_anime_leads_back_to_its_link(base: Seq<char>, link: Seq<char>, n: u32)
    requires
        contains_seq(link, "-episode-"@),
        episode_number_text(link) == decimal(n as nat),
    ensures
        anime_of_link(base, link).max_episode == Some(n),
        episode_url_allowed(base, anime_of_link(base, link).root_url),
        episode_page_url_spec(base, anime_of_link(base, link).root_url, n) == base + link,
{
    reveal_strlit("-episode-");
    let pat = "-episode-"@;
    let k = choose|i: int| matches_at(link, pat, i);
    lemma_last_exists(link, pat, k);
    let m = last_index(link, pat);
    assert(matches_at(link, pat, m));
    lemma_parse_decimal(n);
    let root = link.take(m);
    lemma_after_prefix(base, root);
    assert(base + root == anime_of_link(base, link).root_url);
    assert(link =~= root + link.subrange(m, m + 9) + link.skip(m + 9));
    assert(base + root + pat + decimal(n as nat) =~= base + link);
}

/// A search gives one anime for each result link, in order, when every link can
/// be read; otherwise it gives the problem of the first link that cannot.
pub proof fn lemma_search_results_one_per_link(base: Seq<char>, links: Seq<Option<Seq<char>>>)
    ensures
        search_results_spec(base, links) is Ok <==> forall|i: int|
            0 <= i < links.len() ==> link_problem(#[trigger] links[i]) is None,
        search_results_spec(base, links) matches Ok(found) ==> {
            &&& found.len() == links.len()
            &&& forall|i: int| 0 <= i < links.len() ==> #[trigger] found[i] == anime_of_link(base, links[i]->0)
        },
        search_results_spec(base, links) matches Err(e) ==> exists|i: int|
            0 <= i < links.len() && link_problem(#[trigger] links[i]) == Some(e) && forall|j: int|
                0 <= j < i ==> link_problem(#[trigger] links[j]) is None,
    decreases links.len(),
{
    if links.len() > 0 {
        let init = links.drop_last();
        lemma_search_results_one_per_link(base, init);
        assert forall|i: int| 0 <= i < init.len() implies init[i] == links[i] by {}
        let last = links.len() - 1;
        assert(links[last] == links.last());
        match search_results_spec(base, init) {
            Err(e) => {
                let i = choose|i: int| 0 <= i < init.len() && link_problem(#[trigger] init[i]) == Some(e) && forall|j: int|
                    0 <= j < i ==> link_problem(#[trigger] init[j]) is None;
                assert(link_problem(links[i]) == Some(e));
                assert forall|j: int| 0 <= j < i implies link_problem(#[trigger] links[j]) is None by {
                    assert(links[j] == init[j]);
                }
            },
            Ok(found) => {
                if link_problem(links.last()) is None {
                    assert forall|i: int| 0 <= i < links.len() implies link_problem(#[trigger] links[i]) is None by {
                        if i < last {
                            assert(links[i] == init[i]);
                        }
                    }
                } else {
                    assert forall|j: int| 0 <= j < last implies link_problem(#[trigger] links[j]) is None by {
                        assert(links[j] == init[j]);
                    }
                }
            },
        }
    }
}

/// An episode page leads to one download page for each of its iframes, in
/// order, when every iframe source leads to one; otherwise it gives the problem
/// of the first source that does not.
pub proof fn lemma_download_urls_one_per_source(download_base: Seq<char>, srcs: Seq<Option<Seq<char>>>)
    ensures
        download_urls_spec(download_base, srcs) is Ok <==> forall|i: int|
            0 <= i < srcs.len() ==> source_problem(#[trigger] srcs[i]) is None,
        download_urls_spec(download_base, srcs) matches Ok(urls) ==> {
            &&& urls.len() == srcs.len()
            &&& forall|i: int| 0 <= i < srcs.len() ==> #[trigger] urls[i] == download_url_of(download_base, srcs[i]->0)
        },
        download_urls_spec(download_base, srcs) matches Err(e) ==> exists|i: int|
            0 <= i < srcs.len() && source_problem(#[trigger] srcs[i]) == Some(e) && forall|j: int|
                0 <= j < i ==> source_problem(#[trigger] srcs[j]) is None,
    decreases srcs.len(),
{
    if srcs.len() > 0 {
        let init = srcs.drop_last();
        lemma_download_urls_one_per_source(download_base, init);
        let last = srcs.len() - 1;
        assert(srcs[last] == srcs.last());
        match download_urls_spec(download_base, init) {
            Err(e) => {
                let i = choose|i: int| 0 <= i < init.len() && source_problem(#[trigger] init[i]) == Some(e) && forall|j: int|
                    0 <= j < i ==> source_problem(#[trigger] init[j]) is None;
                assert(source_problem(srcs[i]) == Some(e));
                assert forall|j: int| 0 <= j < i implies source_problem(#[trigger] srcs[j]) is None by {
                    assert(srcs[j] == init[j]);
                }
            },
            Ok(urls) => {
                if source_problem(srcs.last()) is None {
                    assert forall|i: int| 0 <= i < srcs.len() implies source_problem(#[trigger] srcs[i]) is None by {
                        if i < last {
                            assert(srcs[i] == init[i]);
                        }
                    }
                } else {
                    assert forall|j: int| 0 <= j < last implies source_problem(#[trigger] srcs[j]) is None by {
                        assert(srcs[j] == init[j]);
                    }
                }
            },
        }
    }
}

/// The title of an anime read from a link to one of its episode pages:
/// what lies between the last `/` and the last `-episode`.
pub fn get_title_from_url(url: &str) -> (r: Result<String, Error>)
    requires
        title_readable(url@),
    ensures
        r matches Ok(t) && t@ == title_of_url(url@),
{
    let s = chars_of(url);
    let slash = chars_of("/");
    let marker = chars_of("-episode");
    let begin = rfind_seq(&s, &slash);
    let end = rfind_seq(&s, &marker);
    match (begin, end) {
        (Some(b), Some(e)) => {
            proof {
                lemma_last_index(s@, slash@, b as int);
                lemma_last_index(s@, marker@, e as int);
            }
            Ok(url.substring_char(b + 1, e).to_owned())
        },
        _ => {
            assert(false);
            Err(Error::NoTitle)
        },
    }
}

impl GoGoPlay {
    /// The search page for `what`.
    pub fn search_url(&self, what: &str) -> (r: String)
        ensures
            r@ == search_url_spec(self.base(), what@),
            r@.take(self.base().len() as int) == self.base(),
            r@.skip(r@.len() - what@.len()) == what@,
            r@.len() == self.base().len() + "/search.html?keyword="@.len() + what@.len(),
    {
        proof {
            lemma_search_url_keeps_query(self.base(), what@);
        }
        let mut r = self.base_url.clone();
        r.append("/search.html?keyword=");
        r.append(what);
        r
    }

    /// The anime that a search result link stands for, or why the link cannot be read.
    pub fn read_link(&self, link: &Option<String>) -> (r: Result<Anime, Error>)
        ensures
            match link_problem(link.deep_view()) {
                Some(e) => r matches Err(x) && x == e,
                None => r matches Ok(a) && a@ == anime_of_link(self.base(), link.deep_view()->0),
            },
    {
        let link = match link {
            Some(l) => l,
            None => return Err(Error::MissingHref),
        };
        let s = chars_of(link.as_str());
        if !contains_exec(&s, "-episode-") {
            return Err(Error::NoEpisodeMarker);
        }
        if episode_number_of(&s).is_none() {
            return Err(Error::InvalidEpisodeNumber);
        }
        if !title_readable_exec(&s) {
            return Err(Error::NoTitle);
        }
        self.anime_from_link(link.as_str())
    }

    /// The anime that a search results page lists: one for each link under a
    /// `ul.listing` element, in the order of the page, or the problem of the first
    /// link that cannot be read.
    pub fn search_results(&self, page: &str) -> (r: Result<Vec<Anime>, Error>)
        ensures
            anime_list_view(r) == match nested_selected_attributes(
                page@,
                "ul.listing"@,
                "a"@,
                "href"@,
            ) {
                None => Err(Error::Selector),
                Some(groups) => search_results_spec(self.base(), flatten(groups)),
            },
    {
        match select_nested_attributes(page, "ul.listing", "a", "href") {
            Some(groups) => self.anime_of_links(&groups),
            None => Err(Error::Selector),
        }
    }

    /// The anime of the search result links, taken group by group and in order
    /// within each group, or the problem of the first link that cannot be read.
    pub fn anime_of_links(&self, groups: &Vec<Vec<Option<String>>>) -> (r: Result<Vec<Anime>, Error>)
        ensures
            anime_list_view(r) == search_results_spec(self.base(), flatten(groups.deep_view())),
    {
        let ghost gv = groups.deep_view();
        let mut found: Vec<Anime> = Vec::new();
        let mut g: usize = 0;
        assert(gv.take(0) =~= Seq::<Seq<Option<Seq<char>>>>::empty());
        assert(flatten(gv.take(0)) =~= Seq::<Option<Seq<char>>>::empty());
        assert(found@.map_values(|a: Anime| a@) =~= Seq::<AnimeView>::empty());
        while g < groups.len()
            invariant
                g <= groups.len(),
                gv == groups.deep_view(),
                search_results_spec(self.base(), flatten(gv.take(g as int))) == Ok::<
                    Seq<AnimeView>,
                    Error,
                >(found@.map_values(|a: Anime| a@)),
            decreases groups.len() - g,
        {
            let group = &groups[g];
            let ghost before = flatten(gv.take(g as int));
            assert(group.deep_view() == gv[g as int]);
            let mut k: usize = 0;
            assert(before + gv[g as int].take(0) =~= before);
            while k < group.len()
                invariant
                    g < groups.len(),
                    k <= group.len(),
                    gv == groups.deep_view(),
                    group.deep_view() == gv[g as int],
                    before == flatten(gv.take(g as int)),
                    search_results_spec(self.base(), before + gv[g as int].take(k as int)) == Ok::<
                        Seq<AnimeView>,
                        Error,
                    >(found@.map_values(|a: Anime| a@)),
                decreases group.len() - k,
            {
                let ghost links = before + gv[g as int].take(k as int + 1);
                assert(links.drop_last() =~= before + gv[g as int].take(k as int));
                assert(links.last() == group[k as int].deep_view());
                let ghost old_found = found@;
                match self.read_link(&group[k]) {
                    Ok(a) => {
                        found.push(a);
                        assert(found@.map_values(|a: Anime| a@) =~= old_found.map_values(
                            |a: Anime| a@,
                        ).push(a@));
                    },
                    Err(e) => {
                        proof {
                            assert(link_problem(links.last()) == Some(e));
                            assert(search_results_spec(self.base(), links) == Err::<Seq<AnimeView>, Error>(e));
                            let rest = gv[g as int].skip(k as int + 1) + flatten(
                                gv.skip(g as int + 1),
                            );
                            lemma_search_error_persists(self.base(), links, rest);
                            lemma_flatten_split(gv, g as int);
                            assert(gv[g as int] =~= gv[g as int].take(k as int + 1) + gv[g as int].skip(k as int + 1));
                            assert(links + rest =~= flatten(gv));
                        }
                        return Err(e);
                    },
                }
                k = k + 1;
            }
            assert(gv.take(g as int + 1).drop_last() =~= gv.take(g as int));
            assert(gv[g as int].take(k as int) =~= gv[g as int]);
            g = g + 1;
        }
        assert(gv.take(g as int) =~= gv);
        Ok(found)
    }

    /// The anime that a search result link stands for. Fails only when the
    /// episode number cannot be read.
    pub fn anime_from_link(&self, link: &str) -> (r: Result<Anime, Error>)
        requires
            contains_seq(link@, "-episode-"@),
            episode_number(link@) is Some ==> title_readable(link@),
        ensures
            match r {
                Ok(a) => episode_number(link@) is Some && a@ == anime_of_link(self.base(), link@),
                Err(e) => episode_number(link@) is None && e == Error::InvalidEpisodeNumber,
            },
    {
        let s = chars_of(link);
        let number = match episode_number_of(&s) {
            Some(n) => n,
            None => return Err(Error::InvalidEpisodeNumber),
        };
        let marker = chars_of("-episode-");
        let last_dash = match rfind_seq(&s, &marker) {
            Some(i) => i,
            None => {
                assert(false);
                return Err(Error::NoEpisodeMarker);
            },
        };
        proof {
            lemma_last_index(s@, marker@, last_dash as int);
        }
        let mut anime = Anime::default();
        anime.max_episode = Some(number);
        let mut root_url = self.base_url.clone();
        root_url.append(link.substring_char(0, last_dash));
        anime.root_url = root_url;
        match get_title_from_url(link) {
            Ok(t) => anime.title = t,
            Err(e) => return Err(e),
        }
        assert(anime@.root_url =~= anime_of_link(self.base(), link@).root_url);
        Ok(anime)
    }
}

impl GoGoPlay {
    /// The episode page of `episode` of `anime`.
    pub fn episode_page_url(&self, anime: &Anime, episode: u32) -> (r: String)
        requires
            episode_url_allowed(self.base(), anime@.root_url),
        ensures
            r@ == episode_page_url_spec(self.base(), anime@.root_url, episode),
    {
        let n = self.base_url.as_str().as_bytes().len();
        let rest = skip_bytes(anime.root_url.as_str(), n);
        let mut r = self.base_url.clone();
        r.append(rest);
        r.append("-episode-");
        push_decimal(&mut r, episode);
        r
    }

    /// The download pages that an episode page leads to: one for each iframe of
    /// the page, in order, or the problem of the first iframe that leads to none.
    pub fn download_page_urls(&self, page: &str) -> (r: Result<Vec<String>, Error>)
        ensures
            strings_view(r) == download_pages_spec(self.download_base(), page@),
    {
        download_pages(&self.download_base_url, page)
    }
}

/// The download page that an iframe source leads to.
pub fn download_page_url(download_base: &String, src: &str) -> (r: String)
    requires
        source_problem(Some(src@)) is None,
    ensures
        r@ == download_url_of(download_base@, src@),
{
    let path = skip_bytes(src, 2);
    let p = chars_of(path);
    let marker = chars_of("streaming.php");
    proof {
        reveal_strlit("streaming.php");
    }
    assert(marker@.len() == 13);
    let begin = match find_seq(&p, &marker) {
        Some(i) => i,
        None => {
            assert(false);
            0
        },
    };
    proof {
        lemma_first_index(p@, marker@, begin as int);
    }
    let n = p.len();
    assert(begin + marker@.len() <= p@.len());
    let mut r = download_base.clone();
    r.append(path.substring_char(begin + marker.len(), n));
    assert(p@.subrange(begin + 13, p@.len() as int) =~= p@.skip(begin + 13));
    r
}

/// The download page that an iframe source leads to, or why it leads to none.
pub fn read_source(download_base: &String, src: &Option<String>) -> (r: Result<String, Error>)
    ensures
        match source_problem(src.deep_view()) {
            Some(e) => r matches Err(x) && x == e,
            None => r matches Ok(u) && u@ == download_url_of(download_base@, src.deep_view()->0),
        },
{
    let src = match src {
        Some(s) => s.as_str(),
        None => return Err(Error::MissingSource),
    };
    if !src.is_char_boundary(2) {
        return Err(Error::BadSource);
    }
    let path = chars_of(skip_bytes(src, 2));
    if !contains_exec(&path, "streaming.php") {
        return Err(Error::NoStreamingPath);
    }
    Ok(download_page_url(download_base, src))
}

/// The download pages that an episode page leads to: one for each iframe of
/// the page, in order, or the problem of the first iframe that leads to none.
pub fn download_pages(download_base: &String, page: &str) -> (r: Result<Vec<String>, Error>)
    ensures
        strings_view(r) == download_pages_spec(download_base@, page@),
{
    match select_attributes(page, "iframe", "src") {
        Some(srcs) => download_urls(download_base, &srcs),
        None => Err(Error::Selector),
    }
}

/// The download pages of the iframe sources, in order, or the problem of the
/// first source that leads to none.
pub fn download_urls(download_base: &String, srcs: &Vec<Option<String>>) -> (r: Result<Vec<String>, Error>)
    ensures
        strings_view(r) == download_urls_spec(download_base@, srcs.deep_view()),
{
    let ghost sv = srcs.deep_view();
    let mut urls: Vec<String> = Vec::new();
    let mut i: usize = 0;
    assert(sv.take(0) =~= Seq::<Option<Seq<char>>>::empty());
    assert(urls.deep_view() =~= Seq::<Seq<char>>::empty());
    while i < srcs.len()
        invariant
            i <= srcs.len(),
            sv == srcs.deep_view(),
            download_urls_spec(download_base@, sv.take(i as int)) == Ok::<
                Seq<Seq<char>>,
                Error,
            >(urls.deep_view()),
        decreases srcs.len() - i,
    {
        assert(sv.take(i + 1).drop_last() =~= sv.take(i as int));
        assert(sv.take(i + 1).last() == srcs[i as int].deep_view());
        let ghost old_urls = urls.deep_view();
        match read_source(download_base, &srcs[i]) {
            Ok(u) => {
                urls.push(u);
                assert(urls.deep_view() =~= old_urls.push(u@));
            },
            Err(e) => {
                proof {
                    lemma_download_error_persists(
                        download_base@,
                        sv.take(i + 1),
                        sv.skip(i + 1),
                    );
                    assert(sv.take(i + 1) + sv.skip(i + 1) =~= sv);
                }
                return Err(e);
            },
        }
        i = i + 1;
    }
    assert(sv.take(i as int) =~= sv);
    Ok(urls)
}

/// The links of a download page: the `href` of every link under a
/// `div.dowload` element, in the order of the page; links without one are skipped.
pub fn download_links(page: &str) -> (r: Result<Vec<String>, Error>)
    ensures
        strings_view(r) == download_links_spec(page@),
{
    match select_nested_attributes(page, "div.dowload", "a", "href") {
        Some(groups) => Ok(present_links(&groups)),
        None => Err(Error::Selector),
    }
}

/// The links that are present, taken group by group and in order within each
/// group.
pub fn present_links(groups: &Vec<Vec<Option<String>>>) -> (r: Vec<String>)
    ensures
        r.deep_view() == present(flatten(groups.deep_view())),
{
    let ghost gv = groups.deep_view();
    let mut links: Vec<String> = Vec::new();
    let mut g: usize = 0;
    assert(gv.take(0) =~= Seq::<Seq<Option<Seq<char>>>>::empty());
    assert(flatten(gv.take(0)) =~= Seq::<Option<Seq<char>>>::empty());
    assert(links.deep_view() =~= Seq::<Seq<char>>::empty());
    while g < groups.len()
        invariant
            g <= groups.len(),
            gv == groups.deep_view(),
            links.deep_view() == present(flatten(gv.take(g as int))),
        decreases groups.len() - g,
    {
        let group = &groups[g];
        let ghost before = flatten(gv.take(g as int));
        assert(group.deep_view() == gv[g as int]);
        let mut k: usize = 0;
        assert(before + gv[g as int].take(0) =~= before);
        while k < group.len()
            invariant
                g < groups.len(),
                k <= group.len(),
                group.deep_view() == gv[g as int],
                links.deep_view() == present(before + gv[g as int].take(k as int)),
            decreases group.len() - k,
        {
            let ghost vals = before + gv[g as int].take(k as int + 1);
            assert(vals.drop_last() =~= before + gv[g as int].take(k as int));
            assert(vals.last() == group[k as int].deep_view());
            let ghost old_links = links.deep_view();
            match &group[k] {
                Some(v) => {
                    links.push(v.clone());
                    assert(links.deep_view() =~= old_links.push(v@));
                },
                None => {},
            }
            k = k + 1;
        }
        proof {
            lemma_flatten_take(gv, g as int);
        }
        assert(gv[g as int].take(k as int) =~= gv[g as int]);
        g = g + 1;
    }
    assert(gv.take(g as int) =~= gv);
    links
}

} // verus!
