use anime_dl::error::Error;
use anime_dl::provider::gogoplay::lookup::LookupStep;
use anime_dl::provider::gogoplay::{
    download_links, download_page_url, download_pages, download_urls, get_title_from_url,
    present_links, read_source,
};
use anime_dl::provider::GoGoPlay;
use anime_dl::types::anime::Anime;
use anime_dl::types::quality::Quality;

fn listing(links: &[&str]) -> String {
    let mut page = String::from("<html><body><ul class=\"listing\">");
    for l in links {
        page.push_str(&format!("<li><a href=\"{}\">x</a></li>", l));
    }
    page.push_str("</ul></body></html>");
    page
}

fn check(found: &Vec<Anime>, expected: &[(&str, &str, u32)]) {
    assert_eq!(found.len(), expected.len());
    for (a, (title, root, max)) in found.iter().zip(expected.iter()) {
        assert_eq!(a.title, *title);
        assert_eq!(a.root_url, *root);
        assert_eq!(a.max_episode, Some(*max));
        assert!(a.qualities.is_none());
    }
}

#[test]
fn title_between_last_slash_and_episode() {
    assert_eq!(
        get_title_from_url("/videos/bleach-movie-2-the-diamond-dust-rebellion-episode-1").unwrap(),
        "bleach-movie-2-the-diamond-dust-rebellion"
    );
    assert_eq!(get_title_from_url("a/b/naruto-episode-3-episode-4").unwrap(), "naruto-episode-3");
    assert_eq!(get_title_from_url("/-episode-1").unwrap(), "");
}

#[test]
fn search_url_of_site() {
    let g = GoGoPlay::default();
    assert_eq!(g.search_url("Bleach"), "https://gogo-play.net/search.html?keyword=Bleach");
}

#[test]
fn search_results_diamond_dust_page() {
    let g = GoGoPlay::default();
    let page = listing(&[
        "/videos/bleach-movie-2-the-diamond-dust-rebellion-episode-1",
        "/videos/bleach-the-movie-2-the-diamonddust-rebellion-dub-episode-1",
    ]);
    let found = g.search_results(&page).ok().unwrap();
    check(
        &found,
        &[
            (
                "bleach-movie-2-the-diamond-dust-rebellion",
                "https://gogo-play.net/videos/bleach-movie-2-the-diamond-dust-rebellion",
                1,
            ),
            (
                "bleach-the-movie-2-the-diamonddust-rebellion-dub",
                "https://gogo-play.net/videos/bleach-the-movie-2-the-diamonddust-rebellion-dub",
                1,
            ),
        ],
    );
}

#[test]
fn search_results_slime_page() {
    let g = GoGoPlay::default();
    let page = listing(&[
        "/videos/tensei-shitara-slime-datta-ken-episode-249",
        "/videos/tensei-shitara-slime-datta-ken-ova-episode-5",
        "/videos/tensei-shitara-slime-datta-ken-dub-episode-249",
        "/videos/tensei-shitara-slime-datta-ken-ova-dub-episode-5",
        "/videos/tensei-shitara-slime-datta-ken-2nd-season-episode-12",
        "/videos/tensei-shitara-slime-datta-ken-2nd-season-dub-episode-4",
    ]);
    let found = g.search_results(&page).ok().unwrap();
    check(
        &found,
        &[
            ("tensei-shitara-slime-datta-ken", "https://gogo-play.net/videos/tensei-shitara-slime-datta-ken", 249),
            ("tensei-shitara-slime-datta-ken-ova", "https://gogo-play.net/videos/tensei-shitara-slime-datta-ken-ova", 5),
            ("tensei-shitara-slime-datta-ken-dub", "https://gogo-play.net/videos/tensei-shitara-slime-datta-ken-dub", 249),
            ("tensei-shitara-slime-datta-ken-ova-dub", "https://gogo-play.net/videos/tensei-shitara-slime-datta-ken-ova-dub", 5),
            ("tensei-shitara-slime-datta-ken-2nd-season", "https://gogo-play.net/videos/tensei-shitara-slime-datta-ken-2nd-season", 12),
            ("tensei-shitara-slime-datta-ken-2nd-season-dub", "https://gogo-play.net/videos/tensei-shitara-slime-datta-ken-2nd-season-dub", 4),
        ],
    );
}

#[test]
fn search_results_episode_number_with_dash() {
    let g = GoGoPlay::default();
    let a = g.anime_from_link("/videos/one-piece-episode-12-5").ok().unwrap();
    assert_eq!(a.max_episode, Some(125));
    assert_eq!(a.title, "one-piece");
    assert_eq!(a.root_url, "https://gogo-play.net/videos/one-piece");
}

#[test]
fn search_results_empty_page() {
    let g = GoGoPlay::default();
    assert!(g.search_results("<html></html>").ok().unwrap().is_empty());
}

#[test]
fn search_result_errors() {
    let g = GoGoPlay::default();
    let page = "<ul class=\"listing\"><a>no link</a></ul>";
    assert!(matches!(g.search_results(page), Err(Error::MissingHref)));
    assert!(matches!(g.search_results(&listing(&["/videos/bleach-1"])), Err(Error::NoEpisodeMarker)));
    assert!(matches!(
        g.search_results(&listing(&["/videos/bleach-episode-x"])),
        Err(Error::InvalidEpisodeNumber)
    ));
    assert!(matches!(g.search_results(&listing(&["bleach-episode-2"])), Err(Error::NoTitle)));
    // the first link that cannot be read decides
    assert!(matches!(
        g.search_results(&listing(&["/videos/ok-episode-1", "/videos/bad-episode-x", "nolink"])),
        Err(Error::InvalidEpisodeNumber)
    ));
    assert!(matches!(g.read_link(&None), Err(Error::MissingHref)));
}

#[test]
fn episode_page_address() {
    let g = GoGoPlay::default();
    let anime = Anime {
        title: "bleach-movie-2-the-diamond-dust-rebellion".to_string(),
        root_url: "https://gogo-play.net/videos/bleach-movie-2-the-diamond-dust-rebellion".to_string(),
        max_episode: Some(1),
        qualities: None,
    };
    assert_eq!(
        g.episode_page_url(&anime, 1),
        "https://gogo-play.net/videos/bleach-movie-2-the-diamond-dust-rebellion-episode-1"
    );
}

#[test]
fn iframe_sources() {
    let base = "https://gogo-stream.com/download".to_string();
    assert_eq!(
        download_page_url(&base, "//gogo-play.net/streaming.php?id=MTE3MTU=&title=Bleach"),
        "https://gogo-stream.com/download?id=MTE3MTU=&title=Bleach"
    );
    assert!(matches!(read_source(&base, &None), Err(Error::MissingSource)));
    assert!(matches!(read_source(&base, &Some("/".to_string())), Err(Error::BadSource)));
    assert!(matches!(read_source(&base, &Some("//x/embed.php".to_string())), Err(Error::NoStreamingPath)));
    let page = "<iframe src=\"//a/streaming.php?id=1\"></iframe><p><iframe src=\"//b/streaming.php?id=2\"></iframe></p>";
    assert_eq!(
        download_pages(&base, page).ok().unwrap(),
        vec!["https://gogo-stream.com/download?id=1".to_string(), "https://gogo-stream.com/download?id=2".to_string()]
    );
    assert!(matches!(download_pages(&base, "<iframe></iframe>"), Err(Error::MissingSource)));
    // only iframes count, in document order, nested ones included
    let page = "<div><div><iframe src=\"//c/streaming.php?id=3\"></iframe></div></div><a src=\"//d/streaming.php\"></a>";
    assert_eq!(download_pages(&base, page).ok().unwrap(), vec!["https://gogo-stream.com/download?id=3".to_string()]);
}

#[test]
fn download_page_links_skip_missing_href() {
    assert!(download_links("<p>none</p>").ok().unwrap().is_empty());
    let page = "<div class=\"dowload\"><a href=\"https://x/EP.1.360p.mp4\">a</a><a>none</a></div>\
                <p><a href=\"https://outside\">no</a></p>\
                <div class=\"dowload\"><a href=\"https://streamsb.net/d/1\">b</a></div>";
    assert_eq!(
        download_links(page).ok().unwrap(),
        vec!["https://x/EP.1.360p.mp4".to_string(), "https://streamsb.net/d/1".to_string()]
    );
}

#[test]
fn episode_lookup_runs_through_download_pages() {
    let g = GoGoPlay::default();
    let anime = Anime {
        title: "bleach-movie-2-the-diamond-dust-rebellion".to_string(),
        root_url: "https://gogo-play.net/videos/bleach-movie-2-the-diamond-dust-rebellion".to_string(),
        max_episode: Some(1),
        qualities: None,
    };
    let (lookup, url) = g.begin_episode_lookup(anime, 1);
    assert_eq!(url, "https://gogo-play.net/videos/bleach-movie-2-the-diamond-dust-rebellion-episode-1");
    let episode_page = "<iframe src=\"//gogo-play.net/streaming.php?id=MTE3MTU=\"></iframe>\
                        <iframe src=\"//gogo-play.net/streaming.php?id=2\"></iframe>";
    let (lookup, url) = match lookup.advance(&g, episode_page) {
        LookupStep::Fetch(l, u) => (l, u),
        _ => panic!("expected a download page"),
    };
    assert_eq!(url, "https://gogo-stream.com/download?id=MTE3MTU=");
    let first = "<div class=\"dowload\"><a href=\"https://cdn6.cloud9xx.com/EP.1.360p.mp4\">x</a>\
                 <a href=\"https://streamsb.net/d/1uif2b9szp8n.html\">y</a></div>";
    let (lookup, url) = match lookup.advance(&g, first) {
        LookupStep::Fetch(l, u) => (l, u),
        _ => panic!("expected the second download page"),
    };
    assert_eq!(url, "https://gogo-stream.com/download?id=2");
    let second = "<div class=\"dowload\"><a href=\"https://dood.to/d/8mqh9jsx8l4u\">z</a></div>";
    let anime = match lookup.advance(&g, second) {
        LookupStep::Finished(a) => a,
        _ => panic!("expected the end"),
    };
    let q = anime.qualities.unwrap();
    assert_eq!(q.len(), 3);
    assert!(q[0].quality == Quality::P360);
    assert_eq!(q[1].url, "https://streamsb.net/d/1uif2b9szp8n.html");
    assert!(q[1].quality == Quality::Unknown);
    assert_eq!(q[2].url, "https://dood.to/d/8mqh9jsx8l4u");
    assert_eq!(anime.max_episode, Some(1));
}

#[test]
fn episode_lookup_without_iframes_finishes_empty() {
    let g = GoGoPlay::default();
    let mut anime = Anime::default();
    anime.root_url = "https://gogo-play.net/videos/naruto".to_string();
    let (lookup, url) = g.begin_episode_lookup(anime.clone(), 3);
    assert_eq!(url, "https://gogo-play.net/videos/naruto-episode-3");
    match lookup.advance(&g, "<p>nothing</p>") {
        LookupStep::Finished(a) => assert!(a.qualities.unwrap().is_empty()),
        _ => panic!("expected the end"),
    }
    let (lookup, _) = g.begin_episode_lookup(anime, 3);
    assert!(matches!(lookup.advance(&g, "<iframe></iframe>"), LookupStep::Failed(Error::MissingSource)));
}

#[test]
fn found_anime_leads_back_to_its_link() {
    let g = GoGoPlay::default();
    let link = "/videos/tensei-shitara-slime-datta-ken-2nd-season-episode-12";
    let found = g.search_results(&listing(&[link])).ok().unwrap();
    let anime = found.into_iter().next().unwrap();
    assert_eq!(anime.max_episode, Some(12));
    let (_, url) = g.begin_episode_lookup(anime, 12);
    assert_eq!(url, format!("https://gogo-play.net{}", link));
}

#[test]
fn anime_of_link_groups_in_order() {
    let site = GoGoPlay::default();
    let groups = vec![
        vec![Some("/videos/bleach-episode-366".to_string())],
        vec![],
        vec![Some("/videos/naruto-episode-12".to_string())],
    ];
    let found = site.anime_of_links(&groups).unwrap();
    check(
        &found,
        &[
            ("bleach", "https://gogo-play.net/videos/bleach", 366),
            ("naruto", "https://gogo-play.net/videos/naruto", 12),
        ],
    );
    let bad = vec![vec![Some("/videos/a-episode-1".to_string()), None], vec![Some("x".to_string())]];
    assert!(matches!(site.anime_of_links(&bad), Err(Error::MissingHref)));
}

#[test]
fn download_urls_one_per_source() {
    let base = "https://gogo-stream.com/download".to_string();
    let srcs = vec![
        Some("//gogo-play.net/streaming.php?id=MTU".to_string()),
        Some("//other/streaming.php?id=2".to_string()),
    ];
    assert_eq!(
        download_urls(&base, &srcs).unwrap(),
        vec![
            "https://gogo-stream.com/download?id=MTU".to_string(),
            "https://gogo-stream.com/download?id=2".to_string(),
        ]
    );
    let bad = vec![Some("//x/embed.php".to_string()), None];
    assert_eq!(download_urls(&base, &bad).unwrap_err(), Error::NoStreamingPath);
    assert!(download_urls(&base, &vec![]).unwrap().is_empty());
}

#[test]
fn present_links_skip_absent() {
    let groups = vec![
        vec![Some("a".to_string()), None, Some("b".to_string())],
        vec![None],
        vec![Some("c".to_string())],
    ];
    assert_eq!(present_links(&groups), vec!["a".to_string(), "b".to_string(), "c".to_string()]);
}
