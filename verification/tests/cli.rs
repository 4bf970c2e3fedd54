use anime_dl::anime::{quality_urls_of_links, Anime, Quality, QualityUrl};
use anime_dl::cli::provider::gogoplay::lookup::QualityStep;
use anime_dl::cli::provider::gogoplay::{
    anime_of_links, download_links, links_of_groups, read_link, search_results,
};
use anime_dl::cli::provider::GoGoPlay;
use anime_dl::cli::{log_level, pick_highest, LogLevel, QuerySet};
use anime_dl::error::Error;
use anime_dl::types::episode::Episode;
use anime_dl::types::quality::Quality as RankedQuality;

#[test]
fn plain_quality_and_link_debug() {
    assert_eq!(Quality::P360.to_debug_string(), "360p");
    assert_eq!(Quality::Unknown.to_debug_string(), "Unknown");
    let q = QualityUrl::from_link(&"https://x/HDP.mp4".to_string());
    assert!(q.quality == Quality::P1080);
    assert_eq!(q.to_debug_string(), "1080p: \"https://x/HDP.mp4\"");
    assert!(Quality::from_link("https://x/EP.480p.mp4") == Quality::P480);
}

#[test]
fn plain_anime_display() {
    let a = Anime {
        title: "bleach".to_string(),
        root_url: "/videos/bleach".to_string(),
        max_episode: Some(366),
        qualities: Some(quality_urls_of_links(&vec!["https://x/EP.720p.mp4".to_string()])),
    };
    assert_eq!(
        a.to_display_string(),
        "Title: bleach\nRoot URL: /videos/bleach\nMax episode: Some(366)\nQualities: Some([720p: \"https://x/EP.720p.mp4\"])\n------"
    );
    assert_eq!(
        Anime::default().to_display_string(),
        "Title: \nRoot URL: \nMax episode: None\nQualities: None\n------"
    );
}

#[test]
fn plain_search_results() {
    let page = "<ul class=\"listing\"><li><a href=\"/videos/bleach-episode-366\">b</a></li>\
                <li><a href=\"/videos/naruto-shippuden-episode-500\">n</a></li></ul>";
    let found = search_results(page).ok().unwrap();
    assert_eq!(found.len(), 2);
    assert_eq!(found[0].title, "bleach");
    assert_eq!(found[0].root_url, "/videos/bleach-episode");
    assert_eq!(found[0].max_episode, Some(366));
    assert_eq!(found[1].title, "naruto-shippuden");
    assert_eq!(found[1].max_episode, Some(500));
}

#[test]
fn plain_search_errors() {
    assert!(matches!(read_link(&None), Err(Error::MissingHref)));
    assert!(matches!(read_link(&Some("nodash".to_string())), Err(Error::NoNumberSeparator)));
    assert!(matches!(read_link(&Some("/videos/bleach-episode-1a".to_string())), Err(Error::InvalidEpisodeNumber)));
    assert!(matches!(read_link(&Some("/videos/bleach-1".to_string())), Err(Error::NoTitle)));
}

#[test]
fn plain_download_links_need_href() {
    assert!(matches!(
        download_links("<div class=\"dowload\"><a href=\"1\"></a><a></a></div>"),
        Err(Error::MissingHref)
    ));
    assert_eq!(
        download_links("<div class=\"dowload\"><a href=\"1\"></a></div>").ok().unwrap(),
        vec!["1".to_string()]
    );
}

#[test]
fn plain_episode_lookup() {
    let g = GoGoPlay::default();
    let mut anime = Anime::default();
    anime.root_url = "/videos/bleach-episode".to_string();
    anime.max_episode = Some(2);
    assert!(matches!(
        g.begin_episode_lookup(anime.clone(), 3),
        Err("That high episode number is not available")
    ));
    let (lookup, url) = g.begin_episode_lookup(anime.clone(), 2).ok().unwrap();
    assert_eq!(url, "https://gogo-play.net/videos/bleach-episode-2");
    let (lookup, url) = match lookup.advance(&g, "<iframe src=\"//h/streaming.php?id=9\"></iframe>") {
        QualityStep::Fetch(l, u) => (l, u),
        _ => panic!("expected a download page"),
    };
    assert_eq!(url, "https://gogo-stream.com/download?id=9");
    match lookup.advance(&g, "<div class=\"dowload\"><a href=\"https://x/EP.1080p.mp4\"></a></div>") {
        QualityStep::Finished(a) => {
            let q = a.qualities.unwrap();
            assert_eq!(q.len(), 1);
            assert!(q[0].quality == Quality::P1080);
        },
        _ => panic!("expected the end"),
    }
    let (lookup, _) = g.begin_episode_lookup(anime, 1).ok().unwrap();
    assert!(matches!(lookup.advance(&g, "<p></p>"), QualityStep::Refused("No link found")));
}

#[test]
fn log_levels() {
    assert_eq!(log_level(0, true), LogLevel::Debug);
    assert_eq!(log_level(0, false), LogLevel::Error);
    assert_eq!(log_level(1, false), LogLevel::Warn);
    assert_eq!(log_level(2, false), LogLevel::Info);
    assert_eq!(log_level(3, false), LogLevel::Debug);
    assert_eq!(log_level(4, false), LogLevel::Trace);
    assert_eq!(log_level(255, true), LogLevel::Trace);
}

#[test]
fn query_set_default() {
    let q = QuerySet::default();
    assert!(q.provider.is_none());
    assert_eq!(q.series, "");
    assert!(q.episode.is_none());
    assert!(q.ignore.is_none());
}

fn ep(q: RankedQuality, url: &str) -> Episode {
    Episode { url: url.to_string(), quality: q }
}

#[test]
fn pick_highest_takes_last_of_best() {
    assert_eq!(pick_highest(&vec![]), None);
    let v = vec![
        ep(RankedQuality::P360, "a"),
        ep(RankedQuality::P1080, "b"),
        ep(RankedQuality::Unknown, "c"),
        ep(RankedQuality::P1080, "d"),
        ep(RankedQuality::P480, "e"),
    ];
    assert_eq!(pick_highest(&v), Some(3));
    // 720p ranks below 360p
    let v = vec![ep(RankedQuality::P360, "a"), ep(RankedQuality::P720, "b")];
    assert_eq!(pick_highest(&v), Some(0));
    let v = vec![ep(RankedQuality::Unknown, "a")];
    assert_eq!(pick_highest(&v), Some(0));
}

#[test]
fn plain_anime_of_link_groups() {
    let groups = vec![
        vec![Some("/videos/bleach-episode-366".to_string())],
        vec![Some("/videos/naruto-episode-12".to_string())],
    ];
    let found = anime_of_links(&groups).unwrap();
    assert_eq!(found.len(), 2);
    assert_eq!(found[0].title, "bleach");
    assert_eq!(found[0].root_url, "/videos/bleach-episode");
    assert_eq!(found[0].max_episode, Some(366));
    assert_eq!(found[1].title, "naruto");
    assert_eq!(found[1].max_episode, Some(12));
    let bad = vec![vec![Some("/videos/bleach".to_string())]];
    assert!(matches!(anime_of_links(&bad), Err(Error::NoNumberSeparator)));
}

#[test]
fn plain_links_of_groups() {
    let groups = vec![vec![Some("a".to_string())], vec![Some("b".to_string())]];
    assert_eq!(links_of_groups(&groups).unwrap(), vec!["a".to_string(), "b".to_string()]);
    let missing = vec![vec![Some("a".to_string()), None]];
    assert_eq!(links_of_groups(&missing).unwrap_err(), Error::MissingHref);
}
