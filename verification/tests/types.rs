use anime_dl::types::anime::Anime;
use anime_dl::types::episode::{episodes_of_links, Episode};
use anime_dl::types::quality::Quality;

#[test]
fn test_quality_print() {
    assert_eq!(Quality::Unknown.to_debug_string(), "Unknown".to_string());
    assert_eq!(Quality::P1080.to_debug_string(), "1080p".to_string());
    assert_eq!(Quality::P720.to_debug_string(), "720p".to_string());
    assert_eq!(Quality::P480.to_debug_string(), "480p".to_string());
    assert_eq!(Quality::P360.to_debug_string(), "360p".to_string());
}

#[test]
fn test_episode_url_print_debug() {
    let test = Episode {
        url: "https://example.com/some-link-to-website".to_string(),
        quality: Quality::P1080,
    };

    assert_eq!(
        test.to_debug_string(),
        "1080p: \"https://example.com/some-link-to-website\"".to_string()
    );
}

#[test]
fn test_anime_print_display() {
    let test = Anime {
        root_url: "https://example.anime".to_string(),
        title: "Example Anime".to_string(),
        max_episode: None,
        qualities: None,
    };

    assert_eq!(
        test.to_display_string(),
        "Title: Example Anime, Root URL: https://example.anime, Max episode: None, Qualities: None"
            .to_string()
    )
}

#[test]
fn anime_display_with_episode_count_and_links() {
    let test = Anime {
        root_url: "https://example.anime".to_string(),
        title: "Example Anime".to_string(),
        max_episode: Some(1207),
        qualities: Some(vec![
            Episode { url: "https://a/1080p.mp4".to_string(), quality: Quality::P1080 },
            Episode { url: "https://b".to_string(), quality: Quality::Unknown },
        ]),
    };
    assert_eq!(
        test.to_display_string(),
        "Title: Example Anime, Root URL: https://example.anime, Max episode: Some(1207), \
         Qualities: Some([1080p: \"https://a/1080p.mp4\", Unknown: \"https://b\"])"
    );
}

#[test]
fn anime_display_with_empty_link_list_and_zero() {
    let test = Anime {
        root_url: String::new(),
        title: String::new(),
        max_episode: Some(0),
        qualities: Some(vec![]),
    };
    assert_eq!(
        test.to_display_string(),
        "Title: , Root URL: , Max episode: Some(0), Qualities: Some([])"
    );
}

#[test]
fn anime_default_is_empty() {
    let a = Anime::default();
    assert_eq!(a.title, "");
    assert_eq!(a.root_url, "");
    assert!(a.max_episode.is_none());
    assert!(a.qualities.is_none());
}

#[test]
fn quality_read_from_link_text() {
    assert!(Quality::from_link("https://x/EP.1.1080p.mp4") == Quality::P1080);
    assert!(Quality::from_link("https://x/HDP/ep1") == Quality::P1080);
    assert!(Quality::from_link("https://x/EP.1.720p.mp4") == Quality::P720);
    assert!(Quality::from_link("https://x/EP.1.480p.mp4") == Quality::P480);
    assert!(Quality::from_link("https://x/EP.1.360p.mp4") == Quality::P360);
    assert!(Quality::from_link("https://streamsb.net/d/1uif2b9szp8n.html") == Quality::Unknown);
    // 1080p is tried before 720p, 720p before 360p
    assert!(Quality::from_link("720p-1080p") == Quality::P1080);
    assert!(Quality::from_link("360p-720p") == Quality::P720);
    // the text must match exactly, case included
    assert!(Quality::from_link("1080P") == Quality::Unknown);
    assert!(Quality::from_link("") == Quality::Unknown);
}

#[test]
fn quality_rank_follows_variant_order() {
    assert_eq!(Quality::Unknown.rank(), 0);
    assert_eq!(Quality::P720.rank(), 1);
    assert_eq!(Quality::P360.rank(), 2);
    assert_eq!(Quality::P480.rank(), 3);
    assert_eq!(Quality::P1080.rank(), 4);
}

#[test]
fn episodes_one_per_link_in_order() {
    let links = vec![
        "https://cdn/EP.1.360p.mp4".to_string(),
        "https://streamsb.net/d/1uif2b9szp8n.html".to_string(),
        "https://cdn/EP.1.HDP.mp4".to_string(),
    ];
    let e = episodes_of_links(&links);
    assert_eq!(e.len(), 3);
    assert_eq!(e[0].url, links[0]);
    assert!(e[0].quality == Quality::P360);
    assert_eq!(e[1].url, links[1]);
    assert!(e[1].quality == Quality::Unknown);
    assert!(e[2].quality == Quality::P1080);
    assert!(episodes_of_links(&vec![]).is_empty());
}

#[test]
fn episode_debug_quotes_url_as_debug_does() {
    for text in ["plain text", "with \"quotes\"", "back\\slash", "new\nline", "tab\t", "ñ", "it's", ""] {
        let e = Episode { url: text.to_string(), quality: Quality::Unknown };
        assert_eq!(e.to_debug_string(), format!("Unknown: {:?}", text));
    }
}

#[test]
fn episode_debug_escapes_quotes() {
    let e = Episode { url: "a\"b\\c".to_string(), quality: Quality::P480 };
    assert_eq!(e.to_debug_string(), "480p: \"a\\\"b\\\\c\"");
    let e = Episode::from_link(&"https://x/EP.720p.mp4".to_string());
    assert_eq!(e.to_debug_string(), "720p: \"https://x/EP.720p.mp4\"");
}

#[test]
fn quality_order_matches_rank() {
    let all = [Quality::Unknown, Quality::P720, Quality::P360, Quality::P480, Quality::P1080];
    for a in all {
        for b in all {
            assert_eq!(a < b, a.rank() < b.rank());
        }
    }
}
