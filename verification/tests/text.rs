use anime_dl::text::{
    chars_of, find_seq, parse_u32, push_decimal, remove_char, rfind_seq, skip_bytes,
    slice_vec,
};

fn chars(s: &str) -> Vec<char> {
    s.chars().collect()
}

#[test]
fn chars_of_keeps_every_character() {
    assert_eq!(chars_of("añb"), vec!['a', 'ñ', 'b']);
    assert!(chars_of("").is_empty());
}

#[test]
fn find_and_rfind_positions() {
    let s = chars("a-episode-1-episode-2");
    let p = chars("-episode-");
    assert_eq!(find_seq(&s, &p), Some(1));
    assert_eq!(rfind_seq(&s, &p), Some(11));
    assert_eq!(find_seq(&s, &chars("xyz")), None);
    assert_eq!(rfind_seq(&s, &chars("xyz")), None);
    assert_eq!(find_seq(&chars("ab"), &chars("abc")), None);
    assert_eq!(find_seq(&chars("ab"), &chars("")), Some(0));
    assert_eq!(rfind_seq(&chars("ab"), &chars("")), Some(2));
}

#[test]
fn decimal_formatting() {
    let mut s = String::from("n=");
    push_decimal(&mut s, 0);
    assert_eq!(s, "n=0");
    let mut s = String::new();
    push_decimal(&mut s, 4294967295);
    assert_eq!(s, "4294967295");
    let mut s = String::new();
    push_decimal(&mut s, 1020);
    assert_eq!(s, "1020");
}

#[test]
fn parse_like_str_parse() {
    for text in ["0", "12", "+7", "007", "4294967295", "", "+", "-3", "-0", "4294967296", "1a", " 1", "1 "] {
        assert_eq!(parse_u32(&chars(text)), text.parse::<u32>().ok(), "{:?}", text);
    }
}

#[test]
fn remove_char_drops_every_occurrence() {
    assert_eq!(remove_char(&chars("12-5-"), '-'), chars("125"));
    assert_eq!(remove_char(&chars("---"), '-'), chars(""));
}

#[test]
fn slices() {
    assert_eq!(slice_vec(&chars("abcdef"), 1, 4), chars("bcd"));
    assert_eq!(skip_bytes("//gogo", 2), "gogo");
    assert_eq!(skip_bytes("ñx", 2), "x");
}

#[test]
fn parse_reads_back_decimal() {
    for n in [0u32, 7, 10, 99, 100, 65535, 4294967295] {
        let mut s = String::new();
        push_decimal(&mut s, n);
        assert_eq!(parse_u32(&chars(&s)), Some(n));
    }
}
