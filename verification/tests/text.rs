use musicman::text::{
    basename_of, join_with, parse_usize, spaced_of, split_at_char, split_tokens, stem_of, trimmed,
};

fn strings(v: &[&str]) -> Vec<String> {
    v.iter().map(|s| s.to_string()).collect()
}

#[test]
fn tokens_split_on_ascii_blanks_only() {
    assert_eq!(split_tokens("  add\tthe  beatles\n"), strings(&["add", "the", "beatles"]));
    assert_eq!(split_tokens(""), Vec::<String>::new());
    assert_eq!(split_tokens(" \t "), Vec::<String>::new());
    // a no-break space is not ASCII whitespace
    assert_eq!(split_tokens("a\u{a0}b c"), strings(&["a\u{a0}b", "c"]));
    // vertical tab is not ASCII whitespace for split_ascii_whitespace
    assert_eq!(split_tokens("a\u{b}b"), strings(&["a\u{b}b"]));
}

#[test]
fn trim_removes_unicode_blanks() {
    assert_eq!(trimmed("  x y \n"), "x y");
    assert_eq!(trimmed("\u{a0}\u{3000}song\u{2009}"), "song");
    assert_eq!(trimmed("   "), "");
    assert_eq!(trimmed("a"), "a");
}

#[test]
fn trim_agrees_with_std() {
    for s in ["", " a ", "\u{85}x\u{2028}", "\u{200b}z", "\u{1680}q\u{205f}", "\u{b}v\u{c}"] {
        assert_eq!(trimmed(s), s.trim());
    }
}

#[test]
fn basename_and_stem() {
    assert_eq!(basename_of("/home/me/Music/Abba/Waterloo.mp3"), "Waterloo.mp3");
    assert_eq!(basename_of("plain.ogg"), "plain.ogg");
    assert_eq!(basename_of("dir/"), "");
    assert_eq!(stem_of("road trip.list"), "road trip");
    assert_eq!(stem_of("a.b.c"), "a");
    assert_eq!(stem_of(".hidden"), "");
    assert_eq!(stem_of("noext"), "noext");
}

#[test]
fn split_keeps_empty_pieces() {
    assert_eq!(split_at_char("a\n\nb\n", '\n'), strings(&["a", "", "b", ""]));
    assert_eq!(split_at_char("", '\n'), strings(&[""]));
}

#[test]
fn join_and_spaced() {
    assert_eq!(join_with(&strings(&["a", "b", "c"]), '\n'), "a\nb\nc");
    assert_eq!(join_with(&strings(&[]), '\n'), "");
    assert_eq!(spaced_of(&strings(&["add", "x", "y"]), 1), " x y");
    assert_eq!(spaced_of(&strings(&["add"]), 1), "");
}

#[test]
fn parse_counts_like_std() {
    assert_eq!(parse_usize("3"), Some(3));
    assert_eq!(parse_usize("+7"), Some(7));
    assert_eq!(parse_usize("007"), Some(7));
    assert_eq!(parse_usize("-1"), None);
    assert_eq!(parse_usize("+"), None);
    assert_eq!(parse_usize(""), None);
    assert_eq!(parse_usize("1x"), None);
    assert_eq!(parse_usize(" 1"), None);
    assert_eq!(parse_usize("18446744073709551615"), Some(usize::MAX));
    assert_eq!(parse_usize("18446744073709551616"), None);
    for s in ["0", "42", "+0", "-0", "٣", "1_000", "99999999999999999999"] {
        assert_eq!(parse_usize(s), s.parse::<usize>().ok());
    }
}
