use meta_feeder_sdk::cache::key::{collapse_white_space, join_key};
use meta_feeder_sdk::cache::search_key;

#[test]
fn search_key_normalises_case_and_whitespace_only() {
    assert_eq!(
        search_key("release-group", "  Kind   OF Blue "),
        search_key("release-group", "kind of blue")
    );
    // Entity namespacing keeps an artist search off a release-group entry.
    assert_ne!(
        search_key("artist", "miles davis"),
        search_key("release-group", "miles davis")
    );
}

/// Punctuation is significant to MusicBrainz, so it must survive
/// normalisation.
#[test]
fn search_key_preserves_punctuation() {
    assert_ne!(
        search_key("artist", "m!lk"),
        search_key("artist", "mlk"),
    );
    assert_ne!(
        search_key("release-group", "re:zero"),
        search_key("release-group", "rezero"),
    );
}

#[test]
fn search_key_is_entity_separator_text() {
    assert_eq!(search_key("artist", " M!LK \t\n !!! "), "artist\u{1}m!lk !!!");
    assert_eq!(search_key("artist", ""), "artist\u{1}");
    assert_eq!(search_key("", "\u{2003}"), "\u{1}");
}

#[test]
fn search_key_lowers_by_unicode_rules() {
    assert_eq!(search_key("a", "ÉCOLE ΟΔΟΣ İ"), format!("a\u{1}{}", "ÉCOLE ΟΔΟΣ İ".to_lowercase()));
    assert_eq!(search_key("a", "ÉCOLE"), "a\u{1}école");
}

#[test]
fn collapsing_agrees_with_splitting_at_white_space() {
    for text in [
        "",
        " ",
        "a",
        " a",
        "a ",
        "a b",
        "  a \u{85}\u{a0}b\u{1680}c\u{2000}d\u{200a}e\u{2028}f\u{2029}g\u{202f}h\u{205f}i\u{3000}j \r\n\u{b}\u{c}k",
        "zero\u{200b}width \u{180e} \u{feff}",
        "日本 語",
    ] {
        let expected = text.split_whitespace().collect::<Vec<_>>().join(" ");
        assert_eq!(collapse_white_space(text), expected);
        assert_eq!(collapse_white_space(&expected), expected);
    }
}

#[test]
fn every_white_space_character_parts_words() {
    for n in 0..=0x10ffffu32 {
        if let Some(c) = char::from_u32(n) {
            if n < 0x4000 || c.is_whitespace() {
                let text = format!("a{}b", c);
                let parted = collapse_white_space(&text) == "a b";
                assert_eq!(parted, c.is_whitespace());
            }
        }
    }
}

#[test]
fn an_entity_with_a_separator_can_collide() {
    assert_eq!(search_key("a\u{1}b", "c"), search_key("a", "b\u{1}c"));
}

#[test]
fn join_key_puts_the_separator_between() {
    assert_eq!(join_key("e", "t"), "e\u{1}t");
}

#[test]
fn collapsing_drops_only_white_space() {
    for text in ["", " ", "a", " !!! \t Re:ZERO\u{3000}\u{e9}\n", "\u{85}\u{200b}x  y\u{2029}"] {
        let kept = |s: &str| s.chars().filter(|c| !c.is_whitespace()).collect::<String>();
        assert_eq!(kept(&collapse_white_space(text)), kept(text));
        assert_eq!(collapse_white_space(&collapse_white_space(text)), collapse_white_space(text));
    }
}

#[test]
fn collapsing_keeps_ascii() {
    assert!(collapse_white_space("  Kind \u{b} OF\r\nBlue ").is_ascii());
    assert_eq!(collapse_white_space("  Kind \u{b} OF\r\nBlue "), "Kind OF Blue");
}

#[test]
fn keys_tell_searches_apart_in_any_script() {
    assert_ne!(search_key("artist", "école"), search_key("artist", "ecole"));
    assert_ne!(search_key("artist", "école"), search_key("recording", "école"));
    assert_eq!(search_key("artist", " ÉCOLE  日本 "), search_key("artist", "école 日本"));
}

#[test]
fn normalising_a_normalised_text_changes_nothing() {
    for text in ["", " \t ", "Kind", "  Kind \u{b}  OF\r\nBlue ", "!!!  Re:ZERO", "\u{3000}A\u{a0}B"] {
        let key = search_key("artist", text);
        let n = key.strip_prefix("artist\u{1}").unwrap();
        assert_eq!(search_key("artist", n), key);
        assert_eq!(n.to_lowercase(), n);
        assert_eq!(n.trim(), n);
        assert!(n.chars().all(|c| !c.is_whitespace() || c == ' '));
        assert!(!n.contains("  "));
        assert_eq!(n.is_empty(), text.trim().is_empty());
    }
}
