use swell_installer::text::{
    first_word_of, is_space_char, join_strings, join_strs, last_segment_of, lines_of, same_text,
    split3_ws_of, trim_str,
};

#[test]
fn trim_removes_unicode_white_space_at_both_ends() {
    assert_eq!(trim_str("  \t/dev/sda1 \r\n"), "/dev/sda1");
    assert_eq!(trim_str("\u{a0}x y\u{3000}"), "x y");
    assert_eq!(trim_str("   "), "");
    assert_eq!(trim_str(""), "");
}

#[test]
fn trim_is_idempotent_on_examples() {
    for s in ["  a b  ", "\n\nx", "y\t", "", " \u{2028} "] {
        let once = trim_str(s);
        assert_eq!(trim_str(&once), once);
    }
}

#[test]
fn white_space_matches_std() {
    for c in ['\t', '\n', '\u{b}', '\u{c}', '\r', ' ', '\u{85}', '\u{a0}', '\u{1680}', '\u{2000}',
        '\u{200a}', '\u{2028}', '\u{2029}', '\u{202f}', '\u{205f}', '\u{3000}', 'a', '0', '/',
        '\u{200b}', '\u{1f}']
    {
        assert_eq!(is_space_char(c), c.is_whitespace(), "{:?}", c);
    }
}

#[test]
fn lines_follow_str_lines() {
    for s in ["", "a", "a\n", "\n", "a\nb", "a\r\nb\r\n", "a\n\nb", "a\r", "x\r\r\ny", "\r\n"] {
        let expected: Vec<String> = s.lines().map(|l| l.to_string()).collect();
        assert_eq!(lines_of(s), expected, "{:?}", s);
    }
}

#[test]
fn split3_keeps_empty_fields_and_the_rest() {
    assert_eq!(split3_ws_of("/dev/sda 500G Samsung SSD 860"), vec!["/dev/sda", "500G", "Samsung SSD 860"]);
    assert_eq!(split3_ws_of("/dev/sda  500G"), vec!["/dev/sda", "", "500G"]);
    assert_eq!(split3_ws_of("/dev/sda 8G"), vec!["/dev/sda", "8G"]);
    assert_eq!(split3_ws_of("/dev/sda"), vec!["/dev/sda"]);
    assert_eq!(split3_ws_of(""), vec![""]);
    for s in ["a b c d", "a  b", " a", "a\tb\tc", "x y "] {
        let expected: Vec<String> = s.splitn(3, char::is_whitespace).map(|p| p.to_string()).collect();
        assert_eq!(split3_ws_of(s), expected, "{:?}", s);
    }
}

#[test]
fn last_segment_is_what_follows_the_last_slash() {
    assert_eq!(last_segment_of("/dev/nvme0n1"), "nvme0n1");
    assert_eq!(last_segment_of("sda"), "sda");
    assert_eq!(last_segment_of("/dev/"), "");
    assert_eq!(last_segment_of(""), "");
}

#[test]
fn first_word_skips_leading_space() {
    assert_eq!(first_word_of("kde-plasma           KDE Plasma 6"), "kde-plasma");
    assert_eq!(first_word_of("   i3 tiling"), "i3");
    assert_eq!(first_word_of("   "), "");
    assert_eq!(first_word_of("single"), "single");
}

#[test]
fn join_puts_the_separator_between() {
    assert_eq!(join_strs(&["wheel", "audio", "video"], ","), "wheel,audio,video");
    assert_eq!(join_strs(&["wheel"], ","), "wheel");
    assert_eq!(join_strs(&[], ","), "");
    let v = vec!["gnome".to_string(), "i3".to_string()];
    assert_eq!(join_strings(&v, ", "), "gnome, i3");
}

#[test]
fn same_text_compares_characters() {
    assert!(same_text("ext4", "ext4"));
    assert!(!same_text("ext4", "ext3"));
    assert!(!same_text("ext4", "ext"));
    assert!(same_text("", ""));
}
