use tunnel_handshake::text::{chars_of, contains_text, decimal_text};

#[test]
fn chars_of_keeps_every_character_in_order() {
    assert_eq!(chars_of("a-b"), vec!['a', '-', 'b']);
    assert_eq!(chars_of(""), Vec::<char>::new());
    assert_eq!(chars_of("päth"), vec!['p', 'ä', 't', 'h']);
}

#[test]
fn contains_text_finds_a_word_anywhere() {
    assert!(contains_text("ssh: listening on 3333", "ssh: listening on"));
    assert!(contains_text("[info] ssh: listening on 3333", "listening"));
    assert!(contains_text("abc", "c"));
    assert!(contains_text("abc", "abc"));
}

#[test]
fn contains_text_misses_what_is_not_there() {
    assert!(!contains_text("ssh: listen", "ssh: listening on"));
    assert!(!contains_text("", "x"));
    assert!(!contains_text("ab", "abc"));
    assert!(!contains_text("connection refused", "Connection refused"));
    assert!(!contains_text("aab", "aba"));
}

#[test]
fn contains_text_finds_the_empty_word_everywhere() {
    assert!(contains_text("abc", ""));
    assert!(contains_text("", ""));
}

#[test]
fn contains_text_goes_by_characters() {
    assert!(contains_text("früh instance update spät", "instance update"));
    assert!(contains_text("über", "ü"));
    assert!(!contains_text("uber", "ü"));
}

#[test]
fn contains_text_retries_after_a_partial_match() {
    assert!(contains_text("aaab", "aab"));
    assert!(contains_text("ssh: ssh: listening on", "ssh: listening on"));
}

#[test]
fn contains_text_agrees_with_str_contains() {
    let texts = ["", "a", "ab", "ba", "aba", "abab", "Connection refused", "ssh: listening on"];
    for hay in texts {
        for needle in texts {
            assert_eq!(contains_text(hay, needle), hay.contains(needle), "{:?} in {:?}", needle, hay);
        }
    }
}

#[test]
fn decimal_text_writes_small_numbers() {
    assert_eq!(decimal_text(0), "0");
    assert_eq!(decimal_text(7), "7");
    assert_eq!(decimal_text(9), "9");
    assert_eq!(decimal_text(10), "10");
    assert_eq!(decimal_text(22), "22");
}

#[test]
fn decimal_text_writes_large_numbers() {
    assert_eq!(decimal_text(3333), "3333");
    assert_eq!(decimal_text(65535), "65535");
    assert_eq!(decimal_text(1000000), "1000000");
    assert_eq!(decimal_text(4294967295), "4294967295");
}

#[test]
fn decimal_text_agrees_with_formatting() {
    for n in [0u32, 1, 9, 10, 11, 99, 100, 101, 8080, 65536, 4000000000, u32::MAX] {
        assert_eq!(decimal_text(n), format!("{}", n));
    }
}
