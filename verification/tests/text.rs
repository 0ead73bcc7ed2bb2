use booksearch::text::{
    char_ascii_lower, char_is_space, chars_of, decimal_string, find_from, hex_string, join,
    replace_underscores, same_text, split, split_words, starts_with, string_of, to_ascii_lower,
    trim, trim_range,
};

const SAMPLES: [&str; 10] = [
    "",
    " ",
    "a",
    "  a  bc ",
    "\tthe\u{a0}quick\u{2003}fox\r\n",
    "\u{3000}\u{85}x",
    "no_space_here",
    "ÄÖÜ Straße",
    "one\u{200b}two",
    "x\u{1680}y\u{2028}z\u{2029}w\u{202f}v\u{205f}u",
];

#[test]
fn words_are_split_at_spaces() {
    assert_eq!(split_words("  a  bc "), vec!["a".to_string(), "bc".to_string()]);
    for s in SAMPLES {
        let want: Vec<String> = s.split_whitespace().map(String::from).collect();
        assert_eq!(split_words(s), want, "{:?}", s);
    }
}

#[test]
fn trimming_takes_the_ends_off() {
    assert_eq!(trim("  a b\t"), "a b");
    for s in SAMPLES {
        assert_eq!(trim(s), s.trim(), "{:?}", s);
    }
    assert_eq!(trim_range(&chars_of("xx  a  yy"), 2, 7), "a");
}

#[test]
fn white_space_is_that_of_unicode() {
    for n in 0u32..0x11_0000 {
        if let Some(c) = char::from_u32(n) {
            assert_eq!(char_is_space(c), c.is_whitespace(), "{:x}", n);
        }
    }
}

#[test]
fn ascii_letters_are_made_small() {
    assert_eq!(to_ascii_lower("Author(S) ÄZ[@"), "author(s) Äz[@");
    for n in 0u32..0x250 {
        if let Some(c) = char::from_u32(n) {
            assert_eq!(char_ascii_lower(c), c.to_ascii_lowercase());
        }
    }
}

#[test]
fn strings_are_cut_by_characters() {
    let v = chars_of("aßc");
    assert_eq!(v, vec!['a', 'ß', 'c']);
    assert_eq!(string_of(&v, 1, 3), "ßc");
    assert_eq!(string_of(&v, 2, 2), "");
}

#[test]
fn prefixes_are_told() {
    assert!(starts_with("hello", "hel"));
    assert!(starts_with("hello", ""));
    assert!(starts_with("", ""));
    assert!(!starts_with("hel", "hello"));
    assert!(!starts_with("hello", "hex"));
}

#[test]
fn underscores_become_spaces() {
    assert_eq!(replace_underscores("a_b__c-d"), "a b  c-d");
}

#[test]
fn equal_texts_are_told() {
    assert!(same_text("ab", "ab"));
    assert!(!same_text("ab", "aB"));
    assert!(!same_text("ab", "a"));
}

#[test]
fn pieces_lie_between_separators() {
    for s in ["", "/", "a/b", "/a//b/", "abc"] {
        let want: Vec<String> = s.split('/').map(String::from).collect();
        assert_eq!(split(s, '/'), want, "{:?}", s);
    }
    assert_eq!(find_from(&chars_of("a:b:c"), ':', 2), 3);
    assert_eq!(find_from(&chars_of("abc"), ':', 1), 3);
}

#[test]
fn parts_are_joined() {
    let none: Vec<String> = vec![];
    assert_eq!(join(&none, ", "), "");
    assert_eq!(join(&vec!["a".to_string()], ", "), "a");
    let three = vec!["a".to_string(), "".to_string(), "c".to_string()];
    assert_eq!(join(&three, " & "), "a &  & c");
}

#[test]
fn numbers_are_written() {
    assert_eq!(decimal_string(0), "0");
    assert_eq!(decimal_string(10), "10");
    assert_eq!(decimal_string(usize::MAX), format!("{}", usize::MAX));
    assert_eq!(hex_string(0, 16), "0000000000000000");
    assert_eq!(hex_string(0xdead_beef_0123_4567, 16), "deadbeef01234567");
    assert_eq!(hex_string(u64::MAX, 16), format!("{:016x}", u64::MAX));
    assert_eq!(hex_string(0xabc, 2), "bc");
}
