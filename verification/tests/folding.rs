use booksearch::fold::{char_fold, char_fold_by, char_settles, fold};

#[test]
fn characters_are_folded_to_lowercase() {
    for n in 0u32..0x11_0000 {
        if let Some(c) = char::from_u32(n) {
            let want: Vec<char> =
                if c == 'ς' { vec!['σ'] } else { c.to_lowercase().collect() };
            assert_eq!(char_fold(c), want, "{:x}", n);
        }
    }
}

#[test]
fn texts_are_folded_character_by_character() {
    assert_eq!(fold("ÉCOLE Σας İ"), "école σασ i\u{307}");
    assert_eq!(fold(""), "");
    for (a, b) in [("ΑΣ", "Α"), ("x", "ÄY"), ("", "Σ")] {
        assert_eq!(fold(&format!("{}{}", a, b)), format!("{}{}", fold(a), fold(b)));
    }
}

#[test]
fn folding_twice_is_folding_once() {
    for s in ["ÉCOLE", "ΟΔΥΣΣΕΥΣ", "İǅẞ", "\u{3000}A\u{a0}"] {
        assert_eq!(fold(&fold(s)), fold(s));
    }
}

#[test]
fn small_and_large_ascii_letters_are_folded_alike() {
    assert_eq!(fold("Ab Σé"), fold("aB Σé"));
}

#[test]
fn a_form_that_would_change_again_is_not_taken() {
    assert_eq!(char_fold_by('É', vec!['é'], true), vec!['é']);
    assert_eq!(char_fold_by('É', vec!['é'], false), vec!['É']);
    assert_eq!(char_fold_by('A', vec!['x'], true), vec!['a']);
    assert_eq!(char_fold_by('ς', vec!['ς'], true), vec!['σ']);
    assert_eq!(char_fold_by('\u{3000}', vec!['x'], true), vec!['\u{3000}']);
    assert_eq!(char_fold_by('İ', vec!['i', '\u{307}'], true), vec!['i', '\u{307}']);
}

#[test]
fn some_characters_stand_for_themselves() {
    assert!(char_settles('a', &vec!['x']));
    assert!(!char_settles('A', &vec!['A']));
    assert!(char_settles('é', &vec!['é']));
    assert!(!char_settles('é', &vec![]));
    assert!(!char_settles('É', &vec!['é']));
    assert!(!char_settles('ς', &vec!['ς']));
    assert!(char_settles('σ', &vec![]));
}
