use booksearch::book::{build_search_text, BookEntry};
use booksearch::filter::{matches_all, parse_terms};
use booksearch::order::{list_in_order, SortKey};

fn terms(filter: &str) -> Vec<String> {
    parse_terms(filter)
}

fn key(title: &str, author: &str, path: &str) -> SortKey {
    SortKey { title: title.to_string(), author: author.to_string(), path: path.to_string() }
}

#[test]
fn terms_are_the_words_in_lowercase() {
    assert_eq!(terms("  Foo  BAR\tbaz "), vec!["foo", "bar", "baz"]);
    assert_eq!(terms("ÄÖ ß"), vec!["äö", "ß"]);
    assert!(terms("").is_empty());
}

#[test]
fn a_blank_filter_matches_everything() {
    assert!(terms(" \t\u{3000}").is_empty());
    assert!(matches_all(&terms("  "), ""));
    assert!(matches_all(&terms("  "), "anything"));
}

#[test]
fn all_terms_have_to_match() {
    let t = terms("war tol");
    assert!(matches_all(&t, "war and peace leo tolstoy"));
    assert!(matches_all(&t, "tolwar"));
    assert!(!matches_all(&t, "war and peace"));
    assert!(!matches_all(&t, "tolstoy"));
}

#[test]
fn terms_are_parts_of_words() {
    assert!(matches_all(&terms("eac"), "war and peace"));
    assert!(!matches_all(&terms("dp"), "war and peace"));
    assert!(matches_all(&terms("ÄRG"), "der ärger"));
}

#[test]
fn two_filters_match_what_both_match() {
    let both = terms("war tol");
    for text in ["war tol", "war", "tol", ""] {
        assert_eq!(
            matches_all(&both, text),
            matches_all(&terms("war"), text) && matches_all(&terms("tol"), text)
        );
    }
}

#[test]
fn case_of_the_filter_does_not_matter() {
    assert_eq!(terms(" War TOL"), terms(" wAR tol"));
    assert_eq!(terms("ÉCOLE"), terms("école"));
}

#[test]
fn typing_on_never_widens() {
    let texts = ["the art of war", "art", "war art", "", "heart of", "a rt"];
    let full = "Art  of w";
    for n in 0..full.len() {
        let short = terms(&full[..n]);
        let long = terms(&full[..n + 1]);
        for t in texts {
            if matches_all(&long, t) {
                assert!(matches_all(&short, t));
            }
        }
    }
}

#[test]
fn typing_on_never_widens_beyond_ascii() {
    for full in ["ΑΣΑ ΟΔΥΣ", "école É", "война И МИР", "İstanbul", "straße"] {
        let chars: Vec<char> = full.chars().collect();
        let texts = ["ασα οδυσσεια", "école é", "война и мир", "i\u{307}stanbul", "strasse", ""];
        for n in 0..chars.len() {
            let short = terms(&chars[..n].iter().collect::<String>());
            let long = terms(&chars[..n + 1].iter().collect::<String>());
            for t in texts {
                assert!(!matches_all(&long, t) || matches_all(&short, t));
            }
        }
    }
}

#[test]
fn both_small_sigmas_are_the_same() {
    assert_eq!(terms("ΑΣ"), vec!["ασ"]);
    assert_eq!(terms("ας"), vec!["ασ"]);
    assert_eq!(terms("ασ"), vec!["ασ"]);
    let mut b = BookEntry::default();
    b.title = "Οδυσσεύς".to_string();
    let text = build_search_text(&b);
    assert!(matches_all(&terms("ΟΔΥΣ"), &text));
    assert!(matches_all(&terms("ΣΣΕΎΣ"), &text));
    assert!(matches_all(&terms("σσεύς"), &text));
}

#[test]
fn a_space_joins_the_terms_of_two_filters() {
    let parts = ["", " ", "Foo bar", "\u{3000}École", "ΑΣ ", "x\u{a0}"];
    for a in parts {
        for b in parts {
            let mut want = terms(a);
            want.extend(terms(b));
            assert_eq!(terms(&format!("{} {}", a, b)), want);
        }
    }
}

#[test]
fn the_terms_of_terms_are_the_terms() {
    for f in ["", "  Foo  BAR ", "ΟΔΥΣΣΕΥΣ Σ", "İX \u{3000}ÉCOLE", "ǅ ẞ"] {
        assert_eq!(terms(&terms(f).join(" ")), terms(f));
    }
}

#[test]
fn a_term_is_found_in_file_name_title_or_author() {
    let mut b = BookEntry::default();
    b.path = "x/Some_File.epub".to_string();
    b.title = "War and Peace".to_string();
    b.author = "Leo Tolstoy".to_string();
    let text = build_search_text(&b);
    for t in ["some", "file.e", "peace", "leo", "TOLSTOY"] {
        assert!(matches_all(&terms(t), &text), "{}", t);
    }
    assert!(matches_all(&terms("leo file war"), &text));
    for t in ["some_file", "peaceleo", "x/", "epubwar"] {
        assert!(!matches_all(&terms(t), &text), "{}", t);
    }
}

#[test]
fn books_are_listed_by_title_author_and_path() {
    let keys = vec![
        key("b", "a", "1"),
        key("a", "b", "2"),
        key("a", "a", "4"),
        key("a", "a", "3"),
        key("", "z", "5"),
        key("ab", "a", "6"),
        key("é", "a", "7"),
        key("\u{10000}", "", "8"),
        key("\u{ffff}", "", "9"),
    ];
    assert_eq!(list_in_order(&keys), vec!["5", "3", "4", "2", "6", "1", "7", "9", "8"]);
    let mut want: Vec<(String, String, String)> =
        keys.iter().map(|k| (k.title.clone(), k.author.clone(), k.path.clone())).collect();
    want.sort();
    let want: Vec<String> = want.into_iter().map(|k| k.2).collect();
    assert_eq!(list_in_order(&keys), want);
}

#[test]
fn the_listing_does_not_depend_on_the_order_given() {
    let one = vec![key("b", "", "1"), key("a", "", "2"), key("a", "", "2"), key("c", "", "3")];
    let two = vec![key("c", "", "3"), key("a", "", "2"), key("b", "", "1"), key("a", "", "2")];
    assert_eq!(list_in_order(&one), list_in_order(&two));
    assert_eq!(list_in_order(&one), vec!["2", "2", "1", "3"]);
}
