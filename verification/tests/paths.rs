use booksearch::path::{extension, file_name, is_book, is_epub};
use std::path::Path;

const PATHS: [&str; 22] = [
    "",
    "/",
    ".",
    "..",
    "a",
    "a/",
    "a/.",
    "a/..",
    "a/b.epub",
    "/a//b.tar.gz",
    "a/.hidden",
    "a/.hidden.txt",
    "./x.EPUB",
    "a/b.",
    "a/...",
    "....",
    "no_extension",
    "dir.epub/file",
    "ü/Straße.MobI",
    "a b/c d.pdf/./",
    "x/..epub",
    "..a",
];

#[test]
fn file_names_are_those_of_std() {
    for p in PATHS {
        let want = Path::new(p).file_name().map(|s| s.to_string_lossy().to_string());
        assert_eq!(file_name(p), want, "{:?}", p);
    }
}

#[test]
fn extensions_are_those_of_std() {
    for p in PATHS {
        let want = Path::new(p).extension().and_then(|s| s.to_str()).map(String::from);
        assert_eq!(extension(p), want, "{:?}", p);
    }
}

#[test]
fn books_go_by_their_extension() {
    for e in ["epub", "azw3", "azw", "mobi", "pdf", "fb2", "lit", "lrf", "kfx"] {
        assert!(is_book(&format!("dir/book.{}", e)));
        assert!(is_book(&format!("dir/book.{}", e.to_uppercase())));
        assert!(!is_book(e));
    }
    assert!(!is_book("a.txt"));
    assert!(!is_book("a.epub.bak"));
    assert!(!is_book(".epub"));
}

#[test]
fn epubs_are_books() {
    for p in ["a.epub", "a/b.ePuB", "x.y.EPUB"] {
        assert!(is_epub(p));
        assert!(is_book(p));
    }
    assert!(!is_epub("a.mobi"));
    assert!(!is_epub("epub"));
}
