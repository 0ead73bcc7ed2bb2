use booksearch::book::{
    build_search_text, cover_filename, cover_name_of_hash, describe, is_author_name,
    is_title_name, make_searchable, parse_ebook_meta, spaced_file_name, BookEntry,
};
use booksearch::json::metadata_of_pairs;
use booksearch::metadata::Metadata;
use std::collections::BTreeMap;
use std::hash::{DefaultHasher, Hash, Hasher};

fn book(path: &str, title: &str, author: &str) -> BookEntry {
    let mut b = BookEntry::default();
    b.path = path.to_string();
    b.title = title.to_string();
    b.author = author.to_string();
    b
}

fn pairs(m: &Metadata) -> Vec<(String, String)> {
    m.entries().clone()
}

fn pair(a: &str, b: &str) -> (String, String) {
    (a.to_string(), b.to_string())
}

#[test]
fn a_new_book_is_blank() {
    let b = BookEntry::default();
    assert_eq!((b.path.as_str(), b.size, b.mtime), ("", 0, 0));
    assert_eq!((b.title.as_str(), b.author.as_str()), ("", ""));
    assert_eq!(b.cover, None);
    assert_eq!(b.search_text, "");
    assert!(pairs(&b.metadata).is_empty());
}

#[test]
fn search_text_is_file_name_title_and_author() {
    let b = book("dir/The_Great_Book.epub", "Der ÄRGER", "Ann ONYM");
    assert_eq!(describe(&b), "The Great Book.epub Der ÄRGER Ann ONYM");
    assert_eq!(build_search_text(&b), "the great book.epub der ärger ann onym");
    assert_eq!(build_search_text(&book("", "", "")), "  ");
    assert_eq!(build_search_text(&book("A_B.PDF", "X", "Y")), "a b.pdf x y");
}

#[test]
fn search_text_has_one_small_sigma() {
    let b = book("a", "ΟΔΥΣΣΕΥΣ", "Σας");
    assert_eq!(build_search_text(&b), "a οδυσσευσ σασ");
}

#[test]
fn making_searchable_sets_the_search_text_only() {
    let mut b = book("x_y", "T", "A");
    b.size = 3;
    make_searchable(&mut b);
    assert_eq!(b.search_text, "x y t a");
    assert_eq!((b.path.as_str(), b.title.as_str(), b.size), ("x_y", "T", 3));
}

#[test]
fn file_names_are_spaced() {
    assert_eq!(spaced_file_name("a_b/c_d.epub"), "c d.epub");
    assert_eq!(spaced_file_name(".."), "");
}

#[test]
fn names_of_title_and_author_are_told() {
    assert!(is_title_name("TITLE"));
    assert!(!is_title_name("title sort"));
    for n in ["Author(s)", "authors", "AUTHOR"] {
        assert!(is_author_name(n));
    }
    assert!(!is_author_name("author sort"));
}

#[test]
fn the_output_of_the_tool_is_read() {
    let out = "Title               : A Book: the sequel\r\n\
               Title sort          : Book, A\n\
               Author(s)           : Jane Doe [Doe, Jane]\n\
               no colon here\n\
               : no name\n\
               Tags                :\n\
               Published           : 2001-02-03T04:05:06+00:00";
    let (title, author, map) = parse_ebook_meta(out);
    assert_eq!(title, "A Book: the sequel");
    assert_eq!(author, "Jane Doe [Doe, Jane]");
    assert_eq!(
        pairs(&map),
        vec![
            pair("Author(s)", "Jane Doe [Doe, Jane]"),
            pair("Published", "2001-02-03T04:05:06+00:00"),
            pair("Tags", ""),
            pair("Title", "A Book: the sequel"),
            pair("Title sort", "Book, A"),
        ]
    );
}

#[test]
fn the_last_line_for_a_name_stands() {
    let (title, author, map) = parse_ebook_meta("title: a\nTITLE: b\nAuthors: x\nauthor: y\n");
    assert_eq!(title, "b");
    assert_eq!(author, "y");
    assert_eq!(
        pairs(&map),
        vec![pair("Authors", "x"), pair("TITLE", "b"), pair("author", "y"), pair("title", "a")]
    );
    let (title, author, map) = parse_ebook_meta("");
    assert_eq!((title.as_str(), author.as_str()), ("", ""));
    assert!(pairs(&map).is_empty());
    let (title, _, map) = parse_ebook_meta("Title: a\nTitle: b");
    assert_eq!(title, "b");
    assert_eq!(pairs(&map), vec![pair("Title", "b")]);
}

#[test]
fn covers_are_named_by_the_hash_of_the_path() {
    for rel in ["", "a.epub", "dir/ü_b.epub"] {
        let mut h = DefaultHasher::new();
        rel.hash(&mut h);
        assert_eq!(cover_filename(rel), format!("{:016x}.jpg", h.finish()));
    }
    assert_ne!(cover_filename("a"), cover_filename("b"));
}

#[test]
fn cover_names_have_sixteen_digits() {
    assert_eq!(cover_name_of_hash(0), "0000000000000000.jpg");
    assert_eq!(cover_name_of_hash(0x1f), "000000000000001f.jpg");
    assert_ne!(cover_name_of_hash(1), cover_name_of_hash(1 << 63));
}

#[test]
fn metadata_is_kept_in_the_order_of_names() {
    let names = ["b", "a", "B", "é", "", "a b", "\u{10000}", "\u{ffff}", "a"];
    let mut m = Metadata::new();
    let mut want = BTreeMap::new();
    for (i, n) in names.iter().enumerate() {
        m.insert(n.to_string(), format!("{}", i));
        want.insert(n.to_string(), format!("{}", i));
    }
    assert_eq!(pairs(&m), want.into_iter().collect::<Vec<_>>());
}

#[test]
fn metadata_is_written_as_json() {
    let mut m = Metadata::new();
    assert_eq!(m.to_json(), "{}");
    m.insert("Title".to_string(), "say \"hi\"".to_string());
    m.insert("Author(s)".to_string(), "Ä\n".to_string());
    assert_eq!(m.to_json(), "{\"Author(s)\":\"Ä\\n\",\"Title\":\"say \\\"hi\\\"\"}");
    assert_eq!(pairs(&Metadata::from_json(&m.to_json())), pairs(&m));
}

#[test]
fn unreadable_json_gives_no_metadata() {
    for text in ["", "{", "[]", "{\"a\":1}", "null", "{\"a\":\"b\"} x"] {
        assert!(pairs(&Metadata::from_json(text)).is_empty(), "{}", text);
    }
    assert_eq!(pairs(&Metadata::from_json(" {\"b\":\"1\", \"a\":\"2\"}")), vec![
        pair("a", "2"),
        pair("b", "1"),
    ]);
}

#[test]
fn pairs_are_entered_one_after_the_other() {
    let m = metadata_of_pairs(Some(vec![pair("b", "1"), pair("a", "2"), pair("b", "3")]));
    assert_eq!(pairs(&m), vec![pair("a", "2"), pair("b", "3")]);
    assert!(pairs(&metadata_of_pairs(None)).is_empty());
}

#[test]
fn a_later_output_overrides_an_earlier_one() {
    let a = "Title: One\nAuthor(s): A\nTags: x";
    let b = "TITLE: Two\nTags: y";
    let (title, author, map) = parse_ebook_meta(&format!("{}\n{}", a, b));
    assert_eq!((title.as_str(), author.as_str()), ("Two", "A"));
    assert_eq!(
        pairs(&map),
        vec![pair("Author(s)", "A"), pair("TITLE", "Two"), pair("Tags", "y"), pair("Title", "One")]
    );
}
