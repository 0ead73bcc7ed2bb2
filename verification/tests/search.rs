use booksearch::app::{App, CoverLookup, IndexUpdate};
use booksearch::book::{make_searchable, BookEntry};

fn book(path: &str, title: &str, author: &str) -> BookEntry {
    let mut b = BookEntry::default();
    b.path = path.to_string();
    b.title = title.to_string();
    b.author = author.to_string();
    make_searchable(&mut b);
    b
}

fn library() -> Vec<BookEntry> {
    vec![
        book("w.epub", "War and Peace", "Leo Tolstoy"),
        book("a.epub", "anna Karenina", "Leo Tolstoy"),
        book("e.epub", "Emma", "Jane Austen"),
        book("scan_1.pdf", "", ""),
    ]
}

fn app() -> App {
    App::new(library(), true)
}

fn shown(a: &App) -> Vec<&str> {
    a.filtered().iter().map(|s| s.as_str()).collect()
}

fn set(a: &mut App, f: &str) {
    a.set_filter(f.to_string());
}

#[test]
fn the_start_shows_all_books_in_order() {
    let a = app();
    assert_eq!(shown(&a), vec!["scan_1.pdf", "a.epub", "e.epub", "w.epub"]);
    assert_eq!(a.selected(), Some(0));
    assert_eq!(a.selected_path().unwrap(), "scan_1.pdf");
    assert_eq!(a.filter(), "");
    assert_eq!(a.book_count(), 4);
    assert_eq!(a.progress(), None);
    assert!(!a.indexing_done());
}

#[test]
fn an_empty_library_shows_nothing() {
    let mut a = App::new(vec![], false);
    assert!(shown(&a).is_empty());
    assert_eq!(a.selected(), None);
    assert!(a.selected_path().is_none());
    assert!(a.selected_book().is_none());
    a.move_selection(1);
    a.select_first();
    a.select_last();
    assert_eq!(a.selected(), None);
    set(&mut a, "x");
    assert!(shown(&a).is_empty());
    assert!(matches!(a.current_cover(), CoverLookup::Nothing));
}

#[test]
fn of_two_books_at_one_path_the_later_stands() {
    let a = App::new(vec![book("x", "one", ""), book("x", "two", "")], false);
    assert_eq!(a.book_count(), 1);
    assert_eq!(a.book("x").unwrap().title, "two");
    assert_eq!(shown(&a), vec!["x", "x"]);
}

#[test]
fn a_filter_shows_the_books_that_match() {
    let mut a = app();
    set(&mut a, "LEO");
    assert_eq!(shown(&a), vec!["a.epub", "w.epub"]);
    set(&mut a, "leo war");
    assert_eq!(shown(&a), vec!["w.epub"]);
    set(&mut a, "scan 1");
    assert_eq!(shown(&a), vec!["scan_1.pdf"]);
    set(&mut a, "scan_1");
    assert!(shown(&a).is_empty());
    assert_eq!(a.selected(), None);
    set(&mut a, "   ");
    assert_eq!(a.filtered().len(), 4);
}

#[test]
fn typing_gives_what_the_whole_filter_gives() {
    let text = "leo an  e";
    let mut typed = app();
    for n in 1..text.len() + 1 {
        set(&mut typed, &text[..n]);
        let mut whole = app();
        set(&mut whole, "zzz");
        set(&mut whole, &text[..n]);
        assert_eq!(shown(&typed), shown(&whole), "{:?}", &text[..n]);
    }
}

#[test]
fn taking_back_a_character_takes_back_its_effect() {
    let mut a = app();
    set(&mut a, "l");
    let before: Vec<String> = a.filtered().clone();
    set(&mut a, "le");
    set(&mut a, "leo w");
    assert_eq!(shown(&a), vec!["w.epub"]);
    set(&mut a, "le");
    set(&mut a, "l");
    assert_eq!(a.filtered(), &before);
    set(&mut a, "");
    assert_eq!(a.filtered().len(), 4);
}

#[test]
fn a_shorter_filter_without_a_layer_is_built_anew() {
    let mut a = app();
    set(&mut a, "leo w");
    set(&mut a, "leo");
    assert_eq!(shown(&a), vec!["a.epub", "w.epub"]);
    set(&mut a, "emma");
    assert_eq!(shown(&a), vec!["e.epub"]);
}

#[test]
fn the_same_filter_changes_nothing() {
    let mut a = app();
    set(&mut a, "leo");
    a.move_selection(1);
    set(&mut a, "leo");
    assert_eq!(a.selected(), Some(1));
}

#[test]
fn books_are_found_among_some_paths() {
    let a = app();
    let base = vec!["w.epub".to_string(), "gone".to_string(), "e.epub".to_string()];
    assert_eq!(a.refine_paths(&base, &vec![]), base);
    assert_eq!(a.refine_paths(&base, &vec!["a".to_string()]), vec!["w.epub", "e.epub"]);
    assert_eq!(a.refine_paths(&base, &vec!["austen".to_string()]), vec!["e.epub"]);
}

#[test]
fn the_selection_stays_within_what_is_shown() {
    let mut a = app();
    a.move_selection(2);
    assert_eq!(a.selected(), Some(2));
    a.move_selection(10);
    assert_eq!(a.selected(), Some(3));
    a.move_selection(i32::MAX);
    assert_eq!(a.selected(), Some(3));
    a.move_selection(-1);
    assert_eq!(a.selected(), Some(2));
    a.move_selection(i32::MIN);
    assert_eq!(a.selected(), Some(0));
    a.select_last();
    assert_eq!(a.selected(), Some(3));
    set(&mut a, "leo");
    assert_eq!(a.selected(), Some(1));
    a.select_first();
    assert_eq!(a.selected(), Some(0));
    assert_eq!(a.selected_book().unwrap().title, "anna Karenina");
}

#[test]
fn the_selection_comes_back_after_an_empty_result() {
    let mut a = app();
    a.select_last();
    set(&mut a, "zzz");
    assert_eq!(a.selected(), None);
    set(&mut a, "");
    assert_eq!(a.selected(), Some(0));
}

#[test]
fn progress_is_taken_in() {
    let mut a = app();
    assert!(a.drain_updates(vec![IndexUpdate::Total(7)], false));
    assert_eq!(a.progress(), Some((0, 7)));
    assert!(a.drain_updates(vec![IndexUpdate::Progress { done: 3, total: 7 }], false));
    assert_eq!(a.progress(), Some((3, 7)));
    assert!(!a.drain_updates(vec![], false));
    assert!(!a.indexing_done());
    assert!(a.drain_updates(vec![IndexUpdate::Done], false));
    assert!(a.indexing_done());
}

#[test]
fn where_the_indexer_is_gone_indexing_is_done() {
    let mut a = app();
    assert!(!a.drain_updates(vec![], true));
    assert!(a.indexing_done());
}

#[test]
fn a_reported_book_is_listed_and_found() {
    let mut a = app();
    set(&mut a, "dune");
    assert!(shown(&a).is_empty());
    let mut b = BookEntry::default();
    b.path = "d.epub".to_string();
    b.title = "Dune".to_string();
    assert!(a.drain_updates(vec![IndexUpdate::Book(b)], false));
    assert_eq!(shown(&a), vec!["d.epub"]);
    assert_eq!(a.selected(), Some(0));
    assert_eq!(a.book("d.epub").unwrap().search_text, "d.epub dune ");
    set(&mut a, "");
    assert_eq!(shown(&a), vec!["scan_1.pdf", "a.epub", "d.epub", "e.epub", "w.epub"]);
    assert_eq!(a.book_count(), 5);
}

#[test]
fn a_book_that_is_reported_again_is_listed_once() {
    let mut a = app();
    a.drain_updates(
        vec![
            IndexUpdate::Book(book("e.epub", "Zadig", "Voltaire")),
            IndexUpdate::Book(book("n.epub", "New", "")),
            IndexUpdate::Book(book("n.epub", "Newer", "")),
        ],
        false,
    );
    assert_eq!(shown(&a), vec!["scan_1.pdf", "a.epub", "n.epub", "w.epub", "e.epub"]);
    assert_eq!(a.book("n.epub").unwrap().title, "Newer");
}

#[test]
fn a_removed_book_is_gone() {
    let mut a = app();
    a.drain_updates(
        vec![
            IndexUpdate::Removed("a.epub".to_string()),
            IndexUpdate::Removed("unknown".to_string()),
        ],
        false,
    );
    assert_eq!(shown(&a), vec!["scan_1.pdf", "e.epub", "w.epub"]);
    assert!(a.book("a.epub").is_none());
}

#[test]
fn the_selection_stays_with_its_book() {
    let mut a = app();
    a.move_selection(2);
    assert_eq!(a.selected_path().unwrap(), "e.epub");
    a.drain_updates(vec![IndexUpdate::Book(book("0.epub", "Aaa", ""))], false);
    assert_eq!(a.selected_path().unwrap(), "e.epub");
    assert_eq!(a.selected(), Some(3));
    a.drain_updates(vec![IndexUpdate::Removed("e.epub".to_string())], false);
    assert_eq!(a.selected(), Some(3));
    assert_eq!(a.selected_path().unwrap(), "w.epub");
    a.drain_updates(vec![IndexUpdate::Removed("w.epub".to_string())], false);
    assert_eq!(a.selected(), Some(2));
}

#[test]
fn updates_keep_the_filter() {
    let mut a = app();
    set(&mut a, "l");
    set(&mut a, "le");
    a.drain_updates(vec![IndexUpdate::Book(book("x.epub", "Lear", "Shakespeare"))], false);
    assert_eq!(a.filter(), "le");
    assert_eq!(shown(&a), vec!["a.epub", "x.epub", "w.epub"]);
    set(&mut a, "l");
    assert_eq!(shown(&a), vec!["a.epub", "x.epub", "w.epub"]);
}

#[test]
fn a_cover_is_loaded_once() {
    let mut b = book("c.epub", "C", "");
    b.cover = Some("covers/c.jpg".to_string());
    let mut a = App::new(vec![b], true);
    match a.current_cover() {
        CoverLookup::Load { path, file } => {
            assert_eq!(path, "c.epub");
            assert_eq!(file, Some("covers/c.jpg".to_string()));
        }
        _ => panic!("the cover is not known yet"),
    }
    a.cover_loaded("c.epub".to_string(), true);
    match a.current_cover() {
        CoverLookup::Known { path, found } => {
            assert_eq!(path, "c.epub");
            assert!(found);
        }
        _ => panic!("the cover is known"),
    }
    a.drain_updates(vec![IndexUpdate::Total(1)], false);
    assert!(matches!(a.current_cover(), CoverLookup::Known { .. }));
    a.drain_updates(vec![IndexUpdate::Book(book("c.epub", "C", ""))], false);
    match a.current_cover() {
        CoverLookup::Load { file, .. } => assert_eq!(file, None),
        _ => panic!("the book was read again"),
    }
}

#[test]
fn no_cover_is_loaded_where_images_cannot_be_shown() {
    let mut b = book("c.epub", "C", "");
    b.cover = Some("covers/c.jpg".to_string());
    let a = App::new(vec![b], false);
    assert!(!a.images());
    assert_eq!(a.load_cover("c.epub"), None);
    let mut b = book("c.epub", "C", "");
    b.cover = Some("covers/c.jpg".to_string());
    let a = App::new(vec![b], true);
    assert_eq!(a.load_cover("c.epub"), Some("covers/c.jpg".to_string()));
    assert_eq!(a.load_cover("other"), None);
}

#[test]
fn search_texts_are_kept_current() {
    let mut a = app();
    let mut b = book("e.epub", "Persuasion", "Jane Austen");
    b.search_text = "stale".to_string();
    a.drain_updates(vec![IndexUpdate::Book(b)], false);
    assert_eq!(a.book("e.epub").unwrap().search_text, "e.epub persuasion jane austen");
    set(&mut a, "persua aust");
    assert_eq!(shown(&a), vec!["e.epub"]);
    set(&mut a, "stale");
    assert!(shown(&a).is_empty());
}

#[test]
fn a_title_is_found_by_the_letters_it_holds() {
    let mut a = App::new(vec![book("a.epub", "ΟΔΥΣΣΕΙΑ", ""), book("b.epub", "ΑΣΑ", "")], false);
    set(&mut a, "ΟΔΥΣ");
    assert_eq!(shown(&a), vec!["a.epub"]);
    set(&mut a, "");
    for f in ["Α", "ΑΣ", "ΑΣΑ"] {
        set(&mut a, f);
        assert!(shown(&a).contains(&"b.epub"), "{}", f);
    }
}

#[test]
fn typing_beyond_ascii_gives_what_the_whole_filter_gives() {
    let books = || {
        vec![book("1", "L'École", "É"), book("2", "Война и мир", ""), book("3", "ΟΔΥΣΣΕΥΣ ΑΣ", "")]
    };
    for text in ["éCOLE l'", "МИР война", "ας σΣευσ"] {
        let chars: Vec<char> = text.chars().collect();
        let mut typed = App::new(books(), false);
        for n in 1..chars.len() + 1 {
            let f: String = chars[..n].iter().collect();
            set(&mut typed, &f);
            let mut whole = App::new(books(), false);
            set(&mut whole, "zzz");
            set(&mut whole, &f);
            assert_eq!(shown(&typed), shown(&whole), "{:?}", f);
            assert!(!shown(&typed).is_empty(), "{:?}", f);
        }
    }
}
