use booksearch::app::{App, IndexUpdate};
use booksearch::book::{make_searchable, BookEntry};
use booksearch::keys::{Key, KeyAction, KeyEvent, KeyKind};
use booksearch::screen::{book_details, label};
use booksearch::share::{find_code, word_is_code};

fn book(path: &str, title: &str, author: &str) -> BookEntry {
    let mut b = BookEntry::default();
    b.path = path.to_string();
    b.title = title.to_string();
    b.author = author.to_string();
    make_searchable(&mut b);
    b
}

fn many() -> App {
    let books = (0..25).map(|i| book(&format!("{:02}.epub", i), "", "")).collect();
    App::new(books, true)
}

fn press(a: &mut App, key: Key) -> KeyAction {
    a.handle_key(KeyEvent { key, kind: KeyKind::Press, control: false })
}

#[test]
fn keys_move_the_selection() {
    let mut a = many();
    assert!(matches!(press(&mut a, Key::Up), KeyAction::Nothing));
    assert_eq!(a.selected(), Some(0));
    press(&mut a, Key::Down);
    assert_eq!(a.selected(), Some(1));
    press(&mut a, Key::PageDown);
    assert_eq!(a.selected(), Some(11));
    press(&mut a, Key::PageDown);
    press(&mut a, Key::PageDown);
    assert_eq!(a.selected(), Some(24));
    press(&mut a, Key::Down);
    assert_eq!(a.selected(), Some(24));
    press(&mut a, Key::PageUp);
    assert_eq!(a.selected(), Some(14));
    press(&mut a, Key::Up);
    assert_eq!(a.selected(), Some(13));
    press(&mut a, Key::End);
    assert_eq!(a.selected(), Some(24));
    press(&mut a, Key::Home);
    assert_eq!(a.selected(), Some(0));
    assert!(matches!(press(&mut a, Key::Other), KeyAction::Nothing));
    assert_eq!(a.selected(), Some(0));
}

#[test]
fn characters_make_the_filter() {
    let mut a = many();
    press(&mut a, Key::Char('1'));
    press(&mut a, Key::Char('2'));
    assert_eq!(a.filter(), "12");
    assert_eq!(a.filtered(), &vec!["12.epub".to_string()]);
    press(&mut a, Key::Backspace);
    assert_eq!(a.filter(), "1");
    assert_eq!(a.filtered().len(), 12);
    press(&mut a, Key::Backspace);
    press(&mut a, Key::Backspace);
    assert_eq!(a.filter(), "");
    assert_eq!(a.filtered().len(), 25);
    press(&mut a, Key::Char('ß'));
    press(&mut a, Key::Backspace);
    assert_eq!(a.filter(), "");
}

fn event(key: Key, kind: KeyKind, control: bool) -> KeyEvent {
    KeyEvent { key, kind, control }
}

#[test]
fn escape_and_control_c_quit() {
    let mut a = many();
    assert!(matches!(press(&mut a, Key::Esc), KeyAction::Quit));
    let c = a.handle_key(event(Key::Char('c'), KeyKind::Repeat, true));
    assert!(matches!(c, KeyAction::Quit));
    assert_eq!(a.filter(), "");
    assert!(matches!(press(&mut a, Key::Char('c')), KeyAction::Nothing));
    assert_eq!(a.filter(), "c");
    let x = a.handle_key(event(Key::Char('x'), KeyKind::Press, true));
    assert!(matches!(x, KeyAction::Nothing));
    assert_eq!(a.filter(), "cx");
}

#[test]
fn releasing_a_key_does_nothing() {
    let mut a = many();
    for key in [Key::Esc, Key::Down, Key::Enter] {
        let r = a.handle_key(event(key, KeyKind::Release, false));
        assert!(matches!(r, KeyAction::Nothing));
    }
    assert_eq!(a.selected(), Some(0));
    assert!(a.sharing().is_none());
    a.handle_key(event(Key::Down, KeyKind::Repeat, false));
    assert_eq!(a.selected(), Some(1));
}

#[test]
fn enter_shares_the_selected_book() {
    let mut a = many();
    press(&mut a, Key::Down);
    assert!(matches!(press(&mut a, Key::Enter), KeyAction::Share(p) if p == "01.epub"));
    assert_eq!(a.sharing().unwrap().path, "01.epub");
    assert_eq!(a.share_lines(), vec!["01.epub", "Waiting for a code...", "Esc cancels"]);
    assert!(matches!(press(&mut a, Key::Char('x')), KeyAction::Nothing));
    assert!(matches!(press(&mut a, Key::Down), KeyAction::Nothing));
    assert!(matches!(press(&mut a, Key::Enter), KeyAction::Nothing));
    assert_eq!((a.filter().as_str(), a.selected()), ("", Some(1)));
}

#[test]
fn escape_leaves_the_sending_and_not_the_program() {
    let mut a = many();
    press(&mut a, Key::Enter);
    assert!(matches!(press(&mut a, Key::Esc), KeyAction::CancelShare));
    assert!(a.sharing().is_none());
    assert!(a.share_lines().is_empty());
    assert_eq!(a.selected(), Some(0));
    assert!(matches!(press(&mut a, Key::Esc), KeyAction::Quit));
    press(&mut a, Key::Enter);
    let c = a.handle_key(event(Key::Char('c'), KeyKind::Press, true));
    assert!(matches!(c, KeyAction::Quit));
}

#[test]
fn enter_without_a_selection_does_nothing() {
    let mut a = App::new(vec![], false);
    assert!(matches!(press(&mut a, Key::Enter), KeyAction::Nothing));
    assert!(a.sharing().is_none());
}

#[test]
fn the_code_is_shown_once_it_is_told() {
    let mut a = many();
    a.share_line("Wormhole code is: 7-crossover-clockwork");
    assert!(a.sharing().is_none());
    press(&mut a, Key::Enter);
    a.share_line("Sending 1-2 files");
    assert_eq!(a.share_lines()[1], "Waiting for a code...");
    a.share_line("Wormhole code is: 7-crossover-clockwork");
    a.share_line("and not 8-other-words");
    assert_eq!(
        a.share_lines(),
        vec!["00.epub", "wormhole receive 7-crossover-clockwork", "Esc cancels"]
    );
    a.share_ended(true);
    assert_eq!(a.share_lines(), vec!["00.epub", "Sent", "Esc returns"]);
    press(&mut a, Key::Esc);
    press(&mut a, Key::Enter);
    a.share_ended(false);
    assert_eq!(a.share_lines(), vec!["00.epub", "The transfer failed", "Esc returns"]);
}

#[test]
fn codes_are_a_number_and_words() {
    for w in ["7-crossover-clockwork", "12-A", "0-x-"] {
        assert!(word_is_code(w), "{}", w);
    }
    for w in ["", "7", "7-", "7-8", "-a", "a-7-b", "7a-b", "7--b", "7-a.", "7-a'", "7-a-8"] {
        assert!(!word_is_code(w), "{}", w);
    }
    assert_eq!(find_code(" a 3-b-c 4-d", "x.epub"), Some("3-b-c".to_string()));
    assert_eq!(find_code("2024-01-01 none", ""), None);
}

#[test]
fn the_filter_line_ends_in_a_cursor() {
    let mut a = many();
    assert_eq!(a.filter_line(), "_");
    press(&mut a, Key::Char('4'));
    assert_eq!(a.filter_line(), "4_");
}

#[test]
fn the_title_tells_how_far_the_indexer_is() {
    let mut a = many();
    assert_eq!(a.status_title(), "Filter (25 matches, scanning...)");
    a.drain_updates(vec![IndexUpdate::Total(0)], false);
    assert_eq!(a.status_title(), "Filter (25 matches, scanning...)");
    a.drain_updates(vec![IndexUpdate::Progress { done: 3, total: 120 }], false);
    assert_eq!(a.status_title(), "Filter (25 matches, indexing 3/120)");
    press(&mut a, Key::Char('2'));
    press(&mut a, Key::Char('4'));
    a.drain_updates(vec![IndexUpdate::Done], false);
    assert_eq!(a.status_title(), "Filter (1 matches, 25 books)");
}

#[test]
fn a_book_is_labelled_by_title_or_file() {
    assert_eq!(label(&book("d/x_y.epub", "Title", "Author")), "Title — Author");
    assert_eq!(label(&book("d/x_y.epub", "Title", "")), "Title");
    assert_eq!(label(&book("d/x_y.epub", "", "Author")), "x_y.epub");
    assert_eq!(label(&book("d/..", "", "")), "d/..");
    let a = App::new(vec![book("b", "B", "x"), book("d/a", "", "")], false);
    assert_eq!(a.labels(), vec!["a".to_string(), "B — x".to_string()]);
}

#[test]
fn details_leave_out_what_was_told() {
    let mut b = book("d/x.epub", "T", "A");
    for (k, v) in [("Tags", "x"), ("TITLE", "t"), ("Author(s)", "a"), ("Author sort", "s")] {
        b.metadata.insert(k.to_string(), v.to_string());
    }
    let lines: Vec<(String, String)> =
        book_details(&b).into_iter().map(|l| (l.label, l.text)).collect();
    let want: Vec<(String, String)> = [
        ("Title:  ", "T"),
        ("Author: ", "A"),
        ("File:   ", "d/x.epub"),
        ("", ""),
        ("Author sort: ", "s"),
        ("Tags: ", "x"),
    ]
    .iter()
    .map(|p| (p.0.to_string(), p.1.to_string()))
    .collect();
    assert_eq!(lines, want);
    let a = App::new(vec![b], false);
    assert_eq!(a.detail_lines().len(), 6);
}

#[test]
fn without_a_selection_there_are_no_details() {
    let a = App::new(vec![], false);
    let lines = a.detail_lines();
    assert_eq!(lines.len(), 1);
    assert_eq!(lines[0].label, "");
    assert_eq!(lines[0].text, "No selection");
}

#[test]
fn the_cover_message_tells_why_there_is_none() {
    assert_eq!(App::new(vec![], true).cover_message(), "(no cover)");
    assert_eq!(App::new(vec![], false).cover_message(), "(terminal does not support images)");
}

#[test]
fn a_word_of_the_path_is_no_code() {
    assert_eq!(find_code("3-b 4-d", "dir/The 3-b book.epub"), Some("4-d".to_string()));
    assert_eq!(find_code("3-b", "3-bc"), None);
    let mut a = App::new(vec![book("d/The 4-Hour Body.epub", "", "")], false);
    press(&mut a, Key::Enter);
    a.share_line("Sending 9 kB file named 'The 4-Hour Body.epub'");
    assert_eq!(a.share_lines()[1], "Waiting for a code...");
    a.share_line("Wormhole code is: 7-crossover-clockwork");
    assert_eq!(a.share_lines()[1], "wormhole receive 7-crossover-clockwork");
    let mut a = App::new(vec![book("The 4-Hour.epub", "", "")], false);
    press(&mut a, Key::Enter);
    a.share_line("Sending 9 kB file named 'The 4-Hour.epub'");
    assert_eq!(a.share_lines()[1], "Waiting for a code...");
}
