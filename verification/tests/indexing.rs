use booksearch::book::BookEntry;
use booksearch::extract::{
    cover_to_write, extract_metadata, extract_metadata_external, extract_metadata_rbook,
    extract_metadata_rbook_with_timeout, run_command_with_timeout, written_cover, ChildPoll,
    ChildStep, EpubMetadata, ParseEvent, ParseStep, Received, ToolOutput, PARSE_TIMEOUT_SECS,
};
use booksearch::index::{
    plan_index, run_indexer, stamp, Catalog, FoundFile, IndexStep, KnownBook, BATCH_SIZE,
    CHECKPOINT_EVERY_BATCHES,
};
use booksearch::screen::label;
use booksearch::store::{entry_from_row, entry_with_metadata, load_all_books, upsert_book, BookRow};

fn pairs(b: &BookEntry) -> Vec<(&str, &str)> {
    b.metadata.entries().iter().map(|p| (p.0.as_str(), p.1.as_str())).collect()
}

fn strings(v: &[&str]) -> Vec<String> {
    v.iter().map(|s| s.to_string()).collect()
}

fn bare() -> EpubMetadata {
    EpubMetadata {
        title: None,
        creators: vec![],
        publishers: vec![],
        language: None,
        description: None,
        identifier: None,
        tags: vec![],
    }
}

#[test]
fn an_epub_tells_its_metadata() {
    let meta = EpubMetadata {
        title: Some("T".to_string()),
        creators: strings(&["A", "B"]),
        publishers: strings(&["P", "Q"]),
        language: Some("en".to_string()),
        description: Some("D".to_string()),
        identifier: Some("I".to_string()),
        tags: strings(&["x", "y", "z"]),
    };
    let b = extract_metadata_rbook(meta, Some("c.jpg".to_string()));
    assert_eq!((b.title.as_str(), b.author.as_str()), ("T", "A & B"));
    assert_eq!(b.cover, Some("c.jpg".to_string()));
    assert_eq!((b.path.as_str(), b.size, b.mtime, b.search_text.as_str()), ("", 0, 0, ""));
    assert_eq!(
        pairs(&b),
        vec![
            ("Author(s)", "A & B"),
            ("Comments", "D"),
            ("Identifiers", "I"),
            ("Languages", "en"),
            ("Publisher", "P, Q"),
            ("Tags", "x, y, z"),
            ("Title", "T"),
        ]
    );
}

#[test]
fn an_epub_that_tells_nothing_has_no_metadata() {
    let b = extract_metadata_rbook(bare(), None);
    assert_eq!((b.title.as_str(), b.author.as_str()), ("", ""));
    assert!(pairs(&b).is_empty());
    let mut meta = bare();
    meta.title = Some(String::new());
    meta.creators = strings(&[""]);
    meta.publishers = strings(&[""]);
    meta.language = Some(String::new());
    let b = extract_metadata_rbook(meta, None);
    assert_eq!(pairs(&b), vec![("Languages", ""), ("Publisher", "")]);
}

#[test]
fn an_empty_cover_is_not_written() {
    assert_eq!(cover_to_write(None), None);
    assert_eq!(cover_to_write(Some(vec![])), None);
    assert_eq!(cover_to_write(Some(vec![1, 2])), Some(vec![1, 2]));
}

#[test]
fn a_program_is_waited_for_until_the_timeout() {
    let limit = PARSE_TIMEOUT_SECS as u128 * 1_000_000_000;
    assert!(run_command_with_timeout(ChildPoll::Exited, limit + 1, limit) == ChildStep::Collect);
    assert!(run_command_with_timeout(ChildPoll::Running, 0, limit) == ChildStep::Wait(100));
    assert!(run_command_with_timeout(ChildPoll::Running, limit - 1, limit) == ChildStep::Wait(100));
    assert!(run_command_with_timeout(ChildPoll::Running, limit, limit) == ChildStep::Kill);
    assert!(run_command_with_timeout(ChildPoll::Failed, 0, limit) == ChildStep::Kill);
    assert_eq!(PARSE_TIMEOUT_SECS, 60);
}

#[test]
fn the_tool_tells_its_metadata() {
    let out = ToolOutput { success: true, stdout: b"Title : T\nAuthor(s) : A\xc3\xa4".to_vec() };
    let b = extract_metadata_external(Some(out), Some("c.jpg".to_string()));
    assert_eq!((b.title.as_str(), b.author.as_str()), ("T", "Aä"));
    assert_eq!(b.cover, Some("c.jpg".to_string()));
    let out = ToolOutput { success: true, stdout: b"Title : \xffT".to_vec() };
    let b = extract_metadata_external(Some(out), None);
    assert_eq!(b.title, "\u{fffd}T");
}

#[test]
fn a_failing_tool_tells_nothing() {
    let out = ToolOutput { success: false, stdout: b"Title : T".to_vec() };
    let b = extract_metadata_external(Some(out), None);
    assert_eq!(b.title, "");
    assert!(pairs(&b).is_empty());
}

#[test]
fn a_tool_that_does_not_end_leaves_a_note() {
    let b = extract_metadata_external(None, Some("c.jpg".to_string()));
    assert_eq!(b.title, "");
    assert_eq!(pairs(&b), vec![("_indexer_status", "ebook-meta timed out")]);
    assert_eq!(b.cover, Some("c.jpg".to_string()));
}

#[test]
fn a_cover_counts_if_it_was_written() {
    let p = "c.jpg".to_string();
    assert_eq!(written_cover(p.clone(), true, Some(1)), Some(p.clone()));
    assert_eq!(written_cover(p.clone(), true, Some(0)), None);
    assert_eq!(written_cover(p.clone(), true, None), None);
    assert_eq!(written_cover(p, false, Some(1)), None);
}

#[test]
fn the_parser_of_epubs_may_fail_or_hang() {
    let r = extract_metadata_rbook_with_timeout(Received::Entry(Some(BookEntry::default())));
    assert!(matches!(r, Ok(Some(_))));
    assert!(matches!(extract_metadata_rbook_with_timeout(Received::Entry(None)), Ok(None)));
    assert!(matches!(extract_metadata_rbook_with_timeout(Received::Disconnected), Ok(None)));
    assert!(matches!(extract_metadata_rbook_with_timeout(Received::Timeout), Err(())));
}

#[test]
fn files_go_to_their_parser() {
    assert!(matches!(extract_metadata("a/b.Epub", ParseEvent::Start), ParseStep::TryEpub));
    assert!(matches!(extract_metadata("a/b.mobi", ParseEvent::Start), ParseStep::RunTool));
    assert!(matches!(extract_metadata("a", ParseEvent::Epub(Ok(None))), ParseStep::RunTool));
    let mut e = BookEntry::default();
    e.title = "T".to_string();
    match extract_metadata("a.epub", ParseEvent::Epub(Ok(Some(e)))) {
        ParseStep::Finished(b) => assert_eq!(b.title, "T"),
        _ => panic!("the book was read"),
    }
    let mut e = BookEntry::default();
    e.title = "U".to_string();
    match extract_metadata("a.pdf", ParseEvent::Tool(e)) {
        ParseStep::Finished(b) => assert_eq!(b.title, "U"),
        _ => panic!("the book was read"),
    }
}

#[test]
fn an_epub_that_hangs_is_noted_and_left_alone() {
    match extract_metadata("a.epub", ParseEvent::Epub(Err(()))) {
        ParseStep::Finished(b) => {
            assert_eq!(pairs(&b), vec![("_indexer_status", "rbook timed out")]);
            assert_eq!(b.cover, None);
        }
        _ => panic!("the file is not tried again"),
    }
}

fn sample() -> BookEntry {
    let mut b = BookEntry::default();
    b.path = "d/My_Book.epub".to_string();
    b.size = u64::MAX;
    b.mtime = 1 << 63;
    b.title = "T".to_string();
    b.author = "A".to_string();
    b.cover = Some("c.jpg".to_string());
    b.metadata.insert("Tags".to_string(), "x".to_string());
    b
}

#[test]
fn a_book_is_written_as_a_row() {
    let s = upsert_book(&sample());
    assert_eq!(s.filename, "My Book.epub");
    assert_eq!(s.row.path, "d/My_Book.epub");
    assert_eq!((s.row.size, s.row.mtime), (-1, i64::MIN));
    assert_eq!((s.row.title.as_str(), s.row.author.as_str()), ("T", "A"));
    assert_eq!(s.row.cover, Some("c.jpg".to_string()));
    assert_eq!(s.row.metadata, "{\"Tags\":\"x\"}");
}

#[test]
fn a_stored_book_is_loaded_as_it_was() {
    let b = entry_from_row(upsert_book(&sample()).row);
    let a = sample();
    assert_eq!((b.path.as_str(), b.size, b.mtime), (a.path.as_str(), a.size, a.mtime));
    assert_eq!((&b.title, &b.author, &b.cover), (&a.title, &a.author, &a.cover));
    assert_eq!(pairs(&b), pairs(&a));
    assert_eq!(b.search_text, "my book.epub t a");
}

fn row(path: &str, metadata: &str) -> BookRow {
    BookRow {
        path: path.to_string(),
        size: 5,
        mtime: 6,
        title: "T".to_string(),
        author: String::new(),
        cover: None,
        metadata: metadata.to_string(),
    }
}

#[test]
fn rows_are_loaded_in_their_order() {
    let rows = vec![Some(row("b", "{\"k\":\"v\"}")), None, Some(row("a", "no json"))];
    let books = load_all_books(rows);
    assert_eq!(books.len(), 2);
    assert_eq!(books[0].path, "b");
    assert_eq!(pairs(&books[0]), vec![("k", "v")]);
    assert_eq!(books[0].search_text, "b t ");
    assert_eq!((books[1].path.as_str(), books[1].size, books[1].mtime), ("a", 5, 6));
    assert!(pairs(&books[1]).is_empty());
}

#[test]
fn a_row_is_loaded_with_the_metadata_given() {
    let b = entry_with_metadata(row("X_Y", "{\"k\":\"v\"}"), sample().metadata);
    assert_eq!(pairs(&b), vec![("Tags", "x")]);
    assert_eq!(b.search_text, "x y t ");
}

fn known(path: &str, size: i64, mtime: i64, cover: Option<&str>) -> KnownBook {
    KnownBook { path: path.to_string(), size, mtime, cover: cover.map(String::from) }
}

fn found(rel: &str, size: u64, mtime: u64, slot: usize) -> FoundFile {
    FoundFile { rel: rel.to_string(), size, mtime, slot, cover_missing: false }
}

fn rels(files: &[FoundFile]) -> Vec<&str> {
    files.iter().map(|f| f.rel.as_str()).collect()
}

#[test]
fn new_and_changed_files_are_read() {
    let c = Catalog::new(vec![known("a", 1, 2, None), known("b", 1, -1, Some("c.jpg"))]);
    assert!(!c.needs_index(&found("a", 1, 2, 0)));
    assert!(c.needs_index(&found("a", 2, 2, 0)));
    assert!(c.needs_index(&found("a", 1, 3, 0)));
    assert!(c.needs_index(&found("new", 1, 2, 0)));
    assert!(!c.needs_index(&found("b", 1, u64::MAX, 0)));
    let mut f = found("b", 1, u64::MAX, 0);
    f.cover_missing = true;
    assert!(c.needs_index(&f));
    let mut f = found("a", 1, 2, 0);
    f.cover_missing = true;
    assert!(!c.needs_index(&f));
}

#[test]
fn covers_on_record_are_told() {
    let c = Catalog::new(vec![
        known("a", 1, 2, None),
        known("b", 1, 2, Some("old.jpg")),
        known("b", 3, 4, Some("new.jpg")),
    ]);
    assert_eq!(c.cover_of("a"), None);
    assert_eq!(c.cover_of("b"), Some(&"new.jpg".to_string()));
    assert_eq!(c.cover_of("c"), None);
    assert!(!c.needs_index(&found("b", 3, 4, 0)));
}

#[test]
fn books_whose_files_are_gone_are_forgotten() {
    let c = Catalog::new(vec![
        known("a", 1, 2, Some("a.jpg")),
        known("b", 1, 2, None),
        known("c", 1, 2, None),
        known("a", 1, 2, Some("z.jpg")),
    ]);
    let gone = c.forgotten(&vec![found("b", 9, 9, 0), found("x", 9, 9, 1)]);
    let gone: Vec<(&str, Option<&str>)> =
        gone.iter().map(|k| (k.path.as_str(), k.cover.as_deref())).collect();
    assert_eq!(gone, vec![("a", Some("z.jpg")), ("c", None)]);
}

#[test]
fn epubs_are_read_first() {
    let c = Catalog::new(vec![known("same.epub", 1, 2, None)]);
    let files = vec![
        found("1.pdf", 0, 0, 10),
        found("2.EPUB", 0, 0, 11),
        found("same.epub", 1, 2, 12),
        found("3.mobi", 0, 0, 13),
        found("4.epub", 0, 0, 14),
    ];
    let plan = plan_index(&c, files);
    assert_eq!(rels(&plan), vec!["2.EPUB", "4.epub", "1.pdf", "3.mobi"]);
    assert_eq!(plan.iter().map(|f| f.slot).collect::<Vec<_>>(), vec![11, 14, 10, 13]);
}

#[test]
fn nothing_to_read_takes_no_transaction() {
    let steps = run_indexer(vec![]);
    assert_eq!(steps.len(), 1);
    assert!(matches!(steps[0], IndexStep::Total(0)));
}

#[test]
fn books_are_committed_in_batches() {
    let n = 2 * BATCH_SIZE * CHECKPOINT_EVERY_BATCHES + BATCH_SIZE + 4;
    let files = (0..n).map(|i| found(&format!("{}.epub", i), 0, 0, i)).collect();
    let steps = run_indexer(files);
    assert!(matches!(steps[0], IndexStep::Total(t) if t == n));
    let (mut open, mut pending, mut commits, mut read) = (false, 0, 0, 0);
    let (mut all_commits, mut checkpoints) = (0, 0);
    for s in &steps[1..] {
        match s {
            IndexStep::Total(_) => panic!("told once"),
            IndexStep::Begin => {
                assert!(!open);
                open = true;
            }
            IndexStep::Index { file, done, total } => {
                assert!(open);
                assert_eq!(file.slot, read);
                read += 1;
                pending += 1;
                assert!(pending <= 15);
                assert_eq!((*done, *total), (read, n));
            }
            IndexStep::Commit => {
                assert!(open);
                open = false;
                pending = 0;
                commits += 1;
                all_commits += 1;
                assert!(commits <= 10);
            }
            IndexStep::Checkpoint => {
                assert!(!open);
                commits = 0;
                checkpoints += 1;
            }
        }
    }
    assert!(!open);
    assert_eq!((pending, commits, read), (0, 0, n));
    assert_eq!((all_commits, checkpoints), (22, 3));
}

#[test]
fn a_full_batch_is_followed_by_an_empty_transaction() {
    let files = (0..15).map(|i| found(&format!("{}.pdf", i), 0, 0, i)).collect();
    let steps = run_indexer(files);
    assert_eq!(steps.len(), 21);
    assert!(matches!(steps[17], IndexStep::Commit));
    assert!(matches!(steps[18], IndexStep::Begin));
    assert!(matches!(steps[19], IndexStep::Commit));
    assert!(matches!(steps[20], IndexStep::Checkpoint));
}

#[test]
fn a_second_run_does_nothing() {
    let files = || vec![found("a.epub", u64::MAX, 7, 0), found("b.pdf", 3, 1 << 63, 1)];
    let plan = plan_index(&Catalog::new(vec![]), files());
    assert_eq!(plan.len(), 2);
    let mut rows = vec![];
    for f in &plan {
        let row = upsert_book(&stamp(extract_metadata_external(None, None), f)).row;
        rows.push(KnownBook { path: row.path, size: row.size, mtime: row.mtime, cover: row.cover });
    }
    let again = Catalog::new(rows);
    assert!(plan_index(&again, files()).is_empty());
    assert!(again.forgotten(&files()).is_empty());
    let mut changed = files();
    changed[0].mtime = 8;
    assert_eq!(rels(&plan_index(&again, changed)), vec!["a.epub"]);
}

#[test]
fn a_book_gets_the_stamp_of_its_file() {
    let b = stamp(sample(), &found("x.epub", 4, 5, 0));
    assert_eq!((b.path.as_str(), b.size, b.mtime), ("x.epub", 4, 5));
    assert_eq!(b.title, "T");
    assert_eq!(b.cover, Some("c.jpg".to_string()));
}

#[test]
fn without_an_index_every_file_is_read() {
    let files = vec![found("1.pdf", 0, 0, 0), found("2.epub", 0, 0, 1), found("3.lit", 0, 0, 2)];
    let plan = plan_index(&Catalog::new(vec![]), files);
    assert_eq!(rels(&plan), vec!["2.epub", "1.pdf", "3.lit"]);
}

#[test]
fn a_placeholder_is_not_retried() {
    let f = found("slow.epub", 10, 20, 0);
    let b = match extract_metadata("slow.epub", ParseEvent::Epub(Err(()))) {
        ParseStep::Finished(b) => stamp(b, &f),
        _ => panic!("the file is left alone"),
    };
    let row = upsert_book(&b).row;
    let c = Catalog::new(vec![KnownBook {
        path: row.path,
        size: row.size,
        mtime: row.mtime,
        cover: row.cover,
    }]);
    assert!(!c.needs_index(&f));
    assert!(c.needs_index(&found("slow.epub", 11, 20, 0)));
}

#[test]
fn an_unread_file_is_listed_by_its_name() {
    let f = found("dir/some_scan.pdf", 10, 20, 0);
    let b = stamp(extract_metadata_external(None, None), &f);
    assert_eq!(label(&b), "some_scan.pdf");
    let failed = ToolOutput { success: false, stdout: vec![] };
    let b = stamp(extract_metadata_external(Some(failed), None), &f);
    assert_eq!(label(&b), "some_scan.pdf");
}

#[test]
fn a_run_records_the_files_that_are_there() {
    let c = Catalog::new(vec![known("gone.pdf", 1, 1, None), known("kept.epub", 2, 2, None)]);
    let files = || vec![found("kept.epub", 2, 2, 0), found("new.mobi", 3, u64::MAX, 1)];
    let gone = c.forgotten(&files());
    assert_eq!(gone.len(), 1);
    let mut record = vec![known("kept.epub", 2, 2, None)];
    for f in &plan_index(&c, files()) {
        let row = upsert_book(&stamp(BookEntry::default(), f)).row;
        record.push(KnownBook { path: row.path, size: row.size, mtime: row.mtime, cover: None });
    }
    let got: Vec<(&str, u64, u64)> =
        record.iter().map(|k| (k.path.as_str(), k.size as u64, k.mtime as u64)).collect();
    assert_eq!(got, vec![("kept.epub", 2, 2), ("new.mobi", 3, u64::MAX)]);
}
