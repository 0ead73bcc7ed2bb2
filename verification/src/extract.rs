//! How a book is read: which parser a file goes to and when the other one takes
//! over, what an entry holds after each of them, and how long they may take.

use crate::book::{
    blank_book, ebook_meta, opt_text, parse_ebook_meta, BookEntry, BookView, ReadMeta,
};
use crate::metadata::Metadata;
use crate::path::{epub_path, is_epub};
use crate::text::{join, joined, texts, Text};
use vstd::prelude::*;
use vstd::utf8::{encode_utf8, valid_utf8};

verus! {

/// How long a parser may take for one file, in seconds.
pub const PARSE_TIMEOUT_SECS: u64 = 60;

/// How long to wait before a running program is looked at again, in
/// milliseconds.
pub const POLL_INTERVAL_MILLIS: u64 = 100;

/// What an EPUB file says of itself.
pub struct EpubMetadata {
    pub title: Option<String>,
    pub creators: Vec<String>,
    pub publishers: Vec<String>,
    pub language: Option<String>,
    pub description: Option<String>,
    pub identifier: Option<String>,
    pub tags: Vec<String>,
}

/// `m` with the value for `name`, if there is one.
pub open spec fn put_if(m: Map<Text, Text>, name: Text, value: Option<Text>) -> Map<
    Text,
    Text,
> {
    match value {
        Some(v) => m.insert(name, v),
        None => m,
    }
}

/// A text, unless it is empty.
pub open spec fn unless_empty(s: Text) -> Option<Text> {
    if s.len() > 0 {
        Some(s)
    } else {
        None
    }
}

/// The texts joined by `sep`, unless there are none.
pub open spec fn joined_if_any(parts: Seq<Text>, sep: Text) -> Option<Text> {
    if parts.len() > 0 {
        Some(joined(parts, sep))
    } else {
        None
    }
}

/// The title of an EPUB file; empty where it has none.
pub open spec fn epub_title(m: EpubMetadata) -> Text {
    match m.title {
        Some(t) => t@,
        None => Seq::empty(),
    }
}

/// The author of an EPUB file: its creators, joined by an ampersand.
pub open spec fn epub_author(m: EpubMetadata) -> Text {
    joined(texts(m.creators@), " & "@)
}

/// The named values of an EPUB file.
pub open spec fn epub_map(m: EpubMetadata) -> Map<Text, Text> {
    let a = put_if(Map::empty(), "Title"@, unless_empty(epub_title(m)));
    let b = put_if(a, "Author(s)"@, unless_empty(epub_author(m)));
    let c = put_if(b, "Publisher"@, joined_if_any(texts(m.publishers@), ", "@));
    let d = put_if(c, "Languages"@, opt_text(m.language));
    let e = put_if(d, "Comments"@, opt_text(m.description));
    let f = put_if(e, "Identifiers"@, opt_text(m.identifier));
    put_if(f, "Tags"@, joined_if_any(texts(m.tags@), ", "@))
}

/// The entry for an EPUB file.
pub open spec fn epub_entry(m: EpubMetadata, cover: Option<Text>) -> BookView {
    BookView {
        title: epub_title(m),
        author: epub_author(m),
        metadata: epub_map(m),
        cover,
        ..blank_book()
    }
}

/// The bytes of a cover, unless there are none.
pub open spec fn cover_bytes(bytes: Option<Seq<u8>>) -> Option<Seq<u8>> {
    match bytes {
        Some(b) => if b.len() == 0 {
            None
        } else {
            Some(b)
        },
        None => None,
    }
}

/// What bytes stand for, where there are some.
pub open spec fn opt_bytes(bytes: Option<Vec<u8>>) -> Option<Seq<u8>> {
    match bytes {
        Some(b) => Some(b@),
        None => None,
    }
}

/// The bytes of a cover, unless there are none.
pub fn cover_to_write(bytes: Option<Vec<u8>>) -> (r: Option<Vec<u8>>)
    ensures
        match bytes {
            Some(b) => if b@.len() > 0 {
                r == bytes
            } else {
                r is None
            },
            None => r is None,
        },
        opt_bytes(r) == cover_bytes(opt_bytes(bytes)),
{
    match bytes {
        Some(b) => if b.len() > 0 {
            Some(b)
        } else {
            None
        },
        None => None,
    }
}

/// The entry for an EPUB file that says this of itself. `cover` is the path of
/// the file that its cover was written to.
pub fn extract_metadata_rbook(meta: EpubMetadata, cover: Option<String>) -> (r: BookEntry)
    ensures
        r@ == epub_entry(meta, opt_text(cover)),
{
    let title = match meta.title {
        Some(t) => t,
        None => String::new(),
    };
    let author = join(&meta.creators, " & ");
    let mut map = Metadata::new();
    if !title.as_str().is_empty() {
        map.insert("Title".to_owned(), title.clone());
    }
    if !author.as_str().is_empty() {
        map.insert("Author(s)".to_owned(), author.clone());
    }
    assert(texts(meta.publishers@).len() == meta.publishers@.len());
    if meta.publishers.len() > 0 {
        map.insert("Publisher".to_owned(), join(&meta.publishers, ", "));
    }
    if let Some(lang) = meta.language {
        map.insert("Languages".to_owned(), lang);
    }
    if let Some(d) = meta.description {
        map.insert("Comments".to_owned(), d);
    }
    if let Some(id) = meta.identifier {
        map.insert("Identifiers".to_owned(), id);
    }
    assert(texts(meta.tags@).len() == meta.tags@.len());
    if meta.tags.len() > 0 {
        map.insert("Tags".to_owned(), join(&meta.tags, ", "));
    }
    let mut entry = BookEntry::default();
    entry.title = title;
    entry.author = author;
    entry.metadata = map;
    entry.cover = cover;
    entry
}

/// A program that was started, as it was found when it was looked at.
pub enum ChildPoll {
    /// It has ended.
    Exited,
    /// It is still running.
    Running,
    /// Its state cannot be told.
    Failed,
}

/// What to do with a program that was started.
#[derive(PartialEq, Eq, Structural)]
pub enum ChildStep {
    /// Collect what it wrote.
    Collect,
    /// End it; there is no result.
    Kill,
    /// Wait for so many milliseconds and look again.
    Wait(u64),
}

/// What to do with a program that has been running for `elapsed` nanoseconds
/// and may run for `timeout`: what it wrote is collected once it has ended, it is
/// ended where its time is over or its state cannot be told, and looked at again
/// otherwise.
pub open spec fn child_step(polled: ChildPoll, elapsed: int, timeout: int) -> ChildStep {
    if polled is Exited {
        ChildStep::Collect
    } else if polled is Running && elapsed < timeout {
        ChildStep::Wait(POLL_INTERVAL_MILLIS)
    } else {
        ChildStep::Kill
    }
}

/// What to do with a program that has been running for `elapsed` nanoseconds
/// and may run for `timeout`.
pub fn run_command_with_timeout(polled: ChildPoll, elapsed: u128, timeout: u128) -> (r: ChildStep)
    ensures
        r == (match polled {
            ChildPoll::Exited => ChildStep::Collect,
            ChildPoll::Running => if elapsed >= timeout {
                ChildStep::Kill
            } else {
                ChildStep::Wait(POLL_INTERVAL_MILLIS)
            },
            ChildPoll::Failed => ChildStep::Kill,
        }),
        r == child_step(polled, elapsed as int, timeout as int),
{
    match polled {
        ChildPoll::Exited => ChildStep::Collect,
        ChildPoll::Running => {
            if elapsed >= timeout {
                ChildStep::Kill
            } else {
                ChildStep::Wait(POLL_INTERVAL_MILLIS)
            }
        },
        ChildPoll::Failed => ChildStep::Kill,
    }
}

/// The text that `String::from_utf8_lossy` makes of bytes.
pub uninterp spec fn utf8_lossy(bytes: Seq<u8>) -> Seq<char>;

/// `String::from_utf8_lossy`. Bytes that are UTF-8 are taken as they are; of
/// others the result is a function of the bytes alone. Where it puts the
/// replacement characters is left unsaid.
#[verifier::external_body]
fn from_utf8_lossy(bytes: &Vec<u8>) -> (r: String)
    ensures
        r@ == utf8_lossy(bytes@),
        valid_utf8(bytes@) ==> encode_utf8(r@) == bytes@,
{
    String::from_utf8_lossy(bytes).to_string()
}

/// What `ebook-meta` came to.
pub struct ToolOutput {
    /// Whether it reported success.
    pub success: bool,
    /// What it wrote.
    pub stdout: Vec<u8>,
}

/// An entry of which nothing is known but why it was not read.
pub open spec fn placeholder_entry(status: Text) -> BookView {
    BookView { metadata: Map::empty().insert("_indexer_status"@, status), ..blank_book() }
}

/// An entry of which nothing is known but why it was not read.
pub fn placeholder(status: &str) -> (r: BookEntry)
    ensures
        r@ == placeholder_entry(status@),
{
    let mut map = Metadata::new();
    map.insert("_indexer_status".to_owned(), status.to_owned());
    let mut entry = BookEntry::default();
    entry.metadata = map;
    entry
}

/// The entry for a file of which `ebook-meta` told this.
pub open spec fn told_entry(told: ReadMeta) -> BookView {
    BookView { title: told.title, author: told.author, metadata: told.map, ..blank_book() }
}

/// The entry for a file of which `ebook-meta` wrote this text.
pub fn told_by_tool(text: &str) -> (r: BookEntry)
    ensures
        r@ == told_entry(ebook_meta(text@)),
{
    let (title, author, map) = parse_ebook_meta(text);
    let mut entry = BookEntry::default();
    entry.title = title;
    entry.author = author;
    entry.metadata = map;
    entry
}

/// What the entry for a file holds, by what became of `ebook-meta`: what it
/// told where it reported success, nothing where it did not, and a note where
/// it did not come to an end.
pub open spec fn tool_entry(output: Option<ToolOutput>, cover: Option<Text>) -> BookView {
    let told = match output {
        Some(out) => if out.success {
            told_entry(ebook_meta(utf8_lossy(out.stdout@)))
        } else {
            blank_book()
        },
        None => placeholder_entry("ebook-meta timed out"@),
    };
    BookView { cover, ..told }
}

/// The path of the cover, if `ebook-meta` wrote one.
pub open spec fn cover_written(path: Text, exists: bool, len: Option<u64>) -> Option<Text> {
    match len {
        Some(n) => if exists && n != 0 {
            Some(path)
        } else {
            None
        },
        None => None,
    }
}

/// The path of the cover, if `ebook-meta` wrote one: the file is there and is
/// not empty. `len` is its length, where that can be told.
pub fn written_cover(path: String, exists: bool, len: Option<u64>) -> (r: Option<String>)
    ensures
        opt_text(r) == (if exists && len is Some && len->0 > 0 {
            Some(path@)
        } else {
            None
        }),
        opt_text(r) == cover_written(path@, exists, len),
{
    match len {
        Some(n) if exists && n > 0 => Some(path),
        _ => None,
    }
}

/// The entry for a file that was given to `ebook-meta`. `output` is what that
/// came to, if it did come to an end, and `cover` the path of the cover that it
/// wrote.
pub fn extract_metadata_external(output: Option<ToolOutput>, cover: Option<String>) -> (r:
    BookEntry)
    ensures
        r@ == tool_entry(output, opt_text(cover)),
{
    let mut entry = match output {
        Some(out) => {
            if out.success {
                let text = from_utf8_lossy(&out.stdout);
                told_by_tool(text.as_str())
            } else {
                BookEntry::default()
            }
        },
        None => placeholder("ebook-meta timed out"),
    };
    entry.cover = cover;
    entry
}

/// What came of waiting for the parser of EPUB files.
pub enum Received {
    /// It has finished, with an entry or without one.
    Entry(Option<BookEntry>),
    /// It has not finished in time.
    Timeout,
    /// It has ended without a word.
    Disconnected,
}

/// What the parser of EPUB files came to.
pub open spec fn epub_result(received: Received) -> Result<Option<BookEntry>, ()> {
    if received is Timeout {
        Err(())
    } else if received is Entry {
        Ok(received->Entry_0)
    } else {
        Ok(None)
    }
}

/// What the parser of EPUB files came to: an entry, or none where it failed, or
/// an error where it did not finish.
pub fn extract_metadata_rbook_with_timeout(received: Received) -> (r: Result<
    Option<BookEntry>,
    (),
>)
    ensures
        r == (match received {
            Received::Entry(e) => Ok(e),
            Received::Timeout => Err(()),
            Received::Disconnected => Ok(None),
        }),
        r == epub_result(received),
{
    match received {
        Received::Entry(e) => Ok(e),
        Received::Timeout => Err(()),
        Received::Disconnected => Ok(None),
    }
}

/// How far the reading of a file has come.
pub enum ParseEvent {
    /// Nothing was tried yet.
    Start,
    /// The parser of EPUB files was tried.
    Epub(Result<Option<BookEntry>, ()>),
    /// `ebook-meta` was tried.
    Tool(BookEntry),
}

/// What to do next to read a file.
pub enum ParseStep {
    /// Try the parser of EPUB files.
    TryEpub,
    /// Try `ebook-meta`.
    RunTool,
    /// This is the entry.
    Finished(BookEntry),
}

/// What to do next to read a file, as the contracts see it.
pub enum ParseStepView {
    TryEpub,
    RunTool,
    Finished(BookView),
}

impl View for ParseStep {
    type V = ParseStepView;

    open spec fn view(&self) -> ParseStepView {
        match *self {
            ParseStep::TryEpub => ParseStepView::TryEpub,
            ParseStep::RunTool => ParseStepView::RunTool,
            ParseStep::Finished(e) => ParseStepView::Finished(e@),
        }
    }
}

/// What to do next to read the file at `file`: an EPUB file is given to its own
/// parser first, and every file that this did not read or hang on to
/// `ebook-meta`.
pub open spec fn parse_step(file: Text, event: ParseEvent) -> ParseStepView {
    match event {
        ParseEvent::Start => if epub_path(file) {
            ParseStepView::TryEpub
        } else {
            ParseStepView::RunTool
        },
        ParseEvent::Epub(result) => match result {
            Ok(Some(e)) => ParseStepView::Finished(e@),
            Ok(None) => ParseStepView::RunTool,
            Err(_) => ParseStepView::Finished(placeholder_entry("rbook timed out"@)),
        },
        ParseEvent::Tool(e) => ParseStepView::Finished(e@),
    }
}

/// What to do next to read the file at `file`. EPUB files go to their own
/// parser, all others to `ebook-meta`, which also takes over where that parser
/// fails; where it hangs the file is noted and left alone, so that it does not
/// hang twice.
pub fn extract_metadata(file: &str, event: ParseEvent) -> (r: ParseStep)
    ensures
        match event {
            ParseEvent::Start => if epub_path(file@) {
                r is TryEpub
            } else {
                r is RunTool
            },
            ParseEvent::Epub(Ok(Some(e))) => r == ParseStep::Finished(e),
            ParseEvent::Epub(Ok(None)) => r is RunTool,
            ParseEvent::Epub(Err(_)) => r is Finished && r->Finished_0@ == placeholder_entry(
                "rbook timed out"@,
            ),
            ParseEvent::Tool(e) => r == ParseStep::Finished(e),
        },
        r@ == parse_step(file@, event),
{
    match event {
        ParseEvent::Start => {
            if is_epub(file) {
                ParseStep::TryEpub
            } else {
                ParseStep::RunTool
            }
        },
        ParseEvent::Epub(Ok(Some(e))) => ParseStep::Finished(e),
        ParseEvent::Epub(Ok(None)) => ParseStep::RunTool,
        ParseEvent::Epub(Err(_)) => ParseStep::Finished(placeholder("rbook timed out")),
        ParseEvent::Tool(e) => ParseStep::Finished(e),
    }
}

} // verus!
