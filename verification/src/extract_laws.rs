//! What the entry of a book holds, said by what its parser told.

use crate::book::{ebook_meta, opt_text, BookEntry, ReadMeta};
use crate::extract::{
    child_step, cover_bytes, cover_written, epub_entry, epub_result, parse_step,
    placeholder_entry, told_entry, tool_entry, utf8_lossy, ChildPoll, ChildStep, EpubMetadata,
    ParseEvent, ParseStepView, Received, ToolOutput, PARSE_TIMEOUT_SECS,
};
use crate::path::epub_path;
use crate::text::{joined, texts, Text};
use vstd::prelude::*;

verus! {

/// The entry of an EPUB file has its whole title, all of its creators with an
/// ampersand between them for the author, and the cover that was written.
pub proof fn law_epub_tells_title_and_author(m: EpubMetadata, cover: Option<Text>)
    ensures
        opt_text(m.title) matches Some(t) ==> epub_entry(m, cover).title == t,
        m.title is None ==> epub_entry(m, cover).title.len() == 0,
        epub_entry(m, cover).author == joined(texts(m.creators@), seq![' ', '&', ' ']),
        epub_entry(m, cover).cover == cover,
        epub_entry(m, cover).path.len() == 0 && epub_entry(m, cover).search_text.len() == 0
            && epub_entry(m, cover).size == 0 && epub_entry(m, cover).mtime == 0,
{
    reveal_strlit(" & ");
    assert(" & "@ =~= seq![' ', '&', ' ']);
}

proof fn lemma_names()
    ensures
        "Title"@.len() == 5 && "Title"@[0] == 'T' && "Title"@[1] == 'i',
        "Author(s)"@.len() == 9,
        "Publisher"@.len() == 9 && "Publisher"@[0] == 'P',
        "Author(s)"@[0] == 'A',
        "Languages"@.len() == 9 && "Languages"@[0] == 'L',
        "Comments"@.len() == 8,
        "Identifiers"@.len() == 11,
        "Tags"@.len() == 4,
{
    reveal_strlit("Title");
    reveal_strlit("Author(s)");
    reveal_strlit("Publisher");
    reveal_strlit("Languages");
    reveal_strlit("Comments");
    reveal_strlit("Identifiers");
    reveal_strlit("Tags");
}

/// The named values of an EPUB file are its title and its author where these
/// are not empty, its publishers and its tags where there are any, each with a
/// comma between them, and its language, description and identifier where it
/// has them, each under its name.
pub proof fn law_epub_tells_its_named_values(m: EpubMetadata, cover: Option<Text>)
    ensures
        ({
            let map = epub_entry(m, cover).metadata;
            let title = epub_entry(m, cover).title;
            let author = epub_entry(m, cover).author;
            let comma = seq![',', ' '];
            &&& map.contains_key("Title"@) <==> title.len() > 0
            &&& title.len() > 0 ==> map["Title"@] == title
            &&& map.contains_key("Author(s)"@) <==> author.len() > 0
            &&& author.len() > 0 ==> map["Author(s)"@] == author
            &&& map.contains_key("Publisher"@) <==> m.publishers@.len() > 0
            &&& m.publishers@.len() > 0 ==> map["Publisher"@] == joined(
                texts(m.publishers@),
                comma,
            )
            &&& map.contains_key("Tags"@) <==> m.tags@.len() > 0
            &&& m.tags@.len() > 0 ==> map["Tags"@] == joined(texts(m.tags@), comma)
            &&& map.contains_key("Languages"@) <==> m.language is Some
            &&& m.language is Some ==> map["Languages"@] == m.language->0@
            &&& map.contains_key("Comments"@) <==> m.description is Some
            &&& m.description is Some ==> map["Comments"@] == m.description->0@
            &&& map.contains_key("Identifiers"@) <==> m.identifier is Some
            &&& m.identifier is Some ==> map["Identifiers"@] == m.identifier->0@
        }),
        forall|k: Text| #[trigger]
            epub_entry(m, cover).metadata.contains_key(k) ==> k == "Title"@ || k == "Author(s)"@
                || k == "Publisher"@ || k == "Tags"@ || k == "Languages"@ || k == "Comments"@ || k
                == "Identifiers"@,
{
    lemma_names();
    reveal_strlit(", ");
    assert(", "@ =~= seq![',', ' ']);
    assert(texts(m.publishers@).len() == m.publishers@.len());
    assert(texts(m.tags@).len() == m.tags@.len());
}

/// The entry of a file that `ebook-meta` told of has what it told, and the
/// cover that it wrote.
pub proof fn law_tool_tells_the_entry(out: ToolOutput, cover: Option<Text>)
    requires
        out.success,
    ensures
        tool_entry(Some(out), cover).title == ebook_meta(utf8_lossy(out.stdout@)).title,
        tool_entry(Some(out), cover).author == ebook_meta(utf8_lossy(out.stdout@)).author,
        tool_entry(Some(out), cover).metadata == ebook_meta(utf8_lossy(out.stdout@)).map,
        tool_entry(Some(out), cover).cover == cover,
{
}

/// What was told is all that an entry made of it holds.
pub proof fn law_told_is_the_entry(told: ReadMeta)
    ensures
        told_entry(told).title == told.title,
        told_entry(told).author == told.author,
        told_entry(told).metadata == told.map,
        told_entry(told).cover is None,
        told_entry(told).path.len() == 0 && told_entry(told).search_text.len() == 0
            && told_entry(told).size == 0 && told_entry(told).mtime == 0,
{
}

/// Of a file with which `ebook-meta` failed nothing is known but the cover; of
/// one with which it did not come to an end, that this is so.
pub proof fn law_failing_tool_tells_nothing(output: Option<ToolOutput>, cover: Option<Text>)
    requires
        output matches Some(out) ==> !out.success,
    ensures
        tool_entry(output, cover).title.len() == 0,
        tool_entry(output, cover).author.len() == 0,
        tool_entry(output, cover).cover == cover,
        output is Some ==> tool_entry(output, cover).metadata == Map::<Text, Text>::empty(),
        output is None ==> tool_entry(output, cover).metadata == Map::<Text, Text>::empty().insert(
            "_indexer_status"@,
            "ebook-meta timed out"@,
        ),
{
}

/// A placeholder tells why the file was not read, and nothing else.
pub proof fn law_placeholder_tells_why(status: Text)
    ensures
        placeholder_entry(status).metadata == Map::<Text, Text>::empty().insert(
            "_indexer_status"@,
            status,
        ),
        placeholder_entry(status).title.len() == 0,
        placeholder_entry(status).author.len() == 0,
        placeholder_entry(status).cover is None,
{
}

/// A program is waited for exactly as long as it runs and its time is not over;
/// what it wrote is collected exactly if it has ended.
pub proof fn law_program_is_ended_when_its_time_is_over(
    polled: ChildPoll,
    elapsed: int,
    timeout: int,
)
    ensures
        child_step(polled, elapsed, timeout) is Collect <==> polled is Exited,
        child_step(polled, elapsed, timeout) is Wait <==> polled is Running && elapsed < timeout,
        child_step(polled, elapsed, timeout) is Wait ==> child_step(polled, elapsed, timeout)
            == ChildStep::Wait(100),
        PARSE_TIMEOUT_SECS == 60,
{
}

/// The first parser of a file goes by its extension, and whatever it reads is
/// the entry.
pub proof fn law_parser_goes_by_the_extension(file: Text, e: BookEntry)
    ensures
        parse_step(file, ParseEvent::Start) is TryEpub <==> epub_path(file),
        parse_step(file, ParseEvent::Start) is RunTool <==> !epub_path(file),
        parse_step(file, ParseEvent::Epub(Ok(Some(e)))) == ParseStepView::Finished(e@),
        parse_step(file, ParseEvent::Tool(e)) == ParseStepView::Finished(e@),
{
}

/// A file on which the parser of EPUB files failed goes to `ebook-meta`, and one
/// on which it hung does not: a placeholder stands for it.
pub proof fn law_hung_file_is_left_alone(file: Text)
    ensures
        parse_step(file, ParseEvent::Epub(Ok(None))) is RunTool,
        parse_step(file, ParseEvent::Epub(Err(()))) is Finished,
        parse_step(file, ParseEvent::Epub(Err(())))->Finished_0.metadata == Map::<
            Text,
            Text,
        >::empty().insert("_indexer_status"@, "rbook timed out"@),
        parse_step(file, ParseEvent::Epub(Err(())))->Finished_0.title.len() == 0,
        parse_step(file, ParseEvent::Epub(Err(())))->Finished_0.cover is None,
{
}

/// What the parser of EPUB files gave is taken as it is; a parser that ended
/// without a word has failed, and one that did not end has hung.
pub proof fn law_parser_result_is_taken(e: Option<BookEntry>)
    ensures
        epub_result(Received::Entry(e)) == Ok::<Option<BookEntry>, ()>(e),
        epub_result(Received::Disconnected) == Ok::<Option<BookEntry>, ()>(None),
        epub_result(Received::Timeout) is Err,
{
}

/// A cover is written exactly if it has bytes, and then all of them; and it
/// counts as written by the tool exactly if its file is there with something in
/// it.
pub proof fn law_cover_has_something_in_it(
    bytes: Option<Seq<u8>>,
    path: Text,
    exists: bool,
    len: Option<u64>,
)
    ensures
        cover_bytes(bytes) is Some <==> bytes is Some && bytes->0.len() > 0,
        cover_bytes(bytes) is Some ==> cover_bytes(bytes) == bytes,
        cover_written(path, exists, len) is Some <==> exists && len is Some && len->0 > 0,
        cover_written(path, exists, len) is Some ==> cover_written(path, exists, len) == Some(path),
{
}

} // verus!
