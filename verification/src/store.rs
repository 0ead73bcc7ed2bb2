//! The form in which a book is stored: one row of the table of books, and the
//! file name that the full-text index gets.

use crate::book::{
    book_views, make_searchable, opt_text, search_text_of, searchable, spaced_file_name, spaced_name, BookEntry,
    BookView,
};
use crate::json::{json_object, json_pairs, metadata_read};
use crate::metadata::{entered, lemma_entered_sorted, sorted_pairs, Metadata};
use crate::text::Text;
use vstd::prelude::*;

verus! {

/// A row of the table of books.
pub struct BookRow {
    pub path: String,
    pub size: i64,
    pub mtime: i64,
    pub title: String,
    pub author: String,
    pub cover: Option<String>,
    /// The metadata as a JSON object.
    pub metadata: String,
}

/// A row as the contracts see it.
#[verifier::ext_equal]
pub struct RowView {
    pub path: Text,
    pub size: i64,
    pub mtime: i64,
    pub title: Text,
    pub author: Text,
    pub cover: Option<Text>,
    pub metadata: Text,
}

impl View for BookRow {
    type V = RowView;

    open spec fn view(&self) -> RowView {
        RowView {
            path: self.path@,
            size: self.size,
            mtime: self.mtime,
            title: self.title@,
            author: self.author@,
            cover: opt_text(self.cover),
            metadata: self.metadata@,
        }
    }
}

/// The row that a book is stored as. Sizes and times keep their bits.
pub open spec fn row_of(b: BookView) -> RowView {
    RowView {
        path: b.path,
        size: b.size as i64,
        mtime: b.mtime as i64,
        title: b.title,
        author: b.author,
        cover: b.cover,
        metadata: json_object(sorted_pairs(b.metadata)),
    }
}

/// The book that a row stands for, with this metadata.
pub open spec fn row_with(row: RowView, metadata: Map<Text, Text>) -> BookView {
    searchable(
        BookView {
            path: row.path,
            size: row.size as u64,
            mtime: row.mtime as u64,
            title: row.title,
            author: row.author,
            metadata,
            cover: row.cover,
            search_text: Seq::empty(),
        },
    )
}

/// The book that is loaded from a row. Where the metadata cannot be read there
/// is none.
pub open spec fn loaded(row: RowView) -> BookView {
    row_with(row, metadata_read(json_pairs(row.metadata)))
}

/// What is written for a book: the row, and the file name that the full-text
/// index gets along with the title and the author.
pub struct StoredBook {
    pub row: BookRow,
    pub filename: String,
}

/// What to write for a book. The metadata can be read back from the row.
pub fn upsert_book(b: &BookEntry) -> (r: StoredBook)
    ensures
        r.row@ == row_of(b@),
        r.filename@ == spaced_name(b@.path),
        json_pairs(r.row@.metadata) == Some(sorted_pairs(b@.metadata)),
{
    let row = BookRow {
        path: b.path.clone(),
        size: b.size as i64,
        mtime: b.mtime as i64,
        title: b.title.clone(),
        author: b.author.clone(),
        cover: match &b.cover {
            Some(c) => Some(c.clone()),
            None => None,
        },
        metadata: b.metadata.to_json(),
    };
    StoredBook { row, filename: spaced_file_name(b.path.as_str()) }
}

/// The book that a row stands for, with this metadata.
pub fn entry_with_metadata(row: BookRow, metadata: Metadata) -> (r: BookEntry)
    ensures
        r@ == row_with(row@, metadata@),
{
    let mut b = BookEntry {
        path: row.path,
        size: row.size as u64,
        mtime: row.mtime as u64,
        title: row.title,
        author: row.author,
        metadata,
        cover: row.cover,
        search_text: String::new(),
    };
    assert(b@.search_text =~= Seq::<char>::empty());
    make_searchable(&mut b);
    b
}

/// The book that is loaded from a row.
pub fn entry_from_row(row: BookRow) -> (r: BookEntry)
    ensures
        r@ == loaded(row@),
{
    let metadata = Metadata::from_json(row.metadata.as_str());
    entry_with_metadata(row, metadata)
}

/// The books that are loaded from the rows, in their order. Rows that could not
/// be read are left out.
pub open spec fn loaded_all(rows: Seq<Option<RowView>>) -> Seq<BookView>
    decreases rows.len(),
{
    if rows.len() == 0 {
        Seq::empty()
    } else {
        match rows.last() {
            Some(row) => loaded_all(rows.drop_last()).push(loaded(row)),
            None => loaded_all(rows.drop_last()),
        }
    }
}

/// The rows that were read.
pub open spec fn opt_rows(rows: Seq<Option<BookRow>>) -> Seq<Option<RowView>> {
    rows.map_values(
        |r: Option<BookRow>|
            match r {
                Some(row) => Some(row@),
                None => None,
            },
    )
}

/// The books that are loaded from the rows, in their order. Rows that could not
/// be read are left out.
pub fn load_all_books(rows: Vec<Option<BookRow>>) -> (r: Vec<BookEntry>)
    ensures
        book_views(r@) == loaded_all(opt_rows(rows@)),
{
    let mut books: Vec<BookEntry> = Vec::new();
    let ghost views = opt_rows(rows@);
    assert(views.take(0) =~= Seq::empty());
    assert(book_views(books@) =~= Seq::empty());
    for row in it: rows
        invariant
            it.seq() == rows@,
            views == opt_rows(rows@),
            book_views(books@) == loaded_all(views.take(it.index() as int)),
    {
        let ghost before = books@;
        proof {
            let next = views.take(it.index() + 1);
            assert(next.drop_last() =~= views.take(it.index() as int));
            assert(next.last() == views[it.index() as int]);
        }
        if let Some(r) = row {
            let b = entry_from_row(r);
            books.push(b);
            assert(book_views(books@) =~= book_views(before).push(b@));
        }
    }
    assert(views.take(views.len() as int) =~= views);
    books
}

/// Storing a number and loading it again gives the same number.
pub proof fn law_stored_number_is_loaded(n: u64)
    ensures
        (n as i64) as u64 == n,
{
    assert((n as i64) as u64 == n) by (bit_vector);
}

/// A book that was stored is loaded as it was, with its search text as it
/// should be. The metadata comes back as `upsert_book` says of what it writes.
pub proof fn law_stored_book_is_loaded(b: BookView, row: RowView)
    requires
        b.metadata.dom().finite(),
        row == row_of(b),
        json_pairs(row.metadata) == Some(sorted_pairs(b.metadata)),
    ensures
        loaded(row) == searchable(b),
{
    law_stored_number_is_loaded(b.size);
    law_stored_number_is_loaded(b.mtime);
    lemma_entered_sorted(b.metadata);
}

/// A row has the path, the title, the author and the cover of its book, and its
/// size and time of change.
pub proof fn law_row_holds_the_book(b: BookView)
    ensures
        row_of(b).path == b.path,
        row_of(b).title == b.title,
        row_of(b).author == b.author,
        row_of(b).cover == b.cover,
        row_of(b).size as u64 == b.size,
        row_of(b).mtime as u64 == b.mtime,
{
    law_stored_number_is_loaded(b.size);
    law_stored_number_is_loaded(b.mtime);
}

/// A book that is loaded has the path, the title, the author and the cover of
/// its row, its size and its time of change, the metadata given, and the search
/// text that goes with it.
pub proof fn law_loaded_book_holds_the_row(row: RowView, metadata: Map<Text, Text>)
    ensures
        row_with(row, metadata).path == row.path,
        row_with(row, metadata).title == row.title,
        row_with(row, metadata).author == row.author,
        row_with(row, metadata).cover == row.cover,
        row_with(row, metadata).size == row.size as u64,
        row_with(row, metadata).mtime == row.mtime as u64,
        row_with(row, metadata).metadata == metadata,
        row_with(row, metadata).search_text == search_text_of(row_with(row, metadata)),
        json_pairs(row.metadata) matches Some(pairs) ==> loaded(row) == row_with(
            row,
            entered(pairs),
        ),
        json_pairs(row.metadata) is None ==> loaded(row) == row_with(row, Map::empty()),
{
}

/// The number of rows that could be read.
pub open spec fn readable(rows: Seq<Option<RowView>>) -> nat
    decreases rows.len(),
{
    if rows.len() == 0 {
        0
    } else {
        readable(rows.drop_last()) + (if rows.last() is Some {
            1nat
        } else {
            0nat
        })
    }
}

/// Every row that could be read is loaded, at the place that the rows before it
/// leave it, and nothing else is.
pub proof fn law_every_row_is_loaded(rows: Seq<Option<RowView>>)
    ensures
        loaded_all(rows).len() == readable(rows),
        forall|i: int|
            0 <= i < rows.len() && (#[trigger] rows[i]) is Some ==> 0 <= readable(rows.take(i))
                < loaded_all(rows).len() && loaded_all(rows)[readable(rows.take(i)) as int]
                == loaded(rows[i]->0),
    decreases rows.len(),
{
    if rows.len() > 0 {
        let init = rows.drop_last();
        law_every_row_is_loaded(init);
        assert forall|i: int| 0 <= i < rows.len() && (#[trigger] rows[i]) is Some implies 0
            <= readable(rows.take(i)) < loaded_all(rows).len() && loaded_all(rows)[readable(
            rows.take(i),
        ) as int] == loaded(rows[i]->0) by {
            if i < init.len() {
                assert(init[i] == rows[i]);
                assert(init.take(i) =~= rows.take(i));
            } else {
                assert(rows.take(i) =~= init);
            }
        }
    }
}

/// Two lists of rows are loaded one after the other.
pub proof fn law_rows_are_loaded_in_turn(a: Seq<Option<RowView>>, b: Seq<Option<RowView>>)
    ensures
        loaded_all(a + b) == loaded_all(a) + loaded_all(b),
    decreases b.len(),
{
    if b.len() == 0 {
        assert(a + b =~= a);
        assert(loaded_all(a) + loaded_all(b) =~= loaded_all(a));
    } else {
        law_rows_are_loaded_in_turn(a, b.drop_last());
        assert((a + b).drop_last() =~= a + b.drop_last());
        assert(loaded_all(a + b) =~= loaded_all(a) + loaded_all(b));
    }
}

} // verus!
